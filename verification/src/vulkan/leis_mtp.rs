//! A proposal, run with the meaning of each kernel, is the prediction head.

use vstd::prelude::*;

use crate::vulkan::estado::{Buf, Modo, MtpBufs, QWeight, ResidentState};
use crate::vulkan::gravacao::{
    cmds_mtp_ate, cmds_op_mtp, proposta_gravada, se_barreira, CmdM, Hidden, Parte, Passo,
};
use crate::vulkan::leis_rede::rodavel;
use crate::vulkan::leis_sentido::{
    cabe_nos_nucleos, copiado, faz, lemma_cmds_atencao, lemma_despacha, lemma_grupos,
    lemma_op_atencao, lemma_op_mv, lemma_op_qk_norm, lemma_op_quantiza, lemma_op_rope,
    lemma_op_saida, lemma_op_swiglu, lemma_roda_concat, lemma_roda_um, tem_nucleo,
};
use crate::vulkan::ops::OpM;
use crate::vulkan::pipelines::Compilacao;
use crate::vulkan::plano::{
    grupos_norma, op_atencao, op_mv, op_qk_norm, op_quantiza, op_rope, op_saida_atencao, op_swiglu,
};
use crate::vulkan::plano_mtp::{
    mtp_atencao, mtp_fim, mtp_mixer, mtp_mv, mtp_norma, mtp_prologo, mtp_qk, mtp_qks, mtp_quantiza,
    mtp_rope, mtp_saida, mtp_swiglu, plano_mtp,
};
use crate::vulkan::rede::{
    atencao_da_cabeca, ffn, juncao, linear, normada, numerados, numerados_mtp, oculto,
    proposta_roda, so_muda,
};
use crate::vulkan::sentido::{
    escalas, escreve, inteiros, le, lemma_lido, lido, norma, norma_cabecas, parciais, porta,
    quantizado, roda, soma, swiglu, trocado, Termo,
};

verus! {

// ---------------------------------------------------------------------------
// Commands and operations
// ---------------------------------------------------------------------------

/// What an operation of the prediction head does.
pub open spec fn faz_mtp(
    c: Compilacao,
    o: OpM,
    st: ResidentState,
    mb: MtpBufs,
    q: Passo,
    h: Hidden,
    forcado: u32,
    m: Map<u64, Termo>,
) -> Map<u64, Termo> {
    let f = st.cfg;
    match o {
        OpM::Dispatch(_) => faz(c, o, st, q, forcado, m),
        OpM::Copia { .. } => faz(c, o, st, q, forcado, m),
        OpM::Atencao { .. } => faz(c, o, st, q, forcado, m),
        OpM::CopiaHidden => {
            let size = (f.n_embd * 4) as u64;
            match h {
                Hidden::Cabeca => copiado(mb.b_x.buffer, 0, mb.b_h.buffer, 0, size, m),
                Hidden::Tronco(j) => copiado(
                    st.a.b_x.buffer,
                    (j * f.n_embd * 4) as u64,
                    mb.b_h.buffer,
                    0,
                    size,
                    m,
                ),
            }
        },
        OpM::KvAppendMtp => {
            let off = (q.pos * f.kv_dim * 4) as u64;
            let size = (f.kv_dim * 4) as u64;
            copiado(
                st.a.b_v.buffer,
                0,
                mb.vcache.buffer,
                off,
                size,
                copiado(st.a.b_k.buffer, 0, mb.kcache.buffer, off, size, m),
            )
        },
        _ => m,
    }
}

pub open spec fn faz_mtp_todas(
    c: Compilacao,
    s: Seq<OpM>,
    st: ResidentState,
    mb: MtpBufs,
    q: Passo,
    h: Hidden,
    forcado: u32,
    m: Map<u64, Termo>,
) -> Map<u64, Termo>
    decreases s.len(),
{
    if s.len() == 0 {
        m
    } else {
        faz_mtp(
            c,
            s.last(),
            st,
            mb,
            q,
            h,
            forcado,
            faz_mtp_todas(c, s.drop_last(), st, mb, q, h, forcado, m),
        )
    }
}

proof fn lemma_concat(
    c: Compilacao,
    s: Seq<OpM>,
    t: Seq<OpM>,
    st: ResidentState,
    mb: MtpBufs,
    q: Passo,
    h: Hidden,
    forcado: u32,
    m: Map<u64, Termo>,
)
    ensures
        faz_mtp_todas(c, s + t, st, mb, q, h, forcado, m) == faz_mtp_todas(
            c,
            t,
            st,
            mb,
            q,
            h,
            forcado,
            faz_mtp_todas(c, s, st, mb, q, h, forcado, m),
        ),
    decreases t.len(),
{
    if t.len() == 0 {
        assert(s + t =~= s);
    } else {
        assert((s + t).drop_last() =~= s + t.drop_last());
        lemma_concat(c, s, t.drop_last(), st, mb, q, h, forcado, m);
    }
}

proof fn lemma_push(
    c: Compilacao,
    s: Seq<OpM>,
    o: OpM,
    st: ResidentState,
    mb: MtpBufs,
    q: Passo,
    h: Hidden,
    forcado: u32,
    m: Map<u64, Termo>,
)
    ensures
        faz_mtp_todas(c, s.push(o), st, mb, q, h, forcado, m) == faz_mtp(
            c,
            o,
            st,
            mb,
            q,
            h,
            forcado,
            faz_mtp_todas(c, s, st, mb, q, h, forcado, m),
        ),
{
    assert(s.push(o).drop_last() =~= s);
}

proof fn lemma_cmds(
    c: Compilacao,
    p: Seq<OpM>,
    i: int,
    st: ResidentState,
    mb: MtpBufs,
    q: Passo,
    h: Hidden,
    forcado: u32,
    m: Map<u64, Termo>,
)
    requires
        0 <= i < p.len() <= usize::MAX,
    ensures
        roda(c, p, cmds_op_mtp(i, p[i], st, mb, q, h, forcado), m) == faz_mtp(
            c,
            p[i],
            st,
            mb,
            q,
            h,
            forcado,
            m,
        ),
{
    let s = cmds_op_mtp(i, p[i], st, mb, q, h, forcado);
    match p[i] {
        OpM::Atencao { .. } => {
            lemma_cmds_atencao(c, p, i, st, q, forcado, m);
        },
        OpM::Dispatch(d) => {
            lemma_roda_um(c, p, s[0], m);
            lemma_despacha(c, p, i, Parte::Unica, d, st.cfg, q, 1, 1, m);
        },
        OpM::KvAppendMtp => {
            assert(s =~= seq![s[0]] + seq![s[1]]);
            lemma_roda_concat(c, p, seq![s[0]], seq![s[1]], m);
            lemma_roda_um(c, p, s[0], m);
            lemma_roda_um(c, p, s[1], roda(c, p, seq![s[0]], m));
        },
        OpM::CopiaHidden => {
            lemma_roda_um(c, p, s[0], m);
        },
        OpM::Copia { .. } => {
            lemma_roda_um(c, p, s[0], m);
        },
        _ => {},
    }
}

proof fn lemma_cmds_ate(
    c: Compilacao,
    p: Seq<OpM>,
    b: Seq<bool>,
    st: ResidentState,
    mb: MtpBufs,
    q: Passo,
    h: Hidden,
    forcado: u32,
    n: int,
    m: Map<u64, Termo>,
)
    requires
        0 <= n <= p.len() <= usize::MAX,
    ensures
        roda(c, p, cmds_mtp_ate(p, b, st, mb, q, h, forcado, n), m) == faz_mtp_todas(
            c,
            p.take(n),
            st,
            mb,
            q,
            h,
            forcado,
            m,
        ),
    decreases n,
{
    if n > 0 {
        let i = n - 1;
        lemma_cmds_ate(c, p, b, st, mb, q, h, forcado, i, m);
        let tem = if i < b.len() {
            b[i]
        } else {
            true
        };
        let r = cmds_mtp_ate(p, b, st, mb, q, h, forcado, i);
        let e = se_barreira(tem);
        let o = cmds_op_mtp(i, p[i], st, mb, q, h, forcado);
        assert(cmds_mtp_ate(p, b, st, mb, q, h, forcado, n) == r + e + o);
        lemma_roda_concat(c, p, r + e, o, m);
        lemma_roda_concat(c, p, r, e, m);
        let m1 = roda(c, p, r, m);
        if tem {
            lemma_roda_um(c, p, CmdM::Barreira, m1);
        }
        lemma_cmds(c, p, i, st, mb, q, h, forcado, m1);
        assert(p.take(n).drop_last() =~= p.take(i));
        assert(p.take(n).last() == p[i]);
    } else {
        assert(p.take(0) =~= Seq::<OpM>::empty());
    }
}

// ---------------------------------------------------------------------------
// Single operations
// ---------------------------------------------------------------------------

/// That a proposal can be run.
pub open spec fn proposta_rodavel(
    st: ResidentState,
    c: Compilacao,
    mb: MtpBufs,
    q: Passo,
    h: Hidden,
) -> bool {
    let f = st.cfg;
    &&& rodavel(st, c, Modo::Decode, q)
    &&& st.mtp == Some(mb)
    &&& f.n_embd * 2 * 4 <= u32::MAX
    &&& f.ctx * f.kv_dim * 4 <= u32::MAX
    &&& h matches Hidden::Tronco(j) ==> j * f.n_embd * 4 <= u32::MAX
    &&& tem_nucleo(mb.eh_proj.ty)
    &&& tem_nucleo(mb.attn_q.ty)
    &&& tem_nucleo(mb.attn_k.ty)
    &&& tem_nucleo(mb.attn_v.ty)
    &&& tem_nucleo(mb.attn_output.ty)
    &&& tem_nucleo(mb.ffn_gate.ty)
    &&& tem_nucleo(mb.ffn_up.ty)
    &&& tem_nucleo(mb.ffn_down.ty)
}

/// A product with the common quantized activation.
proof fn lemma_mv(
    c: Compilacao,
    st: ResidentState,
    mb: MtpBufs,
    q: Passo,
    h: Hidden,
    forcado: u32,
    w: QWeight,
    dst: Buf,
    x: Termo,
    n_in: int,
    n_out: int,
    m0: Map<u64, Termo>,
    m: Map<u64, Termo>,
)
    requires
        proposta_rodavel(st, c, mb, q, h),
        0 <= n_in <= u32::MAX,
        0 <= n_out * 4 <= u32::MAX,
        tem_nucleo(w.ty),
        m[w.gpu.buffer] == m0[w.gpu.buffer],
        le(m, st.a.b_xq.todo()) == inteiros(x, n_in),
        le(m, st.a.b_xd.todo()) == escalas(x, n_in),
    ensures
        faz_mtp(c, mtp_mv(st, c.k, w, dst, n_in, n_out), st, mb, q, h, forcado, m) == escreve(
            m,
            dst.ate(n_out),
            linear(m0, w, x, n_in, n_out, 1),
        ),
{
    reveal(mtp_mv);
    reveal(op_mv);
    let a = mtp_mv(st, c.k, w, dst, n_in, n_out);
    let b = op_mv(c.k, Modo::Decode, w, dst, st.a.b_xq, st.a.b_xd, 1, n_in, n_out);
    assert(a == b);
    lemma_op_mv(
        c,
        Modo::Decode,
        st,
        q,
        forcado,
        w,
        dst,
        st.a.b_xq,
        st.a.b_xd,
        1,
        n_in,
        n_out,
        m,
    );
}

/// A norm: of `x`, to which `r` is added first if `tem` is set, into `out`.
pub open spec fn normado_em(
    st: ResidentState,
    x: Buf,
    r: Buf,
    w: Buf,
    tem: bool,
    out: Buf,
    i: int,
    m: Map<u64, Termo>,
) -> Map<u64, Termo> {
    let f = st.cfg;
    let n = f.n_embd as int;
    let y = le(m, x.ate(n));
    let s = if tem {
        soma(y, le(m, r.ate(n)), n)
    } else {
        y
    };
    let h = norma(s, le(m, w.todo()), n, 1, f.rms_eps as int);
    let m1 = escreve(
        escreve(m, x.ate(n), s),
        st.a.b_parciais.todo(),
        parciais(s, n, 1, grupos_norma(f) as int),
    );
    quantizado(escreve(m1, out.em(i, n), h), st.a.b_xq.todo(), st.a.b_xd.todo(), h, n)
}

proof fn lemma_norma(
    c: Compilacao,
    st: ResidentState,
    mb: MtpBufs,
    q: Passo,
    hid: Hidden,
    forcado: u32,
    x: Buf,
    r: Buf,
    w: Buf,
    tem: bool,
    out: Buf,
    i: int,
    m: Map<u64, Termo>,
)
    requires
        proposta_rodavel(st, c, mb, q, hid),
        x.buffer != st.a.b_parciais.buffer,
        w.buffer != x.buffer,
        w.buffer != st.a.b_parciais.buffer,
    ensures
        faz_mtp_todas(c, mtp_norma(st, x, r, w, tem, out, i), st, mb, q, hid, forcado, m)
            == normado_em(st, x, r, w, tem, out, i, m),
{
    broadcast use lemma_lido;

    reveal(mtp_norma);
    let s = mtp_norma(st, x, r, w, tem, out, i);
    let e = Seq::<OpM>::empty();
    lemma_grupos(st.cfg.n_embd as int);
    assert(s =~= e.push(s[0]).push(s[1]));
    lemma_push(c, e.push(s[0]), s[1], st, mb, q, hid, forcado, m);
    lemma_push(c, e, s[0], st, mb, q, hid, forcado, m);
}

/// The other operations are those of a block of one token.
proof fn lemma_iguais(
    c: Compilacao,
    st: ResidentState,
    mb: MtpBufs,
    q: Passo,
    h: Hidden,
    b: Buf,
    w: Buf,
    n: int,
    cabecas: int,
    passo: int,
)
    requires
        proposta_rodavel(st, c, mb, q, h),
        0 <= n * 4 <= u32::MAX,
        0 <= cabecas <= u32::MAX,
        0 <= passo <= u32::MAX,
    ensures
        mtp_quantiza(st, b, n) == op_quantiza(b, st.a.b_xq, st.a.b_xd, 0, n),
        mtp_qk(st.cfg, b, w, n, cabecas, passo) == op_qk_norm(st.cfg, b, w, n, cabecas, passo),
        mtp_rope(st, b, n, cabecas, passo) == op_rope(st, 1, b, n, cabecas, passo),
        mtp_swiglu(st) == op_swiglu(st, 1),
        mtp_saida(st) == op_saida_atencao(st, 1),
        mtp_atencao(st, mb) == op_atencao(st, 1, mb.kcache, mb.vcache, 0),
        mtp_quantiza(st, b, n) is Dispatch,
        mtp_qk(st.cfg, b, w, n, cabecas, passo) is Dispatch,
        mtp_rope(st, b, n, cabecas, passo) is Dispatch,
        mtp_swiglu(st) is Dispatch,
        mtp_saida(st) is Dispatch,
        mtp_atencao(st, mb) is Atencao,
{
    reveal(mtp_quantiza);
    reveal(mtp_qk);
    reveal(mtp_rope);
    reveal(mtp_swiglu);
    reveal(mtp_saida);
    reveal(mtp_atencao);
    reveal(op_quantiza);
    reveal(op_qk_norm);
    reveal(op_rope);
    reveal(op_swiglu);
    reveal(op_saida_atencao);
    reveal(op_atencao);
    let f = st.cfg;
    assert(f.head_dim * f.n_head >= 0) by (nonlinear_arith);
    assert(cabe_nos_nucleos(st, 1));
    assert(f.n_head * 1 <= u32::MAX);
    assert(mtp_atencao(st, mb)->curto =~= op_atencao(st, 1, mb.kcache, mb.vcache, 0)->curto);
    assert(mtp_atencao(st, mb)->split =~= op_atencao(st, 1, mb.kcache, mb.vcache, 0)->split);
    assert(mtp_atencao(st, mb)->reduce =~= op_atencao(st, 1, mb.kcache, mb.vcache, 0)->reduce);
}

// ---------------------------------------------------------------------------
// The parts of the head
// ---------------------------------------------------------------------------

#[verifier::rlimit(40)]
proof fn lemma_prologo(
    c: Compilacao,
    st: ResidentState,
    mb: MtpBufs,
    q: Passo,
    h: Hidden,
    forcado: u32,
    n: Map<u64, int>,
    m: Map<u64, Termo>,
)
    requires
        proposta_rodavel(st, c, mb, q, h),
        numerados(st, n),
        numerados_mtp(mb, n),
    ensures
        ({
            let r = faz_mtp_todas(c, mtp_prologo(st, c.k, mb), st, mb, q, h, forcado, m);
            &&& le(r, mb.b_x.ate(st.cfg.n_embd as int)) == juncao(st, mb, h, m)
            &&& so_muda(m, r, n, |i: int| i == 6 || i == 18 || i == 19 || 32 <= i <= 35)
        }),
{
    broadcast use lemma_lido;

    let a = st.a;
    let ne = st.cfg.n_embd as int;
    let e = Seq::<OpM>::empty();
    let o1 = OpM::Copia { src: mb.emb_stage.buffer, dst: mb.b_emb.buffer, bytes: (ne * 4) as u64 };
    let o2 = OpM::CopiaHidden;
    let s0 = e.push(o1).push(o2);
    let s1 = mtp_norma(st, mb.b_emb, mb.b_emb, mb.enorm, false, mb.b_eh, 0);
    let s2 = mtp_norma(st, mb.b_h, mb.b_h, mb.hnorm, false, mb.b_eh, ne);
    let o3 = mtp_quantiza(st, mb.b_eh, ne * 2);
    let o4 = mtp_mv(st, c.k, mb.eh_proj, mb.b_x, ne * 2, ne);
    let s3 = s0 + s1 + s2;
    assert(mtp_prologo(st, c.k, mb) =~= s3.push(o3).push(o4));
    lemma_push(c, s3.push(o3), o4, st, mb, q, h, forcado, m);
    lemma_push(c, s3, o3, st, mb, q, h, forcado, m);
    lemma_concat(c, s0 + s1, s2, st, mb, q, h, forcado, m);
    lemma_concat(c, s0, s1, st, mb, q, h, forcado, m);
    lemma_push(c, e.push(o1), o2, st, mb, q, h, forcado, m);
    lemma_push(c, e, o1, st, mb, q, h, forcado, m);
    let m1 = faz_mtp(c, o1, st, mb, q, h, forcado, m);
    let m2 = faz_mtp(c, o2, st, mb, q, h, forcado, m1);
    let emb = lido(m[mb.emb_stage.buffer], 0, ne * 4);
    let hid = oculto(st, mb, h, m);
    if let Hidden::Tronco(j) = h {
        assert(j * ne >= 0) by (nonlinear_arith)
            requires
                ne >= 0,
        ;
    }
    assert(le(m2, mb.b_emb.ate(ne)) == emb);
    assert(le(m2, mb.b_h.ate(ne)) == hid);
    lemma_norma(
        c,
        st,
        mb,
        q,
        h,
        forcado,
        mb.b_emb,
        mb.b_emb,
        mb.enorm,
        false,
        mb.b_eh,
        0,
        m2,
    );
    let m3 = normado_em(st, mb.b_emb, mb.b_emb, mb.enorm, false, mb.b_eh, 0, m2);
    let ne1 = normada(st, m, emb, mb.enorm, 1);
    assert(m3[mb.b_eh.buffer] == trocado(m[mb.b_eh.buffer], 0, ne * 4, ne1));
    assert(le(m3, mb.b_h.ate(ne)) == hid);
    lemma_norma(c, st, mb, q, h, forcado, mb.b_h, mb.b_h, mb.hnorm, false, mb.b_eh, ne, m3);
    let m4 = normado_em(st, mb.b_h, mb.b_h, mb.hnorm, false, mb.b_eh, ne, m3);
    let nh = normada(st, m, hid, mb.hnorm, 1);
    assert(m4[mb.b_eh.buffer] == trocado(m3[mb.b_eh.buffer], ne * 4, ne * 4, nh));
    lemma_iguais(c, st, mb, q, h, mb.b_eh, mb.enorm, ne * 2, 0, 0);
    lemma_op_quantiza(c, st, q, forcado, mb.b_eh, a.b_xq, a.b_xd, 0, ne * 2, m4);
    let m5 = faz_mtp(c, o3, st, mb, q, h, forcado, m4);
    let dois = lido(m4[mb.b_eh.buffer], 0, ne * 2 * 4);
    assert(le(m5, a.b_xq.todo()) == inteiros(dois, ne * 2));
    assert(le(m5, a.b_xd.todo()) == escalas(dois, ne * 2));
    lemma_mv(c, st, mb, q, h, forcado, mb.eh_proj, mb.b_x, dois, ne * 2, ne, m, m5);
}

/// The projections of the head's attention layer.
#[verifier::rlimit(40)]
proof fn lemma_qkv(
    c: Compilacao,
    st: ResidentState,
    mb: MtpBufs,
    q: Passo,
    hid: Hidden,
    forcado: u32,
    n: Map<u64, int>,
    h: Termo,
    m0: Map<u64, Termo>,
    m: Map<u64, Termo>,
)
    requires
        proposta_rodavel(st, c, mb, q, hid),
        numerados(st, n),
        numerados_mtp(mb, n),
        le(m, st.a.b_xq.todo()) == inteiros(h, st.cfg.n_embd as int),
        le(m, st.a.b_xd.todo()) == escalas(h, st.cfg.n_embd as int),
        forall|b: u64| n[b] == 0 ==> #[trigger] m[b] == m0[b],
    ensures
        ({
            let f = st.cfg;
            let ne = f.n_embd as int;
            let kvd = f.kv_dim as int;
            let hd = f.head_dim as int;
            let eps = f.rms_eps as int;
            let q0 = linear(m0, mb.attn_q, h, ne, f.q_out(), 1);
            let k0 = linear(m0, mb.attn_k, h, ne, kvd, 1);
            let (q1, k1) = match (mb.q_norm, mb.k_norm) {
                (Some(a), Some(b)) => (
                    norma_cabecas(q0, le(m0, a.todo()), hd, f.n_head as int, hd * 2, eps),
                    norma_cabecas(k0, le(m0, b.todo()), hd, f.n_head_kv as int, hd, eps),
                ),
                _ => (q0, k0),
            };
            let s = seq![
                mtp_mv(st, c.k, mb.attn_q, st.a.b_q, ne, f.q_out()),
                mtp_mv(st, c.k, mb.attn_k, st.a.b_k, ne, kvd),
                mtp_mv(st, c.k, mb.attn_v, st.a.b_v, ne, kvd),
            ] + mtp_qks(st, mb);
            let r = faz_mtp_todas(c, s, st, mb, q, hid, forcado, m);
            &&& le(r, st.a.b_q.ate(f.q_out())) == q1
            &&& le(r, st.a.b_k.ate(kvd)) == k1
            &&& le(r, st.a.b_v.ate(kvd)) == linear(m0, mb.attn_v, h, ne, kvd, 1)
            &&& so_muda(m, r, n, |i: int| i == 7 || i == 8 || i == 9)
        }),
{
    broadcast use lemma_lido;

    let f = st.cfg;
    let a = st.a;
    let ne = f.n_embd as int;
    let kvd = f.kv_dim as int;
    let qo = f.q_out();
    assert(f.head_dim * f.n_head >= 0) by (nonlinear_arith);
    assert(cabe_nos_nucleos(st, 1));
    assert(qo * 1 * 4 <= u32::MAX && f.kv_dim * 1 * 4 <= u32::MAX);
    assert(f.n_head * 1 <= u32::MAX && f.n_head_kv * 1 <= u32::MAX);
    let e = Seq::<OpM>::empty();
    let o1 = mtp_mv(st, c.k, mb.attn_q, a.b_q, ne, qo);
    let o2 = mtp_mv(st, c.k, mb.attn_k, a.b_k, ne, kvd);
    let o3 = mtp_mv(st, c.k, mb.attn_v, a.b_v, ne, kvd);
    let s0 = e.push(o1).push(o2).push(o3);
    assert(seq![o1, o2, o3] =~= s0);
    let s1 = mtp_qks(st, mb);
    lemma_concat(c, s0, s1, st, mb, q, hid, forcado, m);
    lemma_push(c, e.push(o1).push(o2), o3, st, mb, q, hid, forcado, m);
    lemma_push(c, e.push(o1), o2, st, mb, q, hid, forcado, m);
    lemma_push(c, e, o1, st, mb, q, hid, forcado, m);
    lemma_mv(c, st, mb, q, hid, forcado, mb.attn_q, a.b_q, h, ne, qo, m0, m);
    let m1 = faz_mtp(c, o1, st, mb, q, hid, forcado, m);
    lemma_mv(c, st, mb, q, hid, forcado, mb.attn_k, a.b_k, h, ne, kvd, m0, m1);
    let m2 = faz_mtp(c, o2, st, mb, q, hid, forcado, m1);
    lemma_mv(c, st, mb, q, hid, forcado, mb.attn_v, a.b_v, h, ne, kvd, m0, m2);
    let m3 = faz_mtp(c, o3, st, mb, q, hid, forcado, m2);
    let q0 = linear(m0, mb.attn_q, h, ne, qo, 1);
    let k0 = linear(m0, mb.attn_k, h, ne, kvd, 1);
    assert(faz_mtp_todas(c, s0, st, mb, q, hid, forcado, m) == m3);
    assert(le(m3, a.b_q.ate(qo)) == q0);
    assert(le(m3, a.b_k.ate(kvd)) == k0);
    if let (Some(x), Some(y)) = (mb.q_norm, mb.k_norm) {
        let nh = f.n_head as int;
        let nk = f.n_head_kv as int;
        let hd = f.head_dim as int;
        let n1 = mtp_qk(f, a.b_q, x, qo, nh, hd * 2);
        let n2 = mtp_qk(f, a.b_k, y, kvd, nk, hd);
        lemma_iguais(c, st, mb, q, hid, a.b_q, x, qo, nh, hd * 2);
        lemma_iguais(c, st, mb, q, hid, a.b_k, y, kvd, nk, hd);
        assert(f.head_dim * 2 == hd * 2);
        assert(s1 =~= e.push(n1).push(n2));
        lemma_push(c, e.push(n1), n2, st, mb, q, hid, forcado, m3);
        lemma_push(c, e, n1, st, mb, q, hid, forcado, m3);
        assert(m3[x.buffer] == m[x.buffer] && m[x.buffer] == m0[x.buffer]);
        lemma_op_qk_norm(c, st, q, forcado, a.b_q, x, qo, nh, hd * 2, m3);
        let m4 = faz_mtp(c, n1, st, mb, q, hid, forcado, m3);
        assert(le(m4, a.b_k.ate(kvd)) == k0);
        assert(m4[y.buffer] == m[y.buffer] && m[y.buffer] == m0[y.buffer]);
        lemma_op_qk_norm(c, st, q, forcado, a.b_k, y, kvd, nk, hd, m4);
        let m5 = faz_mtp(c, n2, st, mb, q, hid, forcado, m4);
        assert(faz_mtp_todas(c, s1, st, mb, q, hid, forcado, m3) == m5);
        let eps = f.rms_eps as int;
        let q1 = norma_cabecas(q0, le(m0, x.todo()), hd, nh, hd * 2, eps);
        assert(m4 == escreve(m3, a.b_q.ate(qo), q1));
        assert(le(m4, a.b_q.ate(qo)) == q1);
        assert(le(m5, a.b_q.ate(qo)) == q1);
    } else {
        assert(s1 =~= e);
        assert(faz_mtp_todas(c, s1, st, mb, q, hid, forcado, m3) == m3);
    }
}

/// The numbers of what the head's attention layer writes.
pub open spec fn escritos_no_mixer(k: int) -> bool {
    5 <= k <= 12 || k == 18 || k == 19 || k == 35 || k == 37 || k == 38
}

#[verifier::rlimit(60)]
proof fn lemma_mixer(
    c: Compilacao,
    st: ResidentState,
    mb: MtpBufs,
    q: Passo,
    hid: Hidden,
    forcado: u32,
    n: Map<u64, int>,
    x0: Termo,
    m0: Map<u64, Termo>,
    m: Map<u64, Termo>,
)
    requires
        proposta_rodavel(st, c, mb, q, hid),
        numerados(st, n),
        numerados_mtp(mb, n),
        le(m, mb.b_x.ate(st.cfg.n_embd as int)) == x0,
        forall|b: u64| n[b] == 0 ==> #[trigger] m[b] == m0[b],
        m[mb.kcache.buffer] == m0[mb.kcache.buffer],
        m[mb.vcache.buffer] == m0[mb.vcache.buffer],
    ensures
        ({
            let ne = st.cfg.n_embd as int;
            let y = atencao_da_cabeca(st, mb, m0, normada(st, m0, x0, mb.attn_norm, 1), q);
            let r = faz_mtp_todas(c, mtp_mixer(st, c.k, mb), st, mb, q, hid, forcado, m);
            &&& le(r, mb.b_x.ate(ne)) == x0
            &&& le(r, st.a.b_proj.ate(ne)) == y.saida
            &&& r[mb.kcache.buffer] == y.kcache
            &&& r[mb.vcache.buffer] == y.vcache
            &&& so_muda(m, r, n, |i: int| escritos_no_mixer(i))
        }),
{
    broadcast use lemma_lido;

    let f = st.cfg;
    let a = st.a;
    let ne = f.n_embd as int;
    let kvd = f.kv_dim as int;
    let qo = f.q_out();
    let nh = f.n_head as int;
    let nk = f.n_head_kv as int;
    let hd = f.head_dim as int;
    let h = normada(st, m0, x0, mb.attn_norm, 1);
    let y = atencao_da_cabeca(st, mb, m0, h, q);
    assert(f.head_dim * f.n_head >= 0) by (nonlinear_arith);
    assert(cabe_nos_nucleos(st, 1));
    assert(qo * 1 * 4 <= u32::MAX && f.kv_dim * 1 * 4 <= u32::MAX);
    assert(f.attn_dim() * 1 * 4 <= u32::MAX);
    assert(f.n_head * 1 <= u32::MAX && f.n_head_kv * 1 <= u32::MAX);
    let s0 = mtp_norma(st, mb.b_x, mb.b_ffn, mb.attn_norm, false, a.b_normed, 0);
    let s1 = seq![
        mtp_mv(st, c.k, mb.attn_q, a.b_q, ne, qo),
        mtp_mv(st, c.k, mb.attn_k, a.b_k, ne, kvd),
        mtp_mv(st, c.k, mb.attn_v, a.b_v, ne, kvd),
    ] + mtp_qks(st, mb);
    let o1 = mtp_rope(st, a.b_q, qo, nh, f.q_passo());
    let o2 = mtp_rope(st, a.b_k, kvd, nk, hd);
    let o3 = OpM::KvAppendMtp;
    let o4 = mtp_atencao(st, mb);
    let o5 = mtp_saida(st);
    let o6 = mtp_mv(st, c.k, mb.attn_output, a.b_proj, f.attn_dim(), ne);
    let t0 = s0 + s1;
    let t1 = t0.push(o1);
    let t2 = t1.push(o2);
    let t3 = t2.push(o3);
    let t4 = t3.push(o4);
    let t5 = t4.push(o5);
    assert(mtp_mixer(st, c.k, mb) =~= t5.push(o6));
    lemma_push(c, t5, o6, st, mb, q, hid, forcado, m);
    lemma_push(c, t4, o5, st, mb, q, hid, forcado, m);
    lemma_push(c, t3, o4, st, mb, q, hid, forcado, m);
    lemma_push(c, t2, o3, st, mb, q, hid, forcado, m);
    lemma_push(c, t1, o2, st, mb, q, hid, forcado, m);
    lemma_push(c, t0, o1, st, mb, q, hid, forcado, m);
    lemma_concat(c, s0, s1, st, mb, q, hid, forcado, m);
    lemma_norma(
        c,
        st,
        mb,
        q,
        hid,
        forcado,
        mb.b_x,
        mb.b_ffn,
        mb.attn_norm,
        false,
        a.b_normed,
        0,
        m,
    );
    let m1 = normado_em(st, mb.b_x, mb.b_ffn, mb.attn_norm, false, a.b_normed, 0, m);
    assert(le(m1, a.b_xq.todo()) == inteiros(h, ne));
    assert(le(m1, a.b_xd.todo()) == escalas(h, ne));
    lemma_qkv(c, st, mb, q, hid, forcado, n, h, m0, m1);
    let m2 = faz_mtp_todas(c, s1, st, mb, q, hid, forcado, m1);
    lemma_iguais(c, st, mb, q, hid, a.b_q, mb.enorm, qo, nh, f.q_passo());
    lemma_iguais(c, st, mb, q, hid, a.b_k, mb.enorm, kvd, nk, hd);
    lemma_op_rope(c, st, 1, q, forcado, a.b_q, qo, nh, f.q_passo(), m2);
    let m3 = faz_mtp(c, o1, st, mb, q, hid, forcado, m2);
    assert(le(m3, a.b_q.ate(qo)) == y.q);
    lemma_op_rope(c, st, 1, q, forcado, a.b_k, kvd, nk, hd, m3);
    let m4 = faz_mtp(c, o2, st, mb, q, hid, forcado, m3);
    assert(0 <= q.pos * f.kv_dim <= f.ctx * f.kv_dim) by (nonlinear_arith)
        requires
            q.pos <= f.ctx,
    ;
    let m5 = faz_mtp(c, o3, st, mb, q, hid, forcado, m4);
    assert(m5[mb.kcache.buffer] == y.kcache);
    assert(m5[mb.vcache.buffer] == y.vcache);
    assert(le(m5, a.b_q.ate(qo)) == y.q);
    let m6 = faz_mtp(c, o4, st, mb, q, hid, forcado, m5);
    assert(qo * 1 == qo && f.attn_dim() * 1 == f.attn_dim());
    assert forall|b: u64|
        b != a.b_attn.buffer && b != a.b_attn_split.buffer implies #[trigger] m6[b] == m5[b] by {
        lemma_op_atencao(c, st, 1, q, forcado, mb.kcache, mb.vcache, 0, m5, b);
    }
    lemma_op_atencao(c, st, 1, q, forcado, mb.kcache, mb.vcache, 0, m5, a.b_q.buffer);
    let m7 = faz_mtp(c, o5, st, mb, q, hid, forcado, m6);
    assert forall|b: u64|
        b != a.b_attn.buffer && b != a.b_xq.buffer && b != a.b_xd.buffer implies #[trigger] m7[b]
        == m6[b] by {
        lemma_op_saida(c, st, 1, q, forcado, m6, b);
    }
    lemma_op_saida(c, st, 1, q, forcado, m6, a.b_q.buffer);
    let at = le(m6, a.b_attn.ate(f.attn_dim()));
    let g = if f.delta_net is Some {
        porta(at, y.q, f.attn_dim(), hd)
    } else {
        at
    };
    assert(le(m7, a.b_xq.todo()) == inteiros(g, f.attn_dim()));
    assert(le(m7, a.b_xd.todo()) == escalas(g, f.attn_dim()));
    assert(m7[mb.attn_output.gpu.buffer] == m[mb.attn_output.gpu.buffer]);
    lemma_mv(c, st, mb, q, hid, forcado, mb.attn_output, a.b_proj, g, f.attn_dim(), ne, m0, m7);
}

/// The numbers of what comes after it writes.
pub open spec fn escritos_no_fim(k: int) -> bool {
    k == 5 || k == 6 || 13 <= k <= 16 || k == 18 || k == 19 || k == 35 || k == 36
}

#[verifier::rlimit(60)]
proof fn lemma_fim(
    c: Compilacao,
    st: ResidentState,
    mb: MtpBufs,
    q: Passo,
    hid: Hidden,
    forcado: u32,
    n: Map<u64, int>,
    m0: Map<u64, Termo>,
    m: Map<u64, Termo>,
)
    requires
        proposta_rodavel(st, c, mb, q, hid),
        numerados(st, n),
        numerados_mtp(mb, n),
        forall|b: u64| n[b] == 0 ==> #[trigger] m[b] == m0[b],
    ensures
        ({
            let f = st.cfg;
            let ne = f.n_embd as int;
            let x1 = soma(le(m, mb.b_x.ate(ne)), le(m, st.a.b_proj.ate(ne)), ne);
            let z = ffn(
                m0,
                mb.ffn_gate,
                mb.ffn_up,
                mb.ffn_down,
                normada(st, m0, x1, mb.ffn_norm, 1),
                ne,
                f.n_ff as int,
                1,
            );
            let x2 = soma(x1, z, ne);
            let r = faz_mtp_todas(c, mtp_fim(st, c.k, mb), st, mb, q, hid, forcado, m);
            &&& le(r, mb.b_x.ate(ne)) == x2
            &&& le(r, st.a.b_logits.ate(f.vocab as int)) == linear(
                m0,
                st.output_w,
                normada(st, m0, x2, mb.shared_head_norm, 1),
                ne,
                f.vocab as int,
                1,
            )
            &&& so_muda(m, r, n, |i: int| escritos_no_fim(i))
        }),
{
    broadcast use lemma_lido;

    let f = st.cfg;
    let a = st.a;
    let ne = f.n_embd as int;
    let nf = f.n_ff as int;
    let v = f.vocab as int;
    assert(cabe_nos_nucleos(st, 1));
    assert(f.n_ff * 1 * 4 <= u32::MAX && f.n_embd * 1 * 4 <= u32::MAX);
    assert(f.n_ff * 1 == nf && ne * 1 == ne && nf * 1 == nf);
    let s0 = mtp_norma(st, mb.b_x, a.b_proj, mb.ffn_norm, true, a.b_normed, 0);
    let o1 = mtp_mv(st, c.k, mb.ffn_gate, a.b_gate, ne, nf);
    let o2 = mtp_mv(st, c.k, mb.ffn_up, a.b_up, ne, nf);
    let o3 = mtp_swiglu(st);
    let o4 = mtp_mv(st, c.k, mb.ffn_down, mb.b_ffn, nf, ne);
    let s1 = mtp_norma(st, mb.b_x, mb.b_ffn, mb.shared_head_norm, true, a.b_normed, 0);
    let o5 = mtp_mv(st, c.k, st.output_w, a.b_logits, ne, v);
    let t1 = s0.push(o1);
    let t2 = t1.push(o2);
    let t3 = t2.push(o3);
    let t4 = t3.push(o4);
    assert(mtp_fim(st, c.k, mb) =~= (t4 + s1).push(o5));
    lemma_push(c, t4 + s1, o5, st, mb, q, hid, forcado, m);
    lemma_concat(c, t4, s1, st, mb, q, hid, forcado, m);
    lemma_push(c, t3, o4, st, mb, q, hid, forcado, m);
    lemma_push(c, t2, o3, st, mb, q, hid, forcado, m);
    lemma_push(c, t1, o2, st, mb, q, hid, forcado, m);
    lemma_push(c, s0, o1, st, mb, q, hid, forcado, m);
    lemma_norma(
        c,
        st,
        mb,
        q,
        hid,
        forcado,
        mb.b_x,
        a.b_proj,
        mb.ffn_norm,
        true,
        a.b_normed,
        0,
        m,
    );
    let m1 = normado_em(st, mb.b_x, a.b_proj, mb.ffn_norm, true, a.b_normed, 0, m);
    let x1 = soma(le(m, mb.b_x.ate(ne)), le(m, a.b_proj.ate(ne)), ne);
    let h = normada(st, m0, x1, mb.ffn_norm, 1);
    assert(le(m1, mb.b_x.ate(ne)) == x1);
    assert(le(m1, a.b_xq.todo()) == inteiros(h, ne));
    assert(le(m1, a.b_xd.todo()) == escalas(h, ne));
    lemma_mv(c, st, mb, q, hid, forcado, mb.ffn_gate, a.b_gate, h, ne, nf, m0, m1);
    let m2 = faz_mtp(c, o1, st, mb, q, hid, forcado, m1);
    lemma_mv(c, st, mb, q, hid, forcado, mb.ffn_up, a.b_up, h, ne, nf, m0, m2);
    let m3 = faz_mtp(c, o2, st, mb, q, hid, forcado, m2);
    let gate = linear(m0, mb.ffn_gate, h, ne, nf, 1);
    let up = linear(m0, mb.ffn_up, h, ne, nf, 1);
    assert(le(m3, a.b_gate.ate(nf)) == gate);
    assert(le(m3, a.b_up.ate(nf)) == up);
    lemma_iguais(c, st, mb, q, hid, a.b_q, mb.enorm, 0, 0, 0);
    lemma_op_swiglu(c, st, 1, q, forcado, m3);
    let m4 = faz_mtp(c, o3, st, mb, q, hid, forcado, m3);
    let x = swiglu(gate, up, nf);
    assert(le(m4, a.b_xq.todo()) == inteiros(x, nf));
    assert(le(m4, a.b_xd.todo()) == escalas(x, nf));
    lemma_mv(c, st, mb, q, hid, forcado, mb.ffn_down, mb.b_ffn, x, nf, ne, m0, m4);
    let m5 = faz_mtp(c, o4, st, mb, q, hid, forcado, m4);
    let z = linear(m0, mb.ffn_down, x, nf, ne, 1);
    assert(le(m5, mb.b_ffn.ate(ne)) == z);
    assert(le(m5, mb.b_x.ate(ne)) == x1);
    lemma_norma(
        c,
        st,
        mb,
        q,
        hid,
        forcado,
        mb.b_x,
        mb.b_ffn,
        mb.shared_head_norm,
        true,
        a.b_normed,
        0,
        m5,
    );
    let m6 = normado_em(st, mb.b_x, mb.b_ffn, mb.shared_head_norm, true, a.b_normed, 0, m5);
    let x2 = soma(x1, z, ne);
    let u = normada(st, m0, x2, mb.shared_head_norm, 1);
    assert(le(m6, mb.b_x.ate(ne)) == x2);
    assert(le(m6, a.b_xq.todo()) == inteiros(u, ne));
    assert(le(m6, a.b_xd.todo()) == escalas(u, ne));
    lemma_mv(c, st, mb, q, hid, forcado, st.output_w, a.b_logits, u, ne, v, m0, m6);
}

// ---------------------------------------------------------------------------
// The law
// ---------------------------------------------------------------------------

/// The commands of a proposal, run with the meaning of each kernel, are the
/// prediction head: the embedding under its own norm and the hidden state under
/// its own are joined, go through one attention layer with a cache of its own and
/// one feed-forward block, and give the logits. Nothing that the steps go on with
/// changes: neither the residual stream, nor the caches, nor the recurrent state
/// of the shard.
#[verifier::rlimit(40)]
pub proof fn lei_proposta_roda_a_cabeca(
    st: ResidentState,
    c: Compilacao,
    mb: MtpBufs,
    q: Passo,
    h: Hidden,
    bar: Seq<bool>,
    forcado: u32,
    n: Map<u64, int>,
    m: Map<u64, Termo>,
)
    requires
        proposta_rodavel(st, c, mb, q, h),
        numerados(st, n),
        numerados_mtp(mb, n),
        plano_mtp(st, c.k).len() <= usize::MAX,
    ensures
        proposta_roda(
            st,
            mb,
            q,
            h,
            n,
            m,
            roda(
                c,
                plano_mtp(st, c.k),
                proposta_gravada(plano_mtp(st, c.k), bar, st, q, h, forcado),
                m,
            ),
        ),
{
    broadcast use lemma_lido;

    let f = st.cfg;
    let p = plano_mtp(st, c.k);
    let s0 = mtp_prologo(st, c.k, mb);
    let s1 = mtp_mixer(st, c.k, mb);
    let s2 = mtp_fim(st, c.k, mb);
    lemma_concat(c, s0 + s1, s2, st, mb, q, h, forcado, m);
    lemma_concat(c, s0, s1, st, mb, q, h, forcado, m);
    let m1 = faz_mtp_todas(c, s0, st, mb, q, h, forcado, m);
    let m2 = faz_mtp_todas(c, s1, st, mb, q, h, forcado, m1);
    let m3 = faz_mtp_todas(c, s2, st, mb, q, h, forcado, m2);
    lemma_prologo(c, st, mb, q, h, forcado, n, m);
    lemma_mixer(c, st, mb, q, h, forcado, n, juncao(st, mb, h, m), m, m1);
    lemma_fim(c, st, mb, q, h, forcado, n, m, m2);
    let cs = cmds_mtp_ate(p, bar, st, mb, q, h, forcado, p.len() as int);
    let saida = CmdM::Copia {
        src: st.a.b_logits.buffer,
        dst: st.a.logits_host.buffer,
        src_off: 0,
        dst_off: 0,
        size: (f.vocab * 4) as u64,
    };
    let z = seq![CmdM::Barreira, saida];
    assert(proposta_gravada(p, bar, st, q, h, forcado) == cs + z);
    lemma_roda_concat(c, p, cs, z, m);
    lemma_cmds_ate(c, p, bar, st, mb, q, h, forcado, p.len() as int, m);
    assert(p.take(p.len() as int) =~= p);
    assert(z =~= seq![CmdM::Barreira] + seq![saida]);
    lemma_roda_concat(c, p, seq![CmdM::Barreira], seq![saida], m3);
    lemma_roda_um(c, p, CmdM::Barreira, m3);
    lemma_roda_um(c, p, saida, m3);
}

} // verus!
