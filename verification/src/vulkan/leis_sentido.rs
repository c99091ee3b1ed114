//! What the operations of a plan do to the contents of the buffers.

use vstd::prelude::*;

use crate::vulkan::contas::{lei_palavras_ida_e_volta, lei_palavras_len, lei_teto, palavras};
use crate::vulkan::ambiente::geom_ok;
use crate::vulkan::estado::{
    Buf, Cfg, DeltaBufs, DeltaNetConfig, DnBufs, Knobs, Modo, QWeight, ResidentState, VERIFY_TOK,
};
use crate::vulkan::gravacao::{
    byte_no_cache, cmds_ate, cmds_atencao, cmds_op, despacha, lei_bloco_no_slot, push_de,
    se_barreira, CmdM, Parte, Passo,
};
use crate::vulkan::leis_plano::{lemma_mv_cobre, lemma_slot};
use crate::vulkan::ops::{DespachoM, Faixa, GgmlType, OpM};
use crate::vulkan::pipelines::Compilacao;
use crate::vulkan::plano::{
    cabe_n, grupos, grupos_norma, grupos_q, op_atencao, op_bias, op_dn_conv, op_dn_delta,
    op_dn_gates, op_dn_l2, op_mv, op_qk_norm, op_quantiza, op_rope, op_rope_k, op_saida_atencao,
    op_swiglu, ops_dn_fim, ops_norma,
};
use crate::vulkan::sentido::{
    atencao, bastam, convolucao, decaimento, efeito, efeito_cmd, escalas, escreve, inteiros,
    janela_depois, l2, le, lemma_lido, norma, norma_cabecas, norma_com_porta, palavras_lidas,
    parciais, porta, produto, quantizado, recorrencia, roda, rotacao, soma, swiglu, trocado, Conta,
    Termo,
};
use crate::vulkan::shard::splits;

verus! {

// ---------------------------------------------------------------------------
// Commands and operations
// ---------------------------------------------------------------------------

pub(crate) proof fn lemma_roda_concat(
    c: Compilacao,
    p: Seq<OpM>,
    s: Seq<CmdM>,
    t: Seq<CmdM>,
    m: Map<u64, Termo>,
)
    ensures
        roda(c, p, s + t, m) == roda(c, p, t, roda(c, p, s, m)),
    decreases t.len(),
{
    if t.len() == 0 {
        assert(s + t =~= s);
    } else {
        assert((s + t).drop_last() =~= s + t.drop_last());
        lemma_roda_concat(c, p, s, t.drop_last(), m);
    }
}

pub(crate) proof fn lemma_roda_um(c: Compilacao, p: Seq<OpM>, x: CmdM, m: Map<u64, Termo>)
    ensures
        roda(c, p, seq![x], m) == efeito_cmd(c, p, x, m),
{
    assert(seq![x].drop_last() =~= Seq::<CmdM>::empty());
    reveal_with_fuel(roda, 2);
}

proof fn lemma_palavras(w: Seq<u32>)
    ensures
        palavras_lidas(palavras(w)) == w,
{
    lei_palavras_len(w);
    assert forall|i: int| 0 <= i < w.len() implies palavras_lidas(palavras(w))[i] == w[i] by {
        lei_palavras_ida_e_volta(w, i);
    }
    assert(palavras_lidas(palavras(w)) =~= w);
}

/// What a dispatch of a plan does in a step.
pub open spec fn dispara(
    c: Compilacao,
    d: DespachoM,
    f: Cfg,
    q: Passo,
    z: u32,
    n_split: u32,
    m: Map<u64, Termo>,
) -> Map<u64, Termo> {
    efeito(c, d.pipe, d.binds, push_de(d, f, q, n_split), d.groups, d.groups_y, z, m)
}

/// A copy.
pub open spec fn copiado(
    src: u64,
    so: u64,
    dst: u64,
    doff: u64,
    size: u64,
    m: Map<u64, Termo>,
) -> Map<u64, Termo> {
    escreve(
        m,
        Faixa { buffer: dst, offset: doff, bytes: size },
        le(m, Faixa { buffer: src, offset: so, bytes: size }),
    )
}

pub open spec fn dispara_atencao(
    c: Compilacao,
    curto: DespachoM,
    split: DespachoM,
    reduce: DespachoM,
    f: Cfg,
    q: Passo,
    forcado: u32,
    m: Map<u64, Termo>,
) -> Map<u64, Termo> {
    let n = splits(forcado, q.total_len());
    if n <= 1 {
        dispara(c, curto, f, q, 1, 1, m)
    } else {
        dispara(c, reduce, f, q, 1, n, dispara(c, split, f, q, n, n, m))
    }
}

/// What an operation of a block does.
pub open spec fn faz(
    c: Compilacao,
    o: OpM,
    st: ResidentState,
    q: Passo,
    forcado: u32,
    m: Map<u64, Termo>,
) -> Map<u64, Termo> {
    let f = st.cfg;
    let a = st.a;
    match o {
        OpM::Dispatch(d) => dispara(c, d, f, q, 1, 1, m),
        OpM::Atencao { curto, split, reduce } => dispara_atencao(
            c,
            curto,
            split,
            reduce,
            f,
            q,
            forcado,
            m,
        ),
        OpM::Embed => copiado(
            a.embd_stage.buffer,
            0,
            a.b_x.buffer,
            0,
            (f.n_embd * q.n_tok * 4) as u64,
            m,
        ),
        OpM::Copia { src, dst, bytes } => copiado(src, 0, dst, 0, bytes, m),
        OpM::KvAppend { slot, com_k } => {
            let off = byte_no_cache(f, slot as int, q.pos + 1 - q.n_tok) as u64;
            let size = (f.kv_dim * q.n_tok * 4) as u64;
            let m1 = if com_k {
                copiado(a.b_k.buffer, 0, a.kcache.buffer, off, size, m)
            } else {
                m
            };
            copiado(a.b_v.buffer, 0, a.vcache.buffer, off, size, m1)
        },
        _ => m,
    }
}

pub open spec fn faz_todas(
    c: Compilacao,
    s: Seq<OpM>,
    st: ResidentState,
    q: Passo,
    forcado: u32,
    m: Map<u64, Termo>,
) -> Map<u64, Termo>
    decreases s.len(),
{
    if s.len() == 0 {
        m
    } else {
        faz(c, s.last(), st, q, forcado, faz_todas(c, s.drop_last(), st, q, forcado, m))
    }
}

pub(crate) proof fn lemma_faz_concat(
    c: Compilacao,
    s: Seq<OpM>,
    t: Seq<OpM>,
    st: ResidentState,
    q: Passo,
    forcado: u32,
    m: Map<u64, Termo>,
)
    ensures
        faz_todas(c, s + t, st, q, forcado, m) == faz_todas(
            c,
            t,
            st,
            q,
            forcado,
            faz_todas(c, s, st, q, forcado, m),
        ),
    decreases t.len(),
{
    if t.len() == 0 {
        assert(s + t =~= s);
    } else {
        assert((s + t).drop_last() =~= s + t.drop_last());
        lemma_faz_concat(c, s, t.drop_last(), st, q, forcado, m);
    }
}

pub(crate) proof fn lemma_faz_push(
    c: Compilacao,
    s: Seq<OpM>,
    o: OpM,
    st: ResidentState,
    q: Passo,
    forcado: u32,
    m: Map<u64, Termo>,
)
    ensures
        faz_todas(c, s.push(o), st, q, forcado, m) == faz(
            c,
            o,
            st,
            q,
            forcado,
            faz_todas(c, s, st, q, forcado, m),
        ),
{
    assert(s.push(o).drop_last() =~= s);
}

pub(crate) proof fn lemma_despacha(
    c: Compilacao,
    p: Seq<OpM>,
    i: int,
    parte: Parte,
    d: DespachoM,
    f: Cfg,
    q: Passo,
    z: u32,
    n_split: u32,
    m: Map<u64, Termo>,
)
    requires
        0 <= i < p.len() <= usize::MAX,
        crate::vulkan::leis_escrita::parte_de(p[i], parte) == Some(d),
    ensures
        efeito_cmd(c, p, despacha(i, parte, d, f, q, z, n_split), m) == dispara(
            c,
            d,
            f,
            q,
            z,
            n_split,
            m,
        ),
{
    lemma_palavras(push_de(d, f, q, n_split));
}

pub(crate) proof fn lemma_cmds_atencao(
    c: Compilacao,
    p: Seq<OpM>,
    i: int,
    st: ResidentState,
    q: Passo,
    forcado: u32,
    m: Map<u64, Termo>,
)
    requires
        0 <= i < p.len() <= usize::MAX,
        p[i] is Atencao,
    ensures
        ({
            let o = p[i];
            roda(
                c,
                p,
                cmds_atencao(i, o->curto, o->split, o->reduce, st.cfg, q, forcado),
                m,
            ) == dispara_atencao(c, o->curto, o->split, o->reduce, st.cfg, q, forcado, m)
        }),
{
    let o = p[i];
    let n = splits(forcado, q.total_len());
    let f = st.cfg;
    if n <= 1 {
        let a = despacha(i, Parte::Curto, o->curto, f, q, 1, 1);
        lemma_roda_um(c, p, a, m);
        lemma_despacha(c, p, i, Parte::Curto, o->curto, f, q, 1, 1, m);
    } else {
        let a = despacha(i, Parte::Split, o->split, f, q, n, n);
        let b = CmdM::Barreira;
        let d = despacha(i, Parte::Reduce, o->reduce, f, q, 1, n);
        let s = seq![a, b, d];
        assert(s =~= seq![a] + seq![b] + seq![d]);
        lemma_roda_concat(c, p, seq![a] + seq![b], seq![d], m);
        lemma_roda_concat(c, p, seq![a], seq![b], m);
        lemma_roda_um(c, p, a, m);
        let m1 = dispara(c, o->split, f, q, n, n, m);
        lemma_despacha(c, p, i, Parte::Split, o->split, f, q, n, n, m);
        lemma_roda_um(c, p, b, m1);
        lemma_roda_um(c, p, d, m1);
        lemma_despacha(c, p, i, Parte::Reduce, o->reduce, f, q, 1, n, m1);
    }
}

pub(crate) proof fn lemma_cmds_op(
    c: Compilacao,
    p: Seq<OpM>,
    i: int,
    st: ResidentState,
    q: Passo,
    forcado: u32,
    m: Map<u64, Termo>,
)
    requires
        0 <= i < p.len() <= usize::MAX,
    ensures
        roda(c, p, cmds_op(i, p[i], st, q, forcado), m) == faz(c, p[i], st, q, forcado, m),
{
    let s = cmds_op(i, p[i], st, q, forcado);
    match p[i] {
        OpM::Atencao { .. } => {
            lemma_cmds_atencao(c, p, i, st, q, forcado, m);
        },
        OpM::Dispatch(d) => {
            lemma_roda_um(c, p, s[0], m);
            lemma_despacha(c, p, i, Parte::Unica, d, st.cfg, q, 1, 1, m);
        },
        OpM::KvAppend { slot, com_k } => {
            if com_k {
                assert(s =~= seq![s[0]] + seq![s[1]]);
                lemma_roda_concat(c, p, seq![s[0]], seq![s[1]], m);
                lemma_roda_um(c, p, s[0], m);
                lemma_roda_um(c, p, s[1], roda(c, p, seq![s[0]], m));
            } else {
                lemma_roda_um(c, p, s[0], m);
            }
        },
        OpM::Embed => {
            lemma_roda_um(c, p, s[0], m);
        },
        OpM::Copia { .. } => {
            lemma_roda_um(c, p, s[0], m);
        },
        _ => {},
    }
}

/// The commands of the first operations do what the operations do.
pub(crate) proof fn lemma_cmds_ate(
    c: Compilacao,
    p: Seq<OpM>,
    b: Seq<bool>,
    st: ResidentState,
    q: Passo,
    forcado: u32,
    prof: bool,
    n: int,
    m: Map<u64, Termo>,
)
    requires
        0 <= n <= p.len() <= usize::MAX,
    ensures
        roda(c, p, cmds_ate(p, b, st, q, forcado, prof, n), m) == faz_todas(
            c,
            p.take(n),
            st,
            q,
            forcado,
            m,
        ),
    decreases n,
{
    if n > 0 {
        let i = n - 1;
        lemma_cmds_ate(c, p, b, st, q, forcado, prof, i, m);
        let r = cmds_ate(p, b, st, q, forcado, prof, i);
        let e = se_barreira(b[i] || prof);
        let o = cmds_op(i, p[i], st, q, forcado);
        let t = if prof {
            seq![CmdM::Tempo { slot: n as u32, topo: false }]
        } else {
            Seq::empty()
        };
        assert(cmds_ate(p, b, st, q, forcado, prof, n) == r + e + o + t);
        lemma_roda_concat(c, p, r + e + o, t, m);
        lemma_roda_concat(c, p, r + e, o, m);
        lemma_roda_concat(c, p, r, e, m);
        let m1 = roda(c, p, r, m);
        if b[i] || prof {
            lemma_roda_um(c, p, CmdM::Barreira, m1);
        }
        lemma_cmds_op(c, p, i, st, q, forcado, m1);
        let m2 = roda(c, p, o, m1);
        if prof {
            lemma_roda_um(c, p, CmdM::Tempo { slot: n as u32, topo: false }, m2);
        }
        assert(p.take(n).drop_last() =~= p.take(i));
        assert(p.take(n).last() == p[i]);
    } else {
        assert(p.take(0) =~= Seq::<OpM>::empty());
    }
}

// ---------------------------------------------------------------------------
// Limits
// ---------------------------------------------------------------------------

/// That the numbers that the kernels are told fit their words.
pub open spec fn cabe_nos_nucleos(st: ResidentState, nt: int) -> bool {
    let f = st.cfg;
    &&& 1 <= nt
    &&& f.n_embd * nt * 4 <= u32::MAX
    &&& f.q_out() * nt * 4 <= u32::MAX
    &&& f.attn_dim() * nt * 4 <= u32::MAX
    &&& f.kv_dim * nt * 4 <= u32::MAX
    &&& f.n_ff * nt * 4 <= u32::MAX
    &&& f.vocab * VERIFY_TOK * 4 <= u32::MAX
    &&& f.head_dim * 2 <= u32::MAX
    &&& f.rope_dim <= u32::MAX
    &&& f.n_head * nt <= u32::MAX
    &&& f.n_head_kv * nt <= u32::MAX
    &&& f.n_head * f.rope_dim <= u32::MAX
    &&& f.n_head_kv * f.rope_dim <= u32::MAX
    &&& f.n_head_kv * f.head_dim <= u32::MAX
    &&& f.delta_net matches Some(d) ==> {
        &&& d.d_state * d.n_k_heads * nt * 4 <= u32::MAX
        &&& d.value_dim() * nt * 4 <= u32::MAX
        &&& d.conv_dim() * nt * 4 <= u32::MAX
        &&& d.n_v_heads * 2 * nt * 4 <= u32::MAX
        &&& d.n_k_heads * 2 <= u32::MAX
        &&& d.n_k_heads > 0
        &&& d.n_v_heads * d.d_state <= u32::MAX
        &&& d.head_v_dim <= u32::MAX
        &&& d.d_conv <= u32::MAX
        &&& d.d_state <= u32::MAX
    }
}

/// Whether weights of the type have a kernel.
pub open spec fn tem_nucleo(ty: GgmlType) -> bool {
    ty is Q8_0 || ty is Q4_K || ty is Q5_K || ty is Q6_K
}

pub(crate) proof fn lemma_vezes(a: int, b: int, max: int)
    requires
        0 <= a,
        1 <= b,
        a * b <= max,
    ensures
        0 <= a <= a * b <= max,
{
    assert(a <= a * b) by (nonlinear_arith)
        requires
            0 <= a,
            1 <= b,
    ;
}

pub(crate) proof fn lemma_grupos(n: int)
    requires
        0 <= n <= u32::MAX,
    ensures
        bastam(grupos(n), n),
        bastam(grupos_q(n), n / 32),
{
    lei_teto(n, 64);
    lei_teto(n / 32, 64);
}

// ---------------------------------------------------------------------------
// Single operations
// ---------------------------------------------------------------------------

pub(crate) proof fn lemma_op_mv(
    c: Compilacao,
    modo: Modo,
    st: ResidentState,
    q: Passo,
    forcado: u32,
    w: QWeight,
    dst: Buf,
    xq: Buf,
    xd: Buf,
    cols: int,
    n_in: int,
    n_out: int,
    m: Map<u64, Termo>,
)
    requires
        geom_ok(c.k.geom),
        geom_ok(c.k.geom_batch),
        0 <= n_in <= u32::MAX,
        0 <= n_out <= u32::MAX,
        1 <= modo.tokens(st.cfg) <= u32::MAX,
        cabe_n(n_out, cols),
        c.n_batch == st.cfg.n_batch,
        cols == modo.tokens(st.cfg) || cols == 1,
        tem_nucleo(w.ty),
    ensures
        faz(c, op_mv(c.k, modo, w, dst, xq, xd, cols, n_in, n_out), st, q, forcado, m) == escreve(
            m,
            dst.ate(n_out * cols),
            produto(
                w.ty,
                le(m, w.gpu.todo()),
                le(m, xq.todo()),
                le(m, xd.todo()),
                n_in,
                n_out,
                cols,
            ),
        ),
{
    lemma_mv_cobre(c, modo, modo.tokens(st.cfg), w, dst, xq, xd, cols, n_in, n_out, st);
    reveal(op_mv);
}

/// The norm of the residual stream, to which `r` is added first if `tem` is set.
pub open spec fn normado(
    st: ResidentState,
    nt: int,
    r: Buf,
    w: Buf,
    tem: bool,
    m: Map<u64, Termo>,
) -> Map<u64, Termo> {
    let f = st.cfg;
    let n = f.n_embd * nt;
    let x = le(m, st.a.b_x.ate(n));
    let s = if tem {
        soma(x, le(m, r.ate(n)), n)
    } else {
        x
    };
    let h = norma(s, le(m, w.todo()), f.n_embd as int, nt, f.rms_eps as int);
    let m1 = escreve(
        escreve(m, st.a.b_x.ate(n), s),
        st.a.b_parciais.todo(),
        parciais(s, f.n_embd as int, nt, grupos_norma(f) as int),
    );
    quantizado(
        escreve(m1, st.a.b_normed.ate(n), h),
        st.a.b_xq.todo(),
        st.a.b_xd.todo(),
        h,
        n,
    )
}

pub(crate) proof fn lemma_ops_norma(
    c: Compilacao,
    st: ResidentState,
    nt: int,
    q: Passo,
    forcado: u32,
    r: Buf,
    w: Buf,
    tem: bool,
    m: Map<u64, Termo>,
)
    requires
        cabe_nos_nucleos(st, nt),
        nt <= u32::MAX,
        st.a.b_x.buffer != st.a.b_parciais.buffer,
        w.buffer != st.a.b_x.buffer,
        w.buffer != st.a.b_parciais.buffer,
    ensures
        faz_todas(c, ops_norma(st, nt, r, w, tem), st, q, forcado, m) == normado(
            st,
            nt,
            r,
            w,
            tem,
            m,
        ),
{
    broadcast use lemma_lido;

    reveal(ops_norma);
    let f = st.cfg;
    let s = ops_norma(st, nt, r, w, tem);
    lemma_vezes(f.n_embd as int, nt, u32::MAX as int);
    lemma_grupos(f.n_embd as int);
    assert(s =~= seq![s[0]].push(s[1]));
    assert(seq![s[0]].drop_last() =~= Seq::<OpM>::empty());
    lemma_faz_push(c, seq![s[0]], s[1], st, q, forcado, m);
    reveal_with_fuel(faz_todas, 2);
}

pub(crate) proof fn lemma_op_qk_norm(
    c: Compilacao,
    st: ResidentState,
    q: Passo,
    forcado: u32,
    b: Buf,
    w: Buf,
    n: int,
    cabecas: int,
    passo: int,
    m: Map<u64, Termo>,
)
    requires
        st.cfg.head_dim <= u32::MAX,
        0 <= cabecas <= u32::MAX,
        0 <= passo <= u32::MAX,
    ensures
        faz(c, op_qk_norm(st.cfg, b, w, n, cabecas, passo), st, q, forcado, m) == escreve(
            m,
            b.ate(n),
            norma_cabecas(
                le(m, b.ate(n)),
                le(m, w.todo()),
                st.cfg.head_dim as int,
                cabecas,
                passo,
                st.cfg.rms_eps as int,
            ),
        ),
{
    reveal(op_qk_norm);
}

pub(crate) proof fn lemma_op_bias(
    c: Compilacao,
    st: ResidentState,
    q: Passo,
    forcado: u32,
    dst: Buf,
    b: Buf,
    dim: int,
    t: int,
    m: Map<u64, Termo>,
)
    requires
        0 <= dim * 4 <= u32::MAX,
    ensures
        faz(c, op_bias(dst, b, dim, t), st, q, forcado, m) == escreve(
            m,
            dst.em(t * dim, dim),
            soma(le(m, dst.em(t * dim, dim)), le(m, b.todo()), dim),
        ),
{
    reveal(op_bias);
    lemma_grupos(dim);
}

pub(crate) proof fn lemma_op_rope(
    c: Compilacao,
    st: ResidentState,
    nt: int,
    q: Passo,
    forcado: u32,
    b: Buf,
    n: int,
    cabecas: int,
    passo: int,
    m: Map<u64, Termo>,
)
    requires
        1 <= nt <= u32::MAX,
        0 <= cabecas <= u32::MAX,
        0 <= passo <= u32::MAX,
        cabecas * st.cfg.rope_dim <= u32::MAX,
        st.cfg.rope_dim <= u32::MAX,
        st.cfg.head_dim <= u32::MAX,
    ensures
        faz(c, op_rope(st, nt, b, n, cabecas, passo), st, q, forcado, m) == escreve(
            m,
            b.ate(n),
            rotacao(
                le(m, b.ate(n)),
                le(m, st.freq_buf.todo()),
                cabecas,
                st.cfg.head_dim as int,
                st.cfg.rope_dim as int,
                passo,
                q.pos_bits as int,
                nt,
            ),
        ),
{
    reveal(op_rope);
    let h = st.cfg.rope_dim as int / 2;
    assert(0 <= cabecas * h <= cabecas * st.cfg.rope_dim) by (nonlinear_arith)
        requires
            0 <= cabecas,
            0 <= h <= st.cfg.rope_dim,
    ;
    lemma_grupos(cabecas * h);
}

pub(crate) proof fn lemma_op_quantiza(
    c: Compilacao,
    st: ResidentState,
    q: Passo,
    forcado: u32,
    b: Buf,
    xq: Buf,
    xd: Buf,
    i: int,
    n: int,
    m: Map<u64, Termo>,
)
    requires
        0 <= n * 4 <= u32::MAX,
    ensures
        faz(c, op_quantiza(b, xq, xd, i, n), st, q, forcado, m) == quantizado(
            m,
            xq.todo(),
            xd.todo(),
            le(m, b.em(i, n)),
            n,
        ),
{
    reveal(op_quantiza);
    lemma_grupos(n);
}

pub(crate) proof fn lemma_op_swiglu(
    c: Compilacao,
    st: ResidentState,
    nt: int,
    q: Passo,
    forcado: u32,
    m: Map<u64, Termo>,
)
    requires
        0 <= st.cfg.n_ff * nt * 4 <= u32::MAX,
    ensures
        ({
            let n = st.cfg.n_ff * nt;
            let x = swiglu(le(m, st.a.b_gate.ate(n)), le(m, st.a.b_up.ate(n)), n);
            faz(c, op_swiglu(st, nt), st, q, forcado, m) == quantizado(
                escreve(m, st.a.b_act.ate(n), x),
                st.a.b_xq.todo(),
                st.a.b_xd.todo(),
                x,
                n,
            )
        }),
{
    reveal(op_swiglu);
    lemma_grupos(st.cfg.n_ff * nt);
}

/// The attention, in one go or in slices, gives the same.
pub(crate) proof fn lemma_op_atencao(
    c: Compilacao,
    st: ResidentState,
    nt: int,
    q: Passo,
    forcado: u32,
    kcache: Buf,
    vcache: Buf,
    off: u32,
    m: Map<u64, Termo>,
    b: u64,
)
    requires
        1 <= nt <= u32::MAX,
        st.cfg.n_head <= u32::MAX,
        st.cfg.n_head_kv <= u32::MAX,
        st.cfg.head_dim * 2 <= u32::MAX,
        st.cfg.kv_dim <= u32::MAX,
        q.pos < u32::MAX,
        b != st.a.b_attn_split.buffer,
    ensures
        ({
            let f = st.cfg;
            let o = st.a.b_attn.ate(f.attn_dim() * nt);
            let a = atencao(
                le(m, st.a.b_q.ate(f.q_out() * nt)),
                le(m, kcache.todo()),
                le(m, vcache.todo()),
                f.n_head as int,
                f.n_head_kv as int,
                f.head_dim as int,
                q.pos + 1,
                f.kv_dim as int,
                off as int,
                f.q_passo(),
                nt,
            );
            let r = faz(c, op_atencao(st, nt, kcache, vcache, off), st, q, forcado, m);
            &&& le(r, o) == a
            &&& b != st.a.b_attn.buffer ==> r[b] == m[b]
        }),
{
    broadcast use lemma_lido;

    reveal(op_atencao);
}

/// The quantized input of the output projection: the attention's output, with
/// its gate in the hybrid architectures.
pub(crate) proof fn lemma_op_saida(
    c: Compilacao,
    st: ResidentState,
    nt: int,
    q: Passo,
    forcado: u32,
    m: Map<u64, Termo>,
    b: u64,
)
    requires
        cabe_nos_nucleos(st, nt),
        st.a.b_xq.buffer != st.a.b_xd.buffer,
    ensures
        ({
            let f = st.cfg;
            let n = f.attn_dim() * nt;
            let a = le(m, st.a.b_attn.ate(n));
            let g = if f.delta_net is Some {
                porta(a, le(m, st.a.b_q.ate(f.q_out() * nt)), n, f.head_dim as int)
            } else {
                a
            };
            let r = faz(c, op_saida_atencao(st, nt), st, q, forcado, m);
            &&& le(r, st.a.b_xq.todo()) == inteiros(g, n)
            &&& le(r, st.a.b_xd.todo()) == escalas(g, n)
            &&& b != st.a.b_attn.buffer && b != st.a.b_xq.buffer && b != st.a.b_xd.buffer
                ==> r[b] == m[b]
        }),
{
    broadcast use lemma_lido;

    reveal(op_saida_atencao);
    let f = st.cfg;
    if f.delta_net is Some {
        assert(0 <= f.head_dim * f.n_head) by (nonlinear_arith);
        lemma_vezes(f.attn_dim(), nt, u32::MAX as int);
        lemma_grupos(f.attn_dim() * nt);
    } else {
        lemma_vezes(f.n_embd as int, nt, u32::MAX as int);
        let a = st.a;
        lemma_op_quantiza(c, st, q, forcado, a.b_attn, a.b_xq, a.b_xd, 0, f.n_embd * nt, m);
    }
}

/// K, rotated, in the cache; and V.
pub(crate) proof fn lemma_kv(
    c: Compilacao,
    st: ResidentState,
    k: Knobs,
    nt: int,
    l: int,
    q: Passo,
    forcado: u32,
    m: Map<u64, Termo>,
    b: u64,
)
    requires
        st.completo(),
        0 <= l < st.qw@.len(),
        st.qw@[l].mixer is Attn,
        cabe_nos_nucleos(st, nt),
        nt == q.n_tok,
        nt <= u32::MAX,
        nt <= q.pos + 1,
        q.pos < st.cfg.ctx <= u32::MAX,
        st.n_slots() * st.cfg.ctx * st.cfg.kv_dim <= u32::MAX,
        st.a.kcache.buffer != st.a.vcache.buffer,
        st.a.b_k.buffer != st.a.kcache.buffer,
        st.a.b_v.buffer != st.a.kcache.buffer,
        st.a.b_v.buffer != st.a.b_k.buffer,
        st.a.b_k.buffer != st.a.vcache.buffer,
    ensures
        ({
            let f = st.cfg;
            let off = (st.slot(l) * f.ctx + (q.pos + 1 - nt)) * f.kv_dim * 4;
            let size = f.kv_dim * nt * 4;
            let x = rotacao(
                le(m, st.a.b_k.ate(f.kv_dim * nt)),
                le(m, st.freq_buf.todo()),
                f.n_head_kv as int,
                f.head_dim as int,
                f.rope_dim as int,
                f.head_dim as int,
                q.pos_bits as int,
                nt,
            );
            let r = faz(
                c,
                OpM::KvAppend { slot: st.slot(l) as usize, com_k: !k.rope_kv },
                st,
                q,
                forcado,
                faz(c, op_rope_k(st, k, nt, l), st, q, forcado, m),
            );
            &&& r[st.a.kcache.buffer] == trocado(m[st.a.kcache.buffer], off, size, x)
            &&& r[st.a.vcache.buffer] == trocado(
                m[st.a.vcache.buffer],
                off,
                size,
                le(m, st.a.b_v.ate(f.kv_dim * nt)),
            )
            &&& b != st.a.b_k.buffer && b != st.a.kcache.buffer && b != st.a.vcache.buffer
                ==> r[b] == m[b]
        }),
{
    broadcast use lemma_lido;

    reveal(op_rope_k);
    let f = st.cfg;
    lemma_slot(st, l);
    lemma_vezes(f.kv_dim as int, nt, u32::MAX as int);
    lemma_vezes(f.n_head_kv as int, nt, u32::MAX as int);
    lei_bloco_no_slot(f, q, st.slot(l), st.n_slots());
    let p0 = q.pos + 1 - nt;
    let s = st.slot(l) * f.ctx;
    assert((s + p0) * f.kv_dim == s * f.kv_dim + p0 * f.kv_dim) by (nonlinear_arith);
    assert(p0 * f.kv_dim >= 0) by (nonlinear_arith)
        requires
            p0 >= 0,
    ;
    assert(s * f.kv_dim >= 0) by (nonlinear_arith)
        requires
            s >= 0,
    ;
    if k.rope_kv {
        let h = f.head_dim as int / 2;
        assert(0 <= f.n_head_kv * h <= f.n_head_kv * f.head_dim) by (nonlinear_arith)
            requires
                0 <= h <= f.head_dim,
        ;
        lemma_grupos(f.n_head_kv * h);
        assert(byte_no_cache(f, st.slot(l), p0) == (s + p0) * f.kv_dim * 4);
    } else {
        lemma_op_rope(
            c,
            st,
            nt,
            q,
            forcado,
            st.a.b_k,
            f.kv_dim * nt,
            f.n_head_kv as int,
            f.head_dim as int,
            m,
        );
    }
}

// ---------------------------------------------------------------------------
// Linear attention
// ---------------------------------------------------------------------------

pub(crate) proof fn lemma_op_gates(
    c: Compilacao,
    st: ResidentState,
    d: DeltaNetConfig,
    x: DnBufs,
    da: DeltaBufs,
    t: int,
    n: int,
    q: Passo,
    forcado: u32,
    m: Map<u64, Termo>,
)
    requires
        1 <= n <= u32::MAX,
        0 <= st.cfg.n_embd * n * 4 <= u32::MAX,
        st.cfg.n_embd <= u32::MAX,
        d.n_v_heads <= u32::MAX,
    ensures
        faz(c, op_dn_gates(st, d, x, da, t, n), st, q, forcado, m) == escreve(
            m,
            x.gb.em(t * (d.n_v_heads * 2), d.n_v_heads * 2 * n),
            decaimento(
                le(m, st.a.b_normed.em(t * st.cfg.n_embd, st.cfg.n_embd * n)),
                le(m, da.alpha.todo()),
                le(m, da.beta.todo()),
                le(m, da.adt.todo()),
                st.cfg.n_embd as int,
                d.n_v_heads as int,
                n,
            ),
        ),
{
    reveal(op_dn_gates);
}

pub(crate) proof fn lemma_op_conv(
    c: Compilacao,
    st: ResidentState,
    d: DeltaNetConfig,
    x: DnBufs,
    da: DeltaBufs,
    t: int,
    n: int,
    q: Passo,
    forcado: u32,
    m: Map<u64, Termo>,
)
    requires
        1 <= n <= u32::MAX,
        0 <= d.conv_dim() <= u32::MAX,
        0 <= d.conv_dim() * n * 4 <= u32::MAX,
        d.d_conv <= u32::MAX,
    ensures
        ({
            let cd = d.conv_dim();
            let j = le(m, da.janela.todo());
            let e = le(m, x.qkv.em(t * cd, cd * n));
            let w = le(m, da.conv1d.todo());
            faz(c, op_dn_conv(d, x, da, t, n), st, q, forcado, m) == escreve(
                escreve(m, da.janela.todo(), janela_depois(j, e, w, cd, d.d_conv as int, n)),
                x.conv.em(t * cd, cd * n),
                convolucao(j, e, w, cd, d.d_conv as int, n),
            )
        }),
{
    reveal(op_dn_conv);
    lemma_grupos(d.conv_dim());
}

pub(crate) proof fn lemma_op_l2(
    c: Compilacao,
    st: ResidentState,
    d: DeltaNetConfig,
    x: DnBufs,
    t: int,
    n: int,
    lidos: int,
    passo: u32,
    q: Passo,
    forcado: u32,
    m: Map<u64, Termo>,
)
    requires
        1 <= n <= u32::MAX,
        0 <= d.d_state * d.n_k_heads * n * 4 <= u32::MAX,
        d.d_state <= u32::MAX,
        d.n_k_heads * 2 <= u32::MAX,
    ensures
        ({
            let kd = d.key_dim();
            let e = le(m, x.conv.em(t * d.conv_dim(), lidos));
            let s = d.d_state as int;
            let h = d.n_k_heads as int;
            let eps = st.cfg.rms_eps as int;
            faz(c, op_dn_l2(st.cfg, d, x, t, n, lidos, passo), st, q, forcado, m) == escreve(
                escreve(
                    m,
                    x.qn.em(t * kd, kd * n),
                    l2(Conta::L2Query, e, s, h, eps, passo as int, n),
                ),
                x.kn.em(t * kd, kd * n),
                l2(Conta::L2Key, e, s, h, eps, passo as int, n),
            )
        }),
{
    reveal(op_dn_l2);
}

pub(crate) proof fn lemma_op_delta(
    c: Compilacao,
    st: ResidentState,
    d: DeltaNetConfig,
    x: DnBufs,
    da: DeltaBufs,
    t: int,
    n: int,
    v: int,
    passo: u32,
    q: Passo,
    forcado: u32,
    m: Map<u64, Termo>,
)
    requires
        1 <= n <= u32::MAX,
        d.d_state <= u32::MAX,
        d.n_v_heads <= u32::MAX,
        d.n_k_heads > 0,
        d.n_v_heads * d.d_state <= u32::MAX,
    ensures
        ({
            let kd = d.key_dim();
            let e = le(m, da.estado.todo());
            let qn = le(m, x.qn.em(t * kd, kd * n));
            let kn = le(m, x.kn.em(t * kd, kd * n));
            let vv = le(m, x.conv.em(t * d.conv_dim() + 2 * kd, v));
            let gb = le(m, x.gb.em(t * (d.n_v_heads * 2), d.n_v_heads * 2 * n));
            let s = d.d_state as int;
            let h = d.n_v_heads as int;
            let r = d.n_v_heads as int / d.n_k_heads as int;
            faz(c, op_dn_delta(d, x, da, t, n, v, passo), st, q, forcado, m) == escreve(
                escreve(
                    m,
                    da.estado.todo(),
                    recorrencia(Conta::Estado, e, qn, kn, vv, gb, s, h, r, n, passo as int),
                ),
                x.out.em(t * d.value_dim(), d.value_dim() * n),
                recorrencia(Conta::Recorrencia, e, qn, kn, vv, gb, s, h, r, n, passo as int),
            )
        }),
{
    reveal(op_dn_delta);
    let h = d.n_v_heads as int;
    let k = d.n_k_heads as int;
    assert(0 <= h / k <= h) by (nonlinear_arith)
        requires
            0 <= h,
            1 <= k,
    ;
    assert(d.n_v_heads * d.d_state >= 0) by (nonlinear_arith);
}

/// The gated norm of the output of the recurrence, and the output projection.
pub(crate) proof fn lemma_dn_fim(
    c: Compilacao,
    modo: Modo,
    st: ResidentState,
    d: DeltaNetConfig,
    x: DnBufs,
    da: DeltaBufs,
    w: QWeight,
    q: Passo,
    forcado: u32,
    m: Map<u64, Termo>,
    b: u64,
)
    requires
        geom_ok(c.k.geom),
        geom_ok(c.k.geom_batch),
        c.n_batch == st.cfg.n_batch,
        cabe_nos_nucleos(st, modo.tokens(st.cfg)),
        modo.tokens(st.cfg) <= u32::MAX,
        st.cfg.delta_net == Some(d),
        tem_nucleo(w.ty),
        x.xq.buffer != x.xd.buffer,
        x.normed.buffer != x.xq.buffer,
        x.normed.buffer != x.xd.buffer,
        w.gpu.buffer != x.normed.buffer,
        w.gpu.buffer != x.xq.buffer,
        w.gpu.buffer != x.xd.buffer,
    ensures
        ({
            let nt = modo.tokens(st.cfg);
            let vd = d.value_dim();
            let hvd = d.head_v_dim as int;
            let y = norma_com_porta(
                le(m, x.out.ate(vd * nt)),
                le(m, da.norm.todo()),
                le(m, x.z.ate(vd * nt)),
                hvd,
                d.n_v_heads * nt,
                hvd,
                st.cfg.rms_eps as int,
            );
            let r = faz_todas(
                c,
                ops_dn_fim(st, c.k, modo, nt, d, x, da, w),
                st,
                q,
                forcado,
                m,
            );
            &&& le(r, st.a.b_proj.ate(st.cfg.n_embd * nt)) == produto(
                w.ty,
                le(m, w.gpu.todo()),
                inteiros(y, vd * nt),
                escalas(y, vd * nt),
                vd,
                st.cfg.n_embd as int,
                nt,
            )
            &&& b != x.normed.buffer && b != x.xq.buffer && b != x.xd.buffer && b
                != st.a.b_proj.buffer ==> r[b] == m[b]
        }),
{
    broadcast use lemma_lido;

    reveal(ops_dn_fim);
    let nt = modo.tokens(st.cfg);
    let vd = d.value_dim();
    let s = ops_dn_fim(st, c.k, modo, nt, d, x, da, w);
    let e = Seq::<OpM>::empty();
    assert(s =~= e.push(s[0]).push(s[1]).push(s[2]));
    lemma_faz_push(c, e.push(s[0]).push(s[1]), s[2], st, q, forcado, m);
    lemma_faz_push(c, e.push(s[0]), s[1], st, q, forcado, m);
    lemma_faz_push(c, e, s[0], st, q, forcado, m);
    assert(vd >= 0) by (nonlinear_arith)
        requires
            vd == d.head_v_dim * d.n_v_heads,
    ;
    lemma_vezes(vd, nt, u32::MAX as int);
    lemma_vezes(st.cfg.n_embd as int, nt, u32::MAX as int);
    assert(0 <= d.n_v_heads * nt <= d.n_v_heads * 2 * nt) by (nonlinear_arith)
        requires
            nt >= 1,
    ;
    lemma_grupos(vd * nt);
    let m1 = faz(c, s[0], st, q, forcado, m);
    let m2 = faz(c, s[1], st, q, forcado, m1);
    lemma_op_mv(
        c,
        modo,
        st,
        q,
        forcado,
        w,
        st.a.b_proj,
        x.xq,
        x.xd,
        nt,
        vd,
        st.cfg.n_embd as int,
        m2,
    );
}

} // verus!
