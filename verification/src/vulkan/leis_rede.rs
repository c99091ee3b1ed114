//! A plan, run with the meaning of each kernel, is the network.

use vstd::prelude::*;

use crate::vulkan::contas::sat;
use crate::vulkan::estado::{
    Buf, DeltaBufs, DeltaNetConfig, DnBufs, LayerQ, MixerQ, Modo, QWeight, ResidentState,
    VERIFY_TOK,
};
use crate::vulkan::gravacao::{cmd_saida, cmds_ate, passo_gravado, CmdM, Passo};
use crate::vulkan::leis_plano::{lemma_slot, valido};
use crate::vulkan::leis_sentido::{
    cabe_nos_nucleos, faz, faz_todas, lemma_cmds_ate, lemma_dn_fim, lemma_faz_concat,
    lemma_faz_push, lemma_grupos, lemma_kv, lemma_op_atencao, lemma_op_bias, lemma_op_conv,
    lemma_op_delta, lemma_op_gates, lemma_op_l2, lemma_op_mv, lemma_op_qk_norm, lemma_op_quantiza,
    lemma_op_rope, lemma_op_saida, lemma_op_swiglu, lemma_ops_norma, lemma_roda_concat,
    lemma_roda_um, lemma_vezes, normado, tem_nucleo,
};
use crate::vulkan::ops::OpM;
use crate::vulkan::pipelines::Compilacao;
use crate::vulkan::plano::{
    camadas, delta_ok, desloc_da_camada, op_atencao, op_bias, op_dn_conv, op_dn_delta, op_dn_gates,
    op_dn_l2, op_mv, op_mv_bloco, op_qk_norm, op_quantiza, op_rope, op_rope_k, op_saida_atencao,
    op_swiglu, ops_atencao, ops_bias, ops_camada, ops_camadas, ops_conv_ate, ops_delta,
    ops_delta_verify, ops_dn_fim, ops_dn_inicio, ops_estado_ate, ops_ffn, ops_fim, ops_gates_ate,
    ops_l2_ate, ops_norma, ops_projecoes, ops_qk, planejavel, plano, rodou,
};
use crate::vulkan::rede::{
    camada_de_atencao, camada_linear, camada_linear_por_token, camada_roda, camadas_rodadas,
    com_bias, com_residuo, convolucoes, decaimentos, do_ultimo_token, entrada_roda, fim_da_camada,
    fim_roda, fixos_da_camada, linear, normada, normas_l2, numerados, projetadas, recorrencias,
    recorrentes_da_camada, so_muda, talvez_lido,
};
use crate::vulkan::sentido::{
    convolucao, efeito_cmd, escalas, escreve, inteiros, le, lemma_lido, lemma_trocado,
    norma_cabecas, porta, roda, soma, swiglu, trocado, Termo,
};

verus! {

/// That the weights of a layer are of types with a kernel.
pub open spec fn tipos_da_camada(q: LayerQ) -> bool {
    &&& tem_nucleo(q.ffn_gate.ty)
    &&& tem_nucleo(q.ffn_up.ty)
    &&& tem_nucleo(q.ffn_down.ty)
    &&& match q.mixer {
        MixerQ::Attn { attn_q, attn_k, attn_v, attn_output } => tem_nucleo(attn_q.ty)
            && tem_nucleo(attn_k.ty) && tem_nucleo(attn_v.ty) && tem_nucleo(attn_output.ty),
        MixerQ::Delta { attn_qkv, attn_gate, ssm_out } => tem_nucleo(attn_qkv.ty) && tem_nucleo(
            attn_gate.ty,
        ) && tem_nucleo(ssm_out.ty),
    }
}

/// That a step can be run: the plan fits the pipelines and the numbers their
/// words, the weights have kernels, and the block is in the cache.
pub open spec fn rodavel(st: ResidentState, c: Compilacao, modo: Modo, q: Passo) -> bool {
    let nt = modo.tokens(st.cfg);
    &&& valido(st, c, modo)
    &&& cabe_nos_nucleos(st, nt)
    &&& tem_nucleo(st.output_w.ty)
    &&& forall|l: int| 0 <= l < st.qw@.len() ==> tipos_da_camada(#[trigger] st.qw@[l])
    &&& q.n_tok == nt
    &&& nt <= q.pos + 1
    &&& q.pos < st.cfg.ctx <= u32::MAX
}

/// A product of the block with the common quantized activation.
proof fn lemma_bloco(
    c: Compilacao,
    modo: Modo,
    st: ResidentState,
    q: Passo,
    forcado: u32,
    w: QWeight,
    dst: Buf,
    x: Termo,
    n_in: int,
    n_out: int,
    m0: Map<u64, Termo>,
    m: Map<u64, Termo>,
)
    requires
        rodavel(st, c, modo, q),
        0 <= n_in <= u32::MAX,
        0 <= n_out,
        n_out * modo.tokens(st.cfg) * 4 <= u32::MAX,
        tem_nucleo(w.ty),
        m[w.gpu.buffer] == m0[w.gpu.buffer],
        le(m, st.a.b_xq.todo()) == inteiros(x, n_in * modo.tokens(st.cfg)),
        le(m, st.a.b_xd.todo()) == escalas(x, n_in * modo.tokens(st.cfg)),
    ensures
        ({
            let nt = modo.tokens(st.cfg);
            faz(c, op_mv_bloco(st, c.k, modo, nt, w, dst, n_in, n_out), st, q, forcado, m)
                == escreve(m, dst.ate(n_out * nt), linear(m0, w, x, n_in, n_out, nt))
        }),
{
    reveal(op_mv_bloco);
    let nt = modo.tokens(st.cfg);
    lemma_vezes(n_out, nt, u32::MAX as int);
    lemma_op_mv(c, modo, st, q, forcado, w, dst, st.a.b_xq, st.a.b_xd, nt, n_in, n_out, m);
}

/// The numbers of what a feed-forward block writes.
pub open spec fn escritos_ffn(k: int) -> bool {
    k == 4 || k == 5 || k == 6 || k == 13 || k == 14 || k == 15 || k == 17 || k == 18 || k == 19
}

pub(crate) proof fn lemma_ffn(
    st: ResidentState,
    c: Compilacao,
    modo: Modo,
    q: Passo,
    forcado: u32,
    n: Map<u64, int>,
    l: int,
    m: Map<u64, Termo>,
)
    requires
        rodavel(st, c, modo, q),
        numerados(st, n),
        0 <= l < st.qw@.len(),
    ensures
        ({
            let nt = modo.tokens(st.cfg);
            let r = faz_todas(c, ops_ffn(st, c.k, modo, nt, l), st, q, forcado, m);
            let k = st.cfg.n_embd * nt;
            &&& fim_da_camada(
                st,
                m,
                r,
                l,
                nt,
                le(m, st.a.b_x.ate(k)),
                le(m, st.a.b_proj.ate(k)),
            )
            &&& so_muda(m, r, n, |i: int| escritos_ffn(i))
        }),
{
    broadcast use lemma_lido;

    let f = st.cfg;
    let a = st.a;
    let nt = modo.tokens(f);
    let k = f.n_embd * nt;
    let w = st.qw@[l];
    let ne = f.n_embd as int;
    let nf = f.n_ff as int;
    assert(fixos_da_camada(w, st.aux@[l], n));
    assert(tipos_da_camada(w));
    lemma_vezes(ne, nt, u32::MAX as int);
    lemma_vezes(nf, nt, u32::MAX as int);
    let norm = ops_norma(st, nt, a.b_proj, st.aux@[l].ffn_norm, true);
    let o1 = op_mv_bloco(st, c.k, modo, nt, w.ffn_gate, a.b_gate, ne, nf);
    let o2 = op_mv_bloco(st, c.k, modo, nt, w.ffn_up, a.b_up, ne, nf);
    let o3 = op_swiglu(st, nt);
    let o4 = op_mv_bloco(st, c.k, modo, nt, w.ffn_down, a.b_ffn, nf, ne);
    let s = ops_ffn(st, c.k, modo, nt, l);
    assert(s =~= norm.push(o1).push(o2).push(o3).push(o4));
    lemma_faz_push(c, norm.push(o1).push(o2).push(o3), o4, st, q, forcado, m);
    lemma_faz_push(c, norm.push(o1).push(o2), o3, st, q, forcado, m);
    lemma_faz_push(c, norm.push(o1), o2, st, q, forcado, m);
    lemma_faz_push(c, norm, o1, st, q, forcado, m);
    lemma_ops_norma(c, st, nt, q, forcado, a.b_proj, st.aux@[l].ffn_norm, true, m);
    let m1 = normado(st, nt, a.b_proj, st.aux@[l].ffn_norm, true, m);
    let y = soma(le(m, a.b_x.ate(k)), le(m, a.b_proj.ate(k)), k);
    let h = normada(st, m, y, st.aux@[l].ffn_norm, nt);
    assert(le(m1, a.b_x.ate(k)) == y);
    assert(le(m1, a.b_xq.todo()) == inteiros(h, k));
    assert(le(m1, a.b_xd.todo()) == escalas(h, k));
    lemma_bloco(c, modo, st, q, forcado, w.ffn_gate, a.b_gate, h, ne, nf, m, m1);
    let gate = linear(m, w.ffn_gate, h, ne, nf, nt);
    let m2 = escreve(m1, a.b_gate.ate(nf * nt), gate);
    lemma_bloco(c, modo, st, q, forcado, w.ffn_up, a.b_up, h, ne, nf, m, m2);
    let up = linear(m, w.ffn_up, h, ne, nf, nt);
    let m3 = escreve(m2, a.b_up.ate(nf * nt), up);
    assert(le(m3, a.b_gate.ate(nf * nt)) == gate);
    assert(le(m3, a.b_up.ate(nf * nt)) == up);
    lemma_op_swiglu(c, st, nt, q, forcado, m3);
    let x = swiglu(gate, up, nf * nt);
    let m4 = faz(c, o3, st, q, forcado, m3);
    assert(le(m4, a.b_xq.todo()) == inteiros(x, nf * nt));
    assert(le(m4, a.b_xd.todo()) == escalas(x, nf * nt));
    lemma_bloco(c, modo, st, q, forcado, w.ffn_down, a.b_ffn, x, nf, ne, m, m4);
}

// ---------------------------------------------------------------------------
// Attention
// ---------------------------------------------------------------------------

/// The bias of each token of the block.
proof fn lemma_bias(
    st: ResidentState,
    c: Compilacao,
    q: Passo,
    forcado: u32,
    dst: Buf,
    b: Option<Buf>,
    dim: int,
    nt: int,
    t: int,
    m: Map<u64, Termo>,
)
    requires
        0 <= t <= nt,
        0 <= dim,
        1 <= nt,
        dim * nt * 4 <= u32::MAX,
        b matches Some(x) ==> x.buffer != dst.buffer,
    ensures
        ({
            let r = faz_todas(c, ops_bias(dst, b, dim, t), st, q, forcado, m);
            &&& r[dst.buffer] == com_bias(m[dst.buffer], talvez_lido(m, b), dim, t)
            &&& forall|k: u64| k != dst.buffer ==> #[trigger] r[k] == m[k]
        }),
    decreases t,
{
    if let Some(x) = b {
        if t > 0 {
            lemma_bias(st, c, q, forcado, dst, b, dim, nt, t - 1, m);
            let ops = ops_bias(dst, b, dim, t - 1);
            let m1 = faz_todas(c, ops, st, q, forcado, m);
            lemma_faz_push(c, ops, op_bias(dst, x, dim, t - 1), st, q, forcado, m);
            lemma_vezes(dim, nt, u32::MAX as int);
            assert(0 <= (t - 1) * dim <= dim * nt) by (nonlinear_arith)
                requires
                    0 <= t - 1 <= nt,
                    0 <= dim,
            ;
            lemma_op_bias(c, st, q, forcado, dst, x, dim, t - 1, m1);
        }
    }
}

#[verifier::rlimit(40)]
proof fn lemma_projecoes(
    st: ResidentState,
    c: Compilacao,
    modo: Modo,
    q: Passo,
    forcado: u32,
    n: Map<u64, int>,
    l: int,
    h: Termo,
    m0: Map<u64, Termo>,
    m: Map<u64, Termo>,
)
    requires
        rodavel(st, c, modo, q),
        numerados(st, n),
        0 <= l < st.qw@.len(),
        st.qw@[l].mixer is Attn,
        le(m, st.a.b_xq.todo()) == inteiros(h, st.cfg.n_embd * modo.tokens(st.cfg)),
        le(m, st.a.b_xd.todo()) == escalas(h, st.cfg.n_embd * modo.tokens(st.cfg)),
        so_muda(m0, m, n, |i: int| i == 4 || i == 5 || i == 6 || i == 18 || i == 19),
    ensures
        ({
            let f = st.cfg;
            let nt = modo.tokens(f);
            let x = st.qw@[l].mixer;
            let w = (x->attn_q, x->attn_k, x->attn_v, x->attn_output);
            let p = projetadas(st, m0, w, st.aux@[l], h, nt);
            let r = faz_todas(
                c,
                ops_projecoes(st, c.k, modo, nt, l, (w.0, w.1, w.2)),
                st,
                q,
                forcado,
                m,
            );
            &&& le(r, st.a.b_q.ate(f.q_out() * nt)) == p.0
            &&& le(r, st.a.b_k.ate(f.kv_dim * nt)) == p.1
            &&& le(r, st.a.b_v.ate(f.kv_dim * nt)) == p.2
            &&& so_muda(m, r, n, |i: int| i == 7 || i == 8 || i == 9)
        }),
{
    broadcast use lemma_lido;

    let f = st.cfg;
    let a = st.a;
    let nt = modo.tokens(f);
    let la = st.aux@[l];
    let x = st.qw@[l].mixer;
    let w = (x->attn_q, x->attn_k, x->attn_v, x->attn_output);
    let ne = f.n_embd as int;
    let qo = f.q_out();
    let kvd = f.kv_dim as int;
    assert(fixos_da_camada(st.qw@[l], la, n));
    assert(tipos_da_camada(st.qw@[l]));
    assert(qo >= 0) by {
        assert(f.head_dim * f.n_head >= 0) by (nonlinear_arith);
    }
    lemma_vezes(ne, nt, u32::MAX as int);
    lemma_vezes(qo, nt, u32::MAX as int);
    lemma_vezes(kvd, nt, u32::MAX as int);
    let e = Seq::<OpM>::empty();
    let o1 = op_mv_bloco(st, c.k, modo, nt, w.0, a.b_q, ne, qo);
    let o2 = op_mv_bloco(st, c.k, modo, nt, w.1, a.b_k, ne, kvd);
    let o3 = op_mv_bloco(st, c.k, modo, nt, w.2, a.b_v, ne, kvd);
    let s0 = e.push(o1).push(o2).push(o3);
    let s1 = ops_qk(st, nt, l);
    let s2 = ops_bias(a.b_q, la.q_bias, ne, nt);
    let s3 = ops_bias(a.b_k, la.k_bias, kvd, nt);
    let s4 = ops_bias(a.b_v, la.v_bias, kvd, nt);
    assert(ops_projecoes(st, c.k, modo, nt, l, (w.0, w.1, w.2)) == s0 + s1 + s2 + s3 + s4);
    lemma_faz_concat(c, s0 + s1 + s2 + s3, s4, st, q, forcado, m);
    lemma_faz_concat(c, s0 + s1 + s2, s3, st, q, forcado, m);
    lemma_faz_concat(c, s0 + s1, s2, st, q, forcado, m);
    lemma_faz_concat(c, s0, s1, st, q, forcado, m);
    lemma_faz_push(c, e.push(o1).push(o2), o3, st, q, forcado, m);
    lemma_faz_push(c, e.push(o1), o2, st, q, forcado, m);
    lemma_faz_push(c, e, o1, st, q, forcado, m);
    lemma_bloco(c, modo, st, q, forcado, w.0, a.b_q, h, ne, qo, m0, m);
    let q0 = linear(m0, w.0, h, ne, qo, nt);
    let m1 = escreve(m, a.b_q.ate(qo * nt), q0);
    lemma_bloco(c, modo, st, q, forcado, w.1, a.b_k, h, ne, kvd, m0, m1);
    let k0 = linear(m0, w.1, h, ne, kvd, nt);
    let m2 = escreve(m1, a.b_k.ate(kvd * nt), k0);
    lemma_bloco(c, modo, st, q, forcado, w.2, a.b_v, h, ne, kvd, m0, m2);
    let v0 = linear(m0, w.2, h, ne, kvd, nt);
    let m3 = escreve(m2, a.b_v.ate(kvd * nt), v0);
    // The norms of the heads.
    let m4 = faz_todas(c, s1, st, q, forcado, m3);
    let (q1, k1) = match (la.q_norm, la.k_norm) {
        (Some(y), Some(z)) => (
            norma_cabecas(
                q0,
                le(m0, y.todo()),
                f.head_dim as int,
                f.n_head * nt,
                f.head_dim * 2,
                f.rms_eps as int,
            ),
            norma_cabecas(
                k0,
                le(m0, z.todo()),
                f.head_dim as int,
                f.n_head_kv * nt,
                f.head_dim as int,
                f.rms_eps as int,
            ),
        ),
        _ => (q0, k0),
    };
    let nq = qo * nt;
    let nk = kvd * nt;
    assert({
        &&& m4[a.b_q.buffer] == trocado(m0[a.b_q.buffer], 0, nq * 4, q1)
        &&& m4[a.b_k.buffer] == trocado(m0[a.b_k.buffer], 0, nk * 4, k1)
        &&& m4[a.b_v.buffer] == trocado(m0[a.b_v.buffer], 0, nk * 4, v0)
        &&& forall|b: u64|
            b != a.b_q.buffer && b != a.b_k.buffer && b != a.b_v.buffer ==> #[trigger] m4[b] == m[b]
    }) by {
        if let (Some(y), Some(z)) = (la.q_norm, la.k_norm) {
            let n1 = op_qk_norm(f, a.b_q, y, nq, f.n_head * nt, f.head_dim * 2);
            let n2 = op_qk_norm(f, a.b_k, z, nk, f.n_head_kv * nt, f.head_dim as int);
            assert(s1 =~= e.push(n1).push(n2));
            lemma_faz_push(c, e.push(n1), n2, st, q, forcado, m3);
            lemma_faz_push(c, e, n1, st, q, forcado, m3);
            assert(f.n_head * nt >= 0 && f.n_head_kv * nt >= 0) by (nonlinear_arith)
                requires
                    nt >= 1,
            ;
            lemma_op_qk_norm(c, st, q, forcado, a.b_q, y, nq, f.n_head * nt, f.head_dim * 2, m3);
            let m31 = faz(c, n1, st, q, forcado, m3);
            assert(le(m3, a.b_q.ate(nq)) == q0);
            assert(le(m31, a.b_k.ate(nk)) == k0);
            lemma_op_qk_norm(
                c,
                st,
                q,
                forcado,
                a.b_k,
                z,
                nk,
                f.n_head_kv * nt,
                f.head_dim as int,
                m31,
            );
            lemma_trocado(m0[a.b_q.buffer], 0, nq * 4, q0, q1);
            lemma_trocado(m0[a.b_k.buffer], 0, nk * 4, k0, k1);
        }
    }
    // The biases.
    lemma_bias(st, c, q, forcado, a.b_q, la.q_bias, ne, nt, nt, m4);
    let m5 = faz_todas(c, s2, st, q, forcado, m4);
    lemma_bias(st, c, q, forcado, a.b_k, la.k_bias, kvd, nt, nt, m5);
    let m6 = faz_todas(c, s3, st, q, forcado, m5);
    lemma_bias(st, c, q, forcado, a.b_v, la.v_bias, kvd, nt, nt, m6);
    assert(talvez_lido(m4, la.q_bias) == talvez_lido(m0, la.q_bias));
    assert(talvez_lido(m5, la.k_bias) == talvez_lido(m0, la.k_bias));
    assert(talvez_lido(m6, la.v_bias) == talvez_lido(m0, la.v_bias));
}

/// The numbers of what an attention layer writes.
pub open spec fn escritos_atencao(k: int) -> bool {
    k == 2 || k == 3 || 7 <= k <= 12 || k == 18 || k == 19
}

#[verifier::rlimit(60)]
proof fn lemma_atencao(
    st: ResidentState,
    c: Compilacao,
    modo: Modo,
    q: Passo,
    forcado: u32,
    n: Map<u64, int>,
    l: int,
    h: Termo,
    m0: Map<u64, Termo>,
    m: Map<u64, Termo>,
)
    requires
        rodavel(st, c, modo, q),
        numerados(st, n),
        0 <= l < st.qw@.len(),
        st.qw@[l].mixer is Attn,
        le(m, st.a.b_xq.todo()) == inteiros(h, st.cfg.n_embd * modo.tokens(st.cfg)),
        le(m, st.a.b_xd.todo()) == escalas(h, st.cfg.n_embd * modo.tokens(st.cfg)),
        so_muda(m0, m, n, |i: int| i == 4 || i == 5 || i == 6 || i == 18 || i == 19),
    ensures
        ({
            let f = st.cfg;
            let nt = modo.tokens(f);
            let x = st.qw@[l].mixer;
            let w = (x->attn_q, x->attn_k, x->attn_v, x->attn_output);
            let y = camada_de_atencao(st, m0, w, st.aux@[l], h, st.slot(l), q, nt);
            let r = faz_todas(c, ops_atencao(st, c.k, modo, nt, l), st, q, forcado, m);
            &&& le(r, st.a.b_proj.ate(f.n_embd * nt)) == y.saida
            &&& r[st.a.kcache.buffer] == y.kcache
            &&& r[st.a.vcache.buffer] == y.vcache
            &&& so_muda(m, r, n, |i: int| escritos_atencao(i))
        }),
{
    broadcast use lemma_lido;

    let f = st.cfg;
    let a = st.a;
    let nt = modo.tokens(f);
    let la = st.aux@[l];
    let x = st.qw@[l].mixer;
    let w = (x->attn_q, x->attn_k, x->attn_v, x->attn_output);
    let ne = f.n_embd as int;
    let y = camada_de_atencao(st, m0, w, la, h, st.slot(l), q, nt);
    let pr = projetadas(st, m0, w, la, h, nt);
    assert(fixos_da_camada(st.qw@[l], la, n));
    assert(tipos_da_camada(st.qw@[l]));
    assert(f.head_dim * f.n_head >= 0) by (nonlinear_arith);
    lemma_vezes(ne, nt, u32::MAX as int);
    lemma_vezes(f.attn_dim(), nt, u32::MAX as int);
    lemma_vezes(f.q_out(), nt, u32::MAX as int);
    lemma_vezes(f.kv_dim as int, nt, u32::MAX as int);
    lemma_vezes(f.n_head as int, nt, u32::MAX as int);
    lemma_vezes(f.n_head_kv as int, nt, u32::MAX as int);
    lemma_slot(st, l);
    let s0 = ops_projecoes(st, c.k, modo, nt, l, (w.0, w.1, w.2));
    let o1 = op_rope(st, nt, a.b_q, f.q_out() * nt, f.n_head as int, f.q_passo());
    let o2 = op_rope_k(st, c.k, nt, l);
    let o3 = OpM::KvAppend { slot: st.slot(l) as usize, com_k: !c.k.rope_kv };
    let o4 = op_atencao(st, nt, a.kcache, a.vcache, desloc_da_camada(st, l));
    let o5 = op_saida_atencao(st, nt);
    let o6 = op_mv_bloco(st, c.k, modo, nt, w.3, a.b_proj, f.attn_dim(), ne);
    let s1 = s0.push(o1);
    let s2 = s1.push(o2);
    let s3 = s2.push(o3);
    let s4 = s3.push(o4);
    let s5 = s4.push(o5);
    assert(ops_atencao(st, c.k, modo, nt, l) =~= s5.push(o6));
    lemma_faz_push(c, s5, o6, st, q, forcado, m);
    lemma_faz_push(c, s4, o5, st, q, forcado, m);
    lemma_faz_push(c, s3, o4, st, q, forcado, m);
    lemma_faz_push(c, s2, o3, st, q, forcado, m);
    lemma_faz_push(c, s1, o2, st, q, forcado, m);
    lemma_faz_push(c, s0, o1, st, q, forcado, m);
    lemma_projecoes(st, c, modo, q, forcado, n, l, h, m0, m);
    let m1 = faz_todas(c, s0, st, q, forcado, m);
    lemma_op_rope(
        c,
        st,
        nt,
        q,
        forcado,
        a.b_q,
        f.q_out() * nt,
        f.n_head as int,
        f.q_passo(),
        m1,
    );
    let m2 = faz(c, o1, st, q, forcado, m1);
    assert(le(m2, a.b_q.ate(f.q_out() * nt)) == y.q);
    assert(le(m2, a.b_k.ate(f.kv_dim * nt)) == pr.1);
    assert(le(m2, a.b_v.ate(f.kv_dim * nt)) == pr.2);
    let m4 = faz(c, o3, st, q, forcado, faz(c, o2, st, q, forcado, m2));
    assert forall|b: u64|
        b != a.b_k.buffer && b != a.kcache.buffer && b != a.vcache.buffer implies #[trigger] m4[b]
        == m2[b] by {
        lemma_kv(c, st, c.k, nt, l, q, forcado, m2, b);
    }
    lemma_kv(c, st, c.k, nt, l, q, forcado, m2, a.b_q.buffer);
    assert(m4[a.kcache.buffer] == y.kcache);
    assert(m4[a.vcache.buffer] == y.vcache);
    assert(le(m4, a.b_q.ate(f.q_out() * nt)) == y.q);
    let m5 = faz(c, o4, st, q, forcado, m4);
    let off = desloc_da_camada(st, l);
    assert forall|b: u64|
        b != a.b_attn.buffer && b != a.b_attn_split.buffer implies #[trigger] m5[b] == m4[b] by {
        lemma_op_atencao(c, st, nt, q, forcado, a.kcache, a.vcache, off, m4, b);
    }
    lemma_op_atencao(c, st, nt, q, forcado, a.kcache, a.vcache, off, m4, a.b_q.buffer);
    let m6 = faz(c, o5, st, q, forcado, m5);
    assert forall|b: u64|
        b != a.b_attn.buffer && b != a.b_xq.buffer && b != a.b_xd.buffer implies #[trigger] m6[b]
        == m5[b] by {
        lemma_op_saida(c, st, nt, q, forcado, m5, b);
    }
    lemma_op_saida(c, st, nt, q, forcado, m5, a.b_q.buffer);
    let at = le(m5, a.b_attn.ate(f.attn_dim() * nt));
    let g = if f.delta_net is Some {
        porta(at, y.q, f.attn_dim() * nt, f.head_dim as int)
    } else {
        at
    };
    assert(le(m6, a.b_xq.todo()) == inteiros(g, f.attn_dim() * nt));
    assert(m6[w.3.gpu.buffer] == m0[w.3.gpu.buffer]);
    lemma_bloco(c, modo, st, q, forcado, w.3, a.b_proj, g, f.attn_dim(), ne, m0, m6);
}

// ---------------------------------------------------------------------------
// Linear attention
// ---------------------------------------------------------------------------

/// The numbers of what a linear-attention layer writes.
pub open spec fn escritos_linear(k: int, l: int) -> bool {
    k == 12 || 21 <= k <= 30 || 100 + 10 * l <= k <= 103 + 10 * l
}

#[verifier::rlimit(60)]
proof fn lemma_linear(
    st: ResidentState,
    c: Compilacao,
    modo: Modo,
    q: Passo,
    forcado: u32,
    n: Map<u64, int>,
    l: int,
    d: DeltaNetConfig,
    x: DnBufs,
    da: DeltaBufs,
    h: Termo,
    m0: Map<u64, Termo>,
    m: Map<u64, Termo>,
)
    requires
        rodavel(st, c, modo, q),
        numerados(st, n),
        0 <= l < st.qw@.len(),
        st.qw@[l].mixer is Delta,
        !(modo is Verify),
        st.cfg.delta_net == Some(d),
        st.a.dn == Some(x),
        st.aux@[l].delta == Some(da),
        le(m, st.a.b_xq.todo()) == inteiros(h, st.cfg.n_embd * modo.tokens(st.cfg)),
        le(m, st.a.b_xd.todo()) == escalas(h, st.cfg.n_embd * modo.tokens(st.cfg)),
        le(m, st.a.b_normed.ate(st.cfg.n_embd * modo.tokens(st.cfg))) == h,
        so_muda(m0, m, n, |i: int| i == 4 || i == 5 || i == 6 || i == 18 || i == 19),
    ensures
        ({
            let f = st.cfg;
            let nt = modo.tokens(f);
            let k = st.qw@[l].mixer;
            let w = (k->attn_qkv, k->attn_gate, k->ssm_out);
            let y = camada_linear(st, m0, w, d, x, da, h, nt);
            let r = faz_todas(c, ops_delta(st, c.k, modo, nt, l), st, q, forcado, m);
            &&& le(r, st.a.b_proj.ate(f.n_embd * nt)) == y.saida
            &&& le(r, da.estado.todo()) == y.estado
            &&& le(r, da.janela.todo()) == y.janela
            &&& so_muda(m, r, n, |i: int| escritos_linear(i, l))
        }),
{
    broadcast use lemma_lido;

    let f = st.cfg;
    let a = st.a;
    let nt = modo.tokens(f);
    let k = st.qw@[l].mixer;
    let w = (k->attn_qkv, k->attn_gate, k->ssm_out);
    let ne = f.n_embd as int;
    let cd = d.conv_dim();
    let kd = d.key_dim();
    let vd = d.value_dim();
    let y = camada_linear(st, m0, w, d, x, da, h, nt);
    assert(fixos_da_camada(st.qw@[l], st.aux@[l], n));
    assert(recorrentes_da_camada(st.aux@[l], l, n));
    assert(tipos_da_camada(st.qw@[l]));
    assert(kd >= 0 && vd >= 0) by (nonlinear_arith)
        requires
            kd == d.d_state * d.n_k_heads,
            vd == d.head_v_dim * d.n_v_heads,
    ;
    assert(cd == 2 * kd + vd) by (nonlinear_arith)
        requires
            kd == d.d_state * d.n_k_heads,
            vd == d.head_v_dim * d.n_v_heads,
            cd == d.d_state * d.n_k_heads * 2 + d.head_v_dim * d.n_v_heads,
    ;
    lemma_vezes(ne, nt, u32::MAX as int);
    lemma_vezes(cd, nt, u32::MAX as int);
    lemma_vezes(kd, nt, u32::MAX as int);
    lemma_vezes(vd, nt, u32::MAX as int);
    lemma_vezes(d.n_v_heads * 2, nt, u32::MAX as int);
    let e = Seq::<OpM>::empty();
    let o1 = op_mv_bloco(st, c.k, modo, nt, w.0, x.qkv, ne, cd);
    let o2 = op_mv_bloco(st, c.k, modo, nt, w.1, x.z, ne, vd);
    let o3 = op_dn_gates(st, d, x, da, 0, nt);
    let o4 = op_dn_conv(d, x, da, 0, nt);
    let o5 = op_dn_l2(f, d, x, 0, nt, cd * nt, sat(cd));
    let o6 = op_dn_delta(d, x, da, 0, nt, cd * nt - 2 * kd, sat(cd));
    let s1 = e.push(o1);
    let s2 = s1.push(o2);
    let s3 = s2.push(o3);
    let s4 = s3.push(o4);
    let s5 = s4.push(o5);
    let s6 = s5.push(o6);
    let fim = ops_dn_fim(st, c.k, modo, nt, d, x, da, w.2);
    assert(ops_delta(st, c.k, modo, nt, l) =~= s6 + fim);
    lemma_faz_concat(c, s6, fim, st, q, forcado, m);
    lemma_faz_push(c, s5, o6, st, q, forcado, m);
    lemma_faz_push(c, s4, o5, st, q, forcado, m);
    lemma_faz_push(c, s3, o4, st, q, forcado, m);
    lemma_faz_push(c, s2, o3, st, q, forcado, m);
    lemma_faz_push(c, s1, o2, st, q, forcado, m);
    lemma_faz_push(c, e, o1, st, q, forcado, m);
    lemma_bloco(c, modo, st, q, forcado, w.0, x.qkv, h, ne, cd, m0, m);
    let qkv = linear(m0, w.0, h, ne, cd, nt);
    let m1 = escreve(m, x.qkv.ate(cd * nt), qkv);
    lemma_bloco(c, modo, st, q, forcado, w.1, x.z, h, ne, vd, m0, m1);
    let z = linear(m0, w.1, h, ne, vd, nt);
    let m2 = escreve(m1, x.z.ate(vd * nt), z);
    assert(st.a.b_normed.em(0, ne * nt) == st.a.b_normed.ate(ne * nt));
    assert(x.qkv.em(0, cd * nt) == x.qkv.ate(cd * nt));
    assert(le(m2, st.a.b_normed.ate(ne * nt)) == h);
    lemma_op_gates(c, st, d, x, da, 0, nt, q, forcado, m2);
    let m3 = faz(c, o3, st, q, forcado, m2);
    let gb = le(m3, x.gb.em(0, d.n_v_heads * 2 * nt));
    assert(le(m3, x.qkv.em(0, cd * nt)) == qkv);
    lemma_op_conv(c, st, d, x, da, 0, nt, q, forcado, m3);
    let m4 = faz(c, o4, st, q, forcado, m3);
    let conv = convolucao(
        le(m0, da.janela.todo()),
        qkv,
        le(m0, da.conv1d.todo()),
        cd,
        d.d_conv as int,
        nt,
    );
    assert(m4[x.conv.buffer] == trocado(m0[x.conv.buffer], 0, cd * nt * 4, conv));
    assert(le(m4, x.conv.em(0, cd * nt)) == conv);
    lemma_op_l2(c, st, d, x, 0, nt, cd * nt, sat(cd), q, forcado, m4);
    let m5 = faz(c, o5, st, q, forcado, m4);
    assert(m5[x.conv.buffer] == m4[x.conv.buffer]);
    lemma_op_delta(c, st, d, x, da, 0, nt, cd * nt - 2 * kd, sat(cd), q, forcado, m5);
    let m6 = faz(c, o6, st, q, forcado, m5);
    assert(le(m5, x.gb.em(0, d.n_v_heads * 2 * nt)) == gb);
    assert(x.out.em(0, vd * nt) == x.out.ate(vd * nt));
    assert(le(m6, da.estado.todo()) == y.estado);
    assert(le(m6, da.janela.todo()) == y.janela);
    assert(le(m6, x.z.ate(vd * nt)) == z);
    let r = faz_todas(c, fim, st, q, forcado, m6);
    assert forall|b: u64|
        b != x.normed.buffer && b != x.xq.buffer && b != x.xd.buffer && b
            != a.b_proj.buffer implies #[trigger] r[b] == m6[b] by {
        lemma_dn_fim(c, modo, st, d, x, da, w.2, q, forcado, m6, b);
    }
    lemma_dn_fim(c, modo, st, d, x, da, w.2, q, forcado, m6, a.b_q.buffer);
}

// ---------------------------------------------------------------------------
// Linear attention token by token
// ---------------------------------------------------------------------------

/// That a token's share of a block can be measured.
proof fn lemma_linha(dim: int, nt: int, t: int)
    requires
        0 <= dim,
        0 <= t < nt,
        dim * nt * 4 <= u32::MAX,
    ensures
        0 <= t * dim * 4 <= u32::MAX,
        0 <= t * dim,
        t * dim + dim <= dim * nt,
        0 <= dim * 4 <= u32::MAX,
{
    assert(0 <= t * dim) by (nonlinear_arith)
        requires
            0 <= t,
            0 <= dim,
    ;
    assert(t * dim + dim <= dim * nt) by (nonlinear_arith)
        requires
            t + 1 <= nt,
            0 <= dim,
    ;
}

proof fn lemma_gates_ate(
    st: ResidentState,
    c: Compilacao,
    q: Passo,
    forcado: u32,
    d: DeltaNetConfig,
    x: DnBufs,
    da: DeltaBufs,
    t: int,
    m0: Map<u64, Termo>,
    m: Map<u64, Termo>,
)
    requires
        cabe_nos_nucleos(st, VERIFY_TOK as int),
        st.cfg.delta_net == Some(d),
        0 <= t <= VERIFY_TOK,
        m[da.alpha.buffer] == m0[da.alpha.buffer],
        m[da.beta.buffer] == m0[da.beta.buffer],
        m[da.adt.buffer] == m0[da.adt.buffer],
        x.gb.buffer != da.alpha.buffer,
        x.gb.buffer != da.beta.buffer,
        x.gb.buffer != da.adt.buffer,
        x.gb.buffer != st.a.b_normed.buffer,
    ensures
        ({
            let r = faz_todas(c, ops_gates_ate(st, d, x, da, t), st, q, forcado, m);
            &&& r[x.gb.buffer] == decaimentos(
                st,
                m0,
                d,
                da,
                m[st.a.b_normed.buffer],
                m[x.gb.buffer],
                t,
            )
            &&& forall|b: u64| b != x.gb.buffer ==> #[trigger] r[b] == m[b]
        }),
    decreases t,
{
    if t > 0 {
        let i = t - 1;
        lemma_gates_ate(st, c, q, forcado, d, x, da, i, m0, m);
        let s = ops_gates_ate(st, d, x, da, i);
        let o = op_dn_gates(st, d, x, da, i, 1);
        lemma_faz_push(c, s, o, st, q, forcado, m);
        lemma_linha(st.cfg.n_embd as int, VERIFY_TOK as int, i);
        lemma_linha(d.n_v_heads * 2, VERIFY_TOK as int, i);
        lemma_op_gates(c, st, d, x, da, i, 1, q, forcado, faz_todas(c, s, st, q, forcado, m));
    }
}

proof fn lemma_conv_ate(
    st: ResidentState,
    c: Compilacao,
    q: Passo,
    forcado: u32,
    d: DeltaNetConfig,
    x: DnBufs,
    da: DeltaBufs,
    t: int,
    m0: Map<u64, Termo>,
    m: Map<u64, Termo>,
    n: Map<u64, int>,
    l: int,
)
    requires
        cabe_nos_nucleos(st, VERIFY_TOK as int),
        st.cfg.delta_net == Some(d),
        0 <= t <= VERIFY_TOK,
        numerados(st, n),
        st.a.dn == Some(x),
        0 <= l < st.aux@.len(),
        st.completo(),
        st.aux@[l].delta == Some(da),
        da.janela_snap@.len() == VERIFY_TOK - 1,
        m[da.janela.buffer] == m0[da.janela.buffer],
        m[da.conv1d.buffer] == m0[da.conv1d.buffer],
        d.conv_dim() >= 0,
    ensures
        ({
            let r = faz_todas(c, ops_conv_ate(d, x, da, t), st, q, forcado, m);
            let y = convolucoes(m0, d, da, m[x.qkv.buffer], m[x.conv.buffer], t);
            &&& le(r, da.janela.todo()) == y.0
            &&& r[x.conv.buffer] == y.1
            &&& so_muda(m, r, n, |i: int| i == 22 || i == 101 + 10 * l || i == 103 + 10 * l)
        }),
    decreases t,
{
    broadcast use lemma_lido;

    assert(fixos_da_camada(st.qw@[l], st.aux@[l], n));
    assert(recorrentes_da_camada(st.aux@[l], l, n));
    if t > 0 {
        let i = t - 1;
        lemma_conv_ate(st, c, q, forcado, d, x, da, i, m0, m, n, l);
        let s = ops_conv_ate(d, x, da, i);
        let m1 = faz_todas(c, s, st, q, forcado, m);
        let o = op_dn_conv(d, x, da, i, 1);
        lemma_linha(d.conv_dim(), VERIFY_TOK as int, i);
        let m2 = if t > 1 {
            let k = OpM::Copia {
                src: da.janela.buffer,
                dst: da.janela_snap@[t - 2].buffer,
                bytes: da.janela.size,
            };
            lemma_faz_push(c, s, k, st, q, forcado, m);
            lemma_faz_push(c, s.push(k), o, st, q, forcado, m);
            assert(n[da.janela_snap@[t - 2].buffer] == 103 + 10 * l);
            faz(c, k, st, q, forcado, m1)
        } else {
            lemma_faz_push(c, s, o, st, q, forcado, m);
            m1
        };
        assert(so_muda(m1, m2, n, |i: int| i == 103 + 10 * l));
        lemma_op_conv(c, st, d, x, da, i, 1, q, forcado, m2);
    }
}

proof fn lemma_l2_ate(
    st: ResidentState,
    c: Compilacao,
    q: Passo,
    forcado: u32,
    d: DeltaNetConfig,
    x: DnBufs,
    t: int,
    m: Map<u64, Termo>,
)
    requires
        cabe_nos_nucleos(st, VERIFY_TOK as int),
        st.cfg.delta_net == Some(d),
        0 <= t <= VERIFY_TOK,
        x.qn.buffer != x.kn.buffer,
        x.qn.buffer != x.conv.buffer,
        x.kn.buffer != x.conv.buffer,
        d.key_dim() >= 0,
        d.conv_dim() >= 2 * d.key_dim(),
    ensures
        ({
            let r = faz_todas(c, ops_l2_ate(st.cfg, d, x, t), st, q, forcado, m);
            let y = normas_l2(
                st,
                d,
                m[x.conv.buffer],
                m[x.qn.buffer],
                m[x.kn.buffer],
                t,
            );
            &&& r[x.qn.buffer] == y.0
            &&& r[x.kn.buffer] == y.1
            &&& forall|b: u64| b != x.qn.buffer && b != x.kn.buffer ==> #[trigger] r[b] == m[b]
        }),
    decreases t,
{
    if t > 0 {
        let i = t - 1;
        lemma_l2_ate(st, c, q, forcado, d, x, i, m);
        let s = ops_l2_ate(st.cfg, d, x, i);
        let o = op_dn_l2(st.cfg, d, x, i, 1, 2 * d.key_dim(), 0u32);
        lemma_faz_push(c, s, o, st, q, forcado, m);
        lemma_linha(d.conv_dim(), VERIFY_TOK as int, i);
        lemma_linha(d.key_dim(), VERIFY_TOK as int, i);
        let m1 = faz_todas(c, s, st, q, forcado, m);
        lemma_op_l2(c, st, d, x, i, 1, 2 * d.key_dim(), 0u32, q, forcado, m1);
    }
}

#[verifier::rlimit(30)]
proof fn lemma_estado_ate(
    st: ResidentState,
    c: Compilacao,
    q: Passo,
    forcado: u32,
    d: DeltaNetConfig,
    x: DnBufs,
    da: DeltaBufs,
    t: int,
    m0: Map<u64, Termo>,
    m: Map<u64, Termo>,
    n: Map<u64, int>,
    l: int,
)
    requires
        cabe_nos_nucleos(st, VERIFY_TOK as int),
        st.cfg.delta_net == Some(d),
        0 <= t <= VERIFY_TOK,
        numerados(st, n),
        st.a.dn == Some(x),
        0 <= l < st.aux@.len(),
        st.completo(),
        st.aux@[l].delta == Some(da),
        da.estado_snap@.len() == VERIFY_TOK - 1,
        m[da.estado.buffer] == m0[da.estado.buffer],
        d.key_dim() >= 0,
        d.value_dim() >= 0,
        d.conv_dim() == 2 * d.key_dim() + d.value_dim(),
    ensures
        ({
            let r = faz_todas(c, ops_estado_ate(d, x, da, t), st, q, forcado, m);
            let y = recorrencias(
                m0,
                d,
                da,
                (m[x.qn.buffer], m[x.kn.buffer], m[x.conv.buffer], m[x.gb.buffer]),
                m[x.out.buffer],
                t,
            );
            &&& le(r, da.estado.todo()) == y.0
            &&& r[x.out.buffer] == y.1
            &&& so_muda(m, r, n, |i: int| i == 27 || i == 100 + 10 * l || i == 102 + 10 * l)
        }),
    decreases t,
{
    broadcast use lemma_lido;

    assert(fixos_da_camada(st.qw@[l], st.aux@[l], n));
    assert(recorrentes_da_camada(st.aux@[l], l, n));
    if t > 0 {
        let i = t - 1;
        lemma_estado_ate(st, c, q, forcado, d, x, da, i, m0, m, n, l);
        let s = ops_estado_ate(d, x, da, i);
        let m1 = faz_todas(c, s, st, q, forcado, m);
        let vd = d.value_dim();
        let o = op_dn_delta(d, x, da, i, 1, vd, sat(vd));
        lemma_linha(d.conv_dim(), VERIFY_TOK as int, i);
        lemma_linha(d.key_dim(), VERIFY_TOK as int, i);
        lemma_linha(vd, VERIFY_TOK as int, i);
        lemma_linha(d.n_v_heads * 2, VERIFY_TOK as int, i);
        let m2 = if t > 1 {
            let k = OpM::Copia {
                src: da.estado.buffer,
                dst: da.estado_snap@[t - 2].buffer,
                bytes: da.estado.size,
            };
            lemma_faz_push(c, s, k, st, q, forcado, m);
            lemma_faz_push(c, s.push(k), o, st, q, forcado, m);
            assert(n[da.estado_snap@[t - 2].buffer] == 102 + 10 * l);
            faz(c, k, st, q, forcado, m1)
        } else {
            lemma_faz_push(c, s, o, st, q, forcado, m);
            m1
        };
        assert(so_muda(m1, m2, n, |i: int| i == 102 + 10 * l));
        lemma_op_delta(c, st, d, x, da, i, 1, vd, sat(vd), q, forcado, m2);
    }
}

#[verifier::rlimit(60)]
proof fn lemma_linear_por_token(
    st: ResidentState,
    c: Compilacao,
    q: Passo,
    forcado: u32,
    n: Map<u64, int>,
    l: int,
    d: DeltaNetConfig,
    x: DnBufs,
    da: DeltaBufs,
    h: Termo,
    m0: Map<u64, Termo>,
    m: Map<u64, Termo>,
)
    requires
        rodavel(st, c, Modo::Verify, q),
        numerados(st, n),
        0 <= l < st.qw@.len(),
        st.qw@[l].mixer is Delta,
        st.cfg.delta_net == Some(d),
        st.a.dn == Some(x),
        st.aux@[l].delta == Some(da),
        da.estado_snap@.len() == VERIFY_TOK - 1,
        da.janela_snap@.len() == VERIFY_TOK - 1,
        le(m, st.a.b_xq.todo()) == inteiros(h, st.cfg.n_embd * VERIFY_TOK),
        le(m, st.a.b_xd.todo()) == escalas(h, st.cfg.n_embd * VERIFY_TOK),
        m[st.a.b_normed.buffer] == trocado(
            m0[st.a.b_normed.buffer],
            0,
            st.cfg.n_embd * VERIFY_TOK * 4,
            h,
        ),
        so_muda(m0, m, n, |i: int| i == 4 || i == 5 || i == 6 || i == 18 || i == 19),
    ensures
        ({
            let f = st.cfg;
            let k = st.qw@[l].mixer;
            let w = (k->attn_qkv, k->attn_gate, k->ssm_out);
            let y = camada_linear_por_token(st, m0, w, d, x, da, h);
            let r = faz_todas(c, ops_delta_verify(st, c.k, l), st, q, forcado, m);
            &&& le(r, st.a.b_proj.ate(f.n_embd * VERIFY_TOK)) == y.saida
            &&& le(r, da.estado.todo()) == y.estado
            &&& le(r, da.janela.todo()) == y.janela
            &&& so_muda(m, r, n, |i: int| escritos_linear(i, l))
        }),
{
    broadcast use lemma_lido;

    let f = st.cfg;
    let a = st.a;
    let modo = Modo::Verify;
    let nt = VERIFY_TOK as int;
    let k = st.qw@[l].mixer;
    let w = (k->attn_qkv, k->attn_gate, k->ssm_out);
    let ne = f.n_embd as int;
    let cd = d.conv_dim();
    let kd = d.key_dim();
    let vd = d.value_dim();
    let y = camada_linear_por_token(st, m0, w, d, x, da, h);
    assert(fixos_da_camada(st.qw@[l], st.aux@[l], n));
    assert(recorrentes_da_camada(st.aux@[l], l, n));
    assert(tipos_da_camada(st.qw@[l]));
    assert(kd >= 0 && vd >= 0) by (nonlinear_arith)
        requires
            kd == d.d_state * d.n_k_heads,
            vd == d.head_v_dim * d.n_v_heads,
    ;
    assert(cd == 2 * kd + vd) by (nonlinear_arith)
        requires
            kd == d.d_state * d.n_k_heads,
            vd == d.head_v_dim * d.n_v_heads,
            cd == d.d_state * d.n_k_heads * 2 + d.head_v_dim * d.n_v_heads,
    ;
    lemma_vezes(ne, nt, u32::MAX as int);
    lemma_vezes(cd, nt, u32::MAX as int);
    lemma_vezes(vd, nt, u32::MAX as int);
    let e = Seq::<OpM>::empty();
    let o1 = op_mv_bloco(st, c.k, modo, nt, w.0, x.qkv, ne, cd);
    let o2 = op_mv_bloco(st, c.k, modo, nt, w.1, x.z, ne, vd);
    let s0 = ops_dn_inicio(st, c.k, modo, nt, d, x, w.0, w.1);
    assert(s0 =~= e.push(o1).push(o2));
    let s1 = ops_gates_ate(st, d, x, da, nt);
    let s2 = ops_conv_ate(d, x, da, nt);
    let s3 = ops_l2_ate(f, d, x, nt);
    let s4 = ops_estado_ate(d, x, da, nt);
    let s5 = ops_dn_fim(st, c.k, modo, nt, d, x, da, w.2);
    assert(ops_delta_verify(st, c.k, l) == s0 + s1 + s2 + s3 + s4 + s5);
    lemma_faz_concat(c, s0 + s1 + s2 + s3 + s4, s5, st, q, forcado, m);
    lemma_faz_concat(c, s0 + s1 + s2 + s3, s4, st, q, forcado, m);
    lemma_faz_concat(c, s0 + s1 + s2, s3, st, q, forcado, m);
    lemma_faz_concat(c, s0 + s1, s2, st, q, forcado, m);
    lemma_faz_concat(c, s0, s1, st, q, forcado, m);
    lemma_faz_push(c, e.push(o1), o2, st, q, forcado, m);
    lemma_faz_push(c, e, o1, st, q, forcado, m);
    lemma_bloco(c, modo, st, q, forcado, w.0, x.qkv, h, ne, cd, m0, m);
    let qkv = linear(m0, w.0, h, ne, cd, nt);
    let m1 = escreve(m, x.qkv.ate(cd * nt), qkv);
    lemma_bloco(c, modo, st, q, forcado, w.1, x.z, h, ne, vd, m0, m1);
    let z = linear(m0, w.1, h, ne, vd, nt);
    let m2 = escreve(m1, x.z.ate(vd * nt), z);
    assert(m2[x.qkv.buffer] == trocado(m0[x.qkv.buffer], 0, cd * nt * 4, qkv));
    lemma_gates_ate(st, c, q, forcado, d, x, da, nt, m0, m2);
    let m3 = faz_todas(c, s1, st, q, forcado, m2);
    lemma_conv_ate(st, c, q, forcado, d, x, da, nt, m0, m3, n, l);
    let m4 = faz_todas(c, s2, st, q, forcado, m3);
    lemma_l2_ate(st, c, q, forcado, d, x, nt, m4);
    let m5 = faz_todas(c, s3, st, q, forcado, m4);
    lemma_estado_ate(st, c, q, forcado, d, x, da, nt, m0, m5, n, l);
    let m6 = faz_todas(c, s4, st, q, forcado, m5);
    assert(le(m6, da.estado.todo()) == y.estado);
    assert(le(m6, da.janela.todo()) == y.janela);
    assert(le(m6, x.z.ate(vd * nt)) == z);
    let r = faz_todas(c, s5, st, q, forcado, m6);
    assert forall|b: u64|
        b != x.normed.buffer && b != x.xq.buffer && b != x.xd.buffer && b
            != a.b_proj.buffer implies #[trigger] r[b] == m6[b] by {
        lemma_dn_fim(c, modo, st, d, x, da, w.2, q, forcado, m6, b);
    }
    lemma_dn_fim(c, modo, st, d, x, da, w.2, q, forcado, m6, a.b_q.buffer);
}

// ---------------------------------------------------------------------------
// Layers
// ---------------------------------------------------------------------------

#[verifier::rlimit(40)]
proof fn lemma_camada(
    st: ResidentState,
    c: Compilacao,
    modo: Modo,
    q: Passo,
    forcado: u32,
    n: Map<u64, int>,
    l: int,
    m: Map<u64, Termo>,
)
    requires
        rodavel(st, c, modo, q),
        numerados(st, n),
        0 <= l < st.qw@.len(),
        st.qw@[l].mixer is Delta ==> delta_ok(st, modo, l),
    ensures
        camada_roda(
            st,
            modo,
            q,
            l,
            n,
            m,
            faz_todas(
                c,
                ops_camada(st, c.k, modo, modo.tokens(st.cfg), l),
                st,
                q,
                forcado,
                m,
            ),
        ),
{
    broadcast use lemma_lido;

    let f = st.cfg;
    let a = st.a;
    let nt = modo.tokens(f);
    let la = st.aux@[l];
    assert(fixos_da_camada(st.qw@[l], la, n));
    lemma_vezes(f.n_embd as int, nt, u32::MAX as int);
    let s0 = ops_norma(st, nt, a.b_ffn, la.attn_norm, l > 0);
    let s1 = if st.qw@[l].mixer is Delta {
        if modo is Verify {
            ops_delta_verify(st, c.k, l)
        } else {
            ops_delta(st, c.k, modo, nt, l)
        }
    } else {
        ops_atencao(st, c.k, modo, nt, l)
    };
    let s2 = ops_ffn(st, c.k, modo, nt, l);
    lemma_faz_concat(c, s0 + s1, s2, st, q, forcado, m);
    lemma_faz_concat(c, s0, s1, st, q, forcado, m);
    lemma_ops_norma(c, st, nt, q, forcado, a.b_ffn, la.attn_norm, l > 0, m);
    let m1 = normado(st, nt, a.b_ffn, la.attn_norm, l > 0, m);
    let x = com_residuo(st, m, nt, l > 0);
    let h = normada(st, m, x, la.attn_norm, nt);
    let k = f.n_embd * nt;
    assert(le(m1, a.b_x.ate(k)) == x);
    assert(le(m1, a.b_normed.ate(k)) == h);
    assert(m1[a.b_normed.buffer] == trocado(m[a.b_normed.buffer], 0, k * 4, h));
    assert(le(m1, a.b_xq.todo()) == inteiros(h, k));
    assert(le(m1, a.b_xd.todo()) == escalas(h, k));
    assert(so_muda(m, m1, n, |i: int| i == 4 || i == 5 || i == 6 || i == 18 || i == 19));
    let m2 = faz_todas(c, s1, st, q, forcado, m1);
    if st.qw@[l].mixer is Delta {
        match (f.delta_net, a.dn, la.delta) {
            (Some(d), Some(b), Some(da)) => {
                assert(recorrentes_da_camada(la, l, n));
                if modo is Verify {
                    lemma_linear_por_token(st, c, q, forcado, n, l, d, b, da, h, m, m1);
                } else {
                    lemma_linear(st, c, modo, q, forcado, n, l, d, b, da, h, m, m1);
                }
            },
            _ => {},
        }
    } else {
        lemma_atencao(st, c, modo, q, forcado, n, l, h, m, m1);
    }
    assert(le(m2, a.b_x.ate(k)) == x);
    lemma_ffn(st, c, modo, q, forcado, n, l, m2);
}

// ---------------------------------------------------------------------------
// The end of a step
// ---------------------------------------------------------------------------

#[verifier::rlimit(40)]
proof fn lemma_fim(
    st: ResidentState,
    c: Compilacao,
    modo: Modo,
    q: Passo,
    forcado: u32,
    n: Map<u64, int>,
    m: Map<u64, Termo>,
)
    requires
        rodavel(st, c, modo, q),
        numerados(st, n),
    ensures
        ({
            let nt = modo.tokens(st.cfg);
            let r = faz_todas(c, ops_fim(st, c.k, modo, nt), st, q, forcado, m);
            fim_roda(
                st,
                modo,
                rodou(st, c.k),
                n,
                m,
                efeito_cmd(c, plano(st, c.k, modo), cmd_saida(st, q, modo), r),
            )
        }),
{
    broadcast use lemma_lido;

    let f = st.cfg;
    let a = st.a;
    let nt = modo.tokens(f);
    let ne = f.n_embd as int;
    let v = f.vocab as int;
    let k = ne * nt;
    let tem = rodou(st, c.k);
    let s = ops_fim(st, c.k, modo, nt);
    let x = com_residuo(st, m, nt, tem);
    let e = Seq::<OpM>::empty();
    lemma_vezes(ne, nt, u32::MAX as int);
    lemma_vezes(v, VERIFY_TOK as int, u32::MAX as int);
    if f.shard.ultimo() {
        let norm = ops_norma(st, nt, a.b_ffn, st.output_norm_buf, tem);
        lemma_ops_norma(c, st, nt, q, forcado, a.b_ffn, st.output_norm_buf, tem, m);
        let m1 = normado(st, nt, a.b_ffn, st.output_norm_buf, tem, m);
        let h = normada(st, m, x, st.output_norm_buf, nt);
        assert(le(m1, a.b_x.ate(k)) == x);
        assert(m1[a.b_normed.buffer] == trocado(m[a.b_normed.buffer], 0, k * 4, h));
        assert(le(m1, a.b_xq.todo()) == inteiros(h, k));
        assert(le(m1, a.b_xd.todo()) == escalas(h, k));
        if modo is Verify {
            let o = op_mv(c.k, modo, st.output_w, a.b_logits, a.b_xq, a.b_xd, nt, ne, v);
            assert(s =~= norm.push(o));
            lemma_faz_push(c, norm, o, st, q, forcado, m);
            lemma_op_mv(
                c,
                modo,
                st,
                q,
                forcado,
                st.output_w,
                a.b_logits,
                a.b_xq,
                a.b_xd,
                nt,
                ne,
                v,
                m1,
            );
        } else {
            let o = op_mv(c.k, modo, st.output_w, a.b_logits, a.b_xq, a.b_xd, 1, ne, v);
            let u = do_ultimo_token(m, a.b_normed, h, ne, nt);
            let m2 = if nt > 1 {
                let z = op_quantiza(a.b_normed, a.b_xq, a.b_xd, (nt - 1) * ne, ne);
                assert(s =~= norm.push(z).push(o));
                lemma_faz_push(c, norm.push(z), o, st, q, forcado, m);
                lemma_faz_push(c, norm, z, st, q, forcado, m);
                lemma_linha(ne, nt, nt - 1);
                lemma_op_quantiza(
                    c,
                    st,
                    q,
                    forcado,
                    a.b_normed,
                    a.b_xq,
                    a.b_xd,
                    (nt - 1) * ne,
                    ne,
                    m1,
                );
                faz(c, z, st, q, forcado, m1)
            } else {
                assert(s =~= norm.push(o));
                lemma_faz_push(c, norm, o, st, q, forcado, m);
                m1
            };
            assert(le(m2, a.b_xq.todo()) == inteiros(u, ne));
            assert(le(m2, a.b_xd.todo()) == escalas(u, ne));
            lemma_op_mv(
                c,
                modo,
                st,
                q,
                forcado,
                st.output_w,
                a.b_logits,
                a.b_xq,
                a.b_xd,
                1,
                ne,
                v,
                m2,
            );
        }
    } else if tem {
        lemma_grupos(k);
        assert(s =~= e.push(s[0]));
        lemma_faz_push(c, e, s[0], st, q, forcado, m);
    }
}

// ---------------------------------------------------------------------------
// Laws
// ---------------------------------------------------------------------------

/// What the first layers leave.
spec fn apos_camadas(
    st: ResidentState,
    c: Compilacao,
    modo: Modo,
    q: Passo,
    forcado: u32,
    m: Map<u64, Termo>,
    l: int,
) -> Map<u64, Termo> {
    faz_todas(
        c,
        seq![OpM::Embed] + ops_camadas(st, c.k, modo, modo.tokens(st.cfg), l),
        st,
        q,
        forcado,
        m,
    )
}

proof fn lemma_apos(
    st: ResidentState,
    c: Compilacao,
    modo: Modo,
    q: Passo,
    forcado: u32,
    n: Map<u64, int>,
    m: Map<u64, Termo>,
    l: int,
)
    requires
        rodavel(st, c, modo, q),
        numerados(st, n),
        0 <= l < st.qw@.len(),
        st.qw@[l].mixer is Delta ==> delta_ok(st, modo, l),
    ensures
        camada_roda(
            st,
            modo,
            q,
            l,
            n,
            apos_camadas(st, c, modo, q, forcado, m, l),
            apos_camadas(st, c, modo, q, forcado, m, l + 1),
        ),
{
    let nt = modo.tokens(st.cfg);
    let a = seq![OpM::Embed] + ops_camadas(st, c.k, modo, nt, l);
    let b = ops_camada(st, c.k, modo, nt, l);
    assert(seq![OpM::Embed] + ops_camadas(st, c.k, modo, nt, l + 1) =~= a + b);
    lemma_faz_concat(c, a, b, st, q, forcado, m);
    lemma_camada(st, c, modo, q, forcado, n, l, apos_camadas(st, c, modo, q, forcado, m, l));
}

proof fn lemma_entrada(
    st: ResidentState,
    c: Compilacao,
    modo: Modo,
    q: Passo,
    forcado: u32,
    n: Map<u64, int>,
    m: Map<u64, Termo>,
)
    requires
        rodavel(st, c, modo, q),
        numerados(st, n),
    ensures
        entrada_roda(st, modo, n, m, apos_camadas(st, c, modo, q, forcado, m, 0)),
{
    broadcast use lemma_lido;

    let e = Seq::<OpM>::empty();
    let nt = modo.tokens(st.cfg);
    assert(seq![OpM::Embed] + ops_camadas(st, c.k, modo, nt, 0) =~= e.push(OpM::Embed));
    lemma_faz_push(c, e, OpM::Embed, st, q, forcado, m);
}

/// The commands of a step do what the operations of its plan do, and then copy
/// the result.
proof fn lemma_comandos(
    st: ResidentState,
    c: Compilacao,
    modo: Modo,
    q: Passo,
    bar: Seq<bool>,
    forcado: u32,
    prof: bool,
    m: Map<u64, Termo>,
)
    requires
        plano(st, c.k, modo).len() <= usize::MAX,
    ensures
        ({
            let p = plano(st, c.k, modo);
            roda(c, p, passo_gravado(p, bar, st, q, modo, forcado, prof), m) == efeito_cmd(
                c,
                p,
                cmd_saida(st, q, modo),
                faz_todas(
                    c,
                    ops_fim(st, c.k, modo, modo.tokens(st.cfg)),
                    st,
                    q,
                    forcado,
                    apos_camadas(st, c, modo, q, forcado, m, camadas(st, c.k)),
                ),
            )
        }),
{
    let nt = modo.tokens(st.cfg);
    let p = plano(st, c.k, modo);
    let ini = if prof {
        seq![
            CmdM::ZeraTempos { n: (p.len() + 1) as u32 },
            CmdM::Tempo { slot: 0, topo: true },
        ]
    } else {
        Seq::empty()
    };
    let cs = cmds_ate(p, bar, st, q, forcado, prof, p.len() as int);
    let saida = cmd_saida(st, q, modo);
    let z = seq![CmdM::Barreira, saida];
    assert(passo_gravado(p, bar, st, q, modo, forcado, prof) == ini + cs + z);
    lemma_roda_concat(c, p, ini + cs, z, m);
    lemma_roda_concat(c, p, ini, cs, m);
    if prof {
        assert(ini =~= seq![ini[0]] + seq![ini[1]]);
        lemma_roda_concat(c, p, seq![ini[0]], seq![ini[1]], m);
        lemma_roda_um(c, p, ini[0], m);
        lemma_roda_um(c, p, ini[1], m);
    }
    assert(roda(c, p, ini, m) == m);
    lemma_cmds_ate(c, p, bar, st, q, forcado, prof, p.len() as int, m);
    assert(p.take(p.len() as int) =~= p);
    let s = seq![OpM::Embed] + ops_camadas(st, c.k, modo, nt, camadas(st, c.k));
    lemma_faz_concat(c, s, ops_fim(st, c.k, modo, nt), st, q, forcado, m);
    let r = faz_todas(c, p, st, q, forcado, m);
    assert(z =~= seq![CmdM::Barreira] + seq![saida]);
    lemma_roda_concat(c, p, seq![CmdM::Barreira], seq![saida], r);
    lemma_roda_um(c, p, CmdM::Barreira, r);
    lemma_roda_um(c, p, saida, r);
}

/// The commands of a step, run with the meaning of each kernel, are the network.
/// The block's embeddings become the residual stream; every layer in turn does
/// what [`camada_roda`] says, with its own weights, its own slot of the cache or
/// its own recurrent state; and what is handed over is the logits, or the residual
/// stream where another shard goes on. The contents between the layers are
/// returned.
pub proof fn lei_passo_roda_a_rede(
    st: ResidentState,
    c: Compilacao,
    modo: Modo,
    q: Passo,
    bar: Seq<bool>,
    forcado: u32,
    prof: bool,
    n: Map<u64, int>,
    m: Map<u64, Termo>,
) -> (ms: Seq<Map<u64, Termo>>)
    requires
        rodavel(st, c, modo, q),
        numerados(st, n),
        planejavel(st, modo, camadas_rodadas(st, c.k.parar_em)),
        plano(st, c.k, modo).len() <= usize::MAX,
    ensures
        ms.len() == camadas_rodadas(st, c.k.parar_em) + 1,
        entrada_roda(st, modo, n, m, ms[0]),
        forall|l: int|
            0 <= l < camadas_rodadas(st, c.k.parar_em) ==> camada_roda(
                st,
                modo,
                q,
                l,
                n,
                #[trigger] ms[l],
                ms[l + 1],
            ),
        fim_roda(
            st,
            modo,
            camadas_rodadas(st, c.k.parar_em) > 0,
            n,
            ms.last(),
            roda(
                c,
                plano(st, c.k, modo),
                passo_gravado(plano(st, c.k, modo), bar, st, q, modo, forcado, prof),
                m,
            ),
        ),
{
    let k = camadas(st, c.k);
    assert(k == camadas_rodadas(st, c.k.parar_em));
    let ms = Seq::new((k + 1) as nat, |l: int| apos_camadas(st, c, modo, q, forcado, m, l));
    assert forall|l: int| 0 <= l < k implies camada_roda(
        st,
        modo,
        q,
        l,
        n,
        #[trigger] ms[l],
        ms[l + 1],
    ) by {
        if st.qw@[l].mixer is Delta {
            assert(delta_ok(st, modo, l));
        }
        lemma_apos(st, c, modo, q, forcado, n, m, l);
    }
    lemma_entrada(st, c, modo, q, forcado, n, m);
    lemma_comandos(st, c, modo, q, bar, forcado, prof, m);
    lemma_fim(st, c, modo, q, forcado, n, ms[k]);
    ms
}

} // verus!
