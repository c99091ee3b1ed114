//! With the buffers of the layout, every dispatch and every copy of a step stays
//! inside its buffers.

use vstd::prelude::*;

use crate::vulkan::estado::{
    Ativacoes, Buf, DeltaBufs, DeltaNetConfig, DnBufs, Knobs, LayerAux, LayerQ, MixerQ, Modo,
    QWeight, ResidentState,
};
use crate::vulkan::gravacao::{byte_no_cache, cmd_saida, lei_bloco_no_slot, CmdM, Passo};
use crate::vulkan::layout::{
    colunas_de_logits, largura_do_bloco, mede, mensuravel, tamanhos_de, tamanhos_dn,
};
use crate::vulkan::ops::{DespachoM, Faixa, OpM};
use crate::vulkan::plano::{
    cabe, camadas, op_atencao, op_bias, op_dn_conv, op_dn_delta, op_dn_gates, op_dn_l2, op_mv,
    op_mv_bloco, op_qk_norm, op_quantiza, op_rope, op_rope_k, op_saida_atencao, op_swiglu,
    ops_atencao, ops_bias, ops_camada, ops_camadas, ops_conv_ate, ops_delta, ops_delta_verify,
    ops_dn_fim, ops_dn_inicio, ops_estado_ate, ops_ffn, ops_fim, ops_gates_ate, ops_l2_ate,
    ops_norma, ops_projecoes, ops_qk, plano, rodou,
};

verus! {

pub open spec fn ativacao(a: Ativacoes, b: Buf) -> bool {
    ||| b == a.embd_stage
    ||| b == a.kcache
    ||| b == a.vcache
    ||| b == a.b_x
    ||| b == a.b_normed
    ||| b == a.b_parciais
    ||| b == a.b_q
    ||| b == a.b_k
    ||| b == a.b_v
    ||| b == a.b_attn
    ||| b == a.b_attn_split
    ||| b == a.b_proj
    ||| b == a.b_gate
    ||| b == a.b_up
    ||| b == a.b_act
    ||| b == a.b_logits
    ||| b == a.b_ffn
    ||| b == a.b_xq
    ||| b == a.b_xd
    ||| b == a.logits_host
}

pub open spec fn ativacao_linear(d: DnBufs, b: Buf) -> bool {
    ||| b == d.qkv
    ||| b == d.conv
    ||| b == d.z
    ||| b == d.gb
    ||| b == d.qn
    ||| b == d.kn
    ||| b == d.out
    ||| b == d.normed
    ||| b == d.xq
    ||| b == d.xd
}

pub open spec fn peso_da_camada(q: LayerQ, b: Buf) -> bool {
    ||| b == q.ffn_gate.gpu
    ||| b == q.ffn_up.gpu
    ||| b == q.ffn_down.gpu
    ||| match q.mixer {
        MixerQ::Attn { attn_q, attn_k, attn_v, attn_output } => b == attn_q.gpu || b == attn_k.gpu
            || b == attn_v.gpu || b == attn_output.gpu,
        MixerQ::Delta { attn_qkv, attn_gate, ssm_out } => b == attn_qkv.gpu || b == attn_gate.gpu
            || b == ssm_out.gpu,
    }
}

pub open spec fn auxiliar_da_camada(x: LayerAux, b: Buf) -> bool {
    ||| b == x.attn_norm
    ||| b == x.ffn_norm
    ||| x.q_bias == Some(b)
    ||| x.k_bias == Some(b)
    ||| x.v_bias == Some(b)
    ||| x.q_norm == Some(b)
    ||| x.k_norm == Some(b)
    ||| match x.delta {
        Some(d) => b == d.conv1d || b == d.adt || b == d.alpha || b == d.beta || b == d.norm || b
            == d.estado || b == d.janela,
        None => false,
    }
}

/// Whether a buffer belongs to the shard.
pub open spec fn do_shard(st: ResidentState, b: Buf) -> bool {
    ||| ativacao(st.a, b)
    ||| match st.a.dn {
        Some(d) => ativacao_linear(d, b),
        None => false,
    }
    ||| b == st.output_w.gpu
    ||| b == st.output_norm_buf
    ||| b == st.freq_buf
    ||| exists|l: int| 0 <= l < st.qw@.len() && #[trigger] peso_da_camada(st.qw@[l], b)
    ||| exists|l: int| 0 <= l < st.aux@.len() && #[trigger] auxiliar_da_camada(st.aux@[l], b)
}

pub open spec fn cabe_em(f: Faixa, b: Buf) -> bool {
    f.buffer == b.buffer && f.offset + f.bytes <= b.size
}

/// Whether a stretch lies in a buffer of the shard.
pub open spec fn dentro(f: Faixa, st: ResidentState) -> bool {
    exists|b: Buf| do_shard(st, b) && #[trigger] cabe_em(f, b)
}

pub open spec fn desp_dentro(d: DespachoM, st: ResidentState) -> bool {
    forall|i: int| 0 <= i < d.binds.len() ==> dentro(#[trigger] d.binds[i], st)
}

/// Whether every stretch that an operation binds lies in a buffer of the shard.
pub open spec fn op_dentro(o: OpM, st: ResidentState) -> bool {
    match o {
        OpM::Dispatch(d) => desp_dentro(d, st),
        OpM::Atencao { curto, split, reduce } => desp_dentro(curto, st) && desp_dentro(split, st)
            && desp_dentro(reduce, st),
        _ => true,
    }
}

spec fn ops_dentro(s: Seq<OpM>, st: ResidentState) -> bool {
    forall|i: int| 0 <= i < s.len() ==> op_dentro(#[trigger] s[i], st)
}

/// That the activations have the sizes of the layout.
pub open spec fn dimensionado(st: ResidentState, mtp: bool) -> bool {
    let t = tamanhos_de(st.cfg, st.n_slots(), mtp);
    let a = st.a;
    &&& mensuravel(st.cfg, st.n_slots(), mtp)
    &&& a.embd_stage.size == t.embd
    &&& a.kcache.size == t.kv
    &&& a.vcache.size == t.kv
    &&& a.b_x.size == t.embd
    &&& a.b_normed.size == t.embd
    &&& a.b_parciais.size == t.parciais
    &&& a.b_q.size == t.q
    &&& a.b_k.size == t.kv_bloco
    &&& a.b_v.size == t.kv_bloco
    &&& a.b_attn.size == t.attn
    &&& a.b_attn_split.size == t.attn_split
    &&& a.b_proj.size == t.embd
    &&& a.b_gate.size == t.ff
    &&& a.b_up.size == t.ff
    &&& a.b_act.size == t.ff
    &&& a.b_logits.size == t.logits
    &&& a.b_ffn.size == t.embd
    &&& a.b_xq.size == t.xq
    &&& a.b_xd.size == t.xd
    &&& a.logits_host.size == t.saida
    &&& match (st.cfg.delta_net, a.dn) {
        (Some(c), Some(d)) => {
            let x = tamanhos_dn(c, largura_do_bloco(st.cfg, mtp));
            &&& d.qkv.size == x.conv
            &&& d.conv.size == x.conv
            &&& d.z.size == x.value
            &&& d.gb.size == x.gb
            &&& d.qn.size == x.key
            &&& d.kn.size == x.key
            &&& d.out.size == x.value
            &&& d.normed.size == x.value
            &&& d.xq.size == x.xq
            &&& d.xd.size == x.xd
        },
        _ => true,
    }
}

/// A block fits the activations: those of the verification only with the
/// prediction head. In the dense architectures the query is as wide as the
/// model, and so are the biases.
pub open spec fn bloco_cabe(st: ResidentState, modo: Modo, mtp: bool) -> bool {
    &&& modo is Verify ==> mtp
    &&& st.completo()
    &&& cabe(st, modo.tokens(st.cfg))
    &&& forall|l: int|
        0 <= l < st.aux@.len() && (#[trigger] st.aux@[l]).q_bias is Some ==> st.cfg.delta_net
            is None
}

// ---------------------------------------------------------------------------

proof fn lemma_todo(st: ResidentState, b: Buf)
    requires
        do_shard(st, b),
    ensures
        dentro(b.todo(), st),
{
    assert(cabe_em(b.todo(), b));
}

/// `n` elements for each token from the token `t` on, in a buffer for `k`
/// tokens.
proof fn lemma_trecho(st: ResidentState, b: Buf, n: int, k: int, t: int, m: int)
    requires
        do_shard(st, b),
        0 <= n,
        0 <= t,
        0 <= m,
        t + m <= k,
        mede(n, k),
        b.size == (n * k * 4) as u64,
    ensures
        dentro(b.em(t * n, n * m), st),
        t == 0 ==> dentro(b.ate(n * m), st),
        dentro(b.em(n * t, n * m), st),
{
    assert(0 <= t * n && 0 <= n * m && t * n + n * m <= n * k && t * n == n * t) by (
        nonlinear_arith)
        requires
            0 <= n,
            0 <= t,
            0 <= m,
            t + m <= k,
    ;
    assert(cabe_em(b.em(t * n, n * m), b));
    if t == 0 {
        assert(cabe_em(b.ate(n * m), b));
    }
}

proof fn lemma_largura(st: ResidentState, modo: Modo, mtp: bool)
    requires
        bloco_cabe(st, modo, mtp),
        dimensionado(st, mtp),
    ensures
        1 <= modo.tokens(st.cfg) <= largura_do_bloco(st.cfg, mtp),
        0 <= st.cfg.attn_dim() <= st.cfg.q_out(),
{
    assert(st.cfg.head_dim * st.cfg.n_head >= 0) by (nonlinear_arith);
}

proof fn lemma_peso(st: ResidentState, l: int, b: Buf)
    requires
        0 <= l < st.qw@.len(),
        peso_da_camada(st.qw@[l], b),
    ensures
        do_shard(st, b),
{
}

proof fn lemma_aux(st: ResidentState, l: int, b: Buf)
    requires
        0 <= l < st.aux@.len(),
        auxiliar_da_camada(st.aux@[l], b),
    ensures
        do_shard(st, b),
        dentro(b.todo(), st),
{
    lemma_todo(st, b);
}

/// A product whose output goes to a buffer for `k` vectors.
proof fn lemma_mv(
    k: Knobs,
    modo: Modo,
    w: QWeight,
    dst: Buf,
    xq: Buf,
    xd: Buf,
    cols: int,
    n_in: int,
    n_out: int,
    st: ResidentState,
    larg: int,
)
    requires
        do_shard(st, w.gpu),
        do_shard(st, dst),
        do_shard(st, xq),
        do_shard(st, xd),
        0 <= n_out,
        0 <= cols <= larg,
        mede(n_out, larg),
        dst.size == (n_out * larg * 4) as u64,
    ensures
        op_dentro(op_mv(k, modo, w, dst, xq, xd, cols, n_in, n_out), st),
{
    reveal(op_mv);
    lemma_todo(st, w.gpu);
    lemma_todo(st, xq);
    lemma_todo(st, xd);
    lemma_trecho(st, dst, n_out, larg, 0, cols);
}

proof fn lemma_norma(st: ResidentState, modo: Modo, mtp: bool, r: Buf, w: Buf, tem: bool)
    requires
        bloco_cabe(st, modo, mtp),
        dimensionado(st, mtp),
        r == st.a.b_ffn || r == st.a.b_proj,
        do_shard(st, w),
    ensures
        ops_dentro(ops_norma(st, modo.tokens(st.cfg), r, w, tem), st),
{
    reveal(ops_norma);
    lemma_largura(st, modo, mtp);
    let nt = modo.tokens(st.cfg);
    let k = largura_do_bloco(st.cfg, mtp);
    let n = st.cfg.n_embd as int;
    lemma_trecho(st, st.a.b_x, n, k, 0, nt);
    lemma_trecho(st, r, n, k, 0, nt);
    lemma_trecho(st, st.a.b_normed, n, k, 0, nt);
    lemma_todo(st, st.a.b_parciais);
    lemma_todo(st, w);
    lemma_todo(st, st.a.b_xq);
    lemma_todo(st, st.a.b_xd);
}

proof fn lemma_bias(st: ResidentState, dst: Buf, b: Option<Buf>, dim: int, n: int, k: int)
    requires
        do_shard(st, dst),
        b matches Some(x) ==> do_shard(st, x) && 0 <= dim && mede(dim, k) && dst.size == (dim * k
            * 4) as u64,
        n <= k,
    ensures
        ops_dentro(ops_bias(dst, b, dim, n), st),
    decreases n,
{
    if let Some(x) = b {
        if n > 0 {
            lemma_bias(st, dst, b, dim, n - 1, k);
            reveal(op_bias);
            lemma_todo(st, x);
            lemma_trecho(st, dst, dim, k, n - 1, 1);
            assert(dim * 1 == dim);
        }
    }
}

proof fn lemma_projecoes(
    st: ResidentState,
    k: Knobs,
    modo: Modo,
    mtp: bool,
    l: int,
    w: (QWeight, QWeight, QWeight),
)
    requires
        bloco_cabe(st, modo, mtp),
        dimensionado(st, mtp),
        0 <= l < st.cfg.n_layer,
        do_shard(st, w.0.gpu),
        do_shard(st, w.1.gpu),
        do_shard(st, w.2.gpu),
    ensures
        ops_dentro(ops_projecoes(st, k, modo, modo.tokens(st.cfg), l, w), st),
{
    let nt = modo.tokens(st.cfg);
    let f = st.cfg;
    let a = st.a;
    let la = st.aux@[l];
    let larg = largura_do_bloco(f, mtp);
    let n = f.n_embd as int;
    let kv = f.kv_dim as int;
    lemma_largura(st, modo, mtp);
    assert(op_dentro(op_mv_bloco(st, k, modo, nt, w.0, a.b_q, n, f.q_out()), st)) by {
        reveal(op_mv_bloco);
        lemma_mv(k, modo, w.0, a.b_q, a.b_xq, a.b_xd, nt, n, f.q_out(), st, larg);
    }
    assert(op_dentro(op_mv_bloco(st, k, modo, nt, w.1, a.b_k, n, kv), st)) by {
        reveal(op_mv_bloco);
        lemma_mv(k, modo, w.1, a.b_k, a.b_xq, a.b_xd, nt, n, kv, st, larg);
    }
    assert(op_dentro(op_mv_bloco(st, k, modo, nt, w.2, a.b_v, n, kv), st)) by {
        reveal(op_mv_bloco);
        lemma_mv(k, modo, w.2, a.b_v, a.b_xq, a.b_xd, nt, n, kv, st, larg);
    }
    assert(ops_dentro(ops_qk(st, nt, l), st)) by {
        reveal(op_qk_norm);
        lemma_trecho(st, a.b_q, f.q_out(), larg, 0, nt);
        lemma_trecho(st, a.b_k, kv, larg, 0, nt);
        if let Some(b) = la.q_norm {
            lemma_aux(st, l, b);
        }
        if let Some(b) = la.k_norm {
            lemma_aux(st, l, b);
        }
    }
    assert(ops_dentro(ops_bias(a.b_q, la.q_bias, n, nt), st)) by {
        if let Some(b) = la.q_bias {
            lemma_aux(st, l, b);
            assert(f.delta_net is None);
        }
        lemma_bias(st, a.b_q, la.q_bias, n, nt, larg);
    }
    assert(ops_dentro(ops_bias(a.b_k, la.k_bias, kv, nt), st)) by {
        if let Some(b) = la.k_bias {
            lemma_aux(st, l, b);
        }
        lemma_bias(st, a.b_k, la.k_bias, kv, nt, larg);
    }
    assert(ops_dentro(ops_bias(a.b_v, la.v_bias, kv, nt), st)) by {
        if let Some(b) = la.v_bias {
            lemma_aux(st, l, b);
        }
        lemma_bias(st, a.b_v, la.v_bias, kv, nt, larg);
    }
}

proof fn lemma_atencao(st: ResidentState, k: Knobs, modo: Modo, mtp: bool, l: int)
    requires
        bloco_cabe(st, modo, mtp),
        dimensionado(st, mtp),
        0 <= l < st.cfg.n_layer,
    ensures
        ops_dentro(ops_atencao(st, k, modo, modo.tokens(st.cfg), l), st),
{
    let nt = modo.tokens(st.cfg);
    let f = st.cfg;
    let a = st.a;
    let larg = largura_do_bloco(f, mtp);
    let n = f.n_embd as int;
    let kv = f.kv_dim as int;
    lemma_largura(st, modo, mtp);
    if let MixerQ::Attn { attn_q, attn_k, attn_v, attn_output } = st.qw@[l].mixer {
        lemma_peso(st, l, attn_q.gpu);
        lemma_peso(st, l, attn_k.gpu);
        lemma_peso(st, l, attn_v.gpu);
        lemma_projecoes(st, k, modo, mtp, l, (attn_q, attn_k, attn_v));
        assert(op_dentro(
            op_mv_bloco(st, k, modo, nt, attn_output, a.b_proj, f.attn_dim(), n),
            st,
        )) by {
            reveal(op_mv_bloco);
            lemma_peso(st, l, attn_output.gpu);
            lemma_mv(
                k,
                modo,
                attn_output,
                a.b_proj,
                a.b_xq,
                a.b_xd,
                nt,
                f.attn_dim(),
                n,
                st,
                larg,
            );
        }
        lemma_trecho(st, a.b_q, f.q_out(), larg, 0, nt);
        lemma_trecho(st, a.b_k, kv, larg, 0, nt);
        lemma_trecho(st, a.b_attn, f.attn_dim(), larg, 0, nt);
        assert(op_dentro(
            op_rope(st, nt, a.b_q, f.q_out() * nt, f.n_head as int, f.q_passo()),
            st,
        )) by {
            reveal(op_rope);
            lemma_todo(st, st.freq_buf);
        }
        assert(op_dentro(op_rope_k(st, k, nt, l), st)) by {
            reveal(op_rope);
            reveal(op_rope_k);
            lemma_todo(st, st.freq_buf);
            lemma_todo(st, a.kcache);
        }
        assert(forall|off: u32|
            op_dentro(#[trigger] op_atencao(st, nt, a.kcache, a.vcache, off), st)) by {
            reveal(op_atencao);
            lemma_todo(st, a.kcache);
            lemma_todo(st, a.vcache);
            lemma_todo(st, a.b_attn_split);
        }
        assert(op_dentro(op_saida_atencao(st, nt), st)) by {
            reveal(op_saida_atencao);
            reveal(op_quantiza);
            lemma_todo(st, a.b_xq);
            lemma_todo(st, a.b_xd);
        }
    }
}

proof fn lemma_ffn(st: ResidentState, k: Knobs, modo: Modo, mtp: bool, l: int)
    requires
        bloco_cabe(st, modo, mtp),
        dimensionado(st, mtp),
        0 <= l < st.cfg.n_layer,
    ensures
        ops_dentro(ops_ffn(st, k, modo, modo.tokens(st.cfg), l), st),
{
    let nt = modo.tokens(st.cfg);
    let a = st.a;
    let q = st.qw@[l];
    let n = st.cfg.n_embd as int;
    let m = st.cfg.n_ff as int;
    let larg = largura_do_bloco(st.cfg, mtp);
    lemma_largura(st, modo, mtp);
    lemma_aux(st, l, st.aux@[l].ffn_norm);
    lemma_norma(st, modo, mtp, a.b_proj, st.aux@[l].ffn_norm, true);
    lemma_peso(st, l, q.ffn_gate.gpu);
    lemma_peso(st, l, q.ffn_up.gpu);
    lemma_peso(st, l, q.ffn_down.gpu);
    lemma_mv(k, modo, q.ffn_gate, a.b_gate, a.b_xq, a.b_xd, nt, n, m, st, larg);
    lemma_mv(k, modo, q.ffn_up, a.b_up, a.b_xq, a.b_xd, nt, n, m, st, larg);
    lemma_mv(k, modo, q.ffn_down, a.b_ffn, a.b_xq, a.b_xd, nt, m, n, st, larg);
    reveal(op_mv_bloco);
    assert(op_dentro(op_swiglu(st, nt), st)) by {
        reveal(op_swiglu);
        lemma_trecho(st, a.b_gate, m, larg, 0, nt);
        lemma_trecho(st, a.b_up, m, larg, 0, nt);
        lemma_trecho(st, a.b_act, m, larg, 0, nt);
        lemma_todo(st, a.b_xq);
        lemma_todo(st, a.b_xd);
    }
}

proof fn lemma_dims(d: DeltaNetConfig)
    ensures
        0 <= d.key_dim(),
        0 <= d.value_dim(),
        0 <= d.conv_dim(),
        d.conv_dim() == 2 * d.key_dim() + d.value_dim(),
{
    assert(d.key_dim() >= 0) by (nonlinear_arith)
        requires
            d.key_dim() == d.d_state * d.n_k_heads,
    ;
    assert(d.value_dim() >= 0) by (nonlinear_arith)
        requires
            d.value_dim() == d.head_v_dim * d.n_v_heads,
    ;
}

/// The four kernels of the linear attention, for `n` tokens from the token `t`
/// on.
proof fn lemma_dn_ops(
    st: ResidentState,
    mtp: bool,
    d: DeltaNetConfig,
    b: DnBufs,
    l: int,
    da: DeltaBufs,
    t: int,
    n: int,
)
    requires
        dimensionado(st, mtp),
        st.cfg.delta_net == Some(d),
        st.a.dn == Some(b),
        0 <= l < st.aux@.len(),
        st.aux@[l].delta == Some(da),
        0 <= t,
        1 <= n,
        t + n <= largura_do_bloco(st.cfg, mtp),
    ensures
        op_dentro(op_dn_gates(st, d, b, da, t, n), st),
        op_dentro(op_dn_conv(d, b, da, t, n), st),
        n == 1 ==> op_dentro(op_dn_l2(st.cfg, d, b, t, n, 2 * d.key_dim(), 0u32), st),
        n == 1 ==> forall|p: u32|
            op_dentro(#[trigger] op_dn_delta(d, b, da, t, n, d.value_dim(), p), st),
        t == 0 ==> forall|p: u32|
            op_dentro(#[trigger] op_dn_l2(st.cfg, d, b, t, n, d.conv_dim() * n, p), st),
        t == 0 ==> forall|p: u32|
            op_dentro(
                #[trigger] op_dn_delta(d, b, da, t, n, d.conv_dim() * n - 2 * d.key_dim(), p),
                st,
            ),
{
    reveal(op_dn_gates);
    reveal(op_dn_conv);
    reveal(op_dn_l2);
    reveal(op_dn_delta);
    let k = largura_do_bloco(st.cfg, mtp);
    lemma_dims(d);
    lemma_trecho(st, st.a.b_normed, st.cfg.n_embd as int, k, t, n);
    lemma_trecho(st, b.gb, d.n_v_heads * 2, k, t, n);
    lemma_trecho(st, b.qkv, d.conv_dim(), k, t, n);
    lemma_trecho(st, b.conv, d.conv_dim(), k, t, n);
    lemma_trecho(st, b.qn, d.key_dim(), k, t, n);
    lemma_trecho(st, b.kn, d.key_dim(), k, t, n);
    lemma_trecho(st, b.out, d.value_dim(), k, t, n);
    lemma_aux(st, l, da.alpha);
    lemma_aux(st, l, da.beta);
    lemma_aux(st, l, da.adt);
    lemma_aux(st, l, da.janela);
    lemma_aux(st, l, da.conv1d);
    lemma_aux(st, l, da.estado);
    let cd = d.conv_dim();
    assert(t * cd >= 0 && t * cd + cd * n <= cd * k && cd <= cd * n) by (nonlinear_arith)
        requires
            0 <= t,
            0 <= cd,
            1 <= n,
            t + n <= k,
    ;
    if n == 1 {
        assert(cd * n == cd) by (nonlinear_arith)
            requires
                n == 1,
        ;
        assert(cabe_em(b.conv.em(t * cd, 2 * d.key_dim()), b.conv));
        assert(cabe_em(b.conv.em(t * cd + 2 * d.key_dim(), d.value_dim()), b.conv));
    }
    if t == 0 {
        assert(t * cd == 0) by (nonlinear_arith)
            requires
                t == 0,
        ;
        assert(cabe_em(b.conv.em(t * cd, cd * n), b.conv));
        assert(cabe_em(
            b.conv.em(t * cd + 2 * d.key_dim(), cd * n - 2 * d.key_dim()),
            b.conv,
        ));
    }
}

proof fn lemma_um_a_um(
    st: ResidentState,
    mtp: bool,
    d: DeltaNetConfig,
    b: DnBufs,
    l: int,
    da: DeltaBufs,
    n: int,
)
    requires
        dimensionado(st, mtp),
        st.cfg.delta_net == Some(d),
        st.a.dn == Some(b),
        0 <= l < st.aux@.len(),
        st.aux@[l].delta == Some(da),
        n <= largura_do_bloco(st.cfg, mtp),
    ensures
        ops_dentro(ops_gates_ate(st, d, b, da, n), st),
        ops_dentro(ops_conv_ate(d, b, da, n), st),
        ops_dentro(ops_l2_ate(st.cfg, d, b, n), st),
        ops_dentro(ops_estado_ate(d, b, da, n), st),
    decreases n,
{
    if n > 0 {
        lemma_um_a_um(st, mtp, d, b, l, da, n - 1);
        lemma_dn_ops(st, mtp, d, b, l, da, n - 1, 1);
    }
}

proof fn lemma_delta(st: ResidentState, k: Knobs, modo: Modo, mtp: bool, l: int)
    requires
        bloco_cabe(st, modo, mtp),
        dimensionado(st, mtp),
        0 <= l < st.cfg.n_layer,
        st.qw@[l].mixer is Delta,
    ensures
        modo is Verify ==> ops_dentro(ops_delta_verify(st, k, l), st),
        !(modo is Verify) ==> ops_dentro(ops_delta(st, k, modo, modo.tokens(st.cfg), l), st),
{
    let nt = modo.tokens(st.cfg);
    let a = st.a;
    let n = st.cfg.n_embd as int;
    let larg = largura_do_bloco(st.cfg, mtp);
    lemma_largura(st, modo, mtp);
    match (st.qw@[l].mixer, st.cfg.delta_net, st.a.dn, st.aux@[l].delta) {
        (MixerQ::Delta { attn_qkv, attn_gate, ssm_out }, Some(d), Some(b), Some(da)) => {
            lemma_dims(d);
            lemma_peso(st, l, attn_qkv.gpu);
            lemma_peso(st, l, attn_gate.gpu);
            lemma_peso(st, l, ssm_out.gpu);
            lemma_mv(k, modo, attn_qkv, b.qkv, a.b_xq, a.b_xd, nt, n, d.conv_dim(), st, larg);
            lemma_mv(k, modo, attn_gate, b.z, a.b_xq, a.b_xd, nt, n, d.value_dim(), st, larg);
            lemma_mv(k, modo, ssm_out, a.b_proj, b.xq, b.xd, nt, d.value_dim(), n, st, larg);
            assert(ops_dentro(ops_dn_inicio(st, k, modo, nt, d, b, attn_qkv, attn_gate), st)) by {
                reveal(op_mv_bloco);
            }
            assert(ops_dentro(ops_dn_fim(st, k, modo, nt, d, b, da, ssm_out), st)) by {
                reveal(ops_dn_fim);
                lemma_trecho(st, b.out, d.value_dim(), larg, 0, nt);
                lemma_trecho(st, b.z, d.value_dim(), larg, 0, nt);
                lemma_trecho(st, b.normed, d.value_dim(), larg, 0, nt);
                lemma_aux(st, l, da.norm);
                lemma_todo(st, b.xq);
                lemma_todo(st, b.xd);
            }
            if modo is Verify {
                lemma_um_a_um(st, mtp, d, b, l, da, nt);
            } else {
                lemma_dn_ops(st, mtp, d, b, l, da, 0, nt);
            }
        },
        _ => {},
    }
}

proof fn lemma_camadas(st: ResidentState, k: Knobs, modo: Modo, mtp: bool, n: int)
    requires
        bloco_cabe(st, modo, mtp),
        dimensionado(st, mtp),
        n <= st.cfg.n_layer,
    ensures
        ops_dentro(ops_camadas(st, k, modo, modo.tokens(st.cfg), n), st),
    decreases n,
{
    if n > 0 {
        let l = n - 1;
        let nt = modo.tokens(st.cfg);
        lemma_camadas(st, k, modo, mtp, l);
        lemma_aux(st, l, st.aux@[l].attn_norm);
        lemma_norma(st, modo, mtp, st.a.b_ffn, st.aux@[l].attn_norm, l > 0);
        if st.qw@[l].mixer is Delta {
            lemma_delta(st, k, modo, mtp, l);
        } else {
            lemma_atencao(st, k, modo, mtp, l);
        }
        lemma_ffn(st, k, modo, mtp, l);
        assert(ops_dentro(ops_camada(st, k, modo, nt, l), st));
    }
}

proof fn lemma_fim(st: ResidentState, k: Knobs, modo: Modo, mtp: bool)
    requires
        bloco_cabe(st, modo, mtp),
        dimensionado(st, mtp),
    ensures
        ops_dentro(ops_fim(st, k, modo, modo.tokens(st.cfg)), st),
{
    let nt = modo.tokens(st.cfg);
    let f = st.cfg;
    let n = f.n_embd as int;
    let a = st.a;
    let larg = largura_do_bloco(f, mtp);
    let v = f.vocab as int;
    let cols = colunas_de_logits(mtp);
    lemma_largura(st, modo, mtp);
    if f.shard.ultimo() {
        lemma_norma(st, modo, mtp, a.b_ffn, st.output_norm_buf, rodou(st, k));
        if modo is Verify {
            lemma_mv(k, modo, st.output_w, a.b_logits, a.b_xq, a.b_xd, nt, n, v, st, cols);
        } else {
            lemma_mv(k, modo, st.output_w, a.b_logits, a.b_xq, a.b_xd, 1, n, v, st, cols);
            reveal(op_quantiza);
            lemma_trecho(st, a.b_normed, n, larg, nt - 1, 1);
            assert(n * 1 == n);
            lemma_todo(st, a.b_xq);
            lemma_todo(st, a.b_xd);
        }
    } else {
        lemma_trecho(st, a.b_x, n, larg, 0, nt);
        lemma_trecho(st, a.b_ffn, n, larg, 0, nt);
    }
}

/// Every stretch that a plan binds lies in a buffer of the shard.
pub proof fn lei_ligacoes_dentro_dos_buffers(
    st: ResidentState,
    k: Knobs,
    modo: Modo,
    mtp: bool,
    i: int,
)
    requires
        bloco_cabe(st, modo, mtp),
        dimensionado(st, mtp),
        0 <= i < plano(st, k, modo).len(),
    ensures
        op_dentro(plano(st, k, modo)[i], st),
{
    lemma_camadas(st, k, modo, mtp, camadas(st, k));
    lemma_fim(st, k, modo, mtp);
}

/// The copies of a step stay in their buffers: the embedding of the block, the
/// append to the cache, and the result for the host.
pub proof fn lei_copias_dentro_dos_buffers(
    st: ResidentState,
    modo: Modo,
    mtp: bool,
    q: Passo,
    slot: int,
)
    requires
        bloco_cabe(st, modo, mtp),
        dimensionado(st, mtp),
        q.n_tok == modo.tokens(st.cfg),
        q.n_tok <= q.pos + 1,
        q.pos < st.cfg.ctx,
        0 <= slot < st.n_slots(),
    ensures
        st.cfg.n_embd * q.n_tok * 4 <= st.a.embd_stage.size,
        st.cfg.n_embd * q.n_tok * 4 <= st.a.b_x.size,
        st.cfg.kv_dim * q.n_tok * 4 <= st.a.b_k.size,
        st.cfg.kv_dim * q.n_tok * 4 <= st.a.b_v.size,
        byte_no_cache(st.cfg, slot, q.pos + 1 - q.n_tok) + st.cfg.kv_dim * q.n_tok * 4
            <= st.a.kcache.size,
        byte_no_cache(st.cfg, slot, q.pos + 1 - q.n_tok) + st.cfg.kv_dim * q.n_tok * 4
            <= st.a.vcache.size,
        cmd_saida(st, q, modo) matches CmdM::Copia { size, .. } ==> size <= st.a.logits_host.size
            && size <= (if st.cfg.shard.ultimo() {
            st.a.b_logits.size
        } else {
            st.a.b_x.size
        }),
{
    lemma_largura(st, modo, mtp);
    let k = largura_do_bloco(st.cfg, mtp);
    let nt = q.n_tok as int;
    let n = st.cfg.n_embd as int;
    let kv = st.cfg.kv_dim as int;
    lei_bloco_no_slot(st.cfg, q, slot, st.n_slots());
    assert(0 <= n * nt <= n * k) by (nonlinear_arith)
        requires
            0 <= n,
            0 <= nt <= k,
    ;
    assert(0 <= kv * nt <= kv * k) by (nonlinear_arith)
        requires
            0 <= kv,
            0 <= nt <= k,
    ;
}

} // verus!
