//! What the plan of a block of tokens is: its operations, in order.

use vstd::prelude::*;

use crate::vulkan::ambiente::largura_ok;
use crate::vulkan::contas::{entre, ou, sat, teto};
use crate::vulkan::estado::{
    Buf, Cfg, DeltaBufs, DeltaNetConfig, DnBufs, Knobs, MixerQ, Modo, QWeight, ResidentState,
    GEMM_LINHAS_POR_WG, MATVEC_NUM_ROWS, NORM_P1_WG, VERIFY_TOK,
};
use crate::vulkan::ops::{DespachoM, Faixa, GgmlType, OpM, PipeId, PushM};

verus! {

// ---------------------------------------------------------------------------
// Limits
// ---------------------------------------------------------------------------

/// That a block of `nt` vectors of `n` elements can be measured in bytes.
pub open spec fn cabe_n(n: int, nt: int) -> bool {
    n * nt * 4 <= usize::MAX
}

pub proof fn lemma_cabe(n: int, nt: int, t: int)
    requires
        0 <= n,
        0 <= t <= nt,
        1 <= nt,
        cabe_n(n, nt),
    ensures
        0 <= n * t <= n * nt,
        n * t == t * n,
        n * nt == nt * n,
        n * t * 4 <= usize::MAX,
        n * 4 <= usize::MAX,
        n <= usize::MAX,
        n <= n * nt,
        t < nt ==> n * t + n <= n * nt,
{
    assert(0 <= n * t <= n * nt) by (nonlinear_arith)
        requires
            0 <= n,
            0 <= t <= nt,
    ;
    assert(n <= n * nt) by (nonlinear_arith)
        requires
            0 <= n,
            1 <= nt,
    ;
    assert(n * t == t * n) by (nonlinear_arith);
    assert(n * nt == nt * n) by (nonlinear_arith);
    if t < nt {
        assert(n * t + n <= n * nt) by (nonlinear_arith)
            requires
                0 <= n,
                t + 1 <= nt,
        ;
    }
}

/// That the dimensions of the linear attention can be measured.
pub open spec fn cabe_delta(d: DeltaNetConfig, nt: int) -> bool {
    &&& d.n_k_heads > 0
    &&& cabe_n(d.key_dim(), nt)
    &&& cabe_n(d.value_dim(), nt)
    &&& cabe_n(d.conv_dim(), nt)
    &&& cabe_n(d.n_v_heads * 2, nt)
    &&& d.n_k_heads * 2 <= usize::MAX
    &&& d.n_v_heads * d.d_state <= usize::MAX
}

/// That everything a plan speaks of can be measured in bytes.
pub open spec fn cabe(st: ResidentState, nt: int) -> bool {
    let c = st.cfg;
    &&& nt >= 1
    &&& cabe_n(c.n_embd as int, nt)
    &&& cabe_n(c.q_out(), nt)
    &&& cabe_n(c.attn_dim(), nt)
    &&& cabe_n(c.kv_dim as int, nt)
    &&& cabe_n(c.n_ff as int, nt)
    &&& cabe_n(c.vocab as int, VERIFY_TOK as int)
    &&& c.head_dim * 2 <= usize::MAX
    &&& c.n_head * c.rope_dim <= usize::MAX
    &&& c.n_head_kv * c.rope_dim <= usize::MAX
    &&& c.n_head_kv * c.head_dim <= usize::MAX
    &&& c.n_head * nt <= usize::MAX
    &&& c.n_head_kv * nt <= usize::MAX
    &&& st.n_slots() * c.ctx <= usize::MAX
    &&& st.n_slots() * c.ctx * c.kv_dim <= usize::MAX
    &&& c.delta_net matches Some(d) ==> st.tem_delta() ==> cabe_delta(d, nt)
}

// ---------------------------------------------------------------------------
// Single operations
// ---------------------------------------------------------------------------

pub open spec fn desp(pipe: PipeId, binds: Seq<Faixa>, groups: u32, y: u32, push: PushM) -> OpM {
    OpM::Dispatch(DespachoM { pipe, binds, groups, groups_y: y, push })
}

/// Workgroups of 64 lanes for `n` elements.
pub open spec fn grupos(n: int) -> u32 {
    teto(n, 64) as u32
}

/// Workgroups of 64 lanes for the blocks of 32 of `n` elements.
pub open spec fn grupos_q(n: int) -> u32 {
    teto(((n / 32) as u32) as int, 64) as u32
}

/// Workgroups of the first pass of the norm: one for each 256 elements, within
/// bounds.
pub open spec fn grupos_norma(c: Cfg) -> u32 {
    entre(teto((c.n_embd as u32) as int, 256), 1, NORM_P1_WG as int) as u32
}

/// Which of the three sets of matrix-vector pipelines a width takes.
pub open spec fn largura(modo: Modo, cols: int) -> Modo {
    if cols <= 1 {
        Modo::Decode
    } else if modo is Verify {
        Modo::Verify
    } else {
        Modo::Batch
    }
}

/// Rows per workgroup of the Q4_K and Q5_K kernels of a set: those that its
/// pipelines are compiled with.
pub open spec fn linhas_kq(k: Knobs, l: Modo) -> int {
    let g = if l is Batch {
        k.geom_batch
    } else {
        k.geom
    };
    (g.0 / 64) * g.1
}

/// Whether a product takes the tiled kernel.
pub open spec fn gemm_vale(k: Knobs, cols: int, ty: GgmlType) -> bool {
    k.gemm && ty is Q4_K && largura_ok(cols)
}

/// The pipeline of a matrix-vector product and the rows of its workgroups.
pub open spec fn matvec_de(k: Knobs, modo: Modo, cols: int, ty: GgmlType) -> (PipeId, int) {
    let l = largura(modo, cols);
    if l is Batch && gemm_vale(k, cols, ty) {
        (PipeId::MulMmQ4K, GEMM_LINHAS_POR_WG as int)
    } else {
        match (ty, l) {
            (GgmlType::Q8_0, Modo::Decode) => (PipeId::Matvec, MATVEC_NUM_ROWS as int),
            (GgmlType::Q8_0, Modo::Batch) => (PipeId::MatvecB, MATVEC_NUM_ROWS as int),
            (GgmlType::Q8_0, Modo::Verify) => (PipeId::MatvecV, MATVEC_NUM_ROWS as int),
            (GgmlType::Q5_K, Modo::Decode) => (PipeId::MatvecQ5K, linhas_kq(k, l)),
            (GgmlType::Q5_K, Modo::Batch) => (PipeId::MatvecQ5KB, linhas_kq(k, l)),
            (GgmlType::Q5_K, Modo::Verify) => (PipeId::MatvecQ5KV, linhas_kq(k, l)),
            (GgmlType::Q4_K, Modo::Decode) => (PipeId::MatvecQ4K, linhas_kq(k, l)),
            (GgmlType::Q4_K, Modo::Batch) => (PipeId::MatvecQ4KB, linhas_kq(k, l)),
            (GgmlType::Q4_K, Modo::Verify) => (PipeId::MatvecQ4KV, linhas_kq(k, l)),
            (_, Modo::Decode) => (PipeId::MatvecQ6K, 8),
            (_, Modo::Batch) => (PipeId::MatvecQ6KB, 8),
            (_, Modo::Verify) => (PipeId::MatvecQ6KV, 8),
        }
    }
}

/// A matrix-vector product, or several at once: `cols` vectors of `n_in`
/// elements give as many of `n_out`.
#[verifier::opaque]
pub open spec fn op_mv(
    k: Knobs,
    modo: Modo,
    w: QWeight,
    dst: Buf,
    xq: Buf,
    xd: Buf,
    cols: int,
    n_in: int,
    n_out: int,
) -> OpM {
    let m = matvec_de(k, modo, cols, w.ty);
    desp(
        m.0,
        seq![w.gpu.todo(), xq.todo(), xd.todo(), dst.ate(n_out * cols), xd.todo()],
        sat(teto(n_out, m.1)),
        1,
        PushM::Static(seq![n_in as u32, n_out as u32, 0u32, 0u32]),
    )
}

/// The two passes of a norm of the residual stream, which first adds `r` to it
/// if `tem` is set. The result comes out quantized, too.
#[verifier::opaque]
pub open spec fn ops_norma(st: ResidentState, nt: int, r: Buf, w: Buf, tem: bool) -> Seq<OpM> {
    let c = st.cfg;
    let n = c.n_embd * nt;
    seq![
        desp(
            PipeId::NormFused,
            seq![st.a.b_x.ate(n), r.ate(n), st.a.b_parciais.todo()],
            grupos_norma(c),
            ou(nt, 1),
            PushM::Static(
                seq![
                    ou(c.n_embd as int, 0),
                    if tem {
                        1u32
                    } else {
                        0u32
                    },
                ],
            ),
        ),
        desp(
            PipeId::NormP2,
            seq![
                st.a.b_x.ate(n),
                w.todo(),
                st.a.b_parciais.todo(),
                st.a.b_normed.ate(n),
                st.a.b_xq.todo(),
                st.a.b_xd.todo(),
            ],
            grupos_q(c.n_embd as int),
            ou(nt, 1),
            PushM::Static(seq![ou(c.n_embd as int, 0), c.rms_eps, grupos_norma(c)]),
        ),
    ]
}

/// Norm of each head of a projection, in place.
#[verifier::opaque]
pub open spec fn op_qk_norm(c: Cfg, b: Buf, w: Buf, n: int, cabecas: int, passo: int) -> OpM {
    desp(
        PipeId::DnNorm,
        seq![b.ate(n), w.todo(), b.ate(n), b.ate(n)],
        sat(cabecas),
        1,
        PushM::Static(seq![ou(c.head_dim as int, 0), sat(cabecas), 2u32, c.rms_eps, sat(passo)]),
    )
}

/// Adds a bias to the vector of the token `t`.
#[verifier::opaque]
pub open spec fn op_bias(dst: Buf, b: Buf, dim: int, t: int) -> OpM {
    desp(
        PipeId::Add,
        seq![dst.em(t * dim, dim), b.todo()],
        grupos(dim),
        1,
        PushM::Static(seq![dim as u32]),
    )
}

/// Adds a bias to the vectors of the first `n` tokens.
pub open spec fn ops_bias(dst: Buf, b: Option<Buf>, dim: int, n: int) -> Seq<OpM>
    decreases n,
{
    match b {
        None => Seq::empty(),
        Some(x) => if n <= 0 {
            Seq::empty()
        } else {
            ops_bias(dst, b, dim, n - 1).push(op_bias(dst, x, dim, n - 1))
        },
    }
}

#[verifier::opaque]
pub open spec fn op_rope(
    st: ResidentState,
    nt: int,
    b: Buf,
    n: int,
    cabecas: int,
    passo: int,
) -> OpM {
    desp(
        PipeId::Rope,
        seq![b.ate(n), st.freq_buf.todo()],
        grupos(cabecas * (st.cfg.rope_dim as int / 2)),
        ou(nt, 1),
        PushM::Rope { n_head: cabecas as u32, stride: passo as u32 },
    )
}

/// Where the cache of a layer starts, in elements.
pub open spec fn desloc_da_camada(st: ResidentState, l: int) -> u32 {
    (st.slot(l) * st.cfg.ctx * st.cfg.kv_dim) as u32
}

/// The rotation of K, in place or into the cache.
#[verifier::opaque]
pub open spec fn op_rope_k(st: ResidentState, k: Knobs, nt: int, l: int) -> OpM {
    let c = st.cfg;
    if k.rope_kv {
        desp(
            PipeId::RopeKv,
            seq![st.a.b_k.ate(c.kv_dim * nt), st.freq_buf.todo(), st.a.kcache.todo()],
            grupos(c.n_head_kv * (c.head_dim as int / 2)),
            ou(nt, 1),
            PushM::RopeKv { n_head: c.n_head_kv as u32, kv_layer_off: desloc_da_camada(st, l) },
        )
    } else {
        op_rope(st, nt, st.a.b_k, c.kv_dim * nt, c.n_head_kv as int, c.head_dim as int)
    }
}

/// The attention over a cache, in one go or in slices.
#[verifier::opaque]
pub open spec fn op_atencao(
    st: ResidentState,
    nt: int,
    kcache: Buf,
    vcache: Buf,
    kv_layer_off: u32,
) -> OpM {
    let c = st.cfg;
    let q = st.a.b_q.ate(c.q_out() * nt);
    let o = st.a.b_attn.ate(c.attn_dim() * nt);
    let y = ou(nt, 1);
    let n = c.n_head as u32;
    OpM::Atencao {
        curto: DespachoM {
            pipe: PipeId::Attention,
            binds: seq![q, kcache.todo(), vcache.todo(), o],
            groups: n,
            groups_y: y,
            push: PushM::Attention { kv_layer_off },
        },
        split: DespachoM {
            pipe: PipeId::AttentionSplit,
            binds: seq![q, kcache.todo(), vcache.todo(), st.a.b_attn_split.todo()],
            groups: n,
            groups_y: y,
            push: PushM::Attention { kv_layer_off },
        },
        reduce: DespachoM {
            pipe: PipeId::AttnReduce,
            binds: seq![st.a.b_attn_split.todo(), o],
            groups: n,
            groups_y: y,
            push: PushM::AttnReduce,
        },
    }
}

/// Quantizes `n` elements of a buffer from the element `i` on.
#[verifier::opaque]
pub open spec fn op_quantiza(b: Buf, xq: Buf, xd: Buf, i: int, n: int) -> OpM {
    desp(
        PipeId::QuantizeX,
        seq![b.em(i, n), xq.todo(), xd.todo()],
        grupos_q(n),
        1,
        PushM::Static(seq![n as u32, 0u32, 0u32]),
    )
}

/// The output of the attention, gated in the hybrid architectures, as the
/// quantized input of the output projection.
#[verifier::opaque]
pub open spec fn op_saida_atencao(st: ResidentState, nt: int) -> OpM {
    let c = st.cfg;
    if c.delta_net is Some {
        desp(
            PipeId::GateQuant,
            seq![
                st.a.b_attn.ate(c.attn_dim() * nt),
                st.a.b_q.ate(c.q_out() * nt),
                st.a.b_xq.todo(),
                st.a.b_xd.todo(),
            ],
            grupos_q(c.attn_dim() * nt),
            1,
            PushM::Static(seq![ou(c.attn_dim() * nt, 0), ou(c.head_dim as int, 0)]),
        )
    } else {
        op_quantiza(st.a.b_attn, st.a.b_xq, st.a.b_xd, 0, c.n_embd * nt)
    }
}

/// The product of the two halves of the feed-forward block, quantized.
#[verifier::opaque]
pub open spec fn op_swiglu(st: ResidentState, nt: int) -> OpM {
    let n = st.cfg.n_ff * nt;
    desp(
        PipeId::SwigluQuant,
        seq![
            st.a.b_gate.ate(n),
            st.a.b_up.ate(n),
            st.a.b_act.ate(n),
            st.a.b_xq.todo(),
            st.a.b_xd.todo(),
        ],
        grupos_q(n),
        1,
        PushM::Static(seq![n as u32]),
    )
}

// ---------------------------------------------------------------------------
// Layers
// ---------------------------------------------------------------------------

/// A product of the whole block with the common quantized activation.
#[verifier::opaque]
pub open spec fn op_mv_bloco(
    st: ResidentState,
    k: Knobs,
    modo: Modo,
    nt: int,
    w: QWeight,
    dst: Buf,
    n_in: int,
    n_out: int,
) -> OpM {
    op_mv(k, modo, w, dst, st.a.b_xq, st.a.b_xd, nt, n_in, n_out)
}

/// The norms of the heads, where the layer has them.
pub open spec fn ops_qk(st: ResidentState, nt: int, l: int) -> Seq<OpM> {
    let c = st.cfg;
    let la = st.aux@[l];
    match (la.q_norm, la.k_norm) {
        (Some(qn), Some(kn)) => seq![
            op_qk_norm(c, st.a.b_q, qn, c.q_out() * nt, c.n_head * nt, c.head_dim * 2),
            op_qk_norm(c, st.a.b_k, kn, c.kv_dim * nt, c.n_head_kv * nt, c.head_dim as int),
        ],
        _ => Seq::empty(),
    }
}

/// The projections of an attention layer, with the norms of the heads and the
/// biases.
pub open spec fn ops_projecoes(
    st: ResidentState,
    k: Knobs,
    modo: Modo,
    nt: int,
    l: int,
    w: (QWeight, QWeight, QWeight),
) -> Seq<OpM> {
    let c = st.cfg;
    let la = st.aux@[l];
    seq![
        op_mv_bloco(st, k, modo, nt, w.0, st.a.b_q, c.n_embd as int, c.q_out()),
        op_mv_bloco(st, k, modo, nt, w.1, st.a.b_k, c.n_embd as int, c.kv_dim as int),
        op_mv_bloco(st, k, modo, nt, w.2, st.a.b_v, c.n_embd as int, c.kv_dim as int),
    ] + ops_qk(st, nt, l) + ops_bias(st.a.b_q, la.q_bias, c.n_embd as int, nt) + ops_bias(
        st.a.b_k,
        la.k_bias,
        c.kv_dim as int,
        nt,
    ) + ops_bias(st.a.b_v, la.v_bias, c.kv_dim as int, nt)
}

/// An attention layer up to its output projection.
pub open spec fn ops_atencao(st: ResidentState, k: Knobs, modo: Modo, nt: int, l: int) -> Seq<
    OpM,
> {
    let c = st.cfg;
    match st.qw@[l].mixer {
        MixerQ::Attn { attn_q, attn_k, attn_v, attn_output } => ops_projecoes(
            st,
            k,
            modo,
            nt,
            l,
            (attn_q, attn_k, attn_v),
        ) + seq![
            op_rope(st, nt, st.a.b_q, c.q_out() * nt, c.n_head as int, c.q_passo()),
            op_rope_k(st, k, nt, l),
            OpM::KvAppend { slot: st.slot(l) as usize, com_k: !k.rope_kv },
            op_atencao(st, nt, st.a.kcache, st.a.vcache, desloc_da_camada(st, l)),
            op_saida_atencao(st, nt),
            op_mv_bloco(st, k, modo, nt, attn_output, st.a.b_proj, c.attn_dim(), c.n_embd as int),
        ],
        _ => Seq::empty(),
    }
}

/// The feed-forward block of a layer, with the norm before it.
pub open spec fn ops_ffn(st: ResidentState, k: Knobs, modo: Modo, nt: int, l: int) -> Seq<OpM> {
    let c = st.cfg;
    let q = st.qw@[l];
    ops_norma(st, nt, st.a.b_proj, st.aux@[l].ffn_norm, true) + seq![
        op_mv_bloco(st, k, modo, nt, q.ffn_gate, st.a.b_gate, c.n_embd as int, c.n_ff as int),
        op_mv_bloco(st, k, modo, nt, q.ffn_up, st.a.b_up, c.n_embd as int, c.n_ff as int),
        op_swiglu(st, nt),
        op_mv_bloco(st, k, modo, nt, q.ffn_down, st.a.b_ffn, c.n_ff as int, c.n_embd as int),
    ]
}

// ---------------------------------------------------------------------------
// Linear attention
// ---------------------------------------------------------------------------

/// (g, beta) of the value heads of `n` tokens from the token `t` on.
#[verifier::opaque]
pub open spec fn op_dn_gates(
    st: ResidentState,
    d: DeltaNetConfig,
    b: DnBufs,
    da: DeltaBufs,
    t: int,
    n: int,
) -> OpM {
    let c = st.cfg;
    desp(
        PipeId::DnGates,
        seq![
            st.a.b_normed.em(t * c.n_embd, c.n_embd * n),
            da.alpha.todo(),
            da.beta.todo(),
            da.adt.todo(),
            b.gb.em(t * (d.n_v_heads * 2), d.n_v_heads * 2 * n),
        ],
        sat(d.n_v_heads as int),
        ou(n, 1),
        PushM::Static(seq![sat(c.n_embd as int), sat(d.n_v_heads as int), 0u32]),
    )
}

/// The convolution of `n` tokens from the token `t` on.
#[verifier::opaque]
pub open spec fn op_dn_conv(d: DeltaNetConfig, b: DnBufs, da: DeltaBufs, t: int, n: int) -> OpM {
    let cd = d.conv_dim();
    desp(
        PipeId::DnConv,
        seq![
            da.janela.todo(),
            b.qkv.em(t * cd, cd * n),
            da.conv1d.todo(),
            b.conv.em(t * cd, cd * n),
        ],
        grupos(cd),
        1,
        PushM::Static(seq![sat(cd), sat(d.d_conv as int), ou(n, 1)]),
    )
}

/// The L2 norm of q and k: `lidos` elements of the convolution from the token
/// `t` on, for `n` tokens `passo` elements apart.
#[verifier::opaque]
pub open spec fn op_dn_l2(
    c: Cfg,
    d: DeltaNetConfig,
    b: DnBufs,
    t: int,
    n: int,
    lidos: int,
    passo: u32,
) -> OpM {
    let kd = d.key_dim();
    desp(
        PipeId::DnL2Qk,
        seq![
            b.conv.em(t * d.conv_dim(), lidos),
            b.qn.em(t * kd, kd * n),
            b.kn.em(t * kd, kd * n),
        ],
        sat(d.n_k_heads * 2),
        ou(n, 1),
        PushM::Static(seq![sat(d.d_state as int), sat(d.n_k_heads as int), c.rms_eps, passo]),
    )
}

/// The recurrence of `n` tokens from the token `t` on; `v` is the last part of
/// each token of the convolution, `passo` elements apart.
#[verifier::opaque]
pub open spec fn op_dn_delta(
    d: DeltaNetConfig,
    b: DnBufs,
    da: DeltaBufs,
    t: int,
    n: int,
    v: int,
    passo: u32,
) -> OpM {
    let kd = d.key_dim();
    desp(
        PipeId::DeltaNet,
        seq![
            da.estado.todo(),
            b.qn.em(t * kd, kd * n),
            b.kn.em(t * kd, kd * n),
            b.conv.em(t * d.conv_dim() + 2 * kd, v),
            b.gb.em(t * (d.n_v_heads * 2), d.n_v_heads * 2 * n),
            b.out.em(t * d.value_dim(), d.value_dim() * n),
        ],
        sat(d.n_v_heads * d.d_state / 4),
        1,
        PushM::Static(
            seq![
                sat(d.d_state as int),
                sat(d.n_v_heads as int),
                ou(d.n_v_heads as int / d.n_k_heads as int, 1),
                ou(n, 1),
                passo,
            ],
        ),
    )
}

/// The gated norm of the output, its quantization and the output projection.
#[verifier::opaque]
pub open spec fn ops_dn_fim(
    st: ResidentState,
    k: Knobs,
    modo: Modo,
    nt: int,
    d: DeltaNetConfig,
    b: DnBufs,
    da: DeltaBufs,
    w_out: QWeight,
) -> Seq<OpM> {
    let c = st.cfg;
    let vd = d.value_dim();
    let n = vd * nt;
    let h = d.n_v_heads * nt;
    seq![
        desp(
            PipeId::DnNorm,
            seq![b.out.ate(n), da.norm.todo(), b.z.ate(n), b.normed.ate(n)],
            sat(h),
            1,
            PushM::Static(
                seq![
                    sat(d.head_v_dim as int),
                    sat(h),
                    1u32,
                    c.rms_eps,
                    sat(d.head_v_dim as int),
                ],
            ),
        ),
        desp(
            PipeId::QuantizeX,
            seq![b.normed.ate(n), b.xq.todo(), b.xd.todo()],
            sat(teto(n / 32, 64)),
            1,
            PushM::Static(seq![sat(n), 0u32, 0u32]),
        ),
        op_mv(k, modo, w_out, st.a.b_proj, b.xq, b.xd, nt, vd, c.n_embd as int),
    ]
}

/// The input projections.
pub open spec fn ops_dn_inicio(
    st: ResidentState,
    k: Knobs,
    modo: Modo,
    nt: int,
    d: DeltaNetConfig,
    b: DnBufs,
    w_qkv: QWeight,
    w_gate: QWeight,
) -> Seq<OpM> {
    let c = st.cfg;
    seq![
        op_mv_bloco(st, k, modo, nt, w_qkv, b.qkv, c.n_embd as int, d.conv_dim()),
        op_mv_bloco(st, k, modo, nt, w_gate, b.z, c.n_embd as int, d.value_dim()),
    ]
}

/// A linear-attention layer of the decode or the prefill: the kernels take all
/// tokens of the block at once.
pub open spec fn ops_delta(st: ResidentState, k: Knobs, modo: Modo, nt: int, l: int) -> Seq<OpM> {
    let c = st.cfg;
    match (st.qw@[l].mixer, c.delta_net, st.a.dn, st.aux@[l].delta) {
        (MixerQ::Delta { attn_qkv, attn_gate, ssm_out }, Some(d), Some(b), Some(da)) => {
            ops_dn_inicio(st, k, modo, nt, d, b, attn_qkv, attn_gate) + seq![
                op_dn_gates(st, d, b, da, 0, nt),
                op_dn_conv(d, b, da, 0, nt),
                op_dn_l2(c, d, b, 0, nt, d.conv_dim() * nt, sat(d.conv_dim())),
                op_dn_delta(
                    d,
                    b,
                    da,
                    0,
                    nt,
                    d.conv_dim() * nt - 2 * d.key_dim(),
                    sat(d.conv_dim()),
                ),
            ] + ops_dn_fim(st, k, modo, nt, d, b, da, ssm_out)
        },
        _ => Seq::empty(),
    }
}

pub open spec fn ops_gates_ate(
    st: ResidentState,
    d: DeltaNetConfig,
    b: DnBufs,
    da: DeltaBufs,
    n: int,
) -> Seq<OpM>
    decreases n,
{
    if n <= 0 {
        Seq::empty()
    } else {
        ops_gates_ate(st, d, b, da, n - 1).push(op_dn_gates(st, d, b, da, n - 1, 1))
    }
}

/// The convolution of the first `n` tokens one by one, with a copy of the window
/// between each two.
pub open spec fn ops_conv_ate(d: DeltaNetConfig, b: DnBufs, da: DeltaBufs, n: int) -> Seq<OpM>
    decreases n,
{
    if n <= 0 {
        Seq::empty()
    } else {
        let r = ops_conv_ate(d, b, da, n - 1);
        let r = if n > 1 {
            r.push(
                OpM::Copia {
                    src: da.janela.buffer,
                    dst: da.janela_snap@[n - 2].buffer,
                    bytes: da.janela.size,
                },
            )
        } else {
            r
        };
        r.push(op_dn_conv(d, b, da, n - 1, 1))
    }
}

pub open spec fn ops_l2_ate(c: Cfg, d: DeltaNetConfig, b: DnBufs, n: int) -> Seq<OpM>
    decreases n,
{
    if n <= 0 {
        Seq::empty()
    } else {
        ops_l2_ate(c, d, b, n - 1).push(op_dn_l2(c, d, b, n - 1, 1, 2 * d.key_dim(), 0u32))
    }
}

/// The recurrence of the first `n` tokens one by one, with a copy of the state
/// between each two.
pub open spec fn ops_estado_ate(d: DeltaNetConfig, b: DnBufs, da: DeltaBufs, n: int) -> Seq<OpM>
    decreases n,
{
    if n <= 0 {
        Seq::empty()
    } else {
        let r = ops_estado_ate(d, b, da, n - 1);
        let r = if n > 1 {
            r.push(
                OpM::Copia {
                    src: da.estado.buffer,
                    dst: da.estado_snap@[n - 2].buffer,
                    bytes: da.estado.size,
                },
            )
        } else {
            r
        };
        r.push(op_dn_delta(d, b, da, n - 1, 1, d.value_dim(), sat(d.value_dim())))
    }
}

/// A linear-attention layer of the verification: the tokens go one by one, and
/// the window and the state are copied between each two, so that the rejected
/// ones can be undone.
pub open spec fn ops_delta_verify(st: ResidentState, k: Knobs, l: int) -> Seq<OpM> {
    let c = st.cfg;
    let nt = VERIFY_TOK as int;
    match (st.qw@[l].mixer, c.delta_net, st.a.dn, st.aux@[l].delta) {
        (MixerQ::Delta { attn_qkv, attn_gate, ssm_out }, Some(d), Some(b), Some(da)) => {
            ops_dn_inicio(st, k, Modo::Verify, nt, d, b, attn_qkv, attn_gate) + ops_gates_ate(
                st,
                d,
                b,
                da,
                nt,
            ) + ops_conv_ate(d, b, da, nt) + ops_l2_ate(c, d, b, nt) + ops_estado_ate(d, b, da, nt)
                + ops_dn_fim(st, k, Modo::Verify, nt, d, b, da, ssm_out)
        },
        _ => Seq::empty(),
    }
}

/// Whether a linear-attention layer can be planned. The window of the
/// convolution holds at most four tokens in the kernel of the block; the
/// verification needs a place for each copy.
pub open spec fn delta_ok(st: ResidentState, modo: Modo, l: int) -> bool {
    match (st.cfg.delta_net, st.a.dn, st.aux@[l].delta) {
        (Some(d), Some(b), Some(da)) => if modo is Verify {
            da.estado_snap@.len() == VERIFY_TOK - 1 && da.janela_snap@.len() == VERIFY_TOK - 1
        } else {
            d.d_conv <= 5
        },
        _ => false,
    }
}

// ---------------------------------------------------------------------------
// The plan
// ---------------------------------------------------------------------------

/// A layer. Its first norm adds the feed-forward output of the layer before.
pub open spec fn ops_camada(st: ResidentState, k: Knobs, modo: Modo, nt: int, l: int) -> Seq<OpM> {
    let mixer = if st.qw@[l].mixer is Delta {
        if modo is Verify {
            ops_delta_verify(st, k, l)
        } else {
            ops_delta(st, k, modo, nt, l)
        }
    } else {
        ops_atencao(st, k, modo, nt, l)
    };
    ops_norma(st, nt, st.a.b_ffn, st.aux@[l].attn_norm, l > 0) + mixer + ops_ffn(
        st,
        k,
        modo,
        nt,
        l,
    )
}

pub open spec fn ops_camadas(st: ResidentState, k: Knobs, modo: Modo, nt: int, n: int) -> Seq<OpM>
    decreases n,
{
    if n <= 0 {
        Seq::empty()
    } else {
        ops_camadas(st, k, modo, nt, n - 1) + ops_camada(st, k, modo, nt, n - 1)
    }
}

/// Layers that the plan runs.
pub open spec fn camadas(st: ResidentState, k: Knobs) -> int {
    match k.parar_em {
        Some(n) => if n < st.cfg.n_layer {
            n as int
        } else {
            st.cfg.n_layer as int
        },
        None => st.cfg.n_layer as int,
    }
}

/// Whether any layer ran, and so whether there is a residual to add.
pub open spec fn rodou(st: ResidentState, k: Knobs) -> bool {
    st.cfg.n_layer > 0 && k.parar_em != Some(0usize)
}

/// After the layers: the logits in the last shard, the last residual in the
/// others. The prefill gives the logits of its last token only; the
/// verification those of every token.
pub open spec fn ops_fim(st: ResidentState, k: Knobs, modo: Modo, nt: int) -> Seq<OpM> {
    let c = st.cfg;
    let a = st.a;
    if c.shard.ultimo() {
        let n = ops_norma(st, nt, a.b_ffn, st.output_norm_buf, rodou(st, k));
        if modo is Verify {
            n.push(
                op_mv(
                    k,
                    modo,
                    st.output_w,
                    a.b_logits,
                    a.b_xq,
                    a.b_xd,
                    VERIFY_TOK as int,
                    c.n_embd as int,
                    c.vocab as int,
                ),
            )
        } else {
            let q = if nt > 1 {
                n.push(
                    op_quantiza(
                        a.b_normed,
                        a.b_xq,
                        a.b_xd,
                        (nt - 1) * c.n_embd,
                        c.n_embd as int,
                    ),
                )
            } else {
                n
            };
            q.push(
                op_mv(
                    k,
                    modo,
                    st.output_w,
                    a.b_logits,
                    a.b_xq,
                    a.b_xd,
                    1,
                    c.n_embd as int,
                    c.vocab as int,
                ),
            )
        }
    } else if rodou(st, k) {
        let n = c.n_embd * nt;
        seq![
            desp(
                PipeId::Add,
                seq![a.b_x.ate(n), a.b_ffn.ate(n)],
                grupos(n),
                1,
                PushM::Static(seq![n as u32]),
            ),
        ]
    } else {
        Seq::empty()
    }
}

/// The plan of a block.
pub open spec fn plano(st: ResidentState, k: Knobs, modo: Modo) -> Seq<OpM> {
    let nt = modo.tokens(st.cfg);
    seq![OpM::Embed] + ops_camadas(st, k, modo, nt, camadas(st, k)) + ops_fim(st, k, modo, nt)
}

/// Whether every linear-attention layer that runs can be planned.
pub open spec fn planejavel(st: ResidentState, modo: Modo, n: int) -> bool {
    forall|l: int|
        0 <= l < n && st.qw@[l].mixer is Delta ==> #[trigger] delta_ok(st, modo, l)
}

} // verus!
