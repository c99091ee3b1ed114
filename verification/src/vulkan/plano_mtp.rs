//! The plan of the prediction head: it joins the embedding of the last token and
//! the hidden state of the one before, runs one attention layer on them and
//! gives logits.

use vstd::prelude::*;

use crate::vulkan::ambiente::geom_ok;
use crate::vulkan::contas::{sat, teto, teto_usize, u32_sat};
use crate::vulkan::estado::{
    Buf, Cfg, Knobs, MtpBufs, QWeight, ResidentState, MATVEC_NUM_ROWS,
};
use crate::vulkan::ops::{
    plano_de, Despacho, DespachoM, GgmlType, OpM, PipeId, PlannedOp, PushM, PushSpec,
};
use crate::vulkan::planejar::{groups_for, groups_norma, groups_q, mk_op, poe, rows_kq, um_se};
use crate::vulkan::plano::{desp, grupos, grupos_norma, grupos_q};

verus! {

/// That everything the plan speaks of can be measured in bytes.
pub open spec fn cabe_mtp(c: Cfg) -> bool {
    &&& c.n_embd * 2 * 4 <= usize::MAX
    &&& c.q_out() * 4 <= usize::MAX
    &&& c.attn_dim() * 4 <= usize::MAX
    &&& c.kv_dim * 4 <= usize::MAX
    &&& c.n_ff * 4 <= usize::MAX
    &&& c.vocab * 4 <= usize::MAX
    &&& c.head_dim * 2 <= usize::MAX
    &&& c.n_head * c.rope_dim <= usize::MAX
    &&& c.n_head_kv * c.rope_dim <= usize::MAX
}

/// The pipeline of a product with one vector and the rows of its workgroups.
pub open spec fn matvec_um(k: Knobs, ty: GgmlType) -> (PipeId, int) {
    let kq = (k.geom.0 / 64) * k.geom.1;
    match ty {
        GgmlType::Q8_0 => (PipeId::Matvec, MATVEC_NUM_ROWS as int),
        GgmlType::Q5_K => (PipeId::MatvecQ5K, kq),
        GgmlType::Q4_K => (PipeId::MatvecQ4K, kq),
        _ => (PipeId::MatvecQ6K, 8),
    }
}

/// A product with the common quantized activation.
#[verifier::opaque]
pub open spec fn mtp_mv(
    st: ResidentState,
    k: Knobs,
    w: QWeight,
    dst: Buf,
    n_in: int,
    n_out: int,
) -> OpM {
    let m = matvec_um(k, w.ty);
    desp(
        m.0,
        seq![
            w.gpu.todo(),
            st.a.b_xq.todo(),
            st.a.b_xd.todo(),
            dst.ate(n_out),
            st.a.b_xd.todo(),
        ],
        sat(teto(n_out, m.1)),
        1,
        PushM::Static(seq![sat(n_in), sat(n_out), 0u32, 0u32]),
    )
}

/// The norm of `x`, to which `r` is added first if `tem` is set; its result goes
/// to `out` from the element `i` on.
#[verifier::opaque]
pub open spec fn mtp_norma(
    st: ResidentState,
    x: Buf,
    r: Buf,
    w: Buf,
    tem: bool,
    out: Buf,
    i: int,
) -> Seq<OpM> {
    let c = st.cfg;
    let n = c.n_embd as int;
    seq![
        desp(
            PipeId::NormFused,
            seq![x.ate(n), r.ate(n), st.a.b_parciais.todo()],
            grupos_norma(c),
            1,
            PushM::Static(
                seq![
                    sat(n),
                    if tem {
                        1u32
                    } else {
                        0u32
                    },
                ],
            ),
        ),
        desp(
            PipeId::NormP2,
            seq![
                x.ate(n),
                w.todo(),
                st.a.b_parciais.todo(),
                out.em(i, n),
                st.a.b_xq.todo(),
                st.a.b_xd.todo(),
            ],
            grupos_q(n),
            1,
            PushM::Static(seq![sat(n), c.rms_eps, grupos_norma(c)]),
        ),
    ]
}

#[verifier::opaque]
pub open spec fn mtp_quantiza(st: ResidentState, b: Buf, n: int) -> OpM {
    desp(
        PipeId::QuantizeX,
        seq![b.ate(n), st.a.b_xq.todo(), st.a.b_xd.todo()],
        grupos_q(n),
        1,
        PushM::Static(seq![sat(n), 0u32, 0u32]),
    )
}

#[verifier::opaque]
pub open spec fn mtp_qk(c: Cfg, b: Buf, w: Buf, n: int, cabecas: int, passo: int) -> OpM {
    desp(
        PipeId::DnNorm,
        seq![b.ate(n), w.todo(), b.ate(n), b.ate(n)],
        sat(cabecas),
        1,
        PushM::Static(seq![sat(c.head_dim as int), sat(cabecas), 2u32, c.rms_eps, sat(passo)]),
    )
}

#[verifier::opaque]
pub open spec fn mtp_rope(st: ResidentState, b: Buf, n: int, cabecas: int, passo: int) -> OpM {
    desp(
        PipeId::Rope,
        seq![b.ate(n), st.freq_buf.todo()],
        grupos(cabecas * (st.cfg.rope_dim as int / 2)),
        1,
        PushM::Rope { n_head: sat(cabecas), stride: sat(passo) },
    )
}

#[verifier::opaque]
pub open spec fn mtp_atencao(st: ResidentState, m: MtpBufs) -> OpM {
    let c = st.cfg;
    let q = st.a.b_q.ate(c.q_out());
    let o = st.a.b_attn.ate(c.attn_dim());
    let n = sat(c.n_head as int);
    OpM::Atencao {
        curto: DespachoM {
            pipe: PipeId::Attention,
            binds: seq![q, m.kcache.todo(), m.vcache.todo(), o],
            groups: n,
            groups_y: 1,
            push: PushM::Attention { kv_layer_off: 0 },
        },
        split: DespachoM {
            pipe: PipeId::AttentionSplit,
            binds: seq![q, m.kcache.todo(), m.vcache.todo(), st.a.b_attn_split.todo()],
            groups: n,
            groups_y: 1,
            push: PushM::Attention { kv_layer_off: 0 },
        },
        reduce: DespachoM {
            pipe: PipeId::AttnReduce,
            binds: seq![st.a.b_attn_split.todo(), o],
            groups: n,
            groups_y: 1,
            push: PushM::AttnReduce,
        },
    }
}

#[verifier::opaque]
pub open spec fn mtp_saida(st: ResidentState) -> OpM {
    let c = st.cfg;
    if c.delta_net is Some {
        desp(
            PipeId::GateQuant,
            seq![
                st.a.b_attn.ate(c.attn_dim()),
                st.a.b_q.ate(c.q_out()),
                st.a.b_xq.todo(),
                st.a.b_xd.todo(),
            ],
            grupos_q(c.attn_dim()),
            1,
            PushM::Static(seq![sat(c.attn_dim()), sat(c.head_dim as int)]),
        )
    } else {
        mtp_quantiza(st, st.a.b_attn, c.attn_dim())
    }
}

#[verifier::opaque]
pub open spec fn mtp_swiglu(st: ResidentState) -> OpM {
    let n = st.cfg.n_ff as int;
    desp(
        PipeId::SwigluQuant,
        seq![
            st.a.b_gate.ate(n),
            st.a.b_up.ate(n),
            st.a.b_act.ate(n),
            st.a.b_xq.todo(),
            st.a.b_xd.todo(),
        ],
        grupos_q(n),
        1,
        PushM::Static(seq![sat(n)]),
    )
}

/// The two norms, each into its half of one vector, and the projection of it.
pub open spec fn mtp_prologo(st: ResidentState, k: Knobs, m: MtpBufs) -> Seq<OpM> {
    let n = st.cfg.n_embd as int;
    seq![
        OpM::Copia { src: m.emb_stage.buffer, dst: m.b_emb.buffer, bytes: (n * 4) as u64 },
        OpM::CopiaHidden,
    ] + mtp_norma(st, m.b_emb, m.b_emb, m.enorm, false, m.b_eh, 0) + mtp_norma(
        st,
        m.b_h,
        m.b_h,
        m.hnorm,
        false,
        m.b_eh,
        n,
    ) + seq![mtp_quantiza(st, m.b_eh, n * 2), mtp_mv(st, k, m.eh_proj, m.b_x, n * 2, n)]
}

pub open spec fn mtp_qks(st: ResidentState, m: MtpBufs) -> Seq<OpM> {
    let c = st.cfg;
    match (m.q_norm, m.k_norm) {
        (Some(qn), Some(kn)) => seq![
            mtp_qk(c, st.a.b_q, qn, c.q_out(), c.n_head as int, c.head_dim * 2),
            mtp_qk(c, st.a.b_k, kn, c.kv_dim as int, c.n_head_kv as int, c.head_dim as int),
        ],
        _ => Seq::empty(),
    }
}

/// The attention layer.
pub open spec fn mtp_mixer(st: ResidentState, k: Knobs, m: MtpBufs) -> Seq<OpM> {
    let c = st.cfg;
    let n = c.n_embd as int;
    mtp_norma(st, m.b_x, m.b_ffn, m.attn_norm, false, st.a.b_normed, 0) + seq![
        mtp_mv(st, k, m.attn_q, st.a.b_q, n, c.q_out()),
        mtp_mv(st, k, m.attn_k, st.a.b_k, n, c.kv_dim as int),
        mtp_mv(st, k, m.attn_v, st.a.b_v, n, c.kv_dim as int),
    ] + mtp_qks(st, m) + seq![
        mtp_rope(st, st.a.b_q, c.q_out(), c.n_head as int, c.q_passo()),
        mtp_rope(st, st.a.b_k, c.kv_dim as int, c.n_head_kv as int, c.head_dim as int),
        OpM::KvAppendMtp,
        mtp_atencao(st, m),
        mtp_saida(st),
        mtp_mv(st, k, m.attn_output, st.a.b_proj, c.attn_dim(), n),
    ]
}

/// The feed-forward block, the last norm and the logits.
pub open spec fn mtp_fim(st: ResidentState, k: Knobs, m: MtpBufs) -> Seq<OpM> {
    let c = st.cfg;
    let n = c.n_embd as int;
    mtp_norma(st, m.b_x, st.a.b_proj, m.ffn_norm, true, st.a.b_normed, 0) + seq![
        mtp_mv(st, k, m.ffn_gate, st.a.b_gate, n, c.n_ff as int),
        mtp_mv(st, k, m.ffn_up, st.a.b_up, n, c.n_ff as int),
        mtp_swiglu(st),
        mtp_mv(st, k, m.ffn_down, m.b_ffn, c.n_ff as int, n),
    ] + mtp_norma(st, m.b_x, m.b_ffn, m.shared_head_norm, true, st.a.b_normed, 0) + seq![
        mtp_mv(st, k, st.output_w, st.a.b_logits, n, c.vocab as int),
    ]
}

/// The plan of the prediction head; empty where there is none.
pub open spec fn plano_mtp(st: ResidentState, k: Knobs) -> Seq<OpM> {
    match st.mtp {
        None => Seq::empty(),
        Some(m) => mtp_prologo(st, k, m) + mtp_mixer(st, k, m) + mtp_fim(st, k, m),
    }
}

fn mv(st: &ResidentState, k: &Knobs, w: &QWeight, dst: &Buf, n_in: usize, n_out: usize) -> (r:
    PlannedOp)
    requires
        geom_ok(k.geom),
        n_out * 4 <= usize::MAX,
    ensures
        r@ == mtp_mv(*st, *k, *w, *dst, n_in as int, n_out as int),
{
    proof {
        reveal(mtp_mv);
    }
    let (pipe, rows): (PipeId, usize) = match w.ty {
        GgmlType::Q8_0 => (PipeId::Matvec, MATVEC_NUM_ROWS as usize),
        GgmlType::Q5_K => (PipeId::MatvecQ5K, rows_kq(k.geom)),
        GgmlType::Q4_K => (PipeId::MatvecQ4K, rows_kq(k.geom)),
        _ => (PipeId::MatvecQ6K, 8),
    };
    mk_op(
        pipe,
        vec![
            w.gpu.inteiro(),
            st.a.b_xq.inteiro(),
            st.a.b_xd.inteiro(),
            dst.trecho(0, n_out),
            st.a.b_xd.inteiro(),
        ],
        u32_sat(teto_usize(n_out, rows)),
        1,
        PushSpec::Static(vec![u32_sat(n_in), u32_sat(n_out), 0, 0]),
    )
}

fn norma(
    plan: &mut Vec<PlannedOp>,
    st: &ResidentState,
    x: &Buf,
    res: &Buf,
    w: &Buf,
    tem: bool,
    out: &Buf,
    i: usize,
)
    requires
        i * 4 <= usize::MAX,
        st.cfg.n_embd * 4 <= usize::MAX,
    ensures
        plano_de(final(plan)@) == plano_de(old(plan)@) + mtp_norma(
            *st,
            *x,
            *res,
            *w,
            tem,
            *out,
            i as int,
        ),
{
    let c = &st.cfg;
    let n: usize = c.n_embd;
    let p1 = mk_op(
        PipeId::NormFused,
        vec![x.trecho(0, n), res.trecho(0, n), st.a.b_parciais.inteiro()],
        groups_norma(c),
        1,
        PushSpec::Static(vec![u32_sat(n), um_se(tem)]),
    );
    let p2 = mk_op(
        PipeId::NormP2,
        vec![
            x.trecho(0, n),
            w.inteiro(),
            st.a.b_parciais.inteiro(),
            out.trecho(i, n),
            st.a.b_xq.inteiro(),
            st.a.b_xd.inteiro(),
        ],
        groups_q(n),
        1,
        PushSpec::Static(vec![u32_sat(n), c.rms_eps, groups_norma(c)]),
    );
    let ghost ops = mtp_norma(*st, *x, *res, *w, tem, *out, i as int);
    proof {
        reveal(mtp_norma);
        assert(p1@ =~= ops[0]);
        assert(p2@ =~= ops[1]);
    }
    poe(plan, p1);
    poe(plan, p2);
    assert(plano_de(plan@) =~= plano_de(old(plan)@) + ops);
}

fn quantiza(st: &ResidentState, b: &Buf, n: usize) -> (r: PlannedOp)
    requires
        n * 4 <= usize::MAX,
    ensures
        r@ == mtp_quantiza(*st, *b, n as int),
{
    proof {
        reveal(mtp_quantiza);
    }
    mk_op(
        PipeId::QuantizeX,
        vec![b.trecho(0, n), st.a.b_xq.inteiro(), st.a.b_xd.inteiro()],
        groups_q(n),
        1,
        PushSpec::Static(vec![u32_sat(n), 0, 0]),
    )
}

fn qk(c: &Cfg, b: &Buf, w: &Buf, n: usize, cabecas: usize, passo: usize) -> (r: PlannedOp)
    requires
        n * 4 <= usize::MAX,
    ensures
        r@ == mtp_qk(*c, *b, *w, n as int, cabecas as int, passo as int),
{
    proof {
        reveal(mtp_qk);
    }
    mk_op(
        PipeId::DnNorm,
        vec![b.trecho(0, n), w.inteiro(), b.trecho(0, n), b.trecho(0, n)],
        u32_sat(cabecas),
        1,
        PushSpec::Static(
            vec![u32_sat(c.head_dim), u32_sat(cabecas), 2, c.rms_eps, u32_sat(passo)],
        ),
    )
}

fn rope(st: &ResidentState, b: &Buf, n: usize, cabecas: usize, passo: usize) -> (r: PlannedOp)
    requires
        n * 4 <= usize::MAX,
        cabecas * st.cfg.rope_dim <= usize::MAX,
    ensures
        r@ == mtp_rope(*st, *b, n as int, cabecas as int, passo as int),
{
    let rd: usize = st.cfg.rope_dim;
    proof {
        reveal(mtp_rope);
        assert(0 <= cabecas * (rd as int / 2) <= cabecas * rd) by (nonlinear_arith)
            requires
                0 <= cabecas,
                0 <= rd as int / 2 <= rd,
        ;
    }
    mk_op(
        PipeId::Rope,
        vec![b.trecho(0, n), st.freq_buf.inteiro()],
        groups_for(cabecas * (rd / 2)),
        1,
        PushSpec::Rope { n_head: u32_sat(cabecas), stride: u32_sat(passo) },
    )
}

fn atencao(st: &ResidentState, m: &MtpBufs, q_out: usize, attn_dim: usize) -> (r: PlannedOp)
    requires
        q_out == st.cfg.q_out(),
        attn_dim == st.cfg.attn_dim(),
        q_out * 4 <= usize::MAX,
        attn_dim * 4 <= usize::MAX,
    ensures
        r@ == mtp_atencao(*st, *m),
{
    proof {
        reveal(mtp_atencao);
    }
    let c = &st.cfg;
    let q = st.a.b_q.trecho(0, q_out);
    let o = st.a.b_attn.trecho(0, attn_dim);
    let curto = Despacho {
        pipe: PipeId::Attention,
        binds: vec![q, m.kcache.inteiro(), m.vcache.inteiro(), o],
        groups: u32_sat(c.n_head),
        groups_y: 1,
        push: PushSpec::Attention { kv_layer_off: 0 },
    };
    let split = Despacho {
        pipe: PipeId::AttentionSplit,
        binds: vec![q, m.kcache.inteiro(), m.vcache.inteiro(), st.a.b_attn_split.inteiro()],
        groups: u32_sat(c.n_head),
        groups_y: 1,
        push: PushSpec::Attention { kv_layer_off: 0 },
    };
    let reduce = Despacho {
        pipe: PipeId::AttnReduce,
        binds: vec![st.a.b_attn_split.inteiro(), o],
        groups: u32_sat(c.n_head),
        groups_y: 1,
        push: PushSpec::AttnReduce,
    };
    PlannedOp::Atencao { curto, split, reduce }
}

fn saida(st: &ResidentState, q_out: usize, attn_dim: usize) -> (r: PlannedOp)
    requires
        q_out == st.cfg.q_out(),
        attn_dim == st.cfg.attn_dim(),
        q_out * 4 <= usize::MAX,
        attn_dim * 4 <= usize::MAX,
    ensures
        r@ == mtp_saida(*st),
{
    proof {
        reveal(mtp_saida);
    }
    let c = &st.cfg;
    if c.delta_net.is_some() {
        mk_op(
            PipeId::GateQuant,
            vec![
                st.a.b_attn.trecho(0, attn_dim),
                st.a.b_q.trecho(0, q_out),
                st.a.b_xq.inteiro(),
                st.a.b_xd.inteiro(),
            ],
            groups_q(attn_dim),
            1,
            PushSpec::Static(vec![u32_sat(attn_dim), u32_sat(c.head_dim)]),
        )
    } else {
        quantiza(st, &st.a.b_attn, attn_dim)
    }
}

fn prologo(plan: &mut Vec<PlannedOp>, st: &ResidentState, k: &Knobs, m: &MtpBufs)
    requires
        geom_ok(k.geom),
        cabe_mtp(st.cfg),
    ensures
        plano_de(final(plan)@) == plano_de(old(plan)@) + mtp_prologo(*st, *k, *m),
{
    let n: usize = st.cfg.n_embd;
    let ghost p0 = plano_de(plan@);
    poe(
        plan,
        PlannedOp::Copia {
            src: m.emb_stage.buffer,
            dst: m.b_emb.buffer,
            bytes: (n * 4) as u64,
        },
    );
    poe(plan, PlannedOp::CopiaHidden);
    norma(plan, st, &m.b_emb, &m.b_emb, &m.enorm, false, &m.b_eh, 0);
    norma(plan, st, &m.b_h, &m.b_h, &m.hnorm, false, &m.b_eh, n);
    poe(plan, quantiza(st, &m.b_eh, n * 2));
    poe(plan, mv(st, k, &m.eh_proj, &m.b_x, n * 2, n));
    assert(plano_de(plan@) =~= p0 + mtp_prologo(*st, *k, *m));
}

fn mixer(plan: &mut Vec<PlannedOp>, st: &ResidentState, k: &Knobs, m: &MtpBufs)
    requires
        geom_ok(k.geom),
        cabe_mtp(st.cfg),
    ensures
        plano_de(final(plan)@) == plano_de(old(plan)@) + mtp_mixer(*st, *k, *m),
{
    let c = &st.cfg;
    let a = &st.a;
    let n: usize = c.n_embd;
    let ghost p0 = plano_de(plan@);
    proof {
        assert(c.head_dim * c.n_head >= 0) by (nonlinear_arith);
    }
    let hib = c.delta_net.is_some();
    let (attn_dim, q_out, passo): (usize, usize, usize) = if hib {
        (c.head_dim * c.n_head, c.head_dim * c.n_head * 2, c.head_dim * 2)
    } else {
        (n, n, c.head_dim)
    };
    norma(plan, st, &m.b_x, &m.b_ffn, &m.attn_norm, false, &a.b_normed, 0);
    poe(plan, mv(st, k, &m.attn_q, &a.b_q, n, q_out));
    poe(plan, mv(st, k, &m.attn_k, &a.b_k, n, c.kv_dim));
    poe(plan, mv(st, k, &m.attn_v, &a.b_v, n, c.kv_dim));
    let ghost p1 = plano_de(plan@);
    if let (Some(qn), Some(kn)) = (&m.q_norm, &m.k_norm) {
        poe(plan, qk(c, &a.b_q, qn, q_out, c.n_head, c.head_dim * 2));
        poe(plan, qk(c, &a.b_k, kn, c.kv_dim, c.n_head_kv, c.head_dim));
    }
    assert(plano_de(plan@) =~= p1 + mtp_qks(*st, *m));
    poe(plan, rope(st, &a.b_q, q_out, c.n_head, passo));
    poe(plan, rope(st, &a.b_k, c.kv_dim, c.n_head_kv, c.head_dim));
    poe(plan, PlannedOp::KvAppendMtp);
    poe(plan, atencao(st, m, q_out, attn_dim));
    poe(plan, saida(st, q_out, attn_dim));
    poe(plan, mv(st, k, &m.attn_output, &a.b_proj, attn_dim, n));
    assert(plano_de(plan@) =~= p0 + mtp_mixer(*st, *k, *m));
}

fn fim(plan: &mut Vec<PlannedOp>, st: &ResidentState, k: &Knobs, m: &MtpBufs)
    requires
        geom_ok(k.geom),
        cabe_mtp(st.cfg),
    ensures
        plano_de(final(plan)@) == plano_de(old(plan)@) + mtp_fim(*st, *k, *m),
{
    let c = &st.cfg;
    let a = &st.a;
    let n: usize = c.n_embd;
    let ghost p0 = plano_de(plan@);
    norma(plan, st, &m.b_x, &a.b_proj, &m.ffn_norm, true, &a.b_normed, 0);
    poe(plan, mv(st, k, &m.ffn_gate, &a.b_gate, n, c.n_ff));
    poe(plan, mv(st, k, &m.ffn_up, &a.b_up, n, c.n_ff));
    let op = mk_op(
        PipeId::SwigluQuant,
        vec![
            a.b_gate.trecho(0, c.n_ff),
            a.b_up.trecho(0, c.n_ff),
            a.b_act.trecho(0, c.n_ff),
            a.b_xq.inteiro(),
            a.b_xd.inteiro(),
        ],
        groups_q(c.n_ff),
        1,
        PushSpec::Static(vec![u32_sat(c.n_ff)]),
    );
    proof {
        reveal(mtp_swiglu);
        assert(op@ =~= mtp_swiglu(*st));
    }
    poe(plan, op);
    poe(plan, mv(st, k, &m.ffn_down, &m.b_ffn, c.n_ff, n));
    norma(plan, st, &m.b_x, &m.b_ffn, &m.shared_head_norm, true, &a.b_normed, 0);
    poe(plan, mv(st, k, &st.output_w, &a.b_logits, n, c.vocab));
    assert(plano_de(plan@) =~= p0 + mtp_fim(*st, *k, *m));
}

/// The operations of the prediction head; none where the shard has no head.
pub fn build_plan_mtp(st: &ResidentState, k: &Knobs) -> (r: Vec<PlannedOp>)
    requires
        st.mtp is Some ==> geom_ok(k.geom) && cabe_mtp(st.cfg),
    ensures
        plano_de(r@) == plano_mtp(*st, *k),
{
    let mut plan: Vec<PlannedOp> = Vec::new();
    if let Some(m) = &st.mtp {
        prologo(&mut plan, st, k, m);
        mixer(&mut plan, st, k, m);
        fim(&mut plan, st, k, m);
    }
    assert(plano_de(plan@) =~= plano_mtp(*st, *k));
    plan
}

} // verus!
