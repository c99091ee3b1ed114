//! What the steps of a shard write: its own buffers and nothing else.

use vstd::prelude::*;

use crate::vulkan::estado::{
    Ativacoes, Buf, DeltaBufs, DeltaNetConfig, DnBufs, Knobs, LayerAux, LayerQ, MixerQ, Modo,
    MtpBufs, ResidentState, VERIFY_TOK,
};
use crate::vulkan::gravacao::{
    cmd_saida, cmds_ate, cmds_mtp_ate, cmds_op, cmds_op_mtp, passo_gravado, proposta_gravada,
    se_barreira, CmdM, Hidden, Parte, Passo,
};
use crate::vulkan::ops::{acessos_de, escolhidas, DespachoM, Faixa, OpM};
use crate::vulkan::plano::{
    camadas, delta_ok, op_atencao, op_bias, op_dn_conv, op_dn_delta, op_dn_gates, op_dn_l2, op_mv,
    op_mv_bloco, op_qk_norm, op_quantiza, op_rope, op_rope_k, op_saida_atencao, op_swiglu,
    ops_atencao, ops_bias, ops_camada, ops_camadas, ops_conv_ate, ops_delta, ops_delta_verify,
    ops_dn_fim, ops_dn_inicio, ops_estado_ate, ops_ffn, ops_fim, ops_gates_ate, ops_l2_ate,
    ops_norma, ops_qk, planejavel, plano, rodou,
};
use crate::vulkan::plano_mtp::{
    mtp_atencao, mtp_fim, mtp_mixer, mtp_mv, mtp_norma, mtp_prologo, mtp_qk, mtp_qks, mtp_quantiza,
    mtp_rope, mtp_saida, mtp_swiglu, plano_mtp,
};
use crate::vulkan::recursos::{
    ativacoes_de, auxiliares_das_camadas, auxiliares_de, liberados, lineares_de, mtp_de,
    pesos_das_camadas, pesos_de, snapshot_de, talvez,
};

verus! {

// ---------------------------------------------------------------------------
// The buffers of a shard
// ---------------------------------------------------------------------------

pub open spec fn outro(x: Option<Buf>, b: u64) -> bool {
    x matches Some(y) ==> y.buffer != b
}

pub open spec fn outros(v: Seq<Buf>, b: u64) -> bool {
    forall|i: int| 0 <= i < v.len() ==> (#[trigger] v[i]).buffer != b
}

/// That a buffer is none of these, but for the one at `t`.
pub open spec fn outros_menos(v: Seq<Buf>, b: u64, t: int) -> bool {
    forall|i: int| 0 <= i < v.len() && i != t ==> (#[trigger] v[i]).buffer != b
}

pub open spec fn fora_do_dn(d: DnBufs, b: u64) -> bool {
    &&& d.qkv.buffer != b
    &&& d.conv.buffer != b
    &&& d.z.buffer != b
    &&& d.gb.buffer != b
    &&& d.qn.buffer != b
    &&& d.kn.buffer != b
    &&& d.out.buffer != b
    &&& d.normed.buffer != b
    &&& d.xq.buffer != b
    &&& d.xd.buffer != b
}

pub open spec fn fora_das_ativacoes(a: Ativacoes, b: u64) -> bool {
    &&& a.embd_stage.buffer != b
    &&& a.kcache.buffer != b
    &&& a.vcache.buffer != b
    &&& a.b_x.buffer != b
    &&& a.b_normed.buffer != b
    &&& a.b_parciais.buffer != b
    &&& a.b_q.buffer != b
    &&& a.b_k.buffer != b
    &&& a.b_v.buffer != b
    &&& a.b_attn.buffer != b
    &&& a.b_attn_split.buffer != b
    &&& a.b_proj.buffer != b
    &&& a.b_gate.buffer != b
    &&& a.b_up.buffer != b
    &&& a.b_act.buffer != b
    &&& a.b_logits.buffer != b
    &&& a.b_ffn.buffer != b
    &&& a.b_xq.buffer != b
    &&& a.b_xd.buffer != b
    &&& a.logits_host.buffer != b
    &&& a.dn matches Some(d) ==> fora_do_dn(d, b)
}

pub open spec fn fora_dos_pesos(q: LayerQ, b: u64) -> bool {
    &&& match q.mixer {
        MixerQ::Attn { attn_q, attn_k, attn_v, attn_output } => attn_q.gpu.buffer != b
            && attn_k.gpu.buffer != b && attn_v.gpu.buffer != b && attn_output.gpu.buffer != b,
        MixerQ::Delta { attn_qkv, attn_gate, ssm_out } => attn_qkv.gpu.buffer != b
            && attn_gate.gpu.buffer != b && ssm_out.gpu.buffer != b,
    }
    &&& q.ffn_gate.gpu.buffer != b
    &&& q.ffn_up.gpu.buffer != b
    &&& q.ffn_down.gpu.buffer != b
}

/// All but the copies of the state and of the window.
pub open spec fn fora_do_corrente(d: DeltaBufs, b: u64) -> bool {
    &&& d.conv1d.buffer != b
    &&& d.adt.buffer != b
    &&& d.alpha.buffer != b
    &&& d.beta.buffer != b
    &&& d.norm.buffer != b
    &&& d.estado.buffer != b
    &&& d.janela.buffer != b
}

pub open spec fn fora_da_recorrencia(d: DeltaBufs, b: u64) -> bool {
    &&& fora_do_corrente(d, b)
    &&& outros(d.estado_snap@, b)
    &&& outros(d.janela_snap@, b)
}

pub open spec fn fora_dos_auxiliares(x: LayerAux, b: u64) -> bool {
    &&& x.attn_norm.buffer != b
    &&& x.ffn_norm.buffer != b
    &&& outro(x.q_bias, b)
    &&& outro(x.k_bias, b)
    &&& outro(x.v_bias, b)
    &&& outro(x.q_norm, b)
    &&& outro(x.k_norm, b)
    &&& x.delta matches Some(d) ==> fora_da_recorrencia(d, b)
}

pub open spec fn fora_da_cabeca(m: MtpBufs, b: u64) -> bool {
    &&& m.eh_proj.gpu.buffer != b
    &&& m.attn_q.gpu.buffer != b
    &&& m.attn_k.gpu.buffer != b
    &&& m.attn_v.gpu.buffer != b
    &&& m.attn_output.gpu.buffer != b
    &&& m.ffn_gate.gpu.buffer != b
    &&& m.ffn_up.gpu.buffer != b
    &&& m.ffn_down.gpu.buffer != b
    &&& m.enorm.buffer != b
    &&& m.hnorm.buffer != b
    &&& m.shared_head_norm.buffer != b
    &&& m.attn_norm.buffer != b
    &&& m.ffn_norm.buffer != b
    &&& outro(m.q_norm, b)
    &&& outro(m.k_norm, b)
    &&& m.emb_stage.buffer != b
    &&& m.b_emb.buffer != b
    &&& m.b_h.buffer != b
    &&& m.b_eh.buffer != b
    &&& m.b_x.buffer != b
    &&& m.b_ffn.buffer != b
    &&& m.kcache.buffer != b
    &&& m.vcache.buffer != b
}

/// That a buffer is none of the shard's own, leaving aside those of
/// `LayerAux`.
pub open spec fn fora_do_comum(st: ResidentState, b: u64) -> bool {
    &&& fora_das_ativacoes(st.a, b)
    &&& st.output_w.gpu.buffer != b
    &&& st.output_norm_buf.buffer != b
    &&& st.freq_buf.buffer != b
    &&& forall|l: int| 0 <= l < st.qw@.len() ==> #[trigger] fora_dos_pesos(st.qw@[l], b)
    &&& st.mtp matches Some(m) ==> fora_da_cabeca(m, b)
}

/// That a buffer is none of the shard's own.
pub open spec fn alheio(st: ResidentState, b: u64) -> bool {
    &&& fora_do_comum(st, b)
    &&& forall|l: int| 0 <= l < st.aux@.len() ==> #[trigger] fora_dos_auxiliares(st.aux@[l], b)
}

// ---------------------------------------------------------------------------
// What a command writes
// ---------------------------------------------------------------------------

/// Whether a dispatch writes to a buffer.
pub open spec fn desp_escreve(d: DespachoM, b: u64) -> bool {
    exists|i: int| 0 <= i < d.esc().len() && (#[trigger] d.esc()[i]).buffer == b
}

/// The dispatch of an operation that a command runs.
pub open spec fn parte_de(o: OpM, p: Parte) -> Option<DespachoM> {
    match (o, p) {
        (OpM::Dispatch(d), Parte::Unica) => Some(d),
        (OpM::Atencao { curto, .. }, Parte::Curto) => Some(curto),
        (OpM::Atencao { split, .. }, Parte::Split) => Some(split),
        (OpM::Atencao { reduce, .. }, Parte::Reduce) => Some(reduce),
        _ => None,
    }
}

/// Whether a command of a plan writes to a buffer.
pub open spec fn cmd_escreve(c: CmdM, p: Seq<OpM>, b: u64) -> bool {
    match c {
        CmdM::Copia { dst, .. } => dst == b,
        CmdM::Despacha { op, parte, .. } => if op < p.len() {
            match parte_de(p[op as int], parte) {
                Some(d) => desp_escreve(d, b),
                None => false,
            }
        } else {
            false
        },
        _ => false,
    }
}

/// Whether one of the commands does.
pub open spec fn cmds_escrevem(c: Seq<CmdM>, p: Seq<OpM>, b: u64) -> bool {
    exists|i: int| 0 <= i < c.len() && cmd_escreve(#[trigger] c[i], p, b)
}

// ---------------------------------------------------------------------------
// Single operations
// ---------------------------------------------------------------------------

pub open spec fn desp_alheio(d: DespachoM, b: u64) -> bool {
    forall|i: int| 0 <= i < d.binds.len() ==> (#[trigger] d.binds[i]).buffer != b
}

/// That an operation touches a buffer in no way of its own.
pub open spec fn op_alheia(o: OpM, b: u64) -> bool {
    match o {
        OpM::Dispatch(d) => desp_alheio(d, b),
        OpM::Atencao { curto, split, reduce } => desp_alheio(curto, b) && desp_alheio(split, b)
            && desp_alheio(reduce, b),
        OpM::Copia { dst, .. } => dst != b,
        _ => true,
    }
}

pub open spec fn alheias(s: Seq<OpM>, b: u64) -> bool {
    forall|i: int| 0 <= i < s.len() ==> op_alheia(#[trigger] s[i], b)
}

/// That only the operation at `x` may touch a buffer.
pub open spec fn alheias_menos(s: Seq<OpM>, b: u64, x: int) -> bool {
    forall|i: int| 0 <= i < s.len() && i != x ==> op_alheia(#[trigger] s[i], b)
}

pub(crate) proof fn lemma_norma(st: ResidentState, nt: int, r: Buf, w: Buf, tem: bool, b: u64)
    requires
        fora_do_comum(st, b),
        r.buffer != b,
        w.buffer != b,
    ensures
        alheias(ops_norma(st, nt, r, w, tem), b),
{
    reveal(ops_norma);
}

proof fn lemma_bias(dst: Buf, x: Option<Buf>, dim: int, n: int, b: u64)
    requires
        dst.buffer != b,
        outro(x, b),
    ensures
        alheias(ops_bias(dst, x, dim, n), b),
    decreases n,
{
    reveal(op_bias);
    if n > 0 && x is Some {
        lemma_bias(dst, x, dim, n - 1, b);
    }
}

pub(crate) proof fn lemma_gates(
    st: ResidentState,
    d: DeltaNetConfig,
    x: DnBufs,
    da: DeltaBufs,
    n: int,
    b: u64,
)
    requires
        fora_do_comum(st, b),
        fora_do_dn(x, b),
        fora_do_corrente(da, b),
    ensures
        alheias(ops_gates_ate(st, d, x, da, n), b),
    decreases n,
{
    reveal(op_dn_gates);
    if n > 0 {
        lemma_gates(st, d, x, da, n - 1, b);
    }
}

pub(crate) proof fn lemma_conv(
    d: DeltaNetConfig,
    x: DnBufs,
    da: DeltaBufs,
    n: int,
    b: u64,
    t: int,
)
    requires
        n <= da.janela_snap@.len() + 1,
        fora_do_dn(x, b),
        fora_do_corrente(da, b),
        outros_menos(da.janela_snap@, b, t),
    ensures
        n > 0 ==> ops_conv_ate(d, x, da, n).len() == 2 * n - 1,
        alheias_menos(ops_conv_ate(d, x, da, n), b, 2 * t + 1),
    decreases n,
{
    reveal(op_dn_conv);
    if n > 0 {
        lemma_conv(d, x, da, n - 1, b, t);
        if n > 1 && n - 2 != t {
            assert(da.janela_snap@[n - 2].buffer != b);
        }
    }
}

pub(crate) proof fn lemma_l2(st: ResidentState, d: DeltaNetConfig, x: DnBufs, n: int, b: u64)
    requires
        fora_do_dn(x, b),
    ensures
        alheias(ops_l2_ate(st.cfg, d, x, n), b),
    decreases n,
{
    reveal(op_dn_l2);
    if n > 0 {
        lemma_l2(st, d, x, n - 1, b);
    }
}

pub(crate) proof fn lemma_estado(
    d: DeltaNetConfig,
    x: DnBufs,
    da: DeltaBufs,
    n: int,
    b: u64,
    t: int,
)
    requires
        n <= da.estado_snap@.len() + 1,
        fora_do_dn(x, b),
        fora_do_corrente(da, b),
        outros_menos(da.estado_snap@, b, t),
    ensures
        n > 0 ==> ops_estado_ate(d, x, da, n).len() == 2 * n - 1,
        alheias_menos(ops_estado_ate(d, x, da, n), b, 2 * t + 1),
    decreases n,
{
    reveal(op_dn_delta);
    if n > 0 {
        lemma_estado(d, x, da, n - 1, b, t);
        if n > 1 && n - 2 != t {
            assert(da.estado_snap@[n - 2].buffer != b);
        }
    }
}

// ---------------------------------------------------------------------------
// The plan of a block
// ---------------------------------------------------------------------------

proof fn lemma_atencao(st: ResidentState, k: Knobs, modo: Modo, nt: int, l: int, b: u64)
    requires
        st.completo(),
        fora_do_comum(st, b),
        fora_dos_auxiliares(st.aux@[l], b),
        0 <= l < st.cfg.n_layer,
    ensures
        alheias(ops_atencao(st, k, modo, nt, l), b),
{
    let c = st.cfg;
    let la = st.aux@[l];
    assert(fora_dos_pesos(st.qw@[l], b));
    reveal(op_mv);
    reveal(op_mv_bloco);
    assert(alheias(ops_qk(st, nt, l), b)) by {
        reveal(op_qk_norm);
    }
    lemma_bias(st.a.b_q, la.q_bias, c.n_embd as int, nt, b);
    lemma_bias(st.a.b_k, la.k_bias, c.kv_dim as int, nt, b);
    lemma_bias(st.a.b_v, la.v_bias, c.kv_dim as int, nt, b);
    assert(op_alheia(op_rope_k(st, k, nt, l), b)) by {
        reveal(op_rope_k);
        reveal(op_rope);
    }
    assert(op_alheia(op_saida_atencao(st, nt), b)) by {
        reveal(op_saida_atencao);
        reveal(op_quantiza);
    }
    assert(op_alheia(
        op_rope(st, nt, st.a.b_q, c.q_out() * nt, c.n_head as int, c.q_passo()),
        b,
    )) by {
        reveal(op_rope);
    }
    reveal(op_atencao);
}

proof fn lemma_delta(st: ResidentState, k: Knobs, modo: Modo, nt: int, l: int, b: u64)
    requires
        st.completo(),
        fora_do_comum(st, b),
        fora_dos_auxiliares(st.aux@[l], b),
        0 <= l < st.cfg.n_layer,
        st.qw@[l].mixer is Delta ==> delta_ok(st, modo, l),
    ensures
        !(modo is Verify) ==> alheias(ops_delta(st, k, modo, nt, l), b),
        modo is Verify ==> alheias(ops_delta_verify(st, k, l), b),
{
    assert(fora_dos_pesos(st.qw@[l], b));
    match (st.qw@[l].mixer, st.cfg.delta_net, st.a.dn, st.aux@[l].delta) {
        (MixerQ::Delta { attn_qkv, attn_gate, ssm_out }, Some(d), Some(x), Some(da)) => {
            reveal(op_mv);
            reveal(op_mv_bloco);
            let n = VERIFY_TOK as int;
            let m = if modo is Verify {
                n
            } else {
                nt
            };
            assert(alheias(ops_dn_inicio(st, k, modo, m, d, x, attn_qkv, attn_gate), b));
            assert(alheias(ops_dn_fim(st, k, modo, m, d, x, da, ssm_out), b)) by {
                reveal(ops_dn_fim);
            }
            if modo is Verify {
                lemma_gates(st, d, x, da, n, b);
                lemma_conv(d, x, da, n, b, -1);
                lemma_l2(st, d, x, n, b);
                lemma_estado(d, x, da, n, b, -1);
            } else {
                reveal(op_dn_gates);
                reveal(op_dn_conv);
                reveal(op_dn_l2);
                reveal(op_dn_delta);
            }
        },
        _ => {},
    }
}

pub(crate) proof fn lemma_ffn(
    st: ResidentState,
    k: Knobs,
    modo: Modo,
    nt: int,
    l: int,
    b: u64,
)
    requires
        st.completo(),
        fora_do_comum(st, b),
        st.aux@[l].ffn_norm.buffer != b,
        0 <= l < st.cfg.n_layer,
    ensures
        alheias(ops_ffn(st, k, modo, nt, l), b),
{
    assert(fora_dos_pesos(st.qw@[l], b));
    lemma_norma(st, nt, st.a.b_proj, st.aux@[l].ffn_norm, true, b);
    reveal(op_mv);
    reveal(op_mv_bloco);
    reveal(op_swiglu);
}

pub(crate) proof fn lemma_camada(
    st: ResidentState,
    k: Knobs,
    modo: Modo,
    nt: int,
    l: int,
    b: u64,
)
    requires
        st.completo(),
        fora_do_comum(st, b),
        fora_dos_auxiliares(st.aux@[l], b),
        0 <= l < st.cfg.n_layer,
        st.qw@[l].mixer is Delta ==> delta_ok(st, modo, l),
    ensures
        alheias(ops_camada(st, k, modo, nt, l), b),
{
    lemma_norma(st, nt, st.a.b_ffn, st.aux@[l].attn_norm, l > 0, b);
    if st.qw@[l].mixer is Delta {
        lemma_delta(st, k, modo, nt, l, b);
    } else {
        lemma_atencao(st, k, modo, nt, l, b);
    }
    lemma_ffn(st, k, modo, nt, l, b);
}

proof fn lemma_camadas(st: ResidentState, k: Knobs, modo: Modo, nt: int, n: int, b: u64)
    requires
        st.completo(),
        alheio(st, b),
        n <= st.cfg.n_layer,
        planejavel(st, modo, n),
    ensures
        alheias(ops_camadas(st, k, modo, nt, n), b),
    decreases n,
{
    if n > 0 {
        let l = n - 1;
        lemma_camadas(st, k, modo, nt, l, b);
        assert(fora_dos_auxiliares(st.aux@[l], b));
        if st.qw@[l].mixer is Delta {
            assert(delta_ok(st, modo, l));
        }
        lemma_camada(st, k, modo, nt, l, b);
    }
}

pub(crate) proof fn lemma_fim(st: ResidentState, k: Knobs, modo: Modo, nt: int, b: u64)
    requires
        fora_do_comum(st, b),
    ensures
        alheias(ops_fim(st, k, modo, nt), b),
{
    lemma_norma(st, nt, st.a.b_ffn, st.output_norm_buf, rodou(st, k), b);
    reveal(op_mv);
    reveal(op_quantiza);
}

proof fn lemma_plano(st: ResidentState, k: Knobs, modo: Modo, b: u64)
    requires
        st.completo(),
        alheio(st, b),
        planejavel(st, modo, camadas(st, k)),
    ensures
        alheias(plano(st, k, modo), b),
{
    let nt = modo.tokens(st.cfg);
    lemma_camadas(st, k, modo, nt, camadas(st, k), b);
    lemma_fim(st, k, modo, nt, b);
}

proof fn lemma_plano_mtp(st: ResidentState, k: Knobs, b: u64)
    requires
        alheio(st, b),
    ensures
        alheias(plano_mtp(st, k), b),
{
    if let Some(m) = st.mtp {
        reveal(mtp_mv);
        reveal(mtp_norma);
        reveal(mtp_quantiza);
        assert(alheias(mtp_prologo(st, k, m), b));
        assert(alheias(mtp_mixer(st, k, m), b)) by {
            assert(alheias(mtp_qks(st, m), b)) by {
                reveal(mtp_qk);
            }
            reveal(mtp_rope);
            reveal(mtp_atencao);
            reveal(mtp_saida);
        }
        assert(alheias(mtp_fim(st, k, m), b)) by {
            reveal(mtp_swiglu);
        }
    }
}

// ---------------------------------------------------------------------------
// Recorded commands
// ---------------------------------------------------------------------------

proof fn lemma_escolhidas(v: Seq<Faixa>, idx: Seq<usize>, i: int)
    requires
        0 <= i < escolhidas(v, idx).len(),
    ensures
        exists|j: int| 0 <= j < v.len() && #[trigger] v[j] == escolhidas(v, idx)[i],
    decreases idx.len(),
{
    let r = escolhidas(v, idx.drop_last());
    if i < r.len() {
        lemma_escolhidas(v, idx.drop_last(), i);
    } else {
        assert(v[idx.last() as int] == escolhidas(v, idx)[i]);
    }
}

proof fn lemma_desp(d: DespachoM, b: u64)
    requires
        desp_alheio(d, b),
    ensures
        !desp_escreve(d, b),
{
    assert forall|i: int| 0 <= i < d.esc().len() implies (#[trigger] d.esc()[i]).buffer != b by {
        lemma_escolhidas(d.binds, acessos_de(d.pipe).1, i);
        let j = choose|j: int| 0 <= j < d.binds.len() && #[trigger] d.binds[j] == d.esc()[i];
        assert(d.binds[j].buffer != b);
    }
}

proof fn lemma_despacha(c: CmdM, p: Seq<OpM>, b: u64)
    requires
        c is Despacha,
        c->op < p.len() ==> op_alheia(p[c->op as int], b),
    ensures
        !cmd_escreve(c, p, b),
{
    if let CmdM::Despacha { op, parte, .. } = c {
        if op < p.len() {
            if let Some(d) = parte_de(p[op as int], parte) {
                lemma_desp(d, b);
            }
        }
    }
}

pub(crate) proof fn lemma_cmds_op(
    i: int,
    p: Seq<OpM>,
    st: ResidentState,
    q: Passo,
    forcado: u32,
    j: int,
    b: u64,
)
    requires
        fora_das_ativacoes(st.a, b),
        0 <= i < p.len(),
        op_alheia(p[i], b),
        alheias(p, b) || p.len() <= usize::MAX,
        0 <= j < cmds_op(i, p[i], st, q, forcado).len(),
    ensures
        !cmd_escreve(cmds_op(i, p[i], st, q, forcado)[j], p, b),
{
    let c = cmds_op(i, p[i], st, q, forcado)[j];
    if c is Despacha {
        lemma_despacha(c, p, b);
    }
}

proof fn lemma_cmds(
    p: Seq<OpM>,
    bar: Seq<bool>,
    st: ResidentState,
    q: Passo,
    forcado: u32,
    prof: bool,
    n: int,
    b: u64,
)
    requires
        alheio(st, b),
        alheias(p, b),
        n <= p.len(),
    ensures
        !cmds_escrevem(cmds_ate(p, bar, st, q, forcado, prof, n), p, b),
    decreases n,
{
    if n > 0 {
        let i = n - 1;
        lemma_cmds(p, bar, st, q, forcado, prof, i, b);
        let x = cmds_ate(p, bar, st, q, forcado, prof, i);
        let y = se_barreira(bar[i] || prof);
        let z = cmds_op(i, p[i], st, q, forcado);
        let todos = cmds_ate(p, bar, st, q, forcado, prof, n);
        assert forall|j: int| 0 <= j < todos.len() implies !cmd_escreve(
            #[trigger] todos[j],
            p,
            b,
        ) by {
            if j < x.len() {
                assert(todos[j] == x[j]);
            } else if x.len() + y.len() <= j < x.len() + y.len() + z.len() {
                lemma_cmds_op(i, p, st, q, forcado, j - x.len() - y.len(), b);
            }
        }
    }
}

proof fn lemma_cmds_mtp(
    p: Seq<OpM>,
    bar: Seq<bool>,
    st: ResidentState,
    m: MtpBufs,
    q: Passo,
    h: Hidden,
    forcado: u32,
    n: int,
    b: u64,
)
    requires
        alheio(st, b),
        st.mtp == Some(m),
        alheias(p, b),
        n <= p.len(),
    ensures
        !cmds_escrevem(cmds_mtp_ate(p, bar, st, m, q, h, forcado, n), p, b),
    decreases n,
{
    if n > 0 {
        let i = n - 1;
        lemma_cmds_mtp(p, bar, st, m, q, h, forcado, i, b);
        let x = cmds_mtp_ate(p, bar, st, m, q, h, forcado, i);
        let z = cmds_op_mtp(i, p[i], st, m, q, h, forcado);
        let todos = cmds_mtp_ate(p, bar, st, m, q, h, forcado, n);
        assert forall|j: int| 0 <= j < todos.len() implies !cmd_escreve(
            #[trigger] todos[j],
            p,
            b,
        ) by {
            if j < x.len() {
                assert(todos[j] == x[j]);
            } else if j >= todos.len() - z.len() {
                let c = z[j - (todos.len() - z.len())];
                assert(todos[j] == c);
                assert(op_alheia(p[i], b));
                if c is Despacha {
                    lemma_despacha(c, p, b);
                }
            }
        }
    }
}

// ---------------------------------------------------------------------------
// Laws
// ---------------------------------------------------------------------------

/// No command of a step writes to a buffer that is none of the shard's own.
pub proof fn lei_passo_escreve_no_shard(
    st: ResidentState,
    k: Knobs,
    modo: Modo,
    bar: Seq<bool>,
    q: Passo,
    forcado: u32,
    prof: bool,
    b: u64,
)
    requires
        st.completo(),
        planejavel(st, modo, camadas(st, k)),
        alheio(st, b),
    ensures
        !cmds_escrevem(
            passo_gravado(plano(st, k, modo), bar, st, q, modo, forcado, prof),
            plano(st, k, modo),
            b,
        ),
{
    let p = plano(st, k, modo);
    lemma_plano(st, k, modo, b);
    lemma_cmds(p, bar, st, q, forcado, prof, p.len() as int, b);
    let x = cmds_ate(p, bar, st, q, forcado, prof, p.len() as int);
    let todos = passo_gravado(p, bar, st, q, modo, forcado, prof);
    let ini = if prof {
        2int
    } else {
        0
    };
    assert forall|j: int| 0 <= j < todos.len() implies !cmd_escreve(
            #[trigger] todos[j],
            p,
            b,
        ) by {
        if ini <= j < ini + x.len() {
            assert(todos[j] == x[j - ini]);
        } else if j == ini + x.len() + 1 {
            assert(todos[j] == cmd_saida(st, q, modo));
        }
    }
}

/// No command of a proposal does.
pub proof fn lei_proposta_escreve_no_shard(
    st: ResidentState,
    k: Knobs,
    bar: Seq<bool>,
    q: Passo,
    h: Hidden,
    forcado: u32,
    b: u64,
)
    requires
        alheio(st, b),
    ensures
        !cmds_escrevem(
            proposta_gravada(plano_mtp(st, k), bar, st, q, h, forcado),
            plano_mtp(st, k),
            b,
        ),
{
    let p = plano_mtp(st, k);
    lemma_plano_mtp(st, k, b);
    if let Some(m) = st.mtp {
        lemma_cmds_mtp(p, bar, st, m, q, h, forcado, p.len() as int, b);
        let x = cmds_mtp_ate(p, bar, st, m, q, h, forcado, p.len() as int);
        let todos = proposta_gravada(p, bar, st, q, h, forcado);
        assert forall|j: int| 0 <= j < todos.len() implies !cmd_escreve(
            #[trigger] todos[j],
            p,
            b,
        ) by {
            if j < x.len() {
                assert(todos[j] == x[j]);
            }
        }
    }
}

// ---------------------------------------------------------------------------
// What is released
// ---------------------------------------------------------------------------

proof fn lemma_outros(x: Seq<Buf>, y: Seq<Buf>, b: u64)
    requires
        outros(x + y, b),
    ensures
        outros(x, b),
        outros(y, b),
{
    assert forall|i: int| 0 <= i < x.len() implies (#[trigger] x[i]).buffer != b by {
        assert((x + y)[i] == x[i]);
    }
    assert forall|i: int| 0 <= i < y.len() implies (#[trigger] y[i]).buffer != b by {
        assert((x + y)[x.len() + i] == y[i]);
    }
}

proof fn lemma_talvez(x: Option<Buf>, b: u64)
    requires
        outros(talvez(x), b),
    ensures
        outro(x, b),
{
    if let Some(y) = x {
        assert(talvez(x)[0] == y);
    }
}

proof fn lemma_pesos(q: Seq<LayerQ>, b: u64, l: int)
    requires
        outros(pesos_das_camadas(q), b),
        0 <= l < q.len(),
    ensures
        fora_dos_pesos(q[l], b),
    decreases q.len(),
{
    let x = pesos_de(q.last());
    lemma_outros(pesos_das_camadas(q.drop_last()), x, b);
    if l < q.len() - 1 {
        lemma_pesos(q.drop_last(), b, l);
    } else {
        let f = seq![q[l].ffn_gate.gpu, q[l].ffn_up.gpu, q[l].ffn_down.gpu];
        let m = x.take(x.len() - 3);
        assert(x =~= m + f);
        lemma_outros(m, f, b);
        assert(f[0].buffer != b && f[1].buffer != b && f[2].buffer != b);
        assert(m[0].buffer != b && m[1].buffer != b && m[2].buffer != b);
        if m.len() == 4 {
            assert(m[3].buffer != b);
        }
    }
}

proof fn lemma_auxiliares(x: LayerAux, b: u64)
    requires
        outros(auxiliares_de(x), b),
    ensures
        fora_dos_auxiliares(x, b),
{
    let n = seq![x.attn_norm, x.ffn_norm];
    let d = match x.delta {
        Some(d) => seq![d.conv1d, d.adt, d.alpha, d.beta, d.norm, d.estado, d.janela]
            + d.estado_snap@ + d.janela_snap@,
        None => Seq::empty(),
    };
    let s1 = n + talvez(x.q_norm);
    let s2 = s1 + talvez(x.k_norm);
    let s3 = s2 + d;
    let s4 = s3 + talvez(x.q_bias);
    let s5 = s4 + talvez(x.k_bias);
    assert(auxiliares_de(x) == s5 + talvez(x.v_bias));
    lemma_outros(s5, talvez(x.v_bias), b);
    lemma_outros(s4, talvez(x.k_bias), b);
    lemma_outros(s3, talvez(x.q_bias), b);
    lemma_outros(s2, d, b);
    lemma_outros(s1, talvez(x.k_norm), b);
    lemma_outros(n, talvez(x.q_norm), b);
    lemma_talvez(x.v_bias, b);
    lemma_talvez(x.k_bias, b);
    lemma_talvez(x.q_bias, b);
    lemma_talvez(x.k_norm, b);
    lemma_talvez(x.q_norm, b);
    assert(n[0].buffer != b && n[1].buffer != b);
    if let Some(da) = x.delta {
        let c = seq![da.conv1d, da.adt, da.alpha, da.beta, da.norm, da.estado, da.janela];
        lemma_outros(c + da.estado_snap@, da.janela_snap@, b);
        lemma_outros(c, da.estado_snap@, b);
        assert(c[0].buffer != b && c[1].buffer != b && c[2].buffer != b && c[3].buffer != b
            && c[4].buffer != b && c[5].buffer != b && c[6].buffer != b);
    }
}

proof fn lemma_auxiliares_das_camadas(x: Seq<LayerAux>, b: u64, l: int)
    requires
        outros(auxiliares_das_camadas(x), b),
        0 <= l < x.len(),
    ensures
        fora_dos_auxiliares(x[l], b),
    decreases x.len(),
{
    lemma_outros(auxiliares_das_camadas(x.drop_last()), auxiliares_de(x.last()), b);
    if l < x.len() - 1 {
        lemma_auxiliares_das_camadas(x.drop_last(), b, l);
    } else {
        lemma_auxiliares(x[l], b);
    }
}

proof fn lemma_ativacoes(a: Ativacoes, b: u64)
    requires
        outros(ativacoes_de(a), b),
    ensures
        fora_das_ativacoes(a, b),
{
    let d = match a.dn {
        Some(d) => lineares_de(d),
        None => Seq::empty(),
    };
    let n = 20int;
    let s = ativacoes_de(a).take(n);
    assert(ativacoes_de(a) =~= s + d);
    lemma_outros(s, d, b);
    assert(s[0].buffer != b && s[1].buffer != b && s[2].buffer != b && s[3].buffer != b
        && s[4].buffer != b && s[5].buffer != b && s[6].buffer != b && s[7].buffer != b
        && s[8].buffer != b && s[9].buffer != b && s[10].buffer != b && s[11].buffer != b
        && s[12].buffer != b && s[13].buffer != b && s[14].buffer != b && s[15].buffer != b
        && s[16].buffer != b && s[17].buffer != b && s[18].buffer != b && s[19].buffer != b);
    if let Some(x) = a.dn {
        assert(d[0].buffer != b && d[1].buffer != b && d[2].buffer != b && d[3].buffer != b
            && d[4].buffer != b && d[5].buffer != b && d[6].buffer != b && d[7].buffer != b
            && d[8].buffer != b && d[9].buffer != b);
    }
}

proof fn lemma_cabeca(m: MtpBufs, b: u64)
    requires
        outros(mtp_de(m), b),
    ensures
        fora_da_cabeca(m, b),
{
    let s = mtp_de(m).take(21);
    let sq = s + talvez(m.q_norm);
    assert(mtp_de(m) =~= sq + talvez(m.k_norm));
    lemma_outros(sq, talvez(m.k_norm), b);
    lemma_outros(s, talvez(m.q_norm), b);
    lemma_talvez(m.q_norm, b);
    lemma_talvez(m.k_norm, b);
    assert(s[0].buffer != b && s[1].buffer != b && s[2].buffer != b && s[3].buffer != b
        && s[4].buffer != b && s[5].buffer != b && s[6].buffer != b && s[7].buffer != b
        && s[8].buffer != b && s[9].buffer != b && s[10].buffer != b && s[11].buffer != b
        && s[12].buffer != b && s[13].buffer != b && s[14].buffer != b && s[15].buffer != b
        && s[16].buffer != b && s[17].buffer != b && s[18].buffer != b && s[19].buffer != b
        && s[20].buffer != b);
}

/// Every buffer of a shard is released with it: one that is not in the list is
/// none of the shard's own.
pub proof fn lei_tudo_e_liberado(st: ResidentState, snap: Seq<(Buf, Buf)>, b: u64)
    requires
        outros(liberados(st, snap), b),
    ensures
        alheio(st, b),
        outros(snapshot_de(snap), b),
{
    let m = match st.mtp {
        Some(m) => mtp_de(m),
        None => Seq::empty(),
    };
    let saida = seq![st.output_w.gpu];
    let dois = seq![st.output_norm_buf, st.freq_buf];
    let s1 = pesos_das_camadas(st.qw@) + saida;
    let s2 = s1 + snapshot_de(snap);
    let s3 = s2 + auxiliares_das_camadas(st.aux@);
    let s4 = s3 + dois;
    let s5 = s4 + ativacoes_de(st.a);
    assert(liberados(st, snap) == s5 + m);
    lemma_outros(s5, m, b);
    lemma_outros(s4, ativacoes_de(st.a), b);
    lemma_outros(s3, dois, b);
    lemma_outros(s2, auxiliares_das_camadas(st.aux@), b);
    lemma_outros(s1, snapshot_de(snap), b);
    lemma_outros(pesos_das_camadas(st.qw@), saida, b);
    assert(saida[0].buffer != b && dois[0].buffer != b && dois[1].buffer != b);
    lemma_ativacoes(st.a, b);
    assert forall|l: int| 0 <= l < st.qw@.len() implies #[trigger] fora_dos_pesos(
        st.qw@[l],
        b,
    ) by {
        lemma_pesos(st.qw@, b, l);
    }
    assert forall|l: int| 0 <= l < st.aux@.len() implies #[trigger] fora_dos_auxiliares(
        st.aux@[l],
        b,
    ) by {
        lemma_auxiliares_das_camadas(st.aux@, b, l);
    }
    if let Some(x) = st.mtp {
        lemma_cabeca(x, b);
    }
}

} // verus!
