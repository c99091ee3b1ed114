//! What holds of every plan: its dispatches fit their pipelines, its products
//! cover every row, and it can be recorded at every position of the cache.

use vstd::prelude::*;

use crate::vulkan::ambiente::geom_ok;
use crate::vulkan::contas::{lei_palavras_len, lei_teto, palavras, teto};
use crate::vulkan::estado::{
    Buf, Cfg, DeltaBufs, DeltaNetConfig, DnBufs, Knobs, MixerQ, Modo, QWeight, ResidentState,
    GEMM_LINHAS_POR_WG, VERIFY_TOK,
};
use crate::vulkan::gravacao::{gravavel, push_de, push_ok, todos_gravaveis, Passo};
use crate::vulkan::ops::{DespachoM, OpM, PipeId, PushM};
use crate::vulkan::pipelines::{
    constantes_de, descricao, interface_de, shader_de, Compilacao, PipeDescM, Shader,
};
use crate::vulkan::plano::{
    cabe, cabe_n, camadas, desloc_da_camada, lemma_cabe, matvec_de, op_atencao, op_bias, op_dn_conv,
    op_dn_delta, op_dn_gates, op_dn_l2, op_mv, op_mv_bloco, op_qk_norm, op_quantiza, op_rope,
    op_rope_k, op_saida_atencao, op_swiglu, ops_atencao, ops_bias, ops_camada, ops_camadas,
    ops_conv_ate, ops_delta, ops_delta_verify, ops_dn_fim, ops_dn_inicio, ops_estado_ate, ops_ffn,
    ops_fim, ops_gates_ate, ops_l2_ate, ops_norma, ops_projecoes, ops_qk, plano, rodou,
};
use crate::vulkan::plano_mtp::{
    cabe_mtp, matvec_um, mtp_atencao, mtp_fim, mtp_mixer, mtp_mv, mtp_norma, mtp_prologo, mtp_qk,
    mtp_qks, mtp_quantiza, mtp_rope, mtp_saida, mtp_swiglu, plano_mtp,
};
use crate::vulkan::shard::lemma_atencoes;

verus! {

/// Words of the push constants.
pub open spec fn palavras_do_push(p: PushM) -> int {
    match p {
        PushM::Static(w) => w.len() as int,
        PushM::Rope { .. } => 5,
        PushM::RopeKv { .. } => 5,
        PushM::Attention { .. } => 7,
        PushM::AttnReduce => 3,
    }
}

/// That a dispatch binds and pushes what its pipeline takes.
pub open spec fn casa(d: DespachoM) -> bool {
    let i = interface_de(shader_de(d.pipe));
    d.binds.len() == i.0 && 4 * palavras_do_push(d.push) == i.1
}

/// Whether a pipeline multiplies weights with vectors.
pub open spec fn eh_produto(p: PipeId) -> bool {
    match shader_de(p) {
        Shader::MatvecQ8 | Shader::MatvecQ5K | Shader::MatvecQ6K | Shader::MatvecQ4K
        | Shader::MulMm => true,
        _ => false,
    }
}

/// Rows that a workgroup of a product covers, by what it was compiled with.
pub open spec fn linhas_do(d: PipeDescM) -> int {
    match d.shader {
        Shader::MatvecQ6K => 8,
        Shader::MulMm => GEMM_LINHAS_POR_WG as int,
        _ => (d.constantes[0].1 / 64) * d.constantes[1].1,
    }
}

/// Vectors that a product takes, by what it was compiled with.
pub open spec fn colunas_do(d: PipeDescM) -> int {
    match d.shader {
        Shader::MatvecQ6K | Shader::MulMm => if d.constantes.len() > 0 {
            d.constantes[0].1 as int
        } else {
            1
        },
        _ => if d.constantes.len() > 2 && d.constantes[2].0 == 2 {
            d.constantes[2].1 as int
        } else {
            1
        },
    }
}

/// That the workgroups of a product cover all rows of its output, and that the
/// output has the width of the pipeline.
pub open spec fn cobre(d: DespachoM, c: Compilacao) -> bool {
    let p = descricao(d.pipe, c);
    match d.push {
        PushM::Static(w) => {
            &&& w.len() == 4
            &&& d.groups * linhas_do(p) >= w[1]
            &&& d.binds.len() == 5
            &&& d.binds[3].bytes == w[1] * colunas_do(p) * 4
        },
        _ => false,
    }
}

/// That no workgroup of a product is idle.
pub open spec fn sem_ocioso(d: DespachoM, c: Compilacao) -> bool {
    let p = descricao(d.pipe, c);
    match d.push {
        PushM::Static(w) => w.len() == 4 && (d.groups > 0 ==> (d.groups - 1) * linhas_do(p)
            < w[1]),
        _ => false,
    }
}

/// That a rotation into the cache takes every token of the block to its slot.
spec fn no_slot(d: DespachoM, st: ResidentState, nt: int) -> bool {
    match d.push {
        PushM::RopeKv { n_head: _, kv_layer_off } => d.groups_y == nt && exists|s: int|
            0 <= s < st.n_slots() && kv_layer_off == #[trigger] (s * st.cfg.ctx * st.cfg.kv_dim),
        _ => true,
    }
}

spec fn desp_certo(d: DespachoM, st: ResidentState, nt: int, c: Compilacao) -> bool {
    &&& casa(d)
    &&& eh_produto(d.pipe) ==> cobre(d, c) && sem_ocioso(d, c)
    &&& no_slot(d, st, nt)
}

/// Everything that the laws below say of one operation.
spec fn certa(o: OpM, st: ResidentState, nt: int, c: Compilacao) -> bool {
    match o {
        OpM::Dispatch(d) => desp_certo(d, st, nt, c),
        OpM::KvAppend { slot, com_k: _ } => slot < st.n_slots(),
        OpM::Atencao { curto, split, reduce } => desp_certo(curto, st, nt, c) && desp_certo(
            split,
            st,
            nt,
            c,
        ) && desp_certo(reduce, st, nt, c),
        _ => true,
    }
}

spec fn certas(s: Seq<OpM>, st: ResidentState, nt: int, c: Compilacao) -> bool {
    forall|i: int| 0 <= i < s.len() ==> certa(#[trigger] s[i], st, nt, c)
}

/// That sizes and offsets fit the 32 bits that the kernels take.
pub open spec fn cabe_u32(st: ResidentState, nt: int) -> bool {
    let c = st.cfg;
    &&& nt <= u32::MAX
    &&& c.n_embd <= u32::MAX
    &&& c.q_out() <= u32::MAX
    &&& c.kv_dim <= u32::MAX
    &&& c.n_ff <= u32::MAX
    &&& c.vocab <= u32::MAX
    &&& st.n_slots() * c.ctx * c.kv_dim <= u32::MAX
    &&& c.delta_net matches Some(d) ==> d.conv_dim() <= u32::MAX && d.value_dim() <= u32::MAX
}

/// The plan of a block, and the pipelines that it was made for.
pub open spec fn valido(st: ResidentState, c: Compilacao, modo: Modo) -> bool {
    let nt = modo.tokens(st.cfg);
    &&& st.completo()
    &&& cabe(st, nt)
    &&& cabe_u32(st, nt)
    &&& geom_ok(c.k.geom)
    &&& geom_ok(c.k.geom_batch)
    &&& c.n_batch == st.cfg.n_batch
}

// ---------------------------------------------------------------------------
// Single operations
// ---------------------------------------------------------------------------

proof fn lemma_linhas(g: (u32, u32))
    requires
        geom_ok(g),
    ensures
        (g.0 / 64) * g.1 > 0,
{
    assert(1 <= g.0 / 64);
    assert((g.0 / 64) * g.1 > 0) by (nonlinear_arith)
        requires
            1 <= g.0 / 64,
            1 <= g.1,
    ;
}

/// Rows per workgroup that a pipeline was compiled for.
spec fn linhas_da(p: PipeId, c: Compilacao) -> int {
    let g = (c.k.geom.0 / 64) * c.k.geom.1;
    let gb = (c.k.geom_batch.0 / 64) * c.k.geom_batch.1;
    match p {
        PipeId::Matvec | PipeId::MatvecB | PipeId::MatvecV => 2,
        PipeId::MatvecQ5K | PipeId::MatvecQ4K | PipeId::MatvecQ5KV | PipeId::MatvecQ4KV => g,
        PipeId::MatvecQ5KB | PipeId::MatvecQ4KB => gb,
        PipeId::MulMmQ4K => GEMM_LINHAS_POR_WG as int,
        _ => 8,
    }
}

proof fn lemma_linhas_da(p: PipeId, c: Compilacao)
    requires
        eh_produto(p),
    ensures
        linhas_do(descricao(p, c)) == linhas_da(p, c),
{
    let k = constantes_de(p, c);
    let a = k[0].1;
    let b = k[1].1;
    match p {
        PipeId::Matvec | PipeId::MatvecB | PipeId::MatvecV => {
            assert(a == 64 && b == 2);
            assert(a / 64 == 1);
            assert((a / 64) * b == 2) by (nonlinear_arith)
                requires
                    a / 64 == 1,
                    b == 2,
            ;
        },
        PipeId::MatvecQ5K | PipeId::MatvecQ4K | PipeId::MatvecQ5KV | PipeId::MatvecQ4KV => {
            assert(a == c.k.geom.0 && b == c.k.geom.1);
        },
        PipeId::MatvecQ5KB | PipeId::MatvecQ4KB => {
            assert(a == c.k.geom_batch.0 && b == c.k.geom_batch.1);
        },
        _ => {},
    }
}

proof fn lemma_mv(
    c: Compilacao,
    modo: Modo,
    nt: int,
    w: QWeight,
    dst: Buf,
    xq: Buf,
    xd: Buf,
    cols: int,
    n_in: int,
    n_out: int,
    st: ResidentState,
)
    requires
        geom_ok(c.k.geom),
        geom_ok(c.k.geom_batch),
        0 <= n_in,
        0 <= n_out <= u32::MAX,
        1 <= nt <= u32::MAX,
        cabe_n(n_out, cols),
        nt == modo.tokens(st.cfg),
        c.n_batch == st.cfg.n_batch,
        cols == nt || cols == 1,
    ensures
        certa(op_mv(c.k, modo, w, dst, xq, xd, cols, n_in, n_out), st, nt, c),
{
    reveal(op_mv);
    lemma_linhas(c.k.geom);
    lemma_linhas(c.k.geom_batch);
    let m = matvec_de(c.k, modo, cols, w.ty);
    lei_teto(n_out, m.1);
    let p = descricao(m.0, c);
    lemma_linhas_da(m.0, c);
    assert(linhas_do(p) == m.1 && colunas_do(p) == cols);
    assert(0 <= n_out * cols) by (nonlinear_arith)
        requires
            0 <= n_out,
            1 <= cols,
    ;
    if let OpM::Dispatch(d) = op_mv(c.k, modo, w, dst, xq, xd, cols, n_in, n_out) {
        assert(d.groups == teto(n_out, m.1));
        assert(cobre(d, c));
        assert(sem_ocioso(d, c));
        assert(casa(d));
    }
}

/// A product covers its rows.
pub(crate) proof fn lemma_mv_cobre(
    c: Compilacao,
    modo: Modo,
    nt: int,
    w: QWeight,
    dst: Buf,
    xq: Buf,
    xd: Buf,
    cols: int,
    n_in: int,
    n_out: int,
    st: ResidentState,
)
    requires
        geom_ok(c.k.geom),
        geom_ok(c.k.geom_batch),
        0 <= n_in,
        0 <= n_out <= u32::MAX,
        1 <= nt <= u32::MAX,
        cabe_n(n_out, cols),
        nt == modo.tokens(st.cfg),
        c.n_batch == st.cfg.n_batch,
        cols == nt || cols == 1,
    ensures
        op_mv(c.k, modo, w, dst, xq, xd, cols, n_in, n_out) matches OpM::Dispatch(d) && cobre(d, c)
            && eh_produto(d.pipe) && colunas_do(descricao(d.pipe, c)) == cols,
{
    lemma_mv(c, modo, nt, w, dst, xq, xd, cols, n_in, n_out, st);
    reveal(op_mv);
}

proof fn lemma_bias(
    dst: Buf,
    b: Option<Buf>,
    dim: int,
    n: int,
    st: ResidentState,
    nt: int,
    c: Compilacao,
)
    ensures
        certas(ops_bias(dst, b, dim, n), st, nt, c),
    decreases n,
{
    reveal(op_bias);
    if n > 0 {
        lemma_bias(dst, b, dim, n - 1, st, nt, c);
    }
}

pub(crate) proof fn lemma_slot(st: ResidentState, l: int)
    requires
        st.completo(),
        0 <= l < st.qw@.len(),
        st.qw@[l].mixer is Attn,
        st.n_slots() * st.cfg.ctx * st.cfg.kv_dim <= u32::MAX,
    ensures
        0 <= st.slot(l) < st.n_slots(),
        st.n_slots() <= st.cfg.n_layer,
        desloc_da_camada(st, l) == st.slot(l) * st.cfg.ctx * st.cfg.kv_dim,
{
    let a = st.atencao();
    lemma_atencoes(a, l + 1, a.len() as int);
    lemma_atencoes(a, 0, a.len() as int);
    let s = st.slot(l);
    let n = st.n_slots();
    let x = st.cfg.ctx as int;
    let d = st.cfg.kv_dim as int;
    assert(0 <= s * x <= n * x) by (nonlinear_arith)
        requires
            0 <= s <= n,
            0 <= x,
    ;
    assert(0 <= s * x * d <= n * x * d) by (nonlinear_arith)
        requires
            0 <= s * x <= n * x,
            0 <= d,
    ;
}

proof fn lemma_norma(
    st: ResidentState,
    nt: int,
    r: Buf,
    w: Buf,
    tem: bool,
    c: Compilacao,
)
    ensures
        certas(ops_norma(st, nt, r, w, tem), st, nt, c),
{
    reveal(ops_norma);
}

proof fn lemma_quantiza(
    b: Buf,
    xq: Buf,
    xd: Buf,
    i: int,
    n: int,
    st: ResidentState,
    nt: int,
    c: Compilacao,
)
    ensures
        certa(op_quantiza(b, xq, xd, i, n), st, nt, c),
{
    reveal(op_quantiza);
}

proof fn lemma_dims_positivas(st: ResidentState)
    ensures
        st.cfg.attn_dim() >= 0,
        st.cfg.q_out() >= 0,
        st.cfg.attn_dim() <= st.cfg.q_out(),
{
    assert(st.cfg.head_dim * st.cfg.n_head >= 0) by (nonlinear_arith);
}

proof fn lemma_atencao(st: ResidentState, c: Compilacao, modo: Modo, l: int)
    requires
        valido(st, c, modo),
        0 <= l < st.cfg.n_layer,
        st.qw@[l].mixer is Attn,
    ensures
        certas(
            ops_atencao(st, c.k, modo, modo.tokens(st.cfg), l),
            st,
            modo.tokens(st.cfg),
            c,
        ),
{
    let nt = modo.tokens(st.cfg);
    let f = st.cfg;
    let la = st.aux@[l];
    lemma_slot(st, l);
    lemma_dims_positivas(st);
    if let MixerQ::Attn { attn_q, attn_k, attn_v, attn_output } = st.qw@[l].mixer {
        let n = f.n_embd as int;
        let kv = f.kv_dim as int;
        lemma_mv(c, modo, nt, attn_q, st.a.b_q, st.a.b_xq, st.a.b_xd, nt, n, f.q_out(), st);
        lemma_mv(c, modo, nt, attn_k, st.a.b_k, st.a.b_xq, st.a.b_xd, nt, n, kv, st);
        lemma_mv(c, modo, nt, attn_v, st.a.b_v, st.a.b_xq, st.a.b_xd, nt, n, kv, st);
        lemma_mv(
            c,
            modo,
            nt,
            attn_output,
            st.a.b_proj,
            st.a.b_xq,
            st.a.b_xd,
            nt,
            f.attn_dim(),
            n,
            st,
        );
        reveal(op_mv_bloco);
        lemma_bias(st.a.b_q, la.q_bias, n, nt, st, nt, c);
        lemma_bias(st.a.b_k, la.k_bias, kv, nt, st, nt, c);
        lemma_bias(st.a.b_v, la.v_bias, kv, nt, st, nt, c);
        assert(certas(ops_qk(st, nt, l), st, nt, c)) by {
            reveal(op_qk_norm);
        }
        assert(certas(
            ops_projecoes(st, c.k, modo, nt, l, (attn_q, attn_k, attn_v)),
            st,
            nt,
            c,
        ));
        assert(certa(
            op_rope(st, nt, st.a.b_q, f.q_out() * nt, f.n_head as int, f.q_passo()),
            st,
            nt,
            c,
        )) by {
            reveal(op_rope);
        }
        assert(certa(op_rope_k(st, c.k, nt, l), st, nt, c)) by {
            reveal(op_rope);
            reveal(op_rope_k);
        }
        assert(certa(
            op_atencao(st, nt, st.a.kcache, st.a.vcache, desloc_da_camada(st, l)),
            st,
            nt,
            c,
        )) by {
            reveal(op_atencao);
        }
        assert(certa(op_saida_atencao(st, nt), st, nt, c)) by {
            reveal(op_saida_atencao);
            lemma_quantiza(st.a.b_attn, st.a.b_xq, st.a.b_xd, 0, f.n_embd * nt, st, nt, c);
        }
    }
}

proof fn lemma_gates(
    st: ResidentState,
    d: DeltaNetConfig,
    b: DnBufs,
    da: DeltaBufs,
    n: int,
    nt: int,
    c: Compilacao,
)
    ensures
        certas(ops_gates_ate(st, d, b, da, n), st, nt, c),
    decreases n,
{
    reveal(op_dn_gates);
    if n > 0 {
        lemma_gates(st, d, b, da, n - 1, nt, c);
    }
}

proof fn lemma_conv(
    st: ResidentState,
    d: DeltaNetConfig,
    b: DnBufs,
    da: DeltaBufs,
    n: int,
    nt: int,
    c: Compilacao,
)
    ensures
        certas(ops_conv_ate(d, b, da, n), st, nt, c),
    decreases n,
{
    reveal(op_dn_conv);
    if n > 0 {
        lemma_conv(st, d, b, da, n - 1, nt, c);
    }
}

proof fn lemma_l2(
    st: ResidentState,
    d: DeltaNetConfig,
    b: DnBufs,
    n: int,
    nt: int,
    c: Compilacao,
)
    ensures
        certas(ops_l2_ate(st.cfg, d, b, n), st, nt, c),
    decreases n,
{
    reveal(op_dn_l2);
    if n > 0 {
        lemma_l2(st, d, b, n - 1, nt, c);
    }
}

proof fn lemma_estado(
    st: ResidentState,
    d: DeltaNetConfig,
    b: DnBufs,
    da: DeltaBufs,
    n: int,
    nt: int,
    c: Compilacao,
)
    ensures
        certas(ops_estado_ate(d, b, da, n), st, nt, c),
    decreases n,
{
    reveal(op_dn_delta);
    if n > 0 {
        lemma_estado(st, d, b, da, n - 1, nt, c);
    }
}

proof fn lemma_dn_pontas(
    st: ResidentState,
    c: Compilacao,
    modo: Modo,
    d: DeltaNetConfig,
    b: DnBufs,
    da: DeltaBufs,
    w: (QWeight, QWeight, QWeight),
)
    requires
        valido(st, c, modo),
        st.tem_delta(),
        st.cfg.delta_net == Some(d),
    ensures
        certas(
            ops_dn_inicio(st, c.k, modo, modo.tokens(st.cfg), d, b, w.0, w.1),
            st,
            modo.tokens(st.cfg),
            c,
        ),
        certas(
            ops_dn_fim(st, c.k, modo, modo.tokens(st.cfg), d, b, da, w.2),
            st,
            modo.tokens(st.cfg),
            c,
        ),
{
    let nt = modo.tokens(st.cfg);
    let f = st.cfg;
    let n = f.n_embd as int;
    assert(d.value_dim() >= 0) by (nonlinear_arith)
        requires
            d.value_dim() == d.head_v_dim * d.n_v_heads,
    ;
    assert(d.key_dim() >= 0) by (nonlinear_arith)
        requires
            d.key_dim() == d.d_state * d.n_k_heads,
    ;
    reveal(op_mv_bloco);
    lemma_mv(c, modo, nt, w.0, b.qkv, st.a.b_xq, st.a.b_xd, nt, n, d.conv_dim(), st);
    lemma_mv(c, modo, nt, w.1, b.z, st.a.b_xq, st.a.b_xd, nt, n, d.value_dim(), st);
    lemma_mv(c, modo, nt, w.2, st.a.b_proj, b.xq, b.xd, nt, d.value_dim(), n, st);
    reveal(ops_dn_fim);
}

proof fn lemma_delta(st: ResidentState, c: Compilacao, modo: Modo, l: int)
    requires
        valido(st, c, modo),
        0 <= l < st.cfg.n_layer,
        st.qw@[l].mixer is Delta,
    ensures
        modo is Verify ==> certas(ops_delta_verify(st, c.k, l), st, modo.tokens(st.cfg), c),
        !(modo is Verify) ==> certas(
            ops_delta(st, c.k, modo, modo.tokens(st.cfg), l),
            st,
            modo.tokens(st.cfg),
            c,
        ),
{
    let nt = modo.tokens(st.cfg);
    match (st.qw@[l].mixer, st.cfg.delta_net, st.a.dn, st.aux@[l].delta) {
        (MixerQ::Delta { attn_qkv, attn_gate, ssm_out }, Some(d), Some(b), Some(da)) => {
            lemma_dn_pontas(st, c, modo, d, b, da, (attn_qkv, attn_gate, ssm_out));
            if modo is Verify {
                lemma_gates(st, d, b, da, nt, nt, c);
                lemma_conv(st, d, b, da, nt, nt, c);
                lemma_l2(st, d, b, nt, nt, c);
                lemma_estado(st, d, b, da, nt, nt, c);
            } else {
                reveal(op_dn_gates);
                reveal(op_dn_conv);
                reveal(op_dn_l2);
                reveal(op_dn_delta);
            }
        },
        _ => {},
    }
}

proof fn lemma_ffn(st: ResidentState, c: Compilacao, modo: Modo, l: int)
    requires
        valido(st, c, modo),
        0 <= l < st.cfg.n_layer,
    ensures
        certas(ops_ffn(st, c.k, modo, modo.tokens(st.cfg), l), st, modo.tokens(st.cfg), c),
{
    let nt = modo.tokens(st.cfg);
    let f = st.cfg;
    let q = st.qw@[l];
    let n = f.n_embd as int;
    let m = f.n_ff as int;
    lemma_norma(st, nt, st.a.b_proj, st.aux@[l].ffn_norm, true, c);
    lemma_mv(c, modo, nt, q.ffn_gate, st.a.b_gate, st.a.b_xq, st.a.b_xd, nt, n, m, st);
    lemma_mv(c, modo, nt, q.ffn_up, st.a.b_up, st.a.b_xq, st.a.b_xd, nt, n, m, st);
    lemma_mv(c, modo, nt, q.ffn_down, st.a.b_ffn, st.a.b_xq, st.a.b_xd, nt, m, n, st);
    reveal(op_mv_bloco);
    assert(certa(op_swiglu(st, nt), st, nt, c)) by {
        reveal(op_swiglu);
    }
}

proof fn lemma_camadas(st: ResidentState, c: Compilacao, modo: Modo, n: int)
    requires
        valido(st, c, modo),
        n <= st.cfg.n_layer,
    ensures
        certas(
            ops_camadas(st, c.k, modo, modo.tokens(st.cfg), n),
            st,
            modo.tokens(st.cfg),
            c,
        ),
    decreases n,
{
    if n > 0 {
        let l = n - 1;
        let nt = modo.tokens(st.cfg);
        lemma_camadas(st, c, modo, l);
        lemma_norma(st, nt, st.a.b_ffn, st.aux@[l].attn_norm, l > 0, c);
        if st.qw@[l].mixer is Delta {
            lemma_delta(st, c, modo, l);
        } else {
            lemma_atencao(st, c, modo, l);
        }
        lemma_ffn(st, c, modo, l);
        assert(certas(ops_camada(st, c.k, modo, nt, l), st, nt, c));
    }
}

proof fn lemma_fim(st: ResidentState, c: Compilacao, modo: Modo)
    requires
        valido(st, c, modo),
    ensures
        certas(ops_fim(st, c.k, modo, modo.tokens(st.cfg)), st, modo.tokens(st.cfg), c),
{
    let nt = modo.tokens(st.cfg);
    let f = st.cfg;
    let n = f.n_embd as int;
    let a = st.a;
    if f.shard.ultimo() {
        let r = rodou(st, c.k);
        lemma_norma(st, nt, a.b_ffn, st.output_norm_buf, r, c);
        if modo is Verify {
            lemma_mv(
                c,
                modo,
                nt,
                st.output_w,
                a.b_logits,
                a.b_xq,
                a.b_xd,
                nt,
                n,
                f.vocab as int,
                st,
            );
        } else {
            lemma_cabe(f.vocab as int, VERIFY_TOK as int, 1);
            lemma_mv(
                c,
                modo,
                nt,
                st.output_w,
                a.b_logits,
                a.b_xq,
                a.b_xd,
                1,
                n,
                f.vocab as int,
                st,
            );
            lemma_quantiza(a.b_normed, a.b_xq, a.b_xd, (nt - 1) * n, n, st, nt, c);
        }
    }
}

proof fn lemma_plano(st: ResidentState, c: Compilacao, modo: Modo)
    requires
        valido(st, c, modo),
    ensures
        certas(plano(st, c.k, modo), st, modo.tokens(st.cfg), c),
{
    lemma_camadas(st, c, modo, camadas(st, c.k));
    lemma_fim(st, c, modo);
}

// ---------------------------------------------------------------------------
// Laws
// ---------------------------------------------------------------------------

/// Every product of a plan covers all rows of its output with the geometry that
/// its pipeline was compiled with.
pub proof fn lei_produtos_cobrem_as_linhas(st: ResidentState, c: Compilacao, modo: Modo, i: int)
    requires
        valido(st, c, modo),
        0 <= i < plano(st, c.k, modo).len(),
    ensures
        plano(st, c.k, modo)[i] matches OpM::Dispatch(d) ==> eh_produto(d.pipe) ==> cobre(d, c),
{
    lemma_plano(st, c, modo);
}

/// No workgroup of a product of a plan is idle.
pub proof fn lei_nenhum_grupo_ocioso(st: ResidentState, c: Compilacao, modo: Modo, i: int)
    requires
        valido(st, c, modo),
        0 <= i < plano(st, c.k, modo).len(),
    ensures
        plano(st, c.k, modo)[i] matches OpM::Dispatch(d) ==> eh_produto(d.pipe) ==> sem_ocioso(
            d,
            c,
        ),
{
    lemma_plano(st, c, modo);
}

/// Every dispatch of an operation binds as many buffers and pushes as many bytes
/// as its pipeline takes, at every step.
pub open spec fn op_casa(o: OpM, c: Cfg, q: Passo, n_split: u32) -> bool {
    match o {
        OpM::Dispatch(d) => desp_casa(d, c, q, n_split),
        OpM::Atencao { curto, split, reduce } => desp_casa(curto, c, q, n_split) && desp_casa(
            split,
            c,
            q,
            n_split,
        ) && desp_casa(reduce, c, q, n_split),
        _ => true,
    }
}

pub open spec fn desp_casa(d: DespachoM, c: Cfg, q: Passo, n_split: u32) -> bool {
    let i = interface_de(shader_de(d.pipe));
    d.binds.len() == i.0 && palavras(push_de(d, c, q, n_split)).len() == i.1
}

proof fn lemma_op_casa(
    o: OpM,
    st: ResidentState,
    nt: int,
    c: Compilacao,
    q: Passo,
    n_split: u32,
)
    requires
        certa(o, st, nt, c),
    ensures
        op_casa(o, st.cfg, q, n_split),
{
    match o {
        OpM::Dispatch(d) => {
            lei_palavras_len(push_de(d, st.cfg, q, n_split));
        },
        OpM::Atencao { curto, split, reduce } => {
            lei_palavras_len(push_de(curto, st.cfg, q, n_split));
            lei_palavras_len(push_de(split, st.cfg, q, n_split));
            lei_palavras_len(push_de(reduce, st.cfg, q, n_split));
        },
        _ => {},
    }
}

/// The plan of a block fits the pipelines.
pub proof fn lei_plano_casa_com_as_pipelines(
    st: ResidentState,
    c: Compilacao,
    modo: Modo,
    q: Passo,
    n_split: u32,
    i: int,
)
    requires
        valido(st, c, modo),
        0 <= i < plano(st, c.k, modo).len(),
    ensures
        op_casa(plano(st, c.k, modo)[i], st.cfg, q, n_split),
{
    lemma_plano(st, c, modo);
    lemma_op_casa(plano(st, c.k, modo)[i], st, modo.tokens(st.cfg), c, q, n_split);
}

/// A plan can be recorded at every position at which its block is in the cache.
pub proof fn lei_plano_gravavel(st: ResidentState, c: Compilacao, modo: Modo, q: Passo)
    requires
        valido(st, c, modo),
        q.n_tok == modo.tokens(st.cfg),
        q.n_tok <= q.pos + 1,
        q.pos < st.cfg.ctx,
        st.cfg.ctx <= u32::MAX,
    ensures
        todos_gravaveis(plano(st, c.k, modo), st, q),
{
    let nt = modo.tokens(st.cfg);
    let p = plano(st, c.k, modo);
    lemma_plano(st, c, modo);
    assert forall|i: int| 0 <= i < p.len() implies gravavel(#[trigger] p[i], st, q) by {
        assert(certa(p[i], st, nt, c));
        match p[i] {
            OpM::Dispatch(d) => {
                lemma_push_ok(d, st, nt, q);
            },
            OpM::Atencao { curto, split, reduce } => {
                lemma_push_ok(curto, st, nt, q);
                lemma_push_ok(split, st, nt, q);
                lemma_push_ok(reduce, st, nt, q);
            },
            _ => {},
        }
    }
}

proof fn lemma_push_ok(d: DespachoM, st: ResidentState, nt: int, q: Passo)
    requires
        no_slot(d, st, nt),
        q.n_tok == nt,
        1 <= q.n_tok <= q.pos + 1,
        q.pos < st.cfg.ctx,
        st.cfg.ctx <= u32::MAX,
        st.cfg.head_dim * 2 <= usize::MAX,
        st.n_slots() * st.cfg.ctx * st.cfg.kv_dim <= u32::MAX,
    ensures
        push_ok(d, st.cfg, q),
{
    if let PushM::RopeKv { n_head, kv_layer_off } = d.push {
        let x = st.cfg.ctx as int;
        let k = st.cfg.kv_dim as int;
        let s = choose|s: int|
            0 <= s < st.n_slots() && kv_layer_off == #[trigger] (s * st.cfg.ctx * st.cfg.kv_dim);
        let p0 = q.total_len() - d.groups_y;
        assert(0 <= p0 <= x);
        assert(s * x + p0 <= st.n_slots() * x) by (nonlinear_arith)
            requires
                s + 1 <= st.n_slots(),
                0 <= p0 <= x,
        ;
        assert((s * x + p0) * k <= st.n_slots() * x * k) by (nonlinear_arith)
            requires
                s * x + p0 <= st.n_slots() * x,
                k >= 0,
        ;
        assert((s * x + p0) * k == s * x * k + p0 * k) by (nonlinear_arith);
        assert(p0 * k >= 0) by (nonlinear_arith)
            requires
                p0 >= 0,
                k >= 0,
        ;
    }
}

// ---------------------------------------------------------------------------
// The prediction head
// ---------------------------------------------------------------------------

/// The plan of the prediction head, and the pipelines that it was made for.
pub open spec fn mtp_valido(st: ResidentState, c: Compilacao) -> bool {
    &&& cabe_mtp(st.cfg)
    &&& geom_ok(c.k.geom)
    &&& st.cfg.n_embd <= u32::MAX
    &&& st.cfg.q_out() <= u32::MAX
    &&& st.cfg.kv_dim <= u32::MAX
    &&& st.cfg.n_ff <= u32::MAX
    &&& st.cfg.vocab <= u32::MAX
}

proof fn lemma_mtp_mv(
    st: ResidentState,
    c: Compilacao,
    w: QWeight,
    dst: Buf,
    n_in: int,
    n_out: int,
)
    requires
        geom_ok(c.k.geom),
        0 <= n_out <= u32::MAX,
        n_out * 4 <= usize::MAX,
    ensures
        certa(mtp_mv(st, c.k, w, dst, n_in, n_out), st, 1, c),
{
    reveal(mtp_mv);
    lemma_linhas(c.k.geom);
    let m = matvec_um(c.k, w.ty);
    lei_teto(n_out, m.1);
    let p = descricao(m.0, c);
    lemma_linhas_da(m.0, c);
    assert(linhas_do(p) == m.1);
    assert(colunas_do(p) == 1);
    if let OpM::Dispatch(d) = mtp_mv(st, c.k, w, dst, n_in, n_out) {
        assert(d.groups == teto(n_out, m.1));
        assert(cobre(d, c));
        assert(sem_ocioso(d, c));
        assert(casa(d));
    }
}

proof fn lemma_mtp_norma(
    st: ResidentState,
    x: Buf,
    r: Buf,
    w: Buf,
    tem: bool,
    out: Buf,
    i: int,
    c: Compilacao,
)
    ensures
        certas(mtp_norma(st, x, r, w, tem, out, i), st, 1, c),
{
    reveal(mtp_norma);
}

proof fn lemma_mtp(st: ResidentState, c: Compilacao)
    requires
        mtp_valido(st, c),
    ensures
        certas(plano_mtp(st, c.k), st, 1, c),
{
    if let Some(m) = st.mtp {
        let f = st.cfg;
        let a = st.a;
        let n = f.n_embd as int;
        lemma_dims_positivas(st);
        assert(certas(mtp_prologo(st, c.k, m), st, 1, c)) by {
            lemma_mtp_norma(st, m.b_emb, m.b_emb, m.enorm, false, m.b_eh, 0, c);
            lemma_mtp_norma(st, m.b_h, m.b_h, m.hnorm, false, m.b_eh, n, c);
            lemma_mtp_mv(st, c, m.eh_proj, m.b_x, n * 2, n);
            reveal(mtp_quantiza);
        }
        assert(certas(mtp_mixer(st, c.k, m), st, 1, c)) by {
            lemma_mtp_norma(st, m.b_x, m.b_ffn, m.attn_norm, false, a.b_normed, 0, c);
            lemma_mtp_mv(st, c, m.attn_q, a.b_q, n, f.q_out());
            lemma_mtp_mv(st, c, m.attn_k, a.b_k, n, f.kv_dim as int);
            lemma_mtp_mv(st, c, m.attn_v, a.b_v, n, f.kv_dim as int);
            lemma_mtp_mv(st, c, m.attn_output, a.b_proj, f.attn_dim(), n);
            assert(certas(mtp_qks(st, m), st, 1, c)) by {
                reveal(mtp_qk);
            }
            reveal(mtp_rope);
            reveal(mtp_atencao);
            assert(certa(mtp_saida(st), st, 1, c)) by {
                reveal(mtp_saida);
                reveal(mtp_quantiza);
            }
        }
        assert(certas(mtp_fim(st, c.k, m), st, 1, c)) by {
            lemma_mtp_norma(st, m.b_x, a.b_proj, m.ffn_norm, true, a.b_normed, 0, c);
            lemma_mtp_norma(st, m.b_x, m.b_ffn, m.shared_head_norm, true, a.b_normed, 0, c);
            lemma_mtp_mv(st, c, m.ffn_gate, a.b_gate, n, f.n_ff as int);
            lemma_mtp_mv(st, c, m.ffn_up, a.b_up, n, f.n_ff as int);
            lemma_mtp_mv(st, c, m.ffn_down, m.b_ffn, f.n_ff as int, n);
            lemma_mtp_mv(st, c, st.output_w, a.b_logits, n, f.vocab as int);
            reveal(mtp_swiglu);
        }
    }
}

/// The plan of the prediction head fits the pipelines, and each of its products
/// covers all rows of its output without an idle workgroup.
pub proof fn lei_mtp_casa_com_as_pipelines(
    st: ResidentState,
    c: Compilacao,
    q: Passo,
    n_split: u32,
    i: int,
)
    requires
        mtp_valido(st, c),
        0 <= i < plano_mtp(st, c.k).len(),
    ensures
        op_casa(plano_mtp(st, c.k)[i], st.cfg, q, n_split),
        plano_mtp(st, c.k)[i] matches OpM::Dispatch(d) ==> eh_produto(d.pipe) ==> cobre(d, c)
            && sem_ocioso(d, c),
{
    lemma_mtp(st, c);
    lemma_op_casa(plano_mtp(st, c.k)[i], st, 1, c, q, n_split);
}

/// A proposal can be recorded at every position.
pub proof fn lei_mtp_gravavel(st: ResidentState, k: Knobs, q: Passo)
    requires
        cabe_mtp(st.cfg),
    ensures
        todos_gravaveis(plano_mtp(st, k), st, q),
{
    reveal(mtp_mv);
    reveal(mtp_norma);
    reveal(mtp_quantiza);
    reveal(mtp_qk);
    reveal(mtp_rope);
    reveal(mtp_atencao);
    reveal(mtp_saida);
    reveal(mtp_swiglu);
    if let Some(m) = st.mtp {
        assert(todos_gravaveis(mtp_prologo(st, k, m), st, q));
        assert(todos_gravaveis(mtp_qks(st, m), st, q));
        assert(todos_gravaveis(mtp_mixer(st, k, m), st, q));
        assert(todos_gravaveis(mtp_fim(st, k, m), st, q));
    }
}

} // verus!
