//! What dimensions, shapes and sizes have to do with each other: heads and
//! projections, weights that feed one another, caches and the blocks in them,
//! products and what is bound to them.

use vstd::prelude::*;

use crate::vulkan::alocador::{
    alinhado, cabe_no, chunk_ok, lei_alinhado, primeiro_livre, primeiro_local, AlocadorM, Chunk,
    Pedido, ALINHAMENTO,
};
use crate::vulkan::contas::{lei_palavras_ida_e_volta, lei_palavras_len, lei_teto, palavra};
use crate::vulkan::erro::{MatmulError, VkResult};
use crate::vulkan::estado::{
    Buf, Cfg, DeltaNetConfig, Knobs, LayerAux, Modo, ResidentState, NORM_P1_WG, VERIFY_TOK,
};
use crate::vulkan::gravacao::{byte_no_cache, cmd_saida, cmds_op, push_de, CmdM, Passo};
use crate::vulkan::layout::{
    cfg_de, formas_da_camada, formas_mtp, formas_ok, largura_do_bloco, mensuravel, tamanhos_de,
    Forma, LlamaConfig, Peso,
};
use crate::vulkan::matmul::{erro_k, produto_k, produto_q8_0};
use crate::vulkan::model_gpu::{bytes_na_vram, bytes_no_arquivo, matrizes, vram};
use crate::vulkan::ops::{DespachoM, GgmlType, OpM, PipeId, PushM};
use crate::vulkan::pipelines::{constantes_de, shader_de, Compilacao};
use crate::vulkan::plano::{camadas, grupos, grupos_norma, grupos_q, matvec_de, rodou};
use crate::vulkan::sessao::{floats_de_saida, lineares, zeros_de};
use crate::vulkan::shard::{splits, Shard};
use crate::vulkan::tensor::{
    lei_tamanho_transformado, na_vram, no_arquivo, primeiro_tipo, serve_tipo, transformado,
};

verus! {

// ---------------------------------------------------------------------------
// Dimensions
// ---------------------------------------------------------------------------

/// The queries of the heads lie side by side, each in a stretch of its own. In a
/// hybrid model a query is followed by its gate, which is as long.
pub proof fn lei_cabecas(c: Cfg)
    ensures
        c.delta_net is Some ==> c.q_passo() == c.head_dim + c.head_dim && c.q_out() == c.n_head
            * c.q_passo() && c.attn_dim() == c.n_head * c.head_dim && c.q_out() == c.attn_dim()
            + c.attn_dim(),
        c.delta_net is None ==> c.q_passo() == c.head_dim && c.q_out() == c.n_embd && c.attn_dim()
            == c.n_embd,
{
    let a = c.head_dim as int;
    let b = c.n_head as int;
    assert(a * b * 2 == b * (a * 2)) by (nonlinear_arith);
    assert(a * b == b * a) by (nonlinear_arith);
}

/// The convolution runs over the queries, the keys and the values; the queries
/// have as many heads as the keys. The window holds all tokens that the kernel
/// sees but the newest, and each value head has a square state.
pub proof fn lei_dimensoes_lineares(d: DeltaNetConfig)
    ensures
        d.key_dim() == d.n_k_heads * d.d_state,
        d.value_dim() == d.n_v_heads * d.head_v_dim,
        d.conv_dim() == d.key_dim() + d.key_dim() + d.value_dim(),
        d.janela_len() + d.conv_dim() == d.d_conv * d.conv_dim(),
        d.state_len() == d.n_v_heads * (d.d_state * d.d_state),
{
    let s = d.d_state as int;
    let k = d.n_k_heads as int;
    let v = d.n_v_heads as int;
    let hv = d.head_v_dim as int;
    let c = d.conv_dim();
    let n = d.d_conv as int;
    assert(s * k == k * s) by (nonlinear_arith);
    assert(hv * v == v * hv) by (nonlinear_arith);
    assert(c * (n - 1) + c == n * c) by (nonlinear_arith);
    assert(v * s * s == v * (s * s)) by (nonlinear_arith);
}

/// A step of the decode has one token, one of the prefill a whole block, and a
/// verification the token before the proposals as well as them.
pub proof fn lei_tokens_do_modo(c: Cfg)
    ensures
        Modo::Decode.tokens(c) == 1,
        Modo::Batch.tokens(c) == c.n_batch,
        Modo::Verify.tokens(c) == VERIFY_TOK,
{
}

/// The first elements of a buffer, and the elements after them: the stretches
/// touch and do not overlap, and have four bytes per element.
pub proof fn lei_trechos(b: Buf, i: int, n: int, k: int)
    requires
        0 <= i,
        0 <= n,
        0 <= k,
        (i + n + k) * 4 <= u64::MAX,
    ensures
        b.ate(n) == b.em(0, n),
        b.em(i, n).buffer == b.buffer && b.ate(n).buffer == b.buffer && b.todo().buffer == b.buffer,
        b.todo().offset == 0 && b.todo().bytes == b.size,
        b.em(i, n).offset == 4 * i && b.em(i, n).bytes == 4 * n,
        b.em(i, n).offset + b.em(i, n).bytes == b.em(i + n, k).offset,
        !b.em(i, n).cruza(b.em(i + n, k)),
{
}

/// A shard runs the layers of its stretch with the dimensions of the model; its
/// keys have as many elements as the key heads together.
pub proof fn lei_cfg_do_shard(m: LlamaConfig, s: Shard, n_batch: usize)
    requires
        s.first_layer <= s.end_layer,
        m.n_head_kv * m.head_dim <= usize::MAX,
    ensures
        ({
            let c = cfg_de(m, s, n_batch);
            &&& s.first_layer + c.n_layer == s.end_layer
            &&& c.kv_dim == m.head_dim * m.n_head_kv
            &&& c.n_embd == m.n_embd && c.n_ff == m.n_ff && c.vocab == m.vocab && c.ctx == m.ctx
            &&& c.n_head == m.n_head && c.n_head_kv == m.n_head_kv && c.head_dim == m.head_dim
            &&& c.rope_dim == m.rope_dim && c.rms_eps == m.rms_eps && c.delta_net == m.delta_net
            &&& c.shard == s && c.n_batch == n_batch
        }),
{
    let a = m.head_dim as int;
    let b = m.n_head_kv as int;
    assert(a * b == b * a) by (nonlinear_arith);
    assert(a * b >= 0) by (nonlinear_arith)
        requires
            a >= 0,
            b >= 0,
    ;
}

// ---------------------------------------------------------------------------
// Shapes
// ---------------------------------------------------------------------------

/// The shape of a weight in a list.
pub open spec fn forma_de(s: Seq<Forma>, p: Peso) -> Forma {
    s[choose|i: int| 0 <= i < s.len() && (#[trigger] s[i]).peso == p]
}

/// That a list has a weight once.
pub open spec fn tem_uma(s: Seq<Forma>, p: Peso) -> bool {
    exists|i: int|
        0 <= i < s.len() && (#[trigger] s[i]).peso == p && forall|j: int|
            0 <= j < s.len() && (#[trigger] s[j]).peso == p ==> j == i
}

/// Weights one of which takes what the other gives.
pub open spec fn encadeia(s: Seq<Forma>, a: Peso, b: Peso) -> bool {
    forma_de(s, a).n_out == forma_de(s, b).n_in
}

/// The feed-forward block takes a vector of the model and gives one; gate and up
/// are alike, and down takes what they give.
pub open spec fn ffn_encadeia(c: Cfg, s: Seq<Forma>) -> bool {
    &&& tem_uma(s, Peso::FfnGate) && tem_uma(s, Peso::FfnUp) && tem_uma(s, Peso::FfnDown)
    &&& forma_de(s, Peso::FfnGate).n_in == c.n_embd && forma_de(s, Peso::FfnUp).n_in == c.n_embd
    &&& encadeia(s, Peso::FfnGate, Peso::FfnDown) && encadeia(s, Peso::FfnUp, Peso::FfnDown)
    &&& forma_de(s, Peso::FfnGate).n_out == c.n_ff
    &&& forma_de(s, Peso::FfnDown).n_out == c.n_embd
}

/// The projections of the attention take a vector of the model; key and value go
/// to the cache; the output takes what the heads give and gives a vector of the
/// model.
pub open spec fn atencao_encadeia(c: Cfg, s: Seq<Forma>) -> bool {
    &&& tem_uma(s, Peso::AttnQ) && tem_uma(s, Peso::AttnK) && tem_uma(s, Peso::AttnV) && tem_uma(
        s,
        Peso::AttnOutput,
    )
    &&& forma_de(s, Peso::AttnQ).n_in == c.n_embd && forma_de(s, Peso::AttnK).n_in == c.n_embd
        && forma_de(s, Peso::AttnV).n_in == c.n_embd
    &&& forma_de(s, Peso::AttnK).n_out == c.kv_dim && forma_de(s, Peso::AttnV).n_out == c.kv_dim
    &&& forma_de(s, Peso::AttnQ).n_out == c.q_out() && forma_de(s, Peso::AttnOutput).n_in
        == c.attn_dim()
    &&& forma_de(s, Peso::AttnOutput).n_out == c.n_embd
}

/// The projections of the linear attention take a vector of the model; the
/// output takes the gated values and gives a vector of the model.
pub open spec fn linear_encadeia(c: Cfg, d: DeltaNetConfig, s: Seq<Forma>) -> bool {
    &&& tem_uma(s, Peso::AttnQkv) && tem_uma(s, Peso::AttnGate) && tem_uma(s, Peso::SsmOut)
    &&& forma_de(s, Peso::AttnQkv).n_in == c.n_embd && forma_de(s, Peso::AttnGate).n_in == c.n_embd
    &&& forma_de(s, Peso::AttnQkv).n_out == d.conv_dim()
    &&& encadeia(s, Peso::AttnGate, Peso::SsmOut) && forma_de(s, Peso::SsmOut).n_in == d.value_dim()
    &&& forma_de(s, Peso::SsmOut).n_out == c.n_embd
}

proof fn lemma_forma(s: Seq<Forma>, i: int)
    requires
        0 <= i < s.len(),
        forall|j: int| 0 <= j < s.len() && (#[trigger] s[j]).peso == s[i].peso ==> j == i,
    ensures
        tem_uma(s, s[i].peso),
        forma_de(s, s[i].peso) == s[i],
{
}

/// The shapes of the weights of a layer fit each other: each weight is there
/// once, and takes what the one before it gives.
pub proof fn lei_formas_encadeiam(c: Cfg, linear: bool)
    requires
        formas_ok(c),
        formas_da_camada(c, linear) is Some,
    ensures
        ({
            let s = formas_da_camada(c, linear)->0;
            &&& s.len() == if linear {
                6int
            } else {
                7
            }
            &&& ffn_encadeia(c, s)
            &&& !linear ==> atencao_encadeia(c, s)
            &&& linear ==> linear_encadeia(c, c.delta_net->0, s)
        }),
        linear ==> c.delta_net is Some,
{
    let s = formas_da_camada(c, linear)->0;
    lemma_dims(c);
    if linear {
        lemma_forma(s, 0);
        lemma_forma(s, 1);
        lemma_forma(s, 2);
        lemma_forma(s, 3);
        lemma_forma(s, 4);
        lemma_forma(s, 5);
    } else {
        lemma_forma(s, 0);
        lemma_forma(s, 1);
        lemma_forma(s, 2);
        lemma_forma(s, 3);
        lemma_forma(s, 4);
        lemma_forma(s, 5);
        lemma_forma(s, 6);
    }
}

proof fn lemma_dims(c: Cfg)
    requires
        formas_ok(c),
    ensures
        0 <= c.q_out() <= usize::MAX,
        0 <= c.attn_dim() <= usize::MAX,
        c.delta_net matches Some(d) ==> 0 <= d.value_dim() <= d.conv_dim() <= usize::MAX,
{
    let a = c.head_dim as int;
    let b = c.n_head as int;
    assert(0 <= a * b) by (nonlinear_arith)
        requires
            a >= 0,
            b >= 0,
    ;
    if let Some(d) = c.delta_net {
        let s = d.d_state as int;
        let k = d.n_k_heads as int;
        let v = d.n_v_heads as int;
        let hv = d.head_v_dim as int;
        assert(0 <= s * k) by (nonlinear_arith)
            requires
                s >= 0,
                k >= 0,
        ;
        assert(0 <= hv * v) by (nonlinear_arith)
            requires
                v >= 0,
                hv >= 0,
        ;
    }
}

/// The prediction head is an attention layer before which two vectors of the
/// model are joined to one.
pub proof fn lei_formas_da_cabeca(c: Cfg)
    requires
        formas_ok(c),
    ensures
        formas_mtp(c).len() == 8,
        ffn_encadeia(c, formas_mtp(c)),
        atencao_encadeia(c, formas_mtp(c)),
        tem_uma(formas_mtp(c), Peso::EhProj),
        forma_de(formas_mtp(c), Peso::EhProj).n_in == c.n_embd + c.n_embd,
        forma_de(formas_mtp(c), Peso::EhProj).n_out == c.n_embd,
{
    let s = formas_mtp(c);
    lemma_dims(c);
    lemma_forma(s, 0);
    lemma_forma(s, 1);
    lemma_forma(s, 2);
    lemma_forma(s, 3);
    lemma_forma(s, 4);
    lemma_forma(s, 5);
    lemma_forma(s, 6);
    lemma_forma(s, 7);
}

// ---------------------------------------------------------------------------
// Caches and outputs
// ---------------------------------------------------------------------------

/// The cache is exactly as long as its slots: one slot ends where the next one
/// starts, and the last one where the cache ends.
pub proof fn lei_cache_na_medida(c: Cfg, n_slots: int, mtp: bool, slot: int)
    requires
        0 <= slot < n_slots,
        mensuravel(c, n_slots, mtp),
    ensures
        byte_no_cache(c, 0, 0) == 0,
        byte_no_cache(c, slot, c.ctx as int) == byte_no_cache(c, slot + 1, 0),
        tamanhos_de(c, n_slots, mtp).kv == byte_no_cache(c, n_slots, 0),
{
    let ctx = c.ctx as int;
    let kv = c.kv_dim as int;
    assert(slot * ctx + ctx == (slot + 1) * ctx) by (nonlinear_arith);
    assert((0 * ctx + 0) * kv * 4 == 0) by (nonlinear_arith);
    assert(0 <= n_slots * ctx) by (nonlinear_arith)
        requires
            n_slots >= 0,
            ctx >= 0,
    ;
    let s = n_slots * ctx;
    assert(0 <= s * kv) by (nonlinear_arith)
        requires
            s >= 0,
            kv >= 0,
    ;
}

/// The attention of a step covers the block that the same step appends: the
/// positions that it is told to read end where the block ends, and both start
/// from the same slot.
pub proof fn lei_atencao_ve_o_bloco(
    st: ResidentState,
    q: Passo,
    slot: usize,
    com_k: bool,
    d: DespachoM,
    off: u32,
    forcado: u32,
    k: int,
)
    requires
        d.push == (PushM::Attention { kv_layer_off: off }),
        off == slot * st.cfg.ctx * st.cfg.kv_dim,
        1 <= q.n_tok <= q.pos + 1,
        q.pos < u32::MAX,
        byte_no_cache(st.cfg, slot as int, q.pos + 1) <= u64::MAX,
        0 <= k < cmds_op(0, OpM::KvAppend { slot, com_k }, st, q, forcado).len(),
    ensures
        cmds_op(0, OpM::KvAppend { slot, com_k }, st, q, forcado)[k] matches CmdM::Copia {
            dst_off,
            size,
            ..
        } && {
            let w = push_de(d, st.cfg, q, 1);
            &&& byte_no_cache(st.cfg, slot as int, 0) == w[5] * 4
            &&& dst_off + size == byte_no_cache(st.cfg, slot as int, w[3] as int)
            &&& dst_off == byte_no_cache(st.cfg, slot as int, w[3] - q.n_tok)
        },
{
    let c = st.cfg;
    let ctx = c.ctx as int;
    let kv = c.kv_dim as int;
    let a = slot * ctx;
    let n = q.n_tok as int;
    let p = q.pos + 1;
    assert(0 <= a) by (nonlinear_arith)
        requires
            a == slot * ctx,
            ctx >= 0,
            slot >= 0,
    ;
    assert(0 <= (a + (p - n)) * kv * 4 && 0 <= kv * n * 4 && (a + (p - n)) * kv * 4 + kv * n * 4
        == (a + p) * kv * 4) by (nonlinear_arith)
        requires
            a >= 0,
            0 <= n <= p,
            kv >= 0,
    ;
    assert((a + 0) * kv * 4 == slot * ctx * kv * 4) by (nonlinear_arith)
        requires
            a == slot * ctx,
    ;
}

/// What a shard hands over fits exactly in what it has for it, and is as much as
/// the host takes: the logits of all columns in the last shard, else the vectors
/// of the block.
pub proof fn lei_saida_na_medida(st: ResidentState, q: Passo, modo: Modo, mtp: bool, n_slots: int)
    requires
        mensuravel(st.cfg, n_slots, mtp),
        q.n_tok == modo.tokens(st.cfg),
        modo is Verify ==> mtp,
        st.cfg.vocab * VERIFY_TOK * 4 <= u64::MAX,
    ensures
        cmd_saida(st, q, modo) matches CmdM::Copia { src, dst, src_off, dst_off, size } && {
            &&& size == floats_de_saida(st.cfg, modo, q.n_tok as int) * 4
            &&& size <= tamanhos_de(st.cfg, n_slots, mtp).saida
            &&& src_off == 0 && dst_off == 0
            &&& dst == st.a.logits_host.buffer
            &&& src == (if st.cfg.shard.end_layer == st.cfg.shard.n_layer_total {
                st.a.b_logits.buffer
            } else {
                st.a.b_x.buffer
            })
        },
{
    let c = st.cfg;
    let n = largura_do_bloco(c, mtp);
    let e = c.n_embd as int;
    let t = q.n_tok as int;
    assert(0 <= e * t <= e * n) by (nonlinear_arith)
        requires
            e >= 0,
            0 <= t <= n,
    ;
    let v = c.vocab as int;
    assert(0 <= v * 1) by (nonlinear_arith)
        requires
            v >= 0,
    ;
}

/// When a sequence starts, state and window of every linear-attention layer are
/// filled with zeros, and nothing else is.
pub proof fn lei_zera_todo_estado(aux: Seq<LayerAux>, l: int)
    requires
        0 <= l < aux.len(),
        aux[l].delta is Some,
    ensures
        lineares(aux).contains(aux[l].delta->0),
        zeros_de(lineares(aux)).contains(aux[l].delta->0.estado),
        zeros_de(lineares(aux)).contains(aux[l].delta->0.janela),
{
    lemma_lineares(aux, l);
    let s = lineares(aux);
    let d = aux[l].delta->0;
    let i = choose|i: int| 0 <= i < s.len() && s[i] == d;
    let z = zeros_de(s);
    assert(z[2 * i] == d.estado);
    assert(z[2 * i + 1] == d.janela);
}

proof fn lemma_lineares(aux: Seq<LayerAux>, l: int)
    requires
        0 <= l < aux.len(),
        aux[l].delta is Some,
    ensures
        lineares(aux).contains(aux[l].delta->0),
    decreases aux.len(),
{
    let a = aux.drop_last();
    let s = lineares(aux);
    if l == aux.len() - 1 {
        assert(s[s.len() - 1] == aux[l].delta->0);
    } else {
        assert(a[l] == aux[l]);
        lemma_lineares(a, l);
        let r = lineares(a);
        let i = choose|i: int| 0 <= i < r.len() && r[i] == aux[l].delta->0;
        assert(s[i] == r[i]);
    }
}

/// Every layer in the list is one of the model's.
pub proof fn lei_so_as_lineares(aux: Seq<LayerAux>, i: int)
    requires
        0 <= i < lineares(aux).len(),
    ensures
        exists|l: int| 0 <= l < aux.len() && (#[trigger] aux[l]).delta == Some(lineares(aux)[i]),
    decreases aux.len(),
{
    let a = aux.drop_last();
    let n = aux.len() - 1;
    if i < lineares(a).len() {
        lei_so_as_lineares(a, i);
        let l = choose|l: int| 0 <= l < a.len() && (#[trigger] a[l]).delta == Some(lineares(a)[i]);
        assert(aux[l] == a[l]);
    } else {
        assert(aux[n].delta == Some(lineares(aux)[i]));
    }
}

// ---------------------------------------------------------------------------
// Slices of the cache
// ---------------------------------------------------------------------------

/// Left to the length, a cache is cut in as many slices as have 512 positions
/// each, at least one and at most 16; a number that is forced is taken, up to 16.
pub proof fn lei_fatias(forcado: u32, n: u32)
    ensures
        1 <= splits(forcado, n) <= 16,
        1 <= forcado <= 16 ==> splits(forcado, n) == forcado,
        forcado > 16 ==> splits(forcado, n) == 16,
        splits(0, n) > 1 ==> splits(0, n) * 512 <= n,
        splits(0, n) < 16 ==> n < (splits(0, n) + 1) * 512,
{
}

// ---------------------------------------------------------------------------
// Layers and workgroups
// ---------------------------------------------------------------------------

/// A plan runs all layers of the shard, or only the first ones where it is told
/// to stop; there is a residual to add exactly if a layer ran.
pub proof fn lei_camadas_do_plano(st: ResidentState, k: Knobs)
    ensures
        k.parar_em is None ==> camadas(st, k) == st.cfg.n_layer,
        k.parar_em matches Some(n) ==> camadas(st, k) <= n && camadas(st, k) <= st.cfg.n_layer && (
        camadas(st, k) == n || camadas(st, k) == st.cfg.n_layer),
        rodou(st, k) <==> camadas(st, k) > 0,
{
}

/// Workgroups of 64 lanes cover the elements, or the blocks of 32 elements that
/// they quantize, and none is idle; the norm takes one for each 256 elements, and
/// no more than it has partial sums for.
pub proof fn lei_grupos(n: int, c: Cfg)
    requires
        0 < n <= u32::MAX,
        0 < c.n_embd <= u32::MAX,
    ensures
        (grupos(n) - 1) * 64 < n <= grupos(n) * 64,
        n % 32 == 0 ==> (grupos_q(n) - 1) * 64 < n / 32 <= grupos_q(n) * 64,
        1 <= grupos_norma(c) <= NORM_P1_WG,
        c.n_embd <= grupos_norma(c) * 256 || grupos_norma(c) == NORM_P1_WG,
        grupos_norma(c) > 1 ==> (grupos_norma(c) - 1) * 256 < c.n_embd,
{
    lei_teto(n, 64);
    lei_teto(n / 32, 64);
    lei_teto(c.n_embd as int, 256);
}

/// The kernel of a product is that of the type of its weights and of its width:
/// the tiled one for a block of the prefill with Q4_K weights, where it is
/// allowed and can do the width; else the one that was compiled for one vector,
/// for a block, or for a verification.
pub proof fn lei_kernel_do_produto(k: Knobs, modo: Modo, cols: int, ty: GgmlType)
    requires
        ty is Q8_0 || ty is Q4_K || ty is Q5_K || ty is Q6_K,
    ensures
        ({
            let p = matvec_de(k, modo, cols, ty).0;
            let s = shader_de(p);
            let ladrilhos = k.gemm && ty is Q4_K && cols % 8 == 0 && 8 <= cols <= 64 && !(
            modo is Verify);
            &&& p is MulMmQ4K <==> ladrilhos
            &&& !ladrilhos ==> {
                &&& s is MatvecQ8 <==> ty is Q8_0
                &&& s is MatvecQ4K <==> ty is Q4_K
                &&& s is MatvecQ5K <==> ty is Q5_K
                &&& s is MatvecQ6K <==> ty is Q6_K
                &&& cols <= 1 ==> p is Matvec || p is MatvecQ4K || p is MatvecQ5K || p is MatvecQ6K
                &&& cols > 1 && modo is Verify ==> p is MatvecV || p is MatvecQ4KV
                    || p is MatvecQ5KV || p is MatvecQ6KV
                &&& cols > 1 && !(modo is Verify) ==> p is MatvecB || p is MatvecQ4KB
                    || p is MatvecQ5KB || p is MatvecQ6KB
            }
        }),
{
}

/// What a kernel is compiled with: geometry and columns of its set. A block of
/// the prefill has the geometry of the prefill, the others that of the decode;
/// one vector needs no number of columns.
pub proof fn lei_compilado_para(c: Compilacao, p: PipeId)
    ensures
        ({
            let s = constantes_de(p, c);
            &&& p is MatvecQ4K || p is MatvecQ5K || p is MatvecQ4KV || p is MatvecQ5KV
                ==> s[0] == (0u32, c.k.geom.0) && s[1] == (1u32, c.k.geom.1)
            &&& p is MatvecQ4KB || p is MatvecQ5KB ==> s[0] == (0u32, c.k.geom_batch.0) && s[1] == (
                1u32,
                c.k.geom_batch.1,
            )
            &&& p is MatvecB || p is MatvecQ4KB || p is MatvecQ5KB ==> s.contains(
                (2u32, c.n_batch as u32),
            )
            &&& p is MatvecV || p is MatvecQ4KV || p is MatvecQ5KV ==> s.contains(
                (2u32, VERIFY_TOK as u32),
            )
            &&& p is Matvec || p is MatvecQ4K || p is MatvecQ5K || p is MatvecQ6K ==> forall|n: u32|
                !s.contains((2u32, n))
            &&& p is MatvecQ6KB ==> s == seq![(0u32, c.n_batch as u32)]
            &&& p is MatvecQ6KV ==> s == seq![(0u32, VERIFY_TOK as u32)]
            &&& p is MulMmQ4K && c.k.gemm && c.n_batch % 8 == 0 && 8 <= c.n_batch <= 64 ==> s
                == seq![(0u32, c.n_batch as u32)]
        }),
{
    let s = constantes_de(p, c);
    assert(s.len() > 2 ==> s.contains(s[2]));
    assert(s.len() > 0 ==> s.contains(s[0]));
}

// ---------------------------------------------------------------------------
// Products
// ---------------------------------------------------------------------------

/// What is bound to a product of Q8_0 weights: the weights as they are laid out
/// for their kernel, a byte per element of the vector and a scale for each 32 of
/// them, and a number per row. The kernel is told the lengths, and the row at
/// which the weights start.
pub proof fn lei_produto_q8_0(
    w: Seq<u8>,
    n_in: int,
    row_offset: int,
    n_out: int,
)
    requires
        0 <= n_in <= u32::MAX,
        0 <= n_out <= u32::MAX,
        0 <= row_offset <= u32::MAX,
        n_in % 32 == 0,
        w.len() == n_out * (n_in / 32) * 34,
        n_out * (n_in / 32) * 36 <= u64::MAX,
        n_out * 4 <= usize::MAX,
    ensures
        ({
            let p = produto_q8_0(n_in, n_in, row_offset, n_out);
            &&& p.tamanhos.len() == 5
            &&& p.tamanhos[0] == transformado(GgmlType::Q8_0, w).len()
            &&& p.tamanhos[1] == n_in
            &&& p.tamanhos[2] * 8 == n_in
            &&& p.tamanhos[3] == n_out * 4 && p.y_len == n_out
            &&& p.grupos == n_out
            &&& p.push.len() == 16
            &&& palavra(p.push, 0) == n_in && palavra(p.push, 1) == n_out && palavra(p.push, 2)
                == row_offset && palavra(p.push, 3) == 0
        }),
{
    let p = produto_q8_0(n_in, n_in, row_offset, n_out);
    let ws = seq![n_in as u32, n_out as u32, row_offset as u32, 0u32];
    lei_palavras_ida_e_volta(ws, 0);
    lei_palavras_ida_e_volta(ws, 1);
    lei_palavras_ida_e_volta(ws, 2);
    lei_palavras_ida_e_volta(ws, 3);
    lei_palavras_len(ws);
    let b = n_out * (n_in / 32);
    assert(b * 34 % 34 == 0 && b * 34 / 34 == b);
    lei_tamanho_transformado(GgmlType::Q8_0, w);
    assert(b >= 0) by (nonlinear_arith)
        requires
            b == n_out * (n_in / 32),
            n_out >= 0,
            n_in / 32 >= 0,
    ;
}

/// What is bound to a product of K-quant weights: the weights as they are laid
/// out for their kernel, the quantized vectors, and a number per row and vector;
/// the kernel is that of the type of the weights.
pub proof fn lei_produto_k(
    ty: GgmlType,
    w: Seq<u8>,
    n_in: int,
    n_out: int,
    cols: int,
    geom: (u32, u32),
)
    requires
        ty is Q4_K || ty is Q5_K || ty is Q6_K,
        0 <= n_in <= u32::MAX,
        0 <= n_out <= u32::MAX,
        0 <= cols <= u32::MAX,
        n_in % 256 == 0,
        w.len() == n_out * (n_in / 256) * no_arquivo(ty),
        n_out * (n_in / 256) * na_vram(ty) <= u64::MAX,
        cols * n_out * 4 <= usize::MAX,
        cols * n_in <= u64::MAX,
    ensures
        ({
            let p = produto_k(ty, w.len() as int, cols * n_in, n_in, n_out, cols, geom);
            &&& p.tamanhos.len() == 5
            &&& p.tamanhos[0] == transformado(ty, w).len()
            &&& p.tamanhos[1] == cols * n_in
            &&& p.tamanhos[2] * 8 == cols * n_in
            &&& p.tamanhos[3] == cols * n_out * 4 && p.y_len == cols * n_out
            &&& p.push.len() == 16
            &&& palavra(p.push, 0) == n_in && palavra(p.push, 1) == n_out && palavra(p.push, 2) == 0
                && palavra(p.push, 3) == 0
            &&& p.shader is MatvecQ4K <==> ty is Q4_K
            &&& p.shader is MatvecQ5K <==> ty is Q5_K
            &&& p.shader is MatvecQ6K <==> ty is Q6_K
        }),
{
    let ws = seq![n_in as u32, n_out as u32, 0u32, 0u32];
    lei_palavras_ida_e_volta(ws, 0);
    lei_palavras_ida_e_volta(ws, 1);
    lei_palavras_ida_e_volta(ws, 2);
    lei_palavras_ida_e_volta(ws, 3);
    lei_palavras_len(ws);
    let b = n_out * (n_in / 256);
    if ty is Q6_K {
        assert(b * 210 % 210 == 0 && b * 210 / 210 == b);
    } else if ty is Q5_K {
        assert(b * 176 % 176 == 0);
    } else {
        assert(b * 144 % 144 == 0);
    }
    lei_tamanho_transformado(ty, w);
    assert(b >= 0) by (nonlinear_arith)
        requires
            b == n_out * (n_in / 256),
            n_out >= 0,
            n_in / 256 >= 0,
    ;
    assert(cols * n_out >= 0) by (nonlinear_arith)
        requires
            cols >= 0,
            n_out >= 0,
    ;
    let x = n_in / 256;
    assert(cols * n_in == (cols * x) * 256) by (nonlinear_arith)
        requires
            n_in == x * 256,
    ;
    assert(cols * n_in >= 0) by (nonlinear_arith)
        requires
            cols >= 0,
            n_in >= 0,
    ;
}

/// A product of K-quant weights can be made exactly if its rows are whole blocks
/// of 256 elements and its numbers fit in 32 bits; rows that are not are another
/// error than numbers that do not.
pub proof fn lei_produto_k_recusado(n_in: int, n_out: int, cols: int)
    ensures
        erro_k(n_in, n_out, cols) is None <==> n_in % 256 == 0 && n_in <= u32::MAX && n_out
            <= u32::MAX && cols <= u32::MAX,
        cols <= u32::MAX && n_in % 256 != 0 ==> erro_k(n_in, n_out, cols) == Some(
            MatmulError::Vulkan(VkResult::ErrorFeatureNotPresent),
        ),
        n_in % 256 == 0 && erro_k(n_in, n_out, cols) is Some ==> erro_k(n_in, n_out, cols) == Some(
            MatmulError::Vulkan(VkResult::ErrorUnknown),
        ),
{
}

/// The matrices of a layer of zeros fit each other: four of an attention whose
/// keys and values are an eighth as long, and three of a feed-forward block four
/// times as wide.
pub proof fn lei_matrizes_sinteticas(n: int)
    ensures
        ({
            let m = matrizes(n);
            &&& m.len() == 7
            &&& forall|i: int| 0 <= i < 6 ==> (#[trigger] m[i]).1 == n
            &&& m[0].0 == n && m[3].0 == n && m[6].0 == n
            &&& m[1] == m[2] && m[1].0 == n / 8
            &&& m[4] == m[5] && m[4].0 == 4 * n && m[6].1 == m[4].0
        }),
        forall|k: int|
            0 <= k < 7 ==> #[trigger] vram(matrizes(n), k + 1) == vram(matrizes(n), k)
                + bytes_na_vram(matrizes(n)[k]),
        vram(matrizes(n), 0) == 0,
{
}

/// The bytes of a matrix of zeros are those of a Q8_0 matrix of whole blocks, in
/// the file and as it is laid out for its kernel.
pub proof fn lei_matriz_sintetica(linhas: int, colunas: int)
    requires
        0 <= linhas,
        0 <= colunas,
    ensures
        bytes_no_arquivo((linhas, colunas)) == linhas * (colunas / 32) * no_arquivo(GgmlType::Q8_0),
        bytes_na_vram((linhas, colunas)) == linhas * (colunas / 32) * na_vram(GgmlType::Q8_0),
{
    let k = colunas / 32;
    assert(linhas * (k * 34) == linhas * k * 34) by (nonlinear_arith);
}

// ---------------------------------------------------------------------------
// Memory
// ---------------------------------------------------------------------------

/// The memory type is the first one that can be used and has all the properties
/// that are asked for.
pub proof fn lei_primeiro_tipo(tipos: Seq<u32>, bits: u32, flags: u32, i: int)
    requires
        0 <= i <= tipos.len() <= 32,
    ensures
        match primeiro_tipo(tipos, bits, flags, i) {
            Some(k) => i <= k < tipos.len() && serve_tipo(tipos, bits, flags, k as int)
                && forall|j: int| i <= j < k ==> !#[trigger] serve_tipo(tipos, bits, flags, j),
            None => forall|j: int|
                i <= j < tipos.len() ==> !#[trigger] serve_tipo(tipos, bits, flags, j),
        },
    decreases tipos.len() - i,
{
    if i < tipos.len() && !serve_tipo(tipos, bits, flags, i) {
        lei_primeiro_tipo(tipos, bits, flags, i + 1);
    }
}

/// A chunk is taken only if the request fits in it, and the first such one is.
pub proof fn lei_primeiro_chunk(c: Seq<Chunk>, size: int, i: int)
    requires
        0 <= i <= c.len(),
    ensures
        ({
            let k = primeiro_livre(c, size, i);
            &&& i <= k <= c.len()
            &&& k < c.len() ==> c[k].free_start + size <= c[k].size
            &&& forall|j: int|
                i <= j < k ==> (#[trigger] c[j]).free_start + size > c[j].size
        }),
    decreases c.len() - i,
{
    if i < c.len() && !cabe_no(c[i], size) {
        lei_primeiro_chunk(c, size, i + 1);
    }
}

/// What a request gives: room in a chunk that has it, at the end of what was
/// handed out there, in units of 256 bytes; only where no chunk has room, the
/// size of a new one, of 1.5 GB at most unless the request is larger, and never
/// more than is expected unless the request is.
pub proof fn lei_pedido(m: AlocadorM, pedido: int)
    requires
        m.ok(),
        0 <= pedido,
        pedido + 256 <= u64::MAX,
        m.chunks.len() <= usize::MAX,
    ensures
        match m.pede(pedido).0 {
            Pedido::Pronto(a) => {
                &&& a.chunk_idx < m.chunks.len()
                &&& a.offset == m.chunks[a.chunk_idx as int].free_start
                &&& a.offset % 256 == 0 && a.size % 256 == 0
                &&& pedido <= a.size < pedido + 256
                &&& a.offset + a.size <= m.chunks[a.chunk_idx as int].size
                &&& m.pede(pedido).1.chunks[a.chunk_idx as int].free_start == a.offset + a.size
                &&& m.pede(pedido).1.restante == m.restante
            },
            Pedido::Falta { chunk_size, size } => {
                &&& forall|i: int|
                    0 <= i < m.chunks.len() ==> (#[trigger] m.chunks[i]).free_start + size
                        > m.chunks[i].size
                &&& size % 256 == 0 && pedido <= size < pedido + 256
                &&& size <= chunk_size
                &&& chunk_size == size || (chunk_size <= 1_500_000_000 && chunk_size <= m.restante)
                &&& size <= m.restante && size <= 1_500_000_000 ==> chunk_size == m.restante
                    || chunk_size == 1_500_000_000
                &&& m.pede(pedido).1.chunks == m.chunks
                &&& chunk_size <= m.restante ==> m.pede(pedido).1.restante + chunk_size
                    == m.restante
            },
        },
{
    lei_alinhado(pedido, ALINHAMENTO as int);
    let size = alinhado(pedido, ALINHAMENTO as int);
    lei_primeiro_chunk(m.chunks, size, 0);
    let i = primeiro_livre(m.chunks, size, 0);
    if i < m.chunks.len() {
        assert(chunk_ok(m.chunks[i]));
    }
}

/// The memory of the weights is of the first type that is local to the device.
pub proof fn lei_primeiro_local(t: Seq<bool>, i: int)
    requires
        0 <= i <= t.len(),
    ensures
        i <= primeiro_local(t, i) <= t.len(),
        primeiro_local(t, i) < t.len() ==> t[primeiro_local(t, i)],
        forall|j: int| i <= j < primeiro_local(t, i) ==> !#[trigger] t[j],
    decreases t.len() - i,
{
    if i < t.len() && !t[i] {
        lei_primeiro_local(t, i + 1);
    }
}

} // verus!
