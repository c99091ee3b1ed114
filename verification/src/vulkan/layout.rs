//! What a shard needs on the GPU: the shapes of its weights, the sizes of its
//! buffers, and its plans.

use vstd::prelude::*;

use crate::vulkan::ambiente::geom_ok;
use crate::vulkan::barreiras::{barreiras_de, marcar_barreiras};
use crate::vulkan::contas::{lei_teto, maior, teto, teto_u64};
use crate::vulkan::erro::{falta_recurso, sem_recurso, MatmulError, VkResult};
use crate::vulkan::estado::{
    Cfg, DeltaNetConfig, Knobs, Modo, ResidentState, NORM_P1_WG, VERIFY_TOK,
};
use crate::vulkan::ops::{plano_de, PlannedOp};
use crate::vulkan::planejar::build_plan;
use crate::vulkan::plano::{cabe, camadas, planejavel, plano};
use crate::vulkan::plano_mtp::{build_plan_mtp, cabe_mtp, plano_mtp};
use crate::vulkan::shard::{Shard, MAX_SPLITS};

verus! {

/// Dimensions of a model.
#[derive(Clone, Copy, Debug, PartialEq, Eq, Structural)]
pub struct LlamaConfig {
    pub n_embd: usize,
    pub n_layer: usize,
    pub n_head: usize,
    pub n_head_kv: usize,
    pub head_dim: usize,
    pub n_ff: usize,
    pub rope_dim: usize,
    pub vocab: usize,
    pub ctx: usize,
    /// Bits of the single precision epsilon of the norm.
    pub rms_eps: u32,
    pub delta_net: Option<DeltaNetConfig>,
}

/// Widest head that the attention kernel takes.
pub const MAX_HEAD_DIM: usize = 256;

/// The dimensions of a model as a shard needs them.
pub open spec fn cfg_de(m: LlamaConfig, shard: Shard, n_batch: usize) -> Cfg {
    Cfg {
        n_embd: m.n_embd,
        n_layer: (shard.end_layer - shard.first_layer) as usize,
        n_head: m.n_head,
        n_head_kv: m.n_head_kv,
        head_dim: m.head_dim,
        n_ff: m.n_ff,
        rope_dim: m.rope_dim,
        kv_dim: (m.n_head_kv * m.head_dim) as usize,
        vocab: m.vocab,
        ctx: m.ctx,
        rms_eps: m.rms_eps,
        shard,
        delta_net: m.delta_net,
        n_batch,
    }
}

/// The dimensions of a shard. Fails if a head is too wide for the attention
/// kernel.
pub fn cfg_do_shard(m: &LlamaConfig, shard: Shard, n_batch: usize) -> (r: Result<Cfg, MatmulError>)
    requires
        m.head_dim <= MAX_HEAD_DIM ==> shard.first_layer <= shard.end_layer && m.n_head_kv
            * m.head_dim <= usize::MAX,
    ensures
        r is Ok <==> m.head_dim <= MAX_HEAD_DIM,
        r matches Ok(c) ==> c == cfg_de(*m, shard, n_batch),
        r matches Err(e) ==> e == sem_recurso(),
{
    if m.head_dim > MAX_HEAD_DIM {
        return Err(falta_recurso());
    }
    Ok(
        Cfg {
            n_embd: m.n_embd,
            n_layer: shard.n_layers(),
            n_head: m.n_head,
            n_head_kv: m.n_head_kv,
            head_dim: m.head_dim,
            n_ff: m.n_ff,
            rope_dim: m.rope_dim,
            kv_dim: m.n_head_kv * m.head_dim,
            vocab: m.vocab,
            ctx: m.ctx,
            rms_eps: m.rms_eps,
            shard,
            delta_net: m.delta_net,
            n_batch,
        },
    )
}

// ---------------------------------------------------------------------------
// Weights
// ---------------------------------------------------------------------------

/// The sum of the numbers.
pub open spec fn soma(s: Seq<usize>) -> int
    decreases s.len(),
{
    if s.len() == 0 {
        0
    } else {
        soma(s.drop_last()) + s.last()
    }
}

pub proof fn lemma_soma(s: Seq<usize>, n: int)
    requires
        0 <= n <= s.len(),
    ensures
        0 <= soma(s.take(n)) <= soma(s),
    decreases s.len(),
{
    if n == s.len() {
        assert(s.take(n) =~= s);
        if n > 0 {
            lemma_soma(s.drop_last(), 0);
            assert(s.drop_last().take(0) =~= Seq::<usize>::empty());
            lemma_soma(s.drop_last(), n - 1);
            assert(s.drop_last().take(n - 1) =~= s.drop_last());
        }
    } else {
        lemma_soma(s.drop_last(), n);
        assert(s.drop_last().take(n) =~= s.take(n));
    }
}

/// Most bytes that the weights of a shard take on the GPU. The layout that grows
/// most takes 36 bytes for 34.
pub open spec fn vram_de(crus: int) -> int {
    teto(crus, 34) * 36
}

/// The layers of a shard and the output projection have that many bytes in the
/// file; this is the bound of what they take on the GPU.
pub fn vram_pesos(camadas: &[usize], saida: usize) -> (r: u64)
    requires
        soma(camadas@) + saida <= usize::MAX,
        vram_de(soma(camadas@) + saida) <= u64::MAX,
    ensures
        r == vram_de(soma(camadas@) + saida),
{
    let mut crus: usize = 0;
    let mut i: usize = 0;
    proof {
        assert(camadas@.take(0) =~= Seq::<usize>::empty());
    }
    while i < camadas.len()
        invariant
            i <= camadas.len(),
            crus == soma(camadas@.take(i as int)),
            soma(camadas@) + saida <= usize::MAX,
        decreases camadas.len() - i,
    {
        proof {
            assert(camadas@.take(i + 1).drop_last() =~= camadas@.take(i as int));
            lemma_soma(camadas@, i + 1);
        }
        crus = crus + camadas[i];
        i += 1;
    }
    proof {
        assert(camadas@.take(i as int) =~= camadas@);
        lei_teto(crus + saida, 34);
    }
    teto_u64((crus + saida) as u64, 34) * 36
}

/// Whole blocks of 34 bytes never take more than the bound when each becomes 36
/// bytes, nor do bytes that stay as they are.
pub proof fn lei_vram_cobre(crus: int, blocos: int)
    requires
        0 <= blocos,
        blocos * 34 <= crus,
    ensures
        blocos * 36 <= vram_de(crus),
        crus <= vram_de(crus),
{
    lei_teto(crus, 34);
}

/// A weight of a layer.
#[derive(Clone, Copy, Debug, PartialEq, Eq, Structural)]
pub enum Peso {
    AttnQ,
    AttnK,
    AttnV,
    AttnOutput,
    AttnQkv,
    AttnGate,
    SsmOut,
    FfnGate,
    FfnUp,
    FfnDown,
    EhProj,
}

/// A weight and the lengths of the vectors that it takes and gives.
#[derive(Clone, Copy, Debug, PartialEq, Eq, Structural)]
pub struct Forma {
    pub peso: Peso,
    pub n_in: usize,
    pub n_out: usize,
}

pub open spec fn forma(peso: Peso, n_in: int, n_out: int) -> Forma {
    Forma { peso, n_in: n_in as usize, n_out: n_out as usize }
}

pub open spec fn formas_atencao(c: Cfg) -> Seq<Forma> {
    seq![
        forma(Peso::AttnQ, c.n_embd as int, c.q_out()),
        forma(Peso::AttnK, c.n_embd as int, c.kv_dim as int),
        forma(Peso::AttnV, c.n_embd as int, c.kv_dim as int),
        forma(Peso::AttnOutput, c.attn_dim(), c.n_embd as int),
    ]
}

pub open spec fn formas_delta(c: Cfg, d: DeltaNetConfig) -> Seq<Forma> {
    seq![
        forma(Peso::AttnQkv, c.n_embd as int, d.conv_dim()),
        forma(Peso::AttnGate, c.n_embd as int, d.value_dim()),
        forma(Peso::SsmOut, d.value_dim(), c.n_embd as int),
    ]
}

pub open spec fn formas_ffn(c: Cfg) -> Seq<Forma> {
    seq![
        forma(Peso::FfnGate, c.n_embd as int, c.n_ff as int),
        forma(Peso::FfnUp, c.n_embd as int, c.n_ff as int),
        forma(Peso::FfnDown, c.n_ff as int, c.n_embd as int),
    ]
}

/// The weights of a layer, in the order in which they go to the GPU.
pub open spec fn formas_da_camada(c: Cfg, linear: bool) -> Option<Seq<Forma>> {
    if linear {
        match c.delta_net {
            Some(d) => Some(formas_delta(c, d) + formas_ffn(c)),
            None => None,
        }
    } else {
        Some(formas_atencao(c) + formas_ffn(c))
    }
}

/// The weights of the prediction head.
pub open spec fn formas_mtp(c: Cfg) -> Seq<Forma> {
    seq![forma(Peso::EhProj, c.n_embd * 2, c.n_embd as int)] + formas_atencao(c) + formas_ffn(c)
}

/// That the shapes can be computed.
pub open spec fn formas_ok(c: Cfg) -> bool {
    &&& c.q_out() <= usize::MAX
    &&& c.n_embd * 2 <= usize::MAX
    &&& c.delta_net matches Some(d) ==> d.conv_dim() <= usize::MAX
}

fn q_out_e_attn(c: &Cfg) -> (r: (usize, usize))
    requires
        c.q_out() <= usize::MAX,
    ensures
        r.0 == c.q_out(),
        r.1 == c.attn_dim(),
{
    if c.delta_net.is_some() {
        proof {
            assert(c.head_dim * c.n_head >= 0) by (nonlinear_arith);
        }
        (c.head_dim * c.n_head * 2, c.head_dim * c.n_head)
    } else {
        (c.n_embd, c.n_embd)
    }
}

fn poe_atencao(v: &mut Vec<Forma>, c: &Cfg)
    requires
        formas_ok(*c),
    ensures
        final(v)@ == old(v)@ + formas_atencao(*c),
{
    let (q_out, attn_dim) = q_out_e_attn(c);
    v.push(Forma { peso: Peso::AttnQ, n_in: c.n_embd, n_out: q_out });
    v.push(Forma { peso: Peso::AttnK, n_in: c.n_embd, n_out: c.kv_dim });
    v.push(Forma { peso: Peso::AttnV, n_in: c.n_embd, n_out: c.kv_dim });
    v.push(Forma { peso: Peso::AttnOutput, n_in: attn_dim, n_out: c.n_embd });
    assert(v@ =~= old(v)@ + formas_atencao(*c));
}

fn poe_ffn(v: &mut Vec<Forma>, c: &Cfg)
    ensures
        final(v)@ == old(v)@ + formas_ffn(*c),
{
    v.push(Forma { peso: Peso::FfnGate, n_in: c.n_embd, n_out: c.n_ff });
    v.push(Forma { peso: Peso::FfnUp, n_in: c.n_embd, n_out: c.n_ff });
    v.push(Forma { peso: Peso::FfnDown, n_in: c.n_ff, n_out: c.n_embd });
    assert(v@ =~= old(v)@ + formas_ffn(*c));
}

proof fn lemma_dims_delta(d: DeltaNetConfig)
    ensures
        0 <= d.key_dim(),
        0 <= d.value_dim(),
        0 <= d.conv_dim(),
        2 * d.key_dim() <= d.conv_dim(),
        d.value_dim() <= d.conv_dim(),
{
    assert(d.key_dim() >= 0) by (nonlinear_arith)
        requires
            d.key_dim() == d.d_state * d.n_k_heads,
    ;
    assert(d.value_dim() >= 0) by (nonlinear_arith)
        requires
            d.value_dim() == d.head_v_dim * d.n_v_heads,
    ;
}

/// The shapes of the weights of a layer. Fails if it is a linear-attention layer
/// and the model has no such dimensions.
pub fn formas_camada(c: &Cfg, linear: bool) -> (r: Result<Vec<Forma>, MatmulError>)
    requires
        formas_ok(*c),
    ensures
        r is Ok <==> formas_da_camada(*c, linear) is Some,
        r matches Ok(v) ==> Some(v@) == formas_da_camada(*c, linear),
        r matches Err(e) ==> e == sem_recurso(),
{
    let mut v: Vec<Forma> = Vec::new();
    if linear {
        match &c.delta_net {
            Some(d) => {
                proof {
                    lemma_dims_delta(*d);
                }
                let value_dim: usize = d.head_v_dim * d.n_v_heads;
                let conv_dim: usize = d.d_state * d.n_k_heads * 2 + value_dim;
                v.push(Forma { peso: Peso::AttnQkv, n_in: c.n_embd, n_out: conv_dim });
                v.push(Forma { peso: Peso::AttnGate, n_in: c.n_embd, n_out: value_dim });
                v.push(Forma { peso: Peso::SsmOut, n_in: value_dim, n_out: c.n_embd });
                assert(v@ =~= formas_delta(*c, *d));
            },
            None => {
                return Err(falta_recurso());
            },
        }
    } else {
        poe_atencao(&mut v, c);
        assert(v@ =~= formas_atencao(*c));
    }
    poe_ffn(&mut v, c);
    Ok(v)
}

/// The shapes of the weights of the prediction head. The head is in the last
/// shard of a model that has one, if it is asked for. Fails if its layer is not
/// an attention layer.
pub fn formas_da_cabeca(c: &Cfg, mtp: bool, tem_pesos: bool, linear: bool) -> (r: Result<
    Option<Vec<Forma>>,
    MatmulError,
>)
    requires
        formas_ok(*c),
    ensures
        r is Err <==> mtp && c.shard.ultimo() && tem_pesos && linear,
        r matches Err(e) ==> e == sem_recurso(),
        r matches Ok(v) ==> (v is Some <==> mtp && c.shard.ultimo() && tem_pesos),
        r matches Ok(Some(v)) ==> v@ == formas_mtp(*c),
{
    if !(mtp && c.shard.is_last() && tem_pesos) {
        return Ok(None);
    }
    if linear {
        return Err(falta_recurso());
    }
    let mut v: Vec<Forma> = Vec::new();
    v.push(Forma { peso: Peso::EhProj, n_in: c.n_embd * 2, n_out: c.n_embd });
    poe_atencao(&mut v, c);
    poe_ffn(&mut v, c);
    assert(v@ =~= formas_mtp(*c));
    Ok(Some(v))
}

/// Two lists side by side: the first `n` elements of each, in turn.
pub fn intercala(a: &[u32], b: &[u32], n: usize) -> (r: Vec<u32>)
    requires
        n <= a.len(),
        n <= b.len(),
    ensures
        r@ == Seq::new(
            (2 * n) as nat,
            |i: int|
                if i % 2 == 0 {
                    a@[i / 2]
                } else {
                    b@[i / 2]
                },
        ),
{
    let mut r: Vec<u32> = Vec::new();
    let mut h: usize = 0;
    while h < n
        invariant
            h <= n,
            n <= a.len(),
            n <= b.len(),
            r@ =~= Seq::new(
                (2 * h) as nat,
                |i: int|
                    if i % 2 == 0 {
                        a@[i / 2]
                    } else {
                        b@[i / 2]
                    },
            ),
        decreases n - h,
    {
        r.push(a[h]);
        r.push(b[h]);
        h += 1;
    }
    r
}

// ---------------------------------------------------------------------------
// Buffers
// ---------------------------------------------------------------------------

/// Bytes of the activations of the linear attention.
#[derive(Clone, Copy, Debug, PartialEq, Eq, Structural)]
pub struct DnTamanhos {
    pub conv: u64,
    pub value: u64,
    pub gb: u64,
    pub key: u64,
    pub xq: u64,
    pub xd: u64,
    /// Recurrent state and window of a layer.
    pub estado: u64,
    pub janela: u64,
}

/// Bytes of the buffers of a shard.
#[derive(Clone, Copy, Debug, PartialEq, Eq, Structural)]
pub struct Tamanhos {
    /// Vectors of the model: residual stream, norm, projection, feed-forward
    /// output, and the staging of the embedding.
    pub embd: u64,
    /// Each of the two caches.
    pub kv: u64,
    pub parciais: u64,
    pub q: u64,
    /// K and V of a block.
    pub kv_bloco: u64,
    pub attn: u64,
    pub attn_split: u64,
    pub ff: u64,
    pub logits: u64,
    pub xq: u64,
    pub xd: u64,
    /// What the shard hands over to the host.
    pub saida: u64,
    /// One vector of the model, and two; for the prediction head.
    pub embd1: u64,
    pub embd2: u64,
    /// Each of the two caches of the prediction head.
    pub kv_mtp: u64,
    pub dn: Option<DnTamanhos>,
}

/// Tokens that the activations have room for: a block of the prefill, and with
/// the prediction head one of the verification too.
pub open spec fn largura_do_bloco(c: Cfg, mtp: bool) -> int {
    if mtp {
        maior(c.n_batch as int, VERIFY_TOK as int)
    } else {
        c.n_batch as int
    }
}

/// Columns of logits.
pub open spec fn colunas_de_logits(mtp: bool) -> int {
    if mtp {
        VERIFY_TOK as int
    } else {
        1
    }
}

pub open spec fn tamanhos_dn(d: DeltaNetConfig, n: int) -> DnTamanhos {
    DnTamanhos {
        conv: (d.conv_dim() * n * 4) as u64,
        value: (d.value_dim() * n * 4) as u64,
        gb: (d.n_v_heads * 2 * n * 4) as u64,
        key: (d.key_dim() * n * 4) as u64,
        xq: (d.value_dim() / 32 * 8 * n * 4) as u64,
        xd: (d.value_dim() / 32 * n * 4) as u64,
        estado: (d.state_len() * 4) as u64,
        janela: (d.janela_len() * 4) as u64,
    }
}

pub open spec fn tamanhos_de(c: Cfg, n_slots: int, mtp: bool) -> Tamanhos {
    let n = largura_do_bloco(c, mtp);
    let m = maior(c.n_embd as int, c.n_ff as int);
    Tamanhos {
        embd: (c.n_embd * n * 4) as u64,
        kv: (n_slots * c.ctx * c.kv_dim * 4) as u64,
        parciais: (NORM_P1_WG * n * 4) as u64,
        q: (c.q_out() * n * 4) as u64,
        kv_bloco: (c.kv_dim * n * 4) as u64,
        attn: (c.attn_dim() * n * 4) as u64,
        attn_split: (c.n_head * MAX_SPLITS * (c.head_dim + 2) * n * 4) as u64,
        ff: (c.n_ff * n * 4) as u64,
        logits: (c.vocab * colunas_de_logits(mtp) * 4) as u64,
        xq: (m / 32 * 8 * n * 4) as u64,
        xd: (m / 32 * n * 4) as u64,
        saida: (if c.shard.ultimo() {
            c.vocab * colunas_de_logits(mtp) * 4
        } else {
            c.n_embd * n * 4
        }) as u64,
        embd1: (c.n_embd * 4) as u64,
        embd2: (c.n_embd * 2 * 4) as u64,
        kv_mtp: (c.ctx * c.kv_dim * 4) as u64,
        dn: match c.delta_net {
            Some(d) => Some(tamanhos_dn(d, n)),
            None => None,
        },
    }
}

pub open spec fn mede(n: int, k: int) -> bool {
    n * k * 4 <= usize::MAX
}

/// That every size can be computed.
pub open spec fn mensuravel(c: Cfg, n_slots: int, mtp: bool) -> bool {
    let n = largura_do_bloco(c, mtp);
    &&& n >= 1
    &&& mede(c.n_embd as int, n)
    &&& mede(c.n_ff as int, n)
    &&& mede(c.q_out(), n)
    &&& mede(c.attn_dim(), n)
    &&& mede(c.kv_dim as int, n)
    &&& mede(NORM_P1_WG as int, n)
    &&& c.head_dim + 2 <= usize::MAX
    &&& c.n_head * MAX_SPLITS <= usize::MAX
    &&& mede(c.n_head * MAX_SPLITS * (c.head_dim + 2), n)
    &&& mede(c.vocab as int, colunas_de_logits(mtp))
    &&& c.n_embd * 2 * 4 <= usize::MAX
    &&& n_slots * c.ctx <= usize::MAX
    &&& n_slots * c.ctx * c.kv_dim * 4 <= usize::MAX
    &&& c.ctx * c.kv_dim * 4 <= usize::MAX
    &&& c.delta_net matches Some(d) ==> {
        &&& d.d_conv >= 1
        &&& mede(d.conv_dim(), n)
        &&& mede(d.value_dim(), n)
        &&& mede(d.key_dim(), n)
        &&& mede(d.n_v_heads * 2, n)
        &&& d.n_v_heads * d.d_state <= usize::MAX
        &&& d.state_len() * 4 <= usize::MAX
        &&& d.janela_len() * 4 <= usize::MAX
    }
}

/// Bytes of `n` numbers for each of `k` tokens.
fn bytes(n: usize, k: usize) -> (r: u64)
    requires
        mede(n as int, k as int),
    ensures
        r == n * k * 4,
{
    proof {
        assert(n * k >= 0) by (nonlinear_arith);
    }
    (n * k * 4) as u64
}

fn tamanhos_lineares(d: &DeltaNetConfig, n: usize) -> (r: DnTamanhos)
    requires
        n >= 1,
        d.d_conv >= 1,
        mede(d.conv_dim(), n as int),
        mede(d.value_dim(), n as int),
        mede(d.key_dim(), n as int),
        mede(d.n_v_heads * 2, n as int),
        d.n_v_heads * d.d_state <= usize::MAX,
        d.state_len() * 4 <= usize::MAX,
        d.janela_len() * 4 <= usize::MAX,
    ensures
        r == tamanhos_dn(*d, n as int),
{
    proof {
        lemma_dims_delta(*d);
        lemma_mede(d.conv_dim(), n as int);
        lemma_mede(d.value_dim(), n as int);
        lemma_mede(d.n_v_heads * 2, n as int);
        lemma_menor_mede(d.value_dim() / 32 * 8, d.value_dim(), n as int);
        lemma_menor_mede(d.value_dim() / 32, d.value_dim(), n as int);
        assert(d.n_v_heads * d.d_state >= 0) by (nonlinear_arith);
        assert(d.state_len() >= 0) by (nonlinear_arith)
            requires
                d.state_len() == d.n_v_heads * d.d_state * d.d_state,
                d.n_v_heads * d.d_state >= 0,
        ;
        assert(d.janela_len() >= 0) by (nonlinear_arith)
            requires
                d.janela_len() == d.conv_dim() * (d.d_conv - 1),
                d.conv_dim() >= 0,
                d.d_conv >= 1,
        ;
    }
    let key: usize = d.d_state * d.n_k_heads;
    let value: usize = d.head_v_dim * d.n_v_heads;
    let conv: usize = key * 2 + value;
    DnTamanhos {
        conv: bytes(conv, n),
        value: bytes(value, n),
        gb: bytes(d.n_v_heads * 2, n),
        key: bytes(key, n),
        xq: bytes(value / 32 * 8, n),
        xd: bytes(value / 32, n),
        estado: (d.n_v_heads * d.d_state * d.d_state * 4) as u64,
        janela: (conv * (d.d_conv - 1) * 4) as u64,
    }
}

proof fn lemma_mede(n: int, k: int)
    requires
        0 <= n,
        1 <= k,
        mede(n, k),
    ensures
        n <= n * k,
        n * 4 <= usize::MAX,
{
    assert(n <= n * k) by (nonlinear_arith)
        requires
            0 <= n,
            1 <= k,
    ;
}

proof fn lemma_menor_mede(a: int, b: int, k: int)
    requires
        0 <= a <= b,
        1 <= k,
        mede(b, k),
    ensures
        mede(a, k),
{
    assert(a * k <= b * k) by (nonlinear_arith)
        requires
            0 <= a <= b,
            1 <= k,
    ;
}

/// The sizes of the buffers of a shard with `n_slots` slots in its cache.
pub fn tamanhos(c: &Cfg, n_slots: usize, mtp: bool) -> (r: Tamanhos)
    requires
        mensuravel(*c, n_slots as int, mtp),
    ensures
        r == tamanhos_de(*c, n_slots as int, mtp),
{
    let n: usize = if mtp && c.n_batch < VERIFY_TOK {
        VERIFY_TOK
    } else {
        c.n_batch
    };
    let cols: usize = if mtp {
        VERIFY_TOK
    } else {
        1
    };
    let m: usize = if c.n_embd >= c.n_ff {
        c.n_embd
    } else {
        c.n_ff
    };
    proof {
        assert(c.head_dim * c.n_head >= 0) by (nonlinear_arith);
        lemma_mede(c.q_out(), n as int);
        lemma_menor_mede(m / 32 * 8, m as int, n as int);
        lemma_menor_mede(m as int / 32, m as int, n as int);
        assert(n_slots * c.ctx >= 0) by (nonlinear_arith);
        assert(n_slots * c.ctx * c.kv_dim >= 0) by (nonlinear_arith)
            requires
                n_slots * c.ctx >= 0,
        ;
        assert(c.ctx * c.kv_dim >= 0) by (nonlinear_arith);
        assert(c.n_head * MAX_SPLITS * (c.head_dim + 2) >= 0) by (nonlinear_arith);
        lemma_mede(c.n_head * MAX_SPLITS * (c.head_dim + 2), n as int);
    }
    let (q_out, attn_dim) = q_out_e_attn(c);
    let embd: u64 = bytes(c.n_embd, n);
    let logits: u64 = bytes(c.vocab, cols);
    Tamanhos {
        embd,
        kv: (n_slots * c.ctx * c.kv_dim * 4) as u64,
        parciais: bytes(NORM_P1_WG as usize, n),
        q: bytes(q_out, n),
        kv_bloco: bytes(c.kv_dim, n),
        attn: bytes(attn_dim, n),
        attn_split: bytes(c.n_head * MAX_SPLITS as usize * (c.head_dim + 2), n),
        ff: bytes(c.n_ff, n),
        logits,
        xq: bytes(m / 32 * 8, n),
        xd: bytes(m / 32, n),
        saida: if c.shard.is_last() {
            logits
        } else {
            embd
        },
        embd1: (c.n_embd * 4) as u64,
        embd2: (c.n_embd * 2 * 4) as u64,
        kv_mtp: (c.ctx * c.kv_dim * 4) as u64,
        dn: match &c.delta_net {
            Some(d) => Some(tamanhos_lineares(d, n)),
            None => None,
        },
    }
}

/// Copies of state and window that a linear-attention layer has for the
/// verification: one after each token but the last.
pub fn copias_por_camada(mtp: bool) -> (r: usize)
    ensures
        r == (if mtp {
            VERIFY_TOK - 1
        } else {
            0
        }),
{
    if mtp {
        VERIFY_TOK - 1
    } else {
        0
    }
}

// ---------------------------------------------------------------------------
// Plans
// ---------------------------------------------------------------------------

/// The plans of a shard, each with its barriers.
#[derive(Debug)]
pub struct Planos {
    pub plan: Vec<PlannedOp>,
    pub barreiras: Vec<bool>,
    /// Empty where the prefill goes token by token.
    pub plan_batch: Vec<PlannedOp>,
    pub barreiras_batch: Vec<bool>,
    /// Empty without the prediction head.
    pub plan_verify: Vec<PlannedOp>,
    pub barreiras_verify: Vec<bool>,
    pub mtp_plan: Vec<PlannedOp>,
    pub mtp_barreiras: Vec<bool>,
}

/// Whether all plans of a shard can be made.
pub open spec fn planejaveis(st: ResidentState, k: Knobs, mtp: bool) -> bool {
    let n = camadas(st, k);
    &&& planejavel(st, Modo::Decode, n)
    &&& st.cfg.n_batch > 1 ==> planejavel(st, Modo::Batch, n)
    &&& mtp ==> planejavel(st, Modo::Verify, n)
}

/// That the barriers are those of the plan, or before every operation.
pub open spec fn com_barreiras(
    p: Vec<PlannedOp>,
    b: Vec<bool>,
    st: ResidentState,
    sem_grupo: bool,
) -> bool {
    &&& b@.len() == p@.len()
    &&& sem_grupo ==> forall|i: int| 0 <= i < b@.len() ==> #[trigger] b@[i]
    &&& !sem_grupo ==> barreiras_de(plano_de(p@), b@, st)
}

/// Makes the plans of a shard.
pub fn planos(st: &ResidentState, k: &Knobs, mtp: bool, sem_grupo: bool) -> (r: Result<
    Planos,
    MatmulError,
>)
    requires
        st.completo(),
        cabe(*st, 1),
        cabe(*st, st.cfg.n_batch as int),
        mtp ==> cabe(*st, VERIFY_TOK as int),
        geom_ok(k.geom),
        geom_ok(k.geom_batch),
        st.mtp is Some ==> cabe_mtp(st.cfg),
    ensures
        r is Ok <==> planejaveis(*st, *k, mtp),
        r matches Err(e) ==> e == sem_recurso(),
        r matches Ok(p) ==> {
            &&& plano_de(p.plan@) == plano(*st, *k, Modo::Decode)
            &&& plano_de(p.plan_batch@) == (if st.cfg.n_batch > 1 {
                plano(*st, *k, Modo::Batch)
            } else {
                Seq::empty()
            })
            &&& plano_de(p.plan_verify@) == (if mtp {
                plano(*st, *k, Modo::Verify)
            } else {
                Seq::empty()
            })
            &&& plano_de(p.mtp_plan@) == plano_mtp(*st, *k)
            &&& com_barreiras(p.plan, p.barreiras, *st, sem_grupo)
            &&& com_barreiras(p.plan_batch, p.barreiras_batch, *st, sem_grupo)
            &&& com_barreiras(p.plan_verify, p.barreiras_verify, *st, sem_grupo)
            &&& com_barreiras(p.mtp_plan, p.mtp_barreiras, *st, sem_grupo)
        },
{
    let plan = match build_plan(st, k, Modo::Decode) {
        Ok(p) => p,
        Err(e) => {
            return Err(e);
        },
    };
    let plan_batch: Vec<PlannedOp> = if st.cfg.n_batch > 1 {
        match build_plan(st, k, Modo::Batch) {
            Ok(p) => p,
            Err(e) => {
                return Err(e);
            },
        }
    } else {
        Vec::new()
    };
    let plan_verify: Vec<PlannedOp> = if mtp {
        match build_plan(st, k, Modo::Verify) {
            Ok(p) => p,
            Err(e) => {
                return Err(e);
            },
        }
    } else {
        Vec::new()
    };
    let mtp_plan = build_plan_mtp(st, k);
    let barreiras = marcar_barreiras(&plan, st, sem_grupo);
    let barreiras_batch = marcar_barreiras(&plan_batch, st, sem_grupo);
    let barreiras_verify = marcar_barreiras(&plan_verify, st, sem_grupo);
    let mtp_barreiras = marcar_barreiras(&mtp_plan, st, sem_grupo);
    Ok(
        Planos {
            plan,
            barreiras,
            plan_batch,
            barreiras_batch,
            plan_verify,
            barreiras_verify,
            mtp_plan,
            mtp_barreiras,
        },
    )
}

/// The error of a device that cannot be set up.
pub open spec fn sem_inicio() -> MatmulError {
    MatmulError::Vulkan(VkResult::ErrorInitializationFailed)
}

/// Timestamps that a profile needs: one before the longest plan and one after
/// each of its operations.
pub fn slots_de_tempo(p: &Planos) -> (r: Result<u32, MatmulError>)
    ensures
        ({
            let n = maior(
                p.plan@.len() as int,
                maior(p.plan_batch@.len() as int, p.plan_verify@.len() as int),
            ) + 1;
            match r {
                Ok(x) => x == n,
                Err(e) => n > u32::MAX && e == sem_inicio(),
            }
        }),
{
    let mut n: usize = p.plan.len();
    if p.plan_batch.len() > n {
        n = p.plan_batch.len();
    }
    if p.plan_verify.len() > n {
        n = p.plan_verify.len();
    }
    if (n as u64) < 0xffff_ffff {
        Ok(n as u32 + 1)
    } else {
        Err(MatmulError::Vulkan(VkResult::ErrorInitializationFailed))
    }
}

} // verus!
