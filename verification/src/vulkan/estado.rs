//! The model on the GPU: its dimensions, its weights and its buffers.

use vstd::prelude::*;

use crate::vulkan::ops::{Faixa, GgmlType};
use crate::vulkan::shard::{atencoes, Shard};

verus! {

/// Output rows per workgroup of the Q8_0 kernel.
pub const MATVEC_NUM_ROWS: u32 = 2;

/// Lanes per workgroup of the Q8_0 kernel.
pub const MATVEC_WG: u32 = 64;

/// Most workgroups of the first pass of the norm; each gives a partial sum.
pub const NORM_P1_WG: u32 = 32;

/// Output rows per workgroup of the tiled product.
pub const GEMM_LINHAS_POR_WG: u32 = 128;

/// Tokens in a block of the verification: the sampled one, the proposal and the
/// chained proposal.
pub const VERIFY_TOK: usize = 3;

/// Which of the three plans of a shard.
#[derive(Clone, Copy, Debug, PartialEq, Eq, Structural)]
pub enum Modo {
    /// One token.
    Decode,
    /// A block of the prefill; logits of its last token only.
    Batch,
    /// A block of the verification; logits of every token, and a copy of the
    /// recurrent state between each two.
    Verify,
}

/// Dimensions of the linear-attention layers.
#[derive(Clone, Copy, Debug, PartialEq, Eq, Structural)]
pub struct DeltaNetConfig {
    pub d_state: usize,
    pub n_k_heads: usize,
    pub n_v_heads: usize,
    pub d_conv: usize,
    pub head_v_dim: usize,
}

impl DeltaNetConfig {
    pub open spec fn key_dim(self) -> int {
        self.d_state * self.n_k_heads
    }

    pub open spec fn value_dim(self) -> int {
        self.head_v_dim * self.n_v_heads
    }

    /// Channels of the convolution: q, k and v.
    pub open spec fn conv_dim(self) -> int {
        self.d_state * self.n_k_heads * 2 + self.head_v_dim * self.n_v_heads
    }

    /// Elements of the recurrent state of a layer.
    pub open spec fn state_len(self) -> int {
        self.n_v_heads * self.d_state * self.d_state
    }

    /// Elements of the window of the convolution.
    pub open spec fn janela_len(self) -> int {
        self.conv_dim() * (self.d_conv - 1)
    }
}

/// Dimensions of the model, as a shard needs them.
#[derive(Clone, Copy, Debug, PartialEq, Eq, Structural)]
pub struct Cfg {
    pub n_embd: usize,
    /// Layers of the shard.
    pub n_layer: usize,
    pub n_head: usize,
    pub n_head_kv: usize,
    pub head_dim: usize,
    pub n_ff: usize,
    pub rope_dim: usize,
    pub kv_dim: usize,
    pub vocab: usize,
    pub ctx: usize,
    /// Bits of the single precision epsilon of the norm.
    pub rms_eps: u32,
    pub shard: Shard,
    /// Set in the hybrid architectures.
    pub delta_net: Option<DeltaNetConfig>,
    /// Tokens in a block of the prefill.
    pub n_batch: usize,
}

impl Cfg {
    /// Elements of the attention's output for a token.
    pub open spec fn attn_dim(self) -> int {
        if self.delta_net is Some {
            self.head_dim * self.n_head
        } else {
            self.n_embd as int
        }
    }

    /// Elements of the query projection; in the hybrid architectures each head
    /// has its gate beside its query.
    pub open spec fn q_out(self) -> int {
        if self.delta_net is Some {
            self.head_dim * self.n_head * 2
        } else {
            self.n_embd as int
        }
    }

    /// Distance between two heads of the query.
    pub open spec fn q_passo(self) -> int {
        if self.delta_net is Some {
            self.head_dim * 2
        } else {
            self.head_dim as int
        }
    }
}

impl Modo {
    /// Tokens in a block of this plan.
    pub open spec fn tokens(self, c: Cfg) -> int {
        match self {
            Modo::Decode => 1,
            Modo::Batch => c.n_batch as int,
            Modo::Verify => VERIFY_TOK as int,
        }
    }

    pub fn n_tok(self, c: &Cfg) -> (r: usize)
        ensures
            r == self.tokens(*c),
    {
        match self {
            Modo::Decode => 1,
            Modo::Batch => c.n_batch,
            Modo::Verify => VERIFY_TOK,
        }
    }
}

/// A buffer and its length in bytes.
#[derive(Clone, Copy, Debug, PartialEq, Eq, Structural)]
pub struct Buf {
    pub buffer: u64,
    pub size: u64,
}

impl Buf {
    /// The whole buffer.
    pub open spec fn todo(self) -> Faixa {
        Faixa { buffer: self.buffer, offset: 0, bytes: self.size }
    }

    /// The first `n` elements.
    pub open spec fn ate(self, n: int) -> Faixa {
        Faixa { buffer: self.buffer, offset: 0, bytes: (n * 4) as u64 }
    }

    /// `n` elements from the element `i` on.
    pub open spec fn em(self, i: int, n: int) -> Faixa {
        Faixa { buffer: self.buffer, offset: (i * 4) as u64, bytes: (n * 4) as u64 }
    }

    pub fn inteiro(&self) -> (r: Faixa)
        ensures
            r == self.todo(),
    {
        Faixa { buffer: self.buffer, offset: 0, bytes: self.size }
    }

    pub fn trecho(&self, i: usize, n: usize) -> (r: Faixa)
        requires
            i * 4 <= usize::MAX,
            n * 4 <= usize::MAX,
        ensures
            r == self.em(i as int, n as int),
            i == 0 ==> r == self.ate(n as int),
    {
        Faixa { buffer: self.buffer, offset: (i * 4) as u64, bytes: (n * 4) as u64 }
    }
}

/// Weights on the GPU; their type decides on the kernel.
#[derive(Clone, Copy, Debug, PartialEq, Eq, Structural)]
pub struct QWeight {
    pub ty: GgmlType,
    pub gpu: Buf,
}

/// The quantized weights between the two norms of a layer.
#[derive(Clone, Copy, Debug, PartialEq, Eq, Structural)]
pub enum MixerQ {
    Attn { attn_q: QWeight, attn_k: QWeight, attn_v: QWeight, attn_output: QWeight },
    /// Linear attention.
    Delta { attn_qkv: QWeight, attn_gate: QWeight, ssm_out: QWeight },
}

#[derive(Clone, Copy, Debug, PartialEq, Eq, Structural)]
pub struct LayerQ {
    pub mixer: MixerQ,
    pub ffn_gate: QWeight,
    pub ffn_up: QWeight,
    pub ffn_down: QWeight,
}

/// Weights and recurrent state of a linear-attention layer.
#[derive(Debug)]
pub struct DeltaBufs {
    pub conv1d: Buf,
    /// (a, dt bias) of each head, side by side.
    pub adt: Buf,
    pub alpha: Buf,
    pub beta: Buf,
    pub norm: Buf,
    /// The history of the whole sequence.
    pub estado: Buf,
    /// The tokens that the convolution still sees.
    pub janela: Buf,
    /// Copies of the two after each token of the verification but the last;
    /// none without the prediction head.
    pub estado_snap: Vec<Buf>,
    pub janela_snap: Vec<Buf>,
}

/// Auxiliary buffers of a layer.
#[derive(Debug)]
pub struct LayerAux {
    pub attn_norm: Buf,
    pub ffn_norm: Buf,
    pub q_bias: Option<Buf>,
    pub k_bias: Option<Buf>,
    pub v_bias: Option<Buf>,
    pub q_norm: Option<Buf>,
    pub k_norm: Option<Buf>,
    pub delta: Option<DeltaBufs>,
}

/// Activations of the linear attention, shared by the layers.
#[derive(Clone, Copy, Debug, PartialEq, Eq, Structural)]
pub struct DnBufs {
    /// q, k and v before and after the convolution.
    pub qkv: Buf,
    pub conv: Buf,
    /// What the output norm is gated with.
    pub z: Buf,
    /// (g, beta) of each value head.
    pub gb: Buf,
    /// q and k after the L2 norm.
    pub qn: Buf,
    pub kn: Buf,
    /// Output of the recurrence and of the norm.
    pub out: Buf,
    pub normed: Buf,
    /// Quantized activation of this path.
    pub xq: Buf,
    pub xd: Buf,
}

/// Weights and buffers of the prediction head.
#[derive(Clone, Copy, Debug, PartialEq, Eq, Structural)]
pub struct MtpBufs {
    pub eh_proj: QWeight,
    pub attn_q: QWeight,
    pub attn_k: QWeight,
    pub attn_v: QWeight,
    pub attn_output: QWeight,
    pub ffn_gate: QWeight,
    pub ffn_up: QWeight,
    pub ffn_down: QWeight,
    pub enorm: Buf,
    pub hnorm: Buf,
    pub shared_head_norm: Buf,
    pub attn_norm: Buf,
    pub ffn_norm: Buf,
    pub q_norm: Option<Buf>,
    pub k_norm: Option<Buf>,
    pub emb_stage: Buf,
    pub b_emb: Buf,
    pub b_h: Buf,
    pub b_eh: Buf,
    pub b_x: Buf,
    pub b_ffn: Buf,
    pub kcache: Buf,
    pub vcache: Buf,
}

/// The activations and caches of a shard.
#[derive(Clone, Copy, Debug, PartialEq, Eq, Structural)]
pub struct Ativacoes {
    pub embd_stage: Buf,
    pub kcache: Buf,
    pub vcache: Buf,
    pub b_x: Buf,
    pub b_normed: Buf,
    /// Partial sums of the norm.
    pub b_parciais: Buf,
    pub b_q: Buf,
    pub b_k: Buf,
    pub b_v: Buf,
    pub b_attn: Buf,
    /// Partial results of the attention in slices.
    pub b_attn_split: Buf,
    pub b_proj: Buf,
    pub b_gate: Buf,
    pub b_up: Buf,
    pub b_act: Buf,
    pub b_logits: Buf,
    pub b_ffn: Buf,
    /// Quantized activation and its scales.
    pub b_xq: Buf,
    pub b_xd: Buf,
    /// What the shard hands over to the host.
    pub logits_host: Buf,
    pub dn: Option<DnBufs>,
}

/// Everything of a shard that stays on the GPU.
#[derive(Debug)]
pub struct ResidentState {
    pub cfg: Cfg,
    pub qw: Vec<LayerQ>,
    pub output_w: QWeight,
    pub aux: Vec<LayerAux>,
    pub output_norm_buf: Buf,
    pub freq_buf: Buf,
    pub a: Ativacoes,
    /// The prediction head; only the last shard has it.
    pub mtp: Option<MtpBufs>,
}

impl ResidentState {
    /// Which layers are attention layers.
    pub open spec fn atencao(self) -> Seq<bool> {
        Seq::new(self.qw@.len(), |l: int| !(self.qw@[l].mixer is Delta))
    }

    /// Whether any layer is a linear-attention layer.
    pub open spec fn tem_delta(self) -> bool {
        exists|l: int| 0 <= l < self.qw@.len() && (#[trigger] self.qw@[l]).mixer is Delta
    }

    /// The cache slot of a layer.
    pub open spec fn slot(self, l: int) -> int {
        if self.atencao()[l] {
            atencoes(self.atencao(), l) as int
        } else {
            0
        }
    }

    pub open spec fn n_slots(self) -> int {
        atencoes(self.atencao(), self.qw@.len() as int) as int
    }

    /// That every layer has its weights.
    pub open spec fn completo(self) -> bool {
        self.qw@.len() == self.cfg.n_layer && self.aux@.len() == self.cfg.n_layer
    }
}

/// The knobs that a plan depends on.
#[derive(Clone, Copy, Debug)]
pub struct Knobs {
    /// Lanes and rows of the K-quant kernels of the decode.
    pub geom: (u32, u32),
    /// The same for the prefill.
    pub geom_batch: (u32, u32),
    /// Whether the prefill uses the tiled product.
    pub gemm: bool,
    /// Whether the rotation of K writes straight to the cache.
    pub rope_kv: bool,
    /// Run only so many layers.
    pub parar_em: Option<usize>,
}

} // verus!
