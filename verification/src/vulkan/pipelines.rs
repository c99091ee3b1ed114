//! The pipelines: what each is compiled with, and that the plans fit them.

use vstd::prelude::*;

use crate::vulkan::ambiente::{gemm_largura_ok, largura_ok};
use crate::vulkan::estado::{Knobs, MATVEC_NUM_ROWS, MATVEC_WG, VERIFY_TOK};
use crate::vulkan::ops::PipeId;

verus! {

/// A compiled shader.
#[derive(Clone, Copy, Debug, PartialEq, Eq, Structural)]
pub enum Shader {
    MatvecQ8,
    MatvecQ5K,
    MatvecQ6K,
    MatvecQ4K,
    MulMm,
    QuantizeX,
    NormFused,
    NormP2,
    Rope,
    RopeKv,
    Attention,
    AttentionSplit,
    AttnReduce,
    SwigluQuant,
    Add,
    DeltaNet,
    DnConv,
    DnGates,
    DnNorm,
    DnL2Qk,
    GateQuant,
}

/// The kernels that can be run on their own.
#[derive(Clone, Copy, Debug, PartialEq, Eq, Structural)]
pub enum DnPipe {
    DeltaNet,
    Conv,
    Gates,
    Norm,
    L2Qk,
    GateQuant,
    SwigluQuant,
    RopeKv,
    QuantizeX,
    NormFused,
    NormP2,
}

pub open spec fn pipe_do_dn(d: DnPipe) -> PipeId {
    match d {
        DnPipe::DeltaNet => PipeId::DeltaNet,
        DnPipe::Conv => PipeId::DnConv,
        DnPipe::Gates => PipeId::DnGates,
        DnPipe::Norm => PipeId::DnNorm,
        DnPipe::L2Qk => PipeId::DnL2Qk,
        DnPipe::GateQuant => PipeId::GateQuant,
        DnPipe::SwigluQuant => PipeId::SwigluQuant,
        DnPipe::RopeKv => PipeId::RopeKv,
        DnPipe::QuantizeX => PipeId::QuantizeX,
        DnPipe::NormFused => PipeId::NormFused,
        DnPipe::NormP2 => PipeId::NormP2,
    }
}

impl DnPipe {
    pub fn pipe(self) -> (r: PipeId)
        ensures
            r == pipe_do_dn(self),
    {
        match self {
            DnPipe::DeltaNet => PipeId::DeltaNet,
            DnPipe::Conv => PipeId::DnConv,
            DnPipe::Gates => PipeId::DnGates,
            DnPipe::Norm => PipeId::DnNorm,
            DnPipe::L2Qk => PipeId::DnL2Qk,
            DnPipe::GateQuant => PipeId::GateQuant,
            DnPipe::SwigluQuant => PipeId::SwigluQuant,
            DnPipe::RopeKv => PipeId::RopeKv,
            DnPipe::QuantizeX => PipeId::QuantizeX,
            DnPipe::NormFused => PipeId::NormFused,
            DnPipe::NormP2 => PipeId::NormP2,
        }
    }
}

/// What a pipeline is made of: a shader, the number of its bindings, the bytes
/// of its push constants and its specialization constants.
#[derive(Debug)]
pub struct PipeDesc {
    pub shader: Shader,
    pub n_bindings: u32,
    pub push_size: u32,
    pub constantes: Vec<(u32, u32)>,
}

pub struct PipeDescM {
    pub shader: Shader,
    pub n_bindings: u32,
    pub push_size: u32,
    pub constantes: Seq<(u32, u32)>,
}

impl View for PipeDesc {
    type V = PipeDescM;

    open spec fn view(&self) -> PipeDescM {
        PipeDescM {
            shader: self.shader,
            n_bindings: self.n_bindings,
            push_size: self.push_size,
            constantes: self.constantes@,
        }
    }
}

/// What the pipelines are compiled for.
#[derive(Clone, Copy, Debug)]
pub struct Compilacao {
    pub k: Knobs,
    /// Tokens in a block of the prefill.
    pub n_batch: usize,
    /// KiB of unused local memory per workgroup of the Q4_K kernel.
    pub lds_pad: u32,
}

/// Columns of the tiled product. With a width that it cannot do it is compiled
/// for the least one and never used.
pub open spec fn colunas_gemm(c: Compilacao) -> u32 {
    if c.k.gemm && largura_ok((c.n_batch as u32) as int) {
        c.n_batch as u32
    } else {
        8
    }
}

pub open spec fn shader_de(p: PipeId) -> Shader {
    match p {
        PipeId::Matvec | PipeId::MatvecB | PipeId::MatvecV => Shader::MatvecQ8,
        PipeId::MatvecQ5K | PipeId::MatvecQ5KB | PipeId::MatvecQ5KV => Shader::MatvecQ5K,
        PipeId::MatvecQ6K | PipeId::MatvecQ6KB | PipeId::MatvecQ6KV => Shader::MatvecQ6K,
        PipeId::MatvecQ4K | PipeId::MatvecQ4KB | PipeId::MatvecQ4KV => Shader::MatvecQ4K,
        PipeId::MulMmQ4K => Shader::MulMm,
        PipeId::QuantizeX => Shader::QuantizeX,
        PipeId::NormFused => Shader::NormFused,
        PipeId::NormP2 => Shader::NormP2,
        PipeId::Rope => Shader::Rope,
        PipeId::RopeKv => Shader::RopeKv,
        PipeId::Attention => Shader::Attention,
        PipeId::AttentionSplit => Shader::AttentionSplit,
        PipeId::AttnReduce => Shader::AttnReduce,
        PipeId::SwigluQuant => Shader::SwigluQuant,
        PipeId::Add => Shader::Add,
        PipeId::DeltaNet => Shader::DeltaNet,
        PipeId::DnConv => Shader::DnConv,
        PipeId::DnGates => Shader::DnGates,
        PipeId::DnNorm => Shader::DnNorm,
        PipeId::DnL2Qk => Shader::DnL2Qk,
        PipeId::GateQuant => Shader::GateQuant,
    }
}

/// Bindings and bytes of push constants of a shader.
pub open spec fn interface_de(s: Shader) -> (u32, u32) {
    match s {
        Shader::MatvecQ8 => (5, 16),
        Shader::MatvecQ5K => (5, 16),
        Shader::MatvecQ6K => (5, 16),
        Shader::MatvecQ4K => (5, 16),
        Shader::MulMm => (5, 16),
        Shader::QuantizeX => (3, 12),
        Shader::NormFused => (3, 8),
        Shader::NormP2 => (6, 12),
        Shader::Rope => (2, 20),
        Shader::RopeKv => (3, 20),
        Shader::Attention => (4, 28),
        Shader::AttentionSplit => (4, 28),
        Shader::AttnReduce => (2, 12),
        Shader::SwigluQuant => (5, 4),
        Shader::Add => (2, 4),
        Shader::DeltaNet => (6, 20),
        Shader::DnConv => (4, 12),
        Shader::DnGates => (5, 12),
        Shader::DnNorm => (4, 20),
        Shader::DnL2Qk => (3, 16),
        Shader::GateQuant => (4, 8),
    }
}

/// The specialization constants of a pipeline. The Q8_0, Q5_K and Q4_K kernels
/// take lanes, rows and columns as 0, 1 and 2; the Q6_K kernel and the tiled
/// product take columns as 0.
pub open spec fn constantes_de(p: PipeId, c: Compilacao) -> Seq<(u32, u32)> {
    let g = c.k.geom;
    let gb = c.k.geom_batch;
    let n = c.n_batch as u32;
    let v = VERIFY_TOK as u32;
    match p {
        PipeId::Matvec => seq![(0u32, MATVEC_WG), (1u32, MATVEC_NUM_ROWS)],
        PipeId::MatvecQ5K => seq![(0u32, g.0), (1u32, g.1)],
        PipeId::MatvecQ4K => seq![(0u32, g.0), (1u32, g.1), (3u32, c.lds_pad)],
        PipeId::MatvecB => seq![(0u32, MATVEC_WG), (1u32, MATVEC_NUM_ROWS), (2u32, n)],
        PipeId::MatvecQ5KB => seq![(0u32, gb.0), (1u32, gb.1), (2u32, n)],
        PipeId::MatvecQ4KB => seq![(0u32, gb.0), (1u32, gb.1), (2u32, n)],
        PipeId::MatvecQ6KB => seq![(0u32, n)],
        PipeId::MulMmQ4K => seq![(0u32, colunas_gemm(c))],
        PipeId::MatvecV => seq![(0u32, MATVEC_WG), (1u32, MATVEC_NUM_ROWS), (2u32, v)],
        PipeId::MatvecQ5KV => seq![(0u32, g.0), (1u32, g.1), (2u32, v)],
        PipeId::MatvecQ4KV => seq![(0u32, g.0), (1u32, g.1), (2u32, v), (3u32, c.lds_pad)],
        PipeId::MatvecQ6KV => seq![(0u32, v)],
        _ => Seq::empty(),
    }
}

pub open spec fn descricao(p: PipeId, c: Compilacao) -> PipeDescM {
    PipeDescM {
        shader: shader_de(p),
        n_bindings: interface_de(shader_de(p)).0,
        push_size: interface_de(shader_de(p)).1,
        constantes: constantes_de(p, c),
    }
}

fn shader(p: PipeId) -> (r: Shader)
    ensures
        r == shader_de(p),
{
    match p {
        PipeId::Matvec | PipeId::MatvecB | PipeId::MatvecV => Shader::MatvecQ8,
        PipeId::MatvecQ5K | PipeId::MatvecQ5KB | PipeId::MatvecQ5KV => Shader::MatvecQ5K,
        PipeId::MatvecQ6K | PipeId::MatvecQ6KB | PipeId::MatvecQ6KV => Shader::MatvecQ6K,
        PipeId::MatvecQ4K | PipeId::MatvecQ4KB | PipeId::MatvecQ4KV => Shader::MatvecQ4K,
        PipeId::MulMmQ4K => Shader::MulMm,
        PipeId::QuantizeX => Shader::QuantizeX,
        PipeId::NormFused => Shader::NormFused,
        PipeId::NormP2 => Shader::NormP2,
        PipeId::Rope => Shader::Rope,
        PipeId::RopeKv => Shader::RopeKv,
        PipeId::Attention => Shader::Attention,
        PipeId::AttentionSplit => Shader::AttentionSplit,
        PipeId::AttnReduce => Shader::AttnReduce,
        PipeId::SwigluQuant => Shader::SwigluQuant,
        PipeId::Add => Shader::Add,
        PipeId::DeltaNet => Shader::DeltaNet,
        PipeId::DnConv => Shader::DnConv,
        PipeId::DnGates => Shader::DnGates,
        PipeId::DnNorm => Shader::DnNorm,
        PipeId::DnL2Qk => Shader::DnL2Qk,
        PipeId::GateQuant => Shader::GateQuant,
    }
}

fn interface_do(s: Shader) -> (r: (u32, u32))
    ensures
        r == interface_de(s),
{
    match s {
        Shader::MatvecQ8 => (5, 16),
        Shader::MatvecQ5K => (5, 16),
        Shader::MatvecQ6K => (5, 16),
        Shader::MatvecQ4K => (5, 16),
        Shader::MulMm => (5, 16),
        Shader::QuantizeX => (3, 12),
        Shader::NormFused => (3, 8),
        Shader::NormP2 => (6, 12),
        Shader::Rope => (2, 20),
        Shader::RopeKv => (3, 20),
        Shader::Attention => (4, 28),
        Shader::AttentionSplit => (4, 28),
        Shader::AttnReduce => (2, 12),
        Shader::SwigluQuant => (5, 4),
        Shader::Add => (2, 4),
        Shader::DeltaNet => (6, 20),
        Shader::DnConv => (4, 12),
        Shader::DnGates => (5, 12),
        Shader::DnNorm => (4, 20),
        Shader::DnL2Qk => (3, 16),
        Shader::GateQuant => (4, 8),
    }
}

/// What a pipeline is made of.
pub fn descreve(p: PipeId, c: &Compilacao) -> (r: PipeDesc)
    ensures
        r@ == descricao(p, *c),
{
    let g = c.k.geom;
    let gb = c.k.geom_batch;
    let n: u32 = c.n_batch as u32;
    let v: u32 = VERIFY_TOK as u32;
    let constantes: Vec<(u32, u32)> = match p {
        PipeId::Matvec => vec![(0, MATVEC_WG), (1, MATVEC_NUM_ROWS)],
        PipeId::MatvecQ5K => vec![(0, g.0), (1, g.1)],
        PipeId::MatvecQ4K => vec![(0, g.0), (1, g.1), (3, c.lds_pad)],
        PipeId::MatvecB => vec![(0, MATVEC_WG), (1, MATVEC_NUM_ROWS), (2, n)],
        PipeId::MatvecQ5KB => vec![(0, gb.0), (1, gb.1), (2, n)],
        PipeId::MatvecQ4KB => vec![(0, gb.0), (1, gb.1), (2, n)],
        PipeId::MatvecQ6KB => vec![(0, n)],
        PipeId::MulMmQ4K => {
            let cols: u32 = if c.k.gemm && gemm_largura_ok(n as usize) {
                n
            } else {
                8
            };
            vec![(0, cols)]
        },
        PipeId::MatvecV => vec![(0, MATVEC_WG), (1, MATVEC_NUM_ROWS), (2, v)],
        PipeId::MatvecQ5KV => vec![(0, g.0), (1, g.1), (2, v)],
        PipeId::MatvecQ4KV => vec![(0, g.0), (1, g.1), (2, v), (3, c.lds_pad)],
        PipeId::MatvecQ6KV => vec![(0, v)],
        _ => vec![],
    };
    let s = shader(p);
    let (n_bindings, push_size) = interface_do(s);
    assert(constantes@ =~= constantes_de(p, *c));
    PipeDesc { shader: s, n_bindings, push_size, constantes }
}

/// All pipelines, each once.
pub fn todas() -> (r: Vec<PipeId>)
    ensures
        r.len() == 29,
        r@.no_duplicates(),
        forall|p: PipeId| #[trigger] r@.contains(p),
{
    let r = vec![
        PipeId::Matvec,
        PipeId::MatvecQ5K,
        PipeId::MatvecQ6K,
        PipeId::MatvecQ4K,
        PipeId::MatvecB,
        PipeId::MatvecQ5KB,
        PipeId::MatvecQ6KB,
        PipeId::MatvecQ4KB,
        PipeId::MulMmQ4K,
        PipeId::MatvecV,
        PipeId::MatvecQ5KV,
        PipeId::MatvecQ6KV,
        PipeId::MatvecQ4KV,
        PipeId::QuantizeX,
        PipeId::NormFused,
        PipeId::NormP2,
        PipeId::Rope,
        PipeId::RopeKv,
        PipeId::Attention,
        PipeId::AttentionSplit,
        PipeId::AttnReduce,
        PipeId::SwigluQuant,
        PipeId::Add,
        PipeId::DeltaNet,
        PipeId::DnConv,
        PipeId::DnGates,
        PipeId::DnNorm,
        PipeId::DnL2Qk,
        PipeId::GateQuant,
    ];
    proof {
        assert forall|p: PipeId| #[trigger] r@.contains(p) by {
            assert(r@[lugar(p)] == p);
        }
    }
    r
}

spec fn lugar(p: PipeId) -> int {
    match p {
        PipeId::Matvec => 0,
        PipeId::MatvecQ5K => 1,
        PipeId::MatvecQ6K => 2,
        PipeId::MatvecQ4K => 3,
        PipeId::MatvecB => 4,
        PipeId::MatvecQ5KB => 5,
        PipeId::MatvecQ6KB => 6,
        PipeId::MatvecQ4KB => 7,
        PipeId::MulMmQ4K => 8,
        PipeId::MatvecV => 9,
        PipeId::MatvecQ5KV => 10,
        PipeId::MatvecQ6KV => 11,
        PipeId::MatvecQ4KV => 12,
        PipeId::QuantizeX => 13,
        PipeId::NormFused => 14,
        PipeId::NormP2 => 15,
        PipeId::Rope => 16,
        PipeId::RopeKv => 17,
        PipeId::Attention => 18,
        PipeId::AttentionSplit => 19,
        PipeId::AttnReduce => 20,
        PipeId::SwigluQuant => 21,
        PipeId::Add => 22,
        PipeId::DeltaNet => 23,
        PipeId::DnConv => 24,
        PipeId::DnGates => 25,
        PipeId::DnNorm => 26,
        PipeId::DnL2Qk => 27,
        PipeId::GateQuant => 28,
    }
}

} // verus!
