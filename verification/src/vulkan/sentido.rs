//! What commands mean: what each kernel makes of what is bound to it, and what
//! the buffers hold after commands. Contents are terms, so that two contents are
//! equal only if they were computed in the same way from the same things.

use vstd::prelude::*;

use crate::vulkan::contas::palavra;
use crate::vulkan::gravacao::CmdM;
use crate::vulkan::leis_escrita::parte_de;
use crate::vulkan::leis_plano::{colunas_do, eh_produto, linhas_do};
use crate::vulkan::ops::{Faixa, GgmlType, OpM, PipeId};
use crate::vulkan::pipelines::{descricao, shader_de, Compilacao, Shader};

verus! {

// ---------------------------------------------------------------------------
// Contents
// ---------------------------------------------------------------------------

/// What a kernel computes.
pub enum Conta {
    /// Product of weights of a type with quantized vectors.
    Produto(GgmlType),
    /// A vector quantized to 8 bits, and the scales of its blocks.
    Inteiros,
    Escalas,
    Soma,
    /// Partial sums of the squares of a vector.
    Parciais,
    /// Root mean square norm with a weight: of vectors, of heads, and of heads
    /// with a gate.
    Norma,
    NormaCabecas,
    NormaComPorta,
    /// Rotation by position.
    Rotacao,
    Atencao,
    /// The attention in slices that are still to be reduced.
    Fatias,
    /// `silu(gate) * up`.
    Swiglu,
    /// A vector times the sigmoid of its gate.
    Porta,
    /// (g, beta) of the value heads.
    Decaimento,
    /// Convolution, and the window that it leaves.
    Convolucao,
    Janela,
    /// L2 norm of the query and of the key.
    L2Query,
    L2Key,
    /// Output of the recurrence, and the state that it leaves.
    Recorrencia,
    Estado,
}

/// The contents of a buffer.
#[allow(inconsistent_fields)]
pub enum Termo {
    /// Nothing is known.
    Lixo,
    /// `bytes` bytes of a contents from `off` on.
    Trecho { de: Box<Termo>, off: int, bytes: int },
    /// A contents in which `bytes` bytes from `off` on were replaced.
    Remendo { de: Box<Termo>, off: int, bytes: int, por: Box<Termo> },
    /// What was computed of contents and numbers.
    Calculo { conta: Conta, de: Seq<Termo>, n: Seq<int> },
}

/// A stretch of a contents. One that was just written is what was written.
#[verifier::opaque]
pub open spec fn lido(t: Termo, off: int, bytes: int) -> Termo {
    match t {
        Termo::Remendo { de, off: o, bytes: n, por } if o == off && n == bytes => *por,
        _ => Termo::Trecho { de: Box::new(t), off, bytes },
    }
}

/// A contents with a stretch replaced.
#[verifier::opaque]
pub open spec fn trocado(t: Termo, off: int, bytes: int, por: Termo) -> Termo {
    match t {
        Termo::Remendo { de, off: o, bytes: n, .. } if o == off && n == bytes => Termo::Remendo {
            de,
            off,
            bytes,
            por: Box::new(por),
        },
        _ => Termo::Remendo { de: Box::new(t), off, bytes, por: Box::new(por) },
    }
}

/// What is read of a stretch right after it was written.
pub broadcast proof fn lemma_lido(t: Termo, off: int, bytes: int, por: Termo)
    ensures
        #[trigger] lido(trocado(t, off, bytes, por), off, bytes) == por,
{
    reveal(lido);
    reveal(trocado);
}

/// What is written over is gone.
pub proof fn lemma_trocado(t: Termo, off: int, bytes: int, x: Termo, y: Termo)
    ensures
        trocado(trocado(t, off, bytes, x), off, bytes, y) == trocado(t, off, bytes, y),
{
    reveal(trocado);
}

pub open spec fn le(m: Map<u64, Termo>, f: Faixa) -> Termo {
    lido(m[f.buffer], f.offset as int, f.bytes as int)
}

pub open spec fn escreve(m: Map<u64, Termo>, f: Faixa, t: Termo) -> Map<u64, Termo> {
    m.insert(f.buffer, trocado(m[f.buffer], f.offset as int, f.bytes as int, t))
}

/// After something went wrong nothing is known of any buffer.
pub open spec fn perdida() -> Map<u64, Termo> {
    Map::total(|b: u64| Termo::Lixo)
}

// ---------------------------------------------------------------------------
// What kernels compute
// ---------------------------------------------------------------------------

pub open spec fn conta(c: Conta, de: Seq<Termo>, n: Seq<int>) -> Termo {
    Termo::Calculo { conta: c, de, n }
}

/// `n` elements quantized.
pub open spec fn inteiros(x: Termo, n: int) -> Termo {
    conta(Conta::Inteiros, seq![x], seq![n])
}

pub open spec fn escalas(x: Termo, n: int) -> Termo {
    conta(Conta::Escalas, seq![x], seq![n])
}

/// The product of weights of `n_out` rows and `n_in` columns with `cols`
/// quantized vectors.
pub open spec fn produto(
    ty: GgmlType,
    w: Termo,
    xq: Termo,
    xd: Termo,
    n_in: int,
    n_out: int,
    cols: int,
) -> Termo {
    conta(Conta::Produto(ty), seq![w, xq, xd], seq![n_in, n_out, cols])
}

pub open spec fn soma(x: Termo, y: Termo, n: int) -> Termo {
    conta(Conta::Soma, seq![x, y], seq![n])
}

/// Partial sums of `linhas` vectors of `n` elements, `partes` of each.
pub open spec fn parciais(x: Termo, n: int, linhas: int, partes: int) -> Termo {
    conta(Conta::Parciais, seq![x], seq![n, linhas, partes])
}

/// The norms of `linhas` vectors of `n` elements; `eps` are the bits of the
/// epsilon.
pub open spec fn norma(x: Termo, w: Termo, n: int, linhas: int, eps: int) -> Termo {
    conta(Conta::Norma, seq![x, w], seq![n, linhas, eps])
}

/// The norms of heads of `n` elements that begin `passo` elements apart.
pub open spec fn norma_cabecas(
    x: Termo,
    w: Termo,
    n: int,
    cabecas: int,
    passo: int,
    eps: int,
) -> Termo {
    conta(Conta::NormaCabecas, seq![x, w], seq![n, cabecas, passo, eps])
}

pub open spec fn norma_com_porta(
    x: Termo,
    w: Termo,
    z: Termo,
    n: int,
    cabecas: int,
    passo: int,
    eps: int,
) -> Termo {
    conta(Conta::NormaComPorta, seq![x, w, z], seq![n, cabecas, passo, eps])
}

/// The rotation of the first `rope` of the `dim` elements of heads that begin
/// `passo` elements apart, for `linhas` tokens of which the last one is at the
/// position with these bits.
pub open spec fn rotacao(
    x: Termo,
    freq: Termo,
    cabecas: int,
    dim: int,
    rope: int,
    passo: int,
    pos_bits: int,
    linhas: int,
) -> Termo {
    conta(Conta::Rotacao, seq![x, freq], seq![cabecas, dim, rope, passo, pos_bits, linhas])
}

/// The attention of `linhas` tokens over the cache that starts at the element
/// `off` and holds `posicoes` positions, the tokens' own the last of them.
pub open spec fn atencao(
    q: Termo,
    kcache: Termo,
    vcache: Termo,
    cabecas: int,
    cabecas_kv: int,
    dim: int,
    posicoes: int,
    kv_dim: int,
    off: int,
    passo: int,
    linhas: int,
) -> Termo {
    conta(
        Conta::Atencao,
        seq![q, kcache, vcache],
        seq![cabecas, cabecas_kv, dim, posicoes, kv_dim, off, passo, linhas],
    )
}

pub open spec fn fatias(a: Termo, n: int) -> Termo {
    conta(Conta::Fatias, seq![a], seq![n])
}

/// `silu(gate) * up` of `n` elements.
pub open spec fn swiglu(gate: Termo, up: Termo, n: int) -> Termo {
    conta(Conta::Swiglu, seq![gate, up], seq![n])
}

/// `n` elements of the attention's output times the gates that stand beside the
/// queries, in heads of `dim` elements.
pub open spec fn porta(a: Termo, q: Termo, n: int, dim: int) -> Termo {
    conta(Conta::Porta, seq![a, q], seq![n, dim])
}

/// (g, beta) of the value heads for `linhas` tokens.
pub open spec fn decaimento(
    x: Termo,
    alpha: Termo,
    beta: Termo,
    adt: Termo,
    n: int,
    cabecas: int,
    linhas: int,
) -> Termo {
    conta(Conta::Decaimento, seq![x, alpha, beta, adt], seq![n, cabecas, linhas])
}

/// The convolution of `linhas` tokens of `dim` channels after those in the
/// window.
pub open spec fn convolucao(
    janela: Termo,
    x: Termo,
    w: Termo,
    dim: int,
    nucleo: int,
    linhas: int,
) -> Termo {
    conta(Conta::Convolucao, seq![janela, x, w], seq![dim, nucleo, linhas])
}

/// The window after these tokens.
pub open spec fn janela_depois(
    janela: Termo,
    x: Termo,
    w: Termo,
    dim: int,
    nucleo: int,
    linhas: int,
) -> Termo {
    conta(Conta::Janela, seq![janela, x, w], seq![dim, nucleo, linhas])
}

/// The normed query or key of `linhas` tokens that stand `passo` elements apart.
pub open spec fn l2(
    qual: Conta,
    x: Termo,
    dim: int,
    cabecas: int,
    eps: int,
    passo: int,
    linhas: int,
) -> Termo {
    conta(qual, seq![x], seq![dim, cabecas, eps, passo, linhas])
}

/// What the recurrence makes of the state and of these tokens: its output, or the
/// state after them.
pub open spec fn recorrencia(
    qual: Conta,
    estado: Termo,
    q: Termo,
    k: Termo,
    v: Termo,
    gb: Termo,
    dim: int,
    cabecas: int,
    por_key: int,
    linhas: int,
    passo: int,
) -> Termo {
    conta(qual, seq![estado, q, k, v, gb], seq![dim, cabecas, por_key, linhas, passo])
}

// ---------------------------------------------------------------------------
// Dispatches
// ---------------------------------------------------------------------------

/// The weights that a product reads.
pub open spec fn tipo_lido(p: PipeId) -> GgmlType {
    match shader_de(p) {
        Shader::MatvecQ8 => GgmlType::Q8_0,
        Shader::MatvecQ5K => GgmlType::Q5_K,
        Shader::MatvecQ6K => GgmlType::Q6_K,
        _ => GgmlType::Q4_K,
    }
}

/// That `x` workgroups of 64 lanes cover `n` elements.
pub open spec fn bastam(x: u32, n: int) -> bool {
    x * 64 >= n
}

/// The two results of a kernel that quantizes as well.
pub open spec fn quantizado(m: Map<u64, Termo>, xq: Faixa, xd: Faixa, x: Termo, n: int) -> Map<
    u64,
    Termo,
> {
    escreve(escreve(m, xq, inteiros(x, n)), xd, escalas(x, n))
}

/// A product: its workgroups cover all rows, its output has room for them, and
/// the bias is off.
pub open spec fn efeito_produto(
    c: Compilacao,
    pipe: PipeId,
    b: Seq<Faixa>,
    w: Seq<u32>,
    x: u32,
    m: Map<u64, Termo>,
) -> Map<u64, Termo> {
    let d = descricao(pipe, c);
    if b.len() == 5 && w.len() == 4 && w[2] == 0 && w[3] == 0 && x * linhas_do(d) >= w[1]
        && b[3].bytes == w[1] * colunas_do(d) * 4 {
        escreve(
            m,
            b[3],
            produto(
                tipo_lido(pipe),
                le(m, b[0]),
                le(m, b[1]),
                le(m, b[2]),
                w[0] as int,
                w[1] as int,
                colunas_do(d),
            ),
        )
    } else {
        perdida()
    }
}

pub open spec fn efeito_norma(
    pipe: PipeId,
    b: Seq<Faixa>,
    w: Seq<u32>,
    x: u32,
    y: u32,
    m: Map<u64, Termo>,
) -> Map<u64, Termo> {
    match pipe {
        PipeId::NormFused => if b.len() == 3 && w.len() == 2 && b[0].bytes == w[0] * y * 4 {
            let s = if w[1] != 0 {
                soma(le(m, b[0]), le(m, b[1]), w[0] * y)
            } else {
                le(m, b[0])
            };
            escreve(escreve(m, b[0], s), b[2], parciais(s, w[0] as int, y as int, x as int))
        } else {
            perdida()
        },
        _ => if b.len() == 6 && w.len() == 3 && bastam(x, w[0] as int / 32) && le(m, b[2])
            == parciais(le(m, b[0]), w[0] as int, y as int, w[2] as int) {
            let n = norma(le(m, b[0]), le(m, b[1]), w[0] as int, y as int, w[1] as int);
            quantizado(escreve(m, b[3], n), b[4], b[5], n, w[0] * y)
        } else {
            perdida()
        },
    }
}

/// The attention, whole or in slices, and the reduction of slices.
pub open spec fn efeito_atencao(
    pipe: PipeId,
    b: Seq<Faixa>,
    w: Seq<u32>,
    x: u32,
    y: u32,
    z: u32,
    m: Map<u64, Termo>,
) -> Map<u64, Termo> {
    if pipe is AttnReduce {
        if b.len() == 2 && w.len() == 3 && x == w[0] {
            match le(m, b[0]) {
                Termo::Calculo { conta: Conta::Fatias, de, n } if n == seq![w[2] as int]
                    && de.len() == 1 => escreve(m, b[1], de[0]),
                _ => perdida(),
            }
        } else {
            perdida()
        }
    } else if b.len() == 4 && w.len() == 7 && x == w[0] {
        let a = atencao(
            le(m, b[0]),
            le(m, b[1]),
            le(m, b[2]),
            w[0] as int,
            w[1] as int,
            w[2] as int,
            w[3] as int,
            w[4] as int,
            w[5] as int,
            w[6] as int,
            y as int,
        );
        if pipe is AttentionSplit {
            escreve(m, b[3], fatias(a, z as int))
        } else {
            escreve(m, b[3], a)
        }
    } else {
        perdida()
    }
}

/// Where a rotation into the cache writes: from the element `off` on, as much as
/// it reads.
pub open spec fn no_cache(cache: Faixa, off: u32, bytes: u64) -> Faixa {
    Faixa { buffer: cache.buffer, offset: (cache.offset + off * 4) as u64, bytes }
}

pub open spec fn efeito_rotacao(
    pipe: PipeId,
    b: Seq<Faixa>,
    w: Seq<u32>,
    x: u32,
    y: u32,
    m: Map<u64, Termo>,
) -> Map<u64, Termo> {
    if pipe is Rope {
        if b.len() == 2 && w.len() == 5 && bastam(x, w[0] * (w[2] as int / 2)) {
            escreve(
                m,
                b[0],
                rotacao(
                    le(m, b[0]),
                    le(m, b[1]),
                    w[0] as int,
                    w[1] as int,
                    w[2] as int,
                    w[4] as int,
                    w[3] as int,
                    y as int,
                ),
            )
        } else {
            perdida()
        }
    } else if b.len() == 3 && w.len() == 5 && bastam(x, w[0] * (w[1] as int / 2)) {
        escreve(
            m,
            no_cache(b[2], w[4], b[0].bytes),
            rotacao(
                le(m, b[0]),
                le(m, b[1]),
                w[0] as int,
                w[1] as int,
                w[2] as int,
                w[1] as int,
                w[3] as int,
                y as int,
            ),
        )
    } else {
        perdida()
    }
}

/// The kernels of the linear attention.
pub open spec fn efeito_linear(
    pipe: PipeId,
    b: Seq<Faixa>,
    w: Seq<u32>,
    x: u32,
    y: u32,
    m: Map<u64, Termo>,
) -> Map<u64, Termo> {
    match pipe {
        PipeId::DnGates => if b.len() == 5 && w.len() == 3 && x == w[1] && b[0].bytes == w[0] * y
            * 4 {
            escreve(
                m,
                b[4],
                decaimento(
                    le(m, b[0]),
                    le(m, b[1]),
                    le(m, b[2]),
                    le(m, b[3]),
                    w[0] as int,
                    w[1] as int,
                    y as int,
                ),
            )
        } else {
            perdida()
        },
        PipeId::DnConv => if b.len() == 4 && w.len() == 3 && bastam(x, w[0] as int) && b[1].bytes
            == w[0] * w[2] * 4 && b[3].bytes == b[1].bytes {
            let d = w[0] as int;
            let k = w[1] as int;
            let n = w[2] as int;
            let r = convolucao(le(m, b[0]), le(m, b[1]), le(m, b[2]), d, k, n);
            let j = janela_depois(le(m, b[0]), le(m, b[1]), le(m, b[2]), d, k, n);
            escreve(escreve(m, b[0], j), b[3], r)
        } else {
            perdida()
        },
        PipeId::DnL2Qk => if b.len() == 3 && w.len() == 4 && x == w[1] * 2 && b[1].bytes == w[0]
            * w[1] * y * 4 && b[2].bytes == b[1].bytes {
            let q = l2(
                Conta::L2Query,
                le(m, b[0]),
                w[0] as int,
                w[1] as int,
                w[2] as int,
                w[3] as int,
                y as int,
            );
            let k = l2(
                Conta::L2Key,
                le(m, b[0]),
                w[0] as int,
                w[1] as int,
                w[2] as int,
                w[3] as int,
                y as int,
            );
            escreve(escreve(m, b[1], q), b[2], k)
        } else {
            perdida()
        },
        PipeId::DeltaNet => if b.len() == 6 && w.len() == 5 && x == w[1] * w[0] / 4 {
            let o = recorrencia(
                Conta::Recorrencia,
                le(m, b[0]),
                le(m, b[1]),
                le(m, b[2]),
                le(m, b[3]),
                le(m, b[4]),
                w[0] as int,
                w[1] as int,
                w[2] as int,
                w[3] as int,
                w[4] as int,
            );
            let e = recorrencia(
                Conta::Estado,
                le(m, b[0]),
                le(m, b[1]),
                le(m, b[2]),
                le(m, b[3]),
                le(m, b[4]),
                w[0] as int,
                w[1] as int,
                w[2] as int,
                w[3] as int,
                w[4] as int,
            );
            escreve(escreve(m, b[0], e), b[5], o)
        } else {
            perdida()
        },
        // The norm of heads: plain, or with a gate.
        _ => if b.len() == 4 && w.len() == 5 && x == w[1] && (w[2] == 1 || w[2] == 2) {
            let n = if w[2] == 1 {
                norma_com_porta(
                    le(m, b[0]),
                    le(m, b[1]),
                    le(m, b[2]),
                    w[0] as int,
                    w[1] as int,
                    w[4] as int,
                    w[3] as int,
                )
            } else {
                norma_cabecas(
                    le(m, b[0]),
                    le(m, b[1]),
                    w[0] as int,
                    w[1] as int,
                    w[4] as int,
                    w[3] as int,
                )
            };
            escreve(m, b[3], n)
        } else {
            perdida()
        },
    }
}

/// Kernels that work element by element.
pub open spec fn efeito_simples(
    pipe: PipeId,
    b: Seq<Faixa>,
    w: Seq<u32>,
    x: u32,
    m: Map<u64, Termo>,
) -> Map<u64, Termo> {
    match pipe {
        PipeId::QuantizeX => if b.len() == 3 && w.len() == 3 && b[0].bytes == w[0] * 4 && bastam(
            x,
            w[0] as int / 32,
        ) {
            quantizado(m, b[1], b[2], le(m, b[0]), w[0] as int)
        } else {
            perdida()
        },
        PipeId::SwigluQuant => if b.len() == 5 && w.len() == 1 && b[2].bytes == w[0] * 4 && bastam(
            x,
            w[0] as int / 32,
        ) {
            let a = swiglu(le(m, b[0]), le(m, b[1]), w[0] as int);
            quantizado(escreve(m, b[2], a), b[3], b[4], a, w[0] as int)
        } else {
            perdida()
        },
        PipeId::GateQuant => if b.len() == 4 && w.len() == 2 && b[0].bytes == w[0] * 4 && bastam(
            x,
            w[0] as int / 32,
        ) {
            let a = porta(le(m, b[0]), le(m, b[1]), w[0] as int, w[1] as int);
            quantizado(escreve(m, b[0], a), b[2], b[3], a, w[0] as int)
        } else {
            perdida()
        },
        _ => if b.len() == 2 && w.len() == 1 && b[0].bytes == w[0] * 4 && bastam(
            x,
            w[0] as int,
        ) {
            escreve(m, b[0], soma(le(m, b[0]), le(m, b[1]), w[0] as int))
        } else {
            perdida()
        },
    }
}

/// What a dispatch of a pipeline does, with these bindings, push constants and
/// workgroups.
pub open spec fn efeito(
    c: Compilacao,
    pipe: PipeId,
    b: Seq<Faixa>,
    w: Seq<u32>,
    x: u32,
    y: u32,
    z: u32,
    m: Map<u64, Termo>,
) -> Map<u64, Termo> {
    if eh_produto(pipe) {
        efeito_produto(c, pipe, b, w, x, m)
    } else {
        match pipe {
            PipeId::NormFused | PipeId::NormP2 => efeito_norma(pipe, b, w, x, y, m),
            PipeId::Rope | PipeId::RopeKv => efeito_rotacao(pipe, b, w, x, y, m),
            PipeId::Attention | PipeId::AttentionSplit | PipeId::AttnReduce => efeito_atencao(
                pipe,
                b,
                w,
                x,
                y,
                z,
                m,
            ),
            PipeId::DeltaNet | PipeId::DnConv | PipeId::DnGates | PipeId::DnNorm
            | PipeId::DnL2Qk => efeito_linear(pipe, b, w, x, y, m),
            _ => efeito_simples(pipe, b, w, x, m),
        }
    }
}

// ---------------------------------------------------------------------------
// Commands
// ---------------------------------------------------------------------------

/// The words of push constants.
pub open spec fn palavras_lidas(b: Seq<u8>) -> Seq<u32> {
    Seq::new((b.len() / 4) as nat, |i: int| palavra(b, i))
}

/// What a command of a plan does.
pub open spec fn efeito_cmd(c: Compilacao, p: Seq<OpM>, x: CmdM, m: Map<u64, Termo>) -> Map<
    u64,
    Termo,
> {
    match x {
        CmdM::Copia { src, dst, src_off, dst_off, size } => escreve(
            m,
            Faixa { buffer: dst, offset: dst_off, bytes: size },
            le(m, Faixa { buffer: src, offset: src_off, bytes: size }),
        ),
        CmdM::Despacha { op, parte, pipe, push, x, y, z } => match parte_de(p[op as int], parte) {
            Some(d) => efeito(c, pipe, d.binds, palavras_lidas(push), x, y, z, m),
            None => perdida(),
        },
        _ => m,
    }
}

/// What the buffers hold after commands, one after the other.
pub open spec fn roda(c: Compilacao, p: Seq<OpM>, s: Seq<CmdM>, m: Map<u64, Termo>) -> Map<
    u64,
    Termo,
>
    decreases s.len(),
{
    if s.len() == 0 {
        m
    } else {
        efeito_cmd(c, p, s.last(), roda(c, p, s.drop_last(), m))
    }
}

} // verus!
