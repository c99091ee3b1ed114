//! Measuring of single products: weights to measure with, and the commands of a
//! measurement.

use vstd::prelude::*;

use crate::vulkan::contas::{lei_teto, palavras, palavras_em_bytes, teto, teto_u32};
use crate::vulkan::gravacao::{comandos, poe, CmdM, Comando, Parte};
use crate::vulkan::matmul::{tamanhos, tamanhos_de, Produto, ProdutoM};
use crate::vulkan::ops::PipeId;
use crate::vulkan::pipelines::Shader;

verus! {

/// Dispatches of a measurement.
pub const REPS: u32 = 200;

/// A generator of numbers that only depend on where it starts.
#[derive(Clone, Copy, Debug, PartialEq, Eq, Structural)]
pub struct Xs {
    pub x: u64,
}

/// The number after `x`.
pub open spec fn seguinte(x: u64) -> u64 {
    let a = x ^ (x << 13u64);
    let b = a ^ (a >> 7u64);
    b ^ (b << 17u64)
}

impl Xs {
    /// The next number.
    pub fn prox(&mut self) -> (r: u64)
        ensures
            r == seguinte(old(self).x),
            final(self).x == r,
    {
        let x: u64 = self.x;
        let a: u64 = x ^ (x << 13u64);
        let b: u64 = a ^ (a >> 7u64);
        self.x = b ^ (b << 17u64);
        self.x
    }
}

/// The generator never gets stuck: only zero is followed by zero, and a start is
/// always made odd.
pub proof fn lei_gerador_nao_para(x: u64)
    ensures
        seguinte(x) == 0 <==> x == 0,
        x | 1 != 0,
{
    let a = x ^ (x << 13u64);
    let b = a ^ (a >> 7u64);
    assert(x ^ (x << 13u64) == 0 <==> x == 0) by (bit_vector);
    assert(a ^ (a >> 7u64) == 0 <==> a == 0) by (bit_vector);
    assert(b ^ (b << 17u64) == 0 <==> b == 0) by (bit_vector);
    assert(x | 1 != 0) by (bit_vector);
}

/// The generator after `n` numbers.
pub open spec fn depois(x: u64, n: int) -> u64
    decreases n,
{
    if n <= 0 {
        x
    } else {
        seguinte(depois(x, n - 1))
    }
}

/// Bytes of a block of weights that are left to chance.
pub const ALEATORIOS: usize = 140;

/// A block of Q4_K weights: finite scales, the rest by chance.
pub open spec fn superbloco(x: u64) -> Seq<u8> {
    seq![0u8, 0x2Cu8, 0u8, 0x24u8] + Seq::new(
        ALEATORIOS as nat,
        |i: int| depois(x, i + 1) as u8,
    )
}

/// `n` blocks one after the other.
pub open spec fn superblocos(x: u64, n: int) -> Seq<u8>
    decreases n,
{
    if n <= 0 {
        Seq::empty()
    } else {
        superblocos(x, n - 1) + superbloco(depois(x, (n - 1) * ALEATORIOS))
    }
}

/// Numbers of a block follow those of the block before.
proof fn lemma_depois(x: u64, a: int, b: int)
    requires
        0 <= a,
        0 <= b,
    ensures
        depois(depois(x, a), b) == depois(x, a + b),
    decreases b,
{
    if b > 0 {
        lemma_depois(x, a, b - 1);
    }
}

/// Q4_K weights of `n_out` rows of `n_in` elements.
pub fn pesos_q4k(n_in: usize, n_out: usize, semente: u64) -> (w: Vec<u8>)
    requires
        (n_in as int / 256) * n_out <= usize::MAX,
    ensures
        w@ == superblocos(semente | 1, (n_in as int / 256) * n_out),
{
    proof {
        assert((n_in as int / 256) * n_out >= 0) by (nonlinear_arith)
            requires
                n_in as int / 256 >= 0,
        ;
    }
    let n: usize = n_in / 256 * n_out;
    let ghost x = semente | 1;
    let mut r = Xs { x: semente | 1 };
    let mut w: Vec<u8> = Vec::new();
    let mut i: usize = 0;
    assert(0 * ALEATORIOS == 0) by (nonlinear_arith);
    while i < n
        invariant
            i <= n,
            x == semente | 1,
            r.x == depois(x, i * ALEATORIOS),
            w@ == superblocos(x, i as int),
        decreases n - i,
    {
        let ghost y = r.x;
        let ghost w0 = w@;
        w.push(0);
        w.push(0x2C);
        w.push(0);
        w.push(0x24);
        let mut k: usize = 0;
        while k < ALEATORIOS
            invariant
                k <= ALEATORIOS,
                r.x == depois(y, k as int),
                w@ =~= w0 + (seq![0u8, 0x2Cu8, 0u8, 0x24u8] + Seq::new(
                    k as nat,
                    |i: int| depois(y, i + 1) as u8,
                )),
            decreases ALEATORIOS - k,
        {
            let b: u64 = r.prox();
            w.push(b as u8);
            k += 1;
        }
        proof {
            assert(i * ALEATORIOS >= 0) by (nonlinear_arith);
            lemma_depois(x, i * ALEATORIOS, ALEATORIOS as int);
            assert((i + 1) * ALEATORIOS == i * ALEATORIOS + ALEATORIOS) by (nonlinear_arith);
            assert(w@ =~= w0 + superbloco(y));
        }
        i += 1;
    }
    w
}

/// The commands of `n` dispatches with a barrier after each.
pub open spec fn repeticoes(pipe: PipeId, push: Seq<u8>, grupos: u32, n: int) -> Seq<CmdM>
    decreases n,
{
    if n <= 0 {
        Seq::empty()
    } else {
        repeticoes(pipe, push, grupos, n - 1) + seq![
            CmdM::Despacha { op: 0, parte: Parte::Unica, pipe, push, x: grupos, y: 1, z: 1 },
            CmdM::Barreira,
        ]
    }
}

/// The commands of a measurement, between two timestamps.
pub open spec fn medida(pipe: PipeId, push: Seq<u8>, grupos: u32) -> Seq<CmdM> {
    seq![CmdM::ZeraTempos { n: 2 }, CmdM::Tempo { slot: 0, topo: true }] + repeticoes(
        pipe,
        push,
        grupos,
        REPS as int,
    ) + seq![CmdM::Tempo { slot: 1, topo: false }]
}

fn copia_bytes(b: &Vec<u8>) -> (r: Vec<u8>)
    ensures
        r@ == b@,
{
    let mut r: Vec<u8> = Vec::new();
    let mut i: usize = 0;
    while i < b.len()
        invariant
            i <= b.len(),
            r@ =~= b@.take(i as int),
        decreases b.len() - i,
    {
        r.push(b[i]);
        i += 1;
    }
    assert(b@.take(i as int) =~= b@);
    r
}

/// The commands of a measurement.
fn comandos_da_medida(pipe: PipeId, push: &Vec<u8>, grupos: u32) -> (r: Vec<Comando>)
    ensures
        comandos(r@) == medida(pipe, push@, grupos),
{
    let mut v: Vec<Comando> = Vec::new();
    poe(&mut v, Comando::ZeraTempos { n: 2 });
    poe(&mut v, Comando::Tempo { slot: 0, topo: true });
    let ghost c0 = comandos(v@);
    let mut i: u32 = 0;
    assert(comandos(v@) =~= c0 + repeticoes(pipe, push@, grupos, 0));
    while i < REPS
        invariant
            i <= REPS,
            comandos(v@) == c0 + repeticoes(pipe, push@, grupos, i as int),
        decreases REPS - i,
    {
        poe(
            &mut v,
            Comando::Despacha {
                op: 0,
                parte: Parte::Unica,
                pipe,
                push: copia_bytes(push),
                x: grupos,
                y: 1,
                z: 1,
            },
        );
        poe(&mut v, Comando::Barreira);
        i += 1;
        assert(comandos(v@) =~= c0 + repeticoes(pipe, push@, grupos, i as int));
    }
    poe(&mut v, Comando::Tempo { slot: 1, topo: false });
    assert(comandos(v@) =~= medida(pipe, push@, grupos));
    v
}

/// A kernel to measure: what it is compiled with, and the rows that a workgroup
/// takes.
#[derive(Debug)]
pub struct Kernel {
    pub shader: Shader,
    pub spec: Vec<(u32, u32)>,
    pub rows_por_wg: u32,
}

/// The product of weights of `w_len` bytes with `cols` vectors by that kernel.
pub open spec fn produto_do(
    k: Kernel,
    w_len: int,
    x_len: int,
    n_in: int,
    n_out: int,
    cols: int,
) -> ProdutoM {
    ProdutoM {
        shader: k.shader,
        constantes: k.spec@,
        tamanhos: tamanhos_de(w_len, x_len, cols * n_out),
        push: palavras(seq![n_in as u32, n_out as u32, 0u32, 0u32]),
        grupos: teto((n_out as u32) as int, k.rows_por_wg as int) as u32,
        y_len: (cols * n_out) as usize,
    }
}

/// A product and the commands that measure it.
#[derive(Debug)]
pub struct Medida {
    pub produto: Produto,
    pub comandos: Vec<Comando>,
}

/// Measures a kernel on weights that are laid out for it already, with `cols`
/// vectors of `n_in` elements.
pub fn medir(
    pipe: PipeId,
    k: Kernel,
    w_len: usize,
    x_len: usize,
    n_in: usize,
    n_out: usize,
    cols: usize,
) -> (r: Medida)
    requires
        k.rows_por_wg > 0,
        cols * n_out * 4 <= usize::MAX,
    ensures
        r.produto@ == produto_do(
            k,
            w_len as int,
            x_len as int,
            n_in as int,
            n_out as int,
            cols as int,
        ),
        comandos(r.comandos@) == medida(pipe, r.produto@.push, r.produto@.grupos),
{
    proof {
        assert(cols * n_out >= 0) by (nonlinear_arith);
    }
    let p: Vec<u32> = vec![n_in as u32, n_out as u32, 0, 0];
    assert(p@ =~= seq![n_in as u32, n_out as u32, 0u32, 0u32]);
    let produto = Produto {
        shader: k.shader,
        constantes: k.spec,
        tamanhos: tamanhos(w_len as u64, x_len, cols * n_out),
        push: palavras_em_bytes(&p),
        grupos: teto_u32(n_out as u32, k.rows_por_wg),
        y_len: cols * n_out,
    };
    let comandos = comandos_da_medida(pipe, &produto.push, produto.grupos);
    Medida { produto, comandos }
}

/// The workgroups of a measured product cover all its rows, and none is idle.
pub proof fn lei_medida_cobre(k: Kernel, w_len: int, x_len: int, n_in: int, n_out: int, cols: int)
    requires
        k.rows_por_wg > 0,
        0 <= n_out <= u32::MAX,
    ensures
        ({
            let g = produto_do(k, w_len, x_len, n_in, n_out, cols).grupos;
            g * k.rows_por_wg >= n_out && (g > 0 ==> (g - 1) * k.rows_por_wg < n_out)
        }),
{
    lei_teto(n_out, k.rows_por_wg as int);
}

} // verus!
