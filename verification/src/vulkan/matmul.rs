//! Single products of weights with vectors: sizes, push constants and
//! workgroups.

use vstd::prelude::*;

use crate::vulkan::ambiente::geom_ok;
use crate::vulkan::contas::{lei_teto, palavras, palavras_em_bytes, teto, teto_u32};
use crate::vulkan::erro::{DualGpuError, MatmulError, VkResult};
use crate::vulkan::ops::GgmlType;
use crate::vulkan::pipelines::Shader;

verus! {

/// All that a product needs: its kernel, the bytes of what is bound to it in
/// order, its push constants and its workgroups.
#[derive(Debug)]
pub struct Produto {
    pub shader: Shader,
    pub constantes: Vec<(u32, u32)>,
    pub tamanhos: Vec<u64>,
    pub push: Vec<u8>,
    pub grupos: u32,
    /// Numbers of the result.
    pub y_len: usize,
}

pub struct ProdutoM {
    pub shader: Shader,
    pub constantes: Seq<(u32, u32)>,
    pub tamanhos: Seq<u64>,
    pub push: Seq<u8>,
    pub grupos: u32,
    pub y_len: usize,
}

impl View for Produto {
    type V = ProdutoM;

    open spec fn view(&self) -> ProdutoM {
        ProdutoM {
            shader: self.shader,
            constantes: self.constantes@,
            tamanhos: self.tamanhos@,
            push: self.push@,
            grupos: self.grupos,
            y_len: self.y_len,
        }
    }
}

/// Bytes of weights, quantized vector, scales, result and scales again, which
/// stand for the bias.
pub open spec fn tamanhos_de(w: int, x_len: int, y_len: int) -> Seq<u64> {
    seq![
        w as u64,
        (x_len / 32 * 8 * 4) as u64,
        (x_len / 32 * 4) as u64,
        (y_len * 4) as u64,
        (x_len / 32 * 4) as u64,
    ]
}

/// A product with Q8_0 weights of which the rows from `row_offset` on are here.
pub open spec fn produto_q8_0(x_len: int, n_in: int, row_offset: int, n_out: int) -> ProdutoM {
    ProdutoM {
        shader: Shader::MatvecQ8,
        constantes: seq![(0u32, 64u32), (1u32, 2u32)],
        tamanhos: tamanhos_de(n_out * (n_in / 32) * 36, x_len, n_out),
        push: palavras(seq![n_in as u32, n_out as u32, row_offset as u32, 0u32]),
        grupos: n_out as u32,
        y_len: n_out as usize,
    }
}

pub(crate) fn tamanhos(w: u64, x_len: usize, y_len: usize) -> (r: Vec<u64>)
    requires
        y_len * 4 <= usize::MAX,
    ensures
        r@ == tamanhos_de(w as int, x_len as int, y_len as int),
{
    let xd: u64 = (x_len / 32 * 4) as u64;
    let r = vec![w, (x_len / 32 * 8 * 4) as u64, xd, (y_len * 4) as u64, xd];
    assert(r@ =~= tamanhos_de(w as int, x_len as int, y_len as int));
    r
}

/// A product with `n_out` rows of Q8_0 weights.
pub fn dispatch_inner(x_len: usize, n_in: usize, row_offset: usize, n_out: usize) -> (r: Produto)
    requires
        n_out * (n_in as int / 32) * 36 <= usize::MAX,
        n_out * 4 <= usize::MAX,
    ensures
        r@ == produto_q8_0(x_len as int, n_in as int, row_offset as int, n_out as int),
{
    proof {
        assert(n_out * (n_in as int / 32) >= 0) by (nonlinear_arith)
            requires
                n_in as int / 32 >= 0,
        ;
    }
    let w: u64 = (n_out * (n_in / 32) * 36) as u64;
    let p: Vec<u32> = vec![n_in as u32, n_out as u32, row_offset as u32, 0];
    let c: Vec<(u32, u32)> = vec![(0, 64), (1, 2)];
    proof {
        assert(p@ =~= seq![n_in as u32, n_out as u32, row_offset as u32, 0u32]);
        assert(c@ =~= seq![(0u32, 64u32), (1u32, 2u32)]);
    }
    Produto {
        shader: Shader::MatvecQ8,
        constantes: c,
        tamanhos: tamanhos(w, x_len, n_out),
        push: palavras_em_bytes(&p),
        grupos: n_out as u32,
        y_len: n_out,
    }
}

/// Rows of a workgroup of a K-quant kernel.
pub open spec fn linhas_k(ty: GgmlType, geom: (u32, u32)) -> int {
    if ty is Q6_K {
        8
    } else {
        (geom.0 / 64) * geom.1
    }
}

/// Bytes of K-quant weights in device memory.
pub open spec fn bytes_k(ty: GgmlType, w_len: int) -> int {
    if ty is Q6_K {
        w_len / 210 * 212
    } else {
        w_len
    }
}

pub open spec fn shader_k(ty: GgmlType) -> Shader {
    if ty is Q6_K {
        Shader::MatvecQ6K
    } else if ty is Q5_K {
        Shader::MatvecQ5K
    } else {
        Shader::MatvecQ4K
    }
}

/// A product of K-quant weights with `cols` vectors.
pub open spec fn produto_k(
    ty: GgmlType,
    w_len: int,
    x_len: int,
    n_in: int,
    n_out: int,
    cols: int,
    geom: (u32, u32),
) -> ProdutoM {
    ProdutoM {
        shader: shader_k(ty),
        constantes: if ty is Q6_K {
            seq![(0u32, cols as u32)]
        } else {
            seq![(0u32, geom.0), (1u32, geom.1), (2u32, cols as u32)]
        },
        tamanhos: tamanhos_de(bytes_k(ty, w_len), x_len, cols * n_out),
        push: palavras(seq![n_in as u32, n_out as u32, 0u32, 0u32]),
        grupos: teto(n_out, linhas_k(ty, geom)) as u32,
        y_len: (cols * n_out) as usize,
    }
}

/// Why a product of K-quant weights cannot be made: a number does not fit the
/// kernel, or a row is not made of whole blocks.
pub open spec fn erro_k(n_in: int, n_out: int, cols: int) -> Option<MatmulError> {
    if cols > u32::MAX {
        Some(MatmulError::Vulkan(VkResult::ErrorUnknown))
    } else if n_in % 256 != 0 {
        Some(MatmulError::Vulkan(VkResult::ErrorFeatureNotPresent))
    } else if n_in > u32::MAX || n_out > u32::MAX {
        Some(MatmulError::Vulkan(VkResult::ErrorUnknown))
    } else {
        None
    }
}

/// A product of K-quant weights with `cols` vectors of `n_in` elements.
pub fn dispatch_k_matvec(
    ty: GgmlType,
    w_len: usize,
    x_len: usize,
    n_in: usize,
    n_out: usize,
    cols: usize,
    geom: (u32, u32),
) -> (r: Result<Produto, MatmulError>)
    requires
        ty is Q4_K || ty is Q5_K || ty is Q6_K,
        geom_ok(geom),
        erro_k(n_in as int, n_out as int, cols as int) is None ==> cols * n_out * 4 <= usize::MAX,
        bytes_k(ty, w_len as int) <= usize::MAX,
    ensures
        match (r, erro_k(n_in as int, n_out as int, cols as int)) {
            (Ok(p), None) => p@ == produto_k(
                ty,
                w_len as int,
                x_len as int,
                n_in as int,
                n_out as int,
                cols as int,
                geom,
            ),
            (Err(e), Some(f)) => e == f,
            _ => false,
        },
{
    if cols as u64 > 0xffff_ffff {
        return Err(MatmulError::Vulkan(VkResult::ErrorUnknown));
    }
    if n_in % 256 != 0 {
        return Err(MatmulError::Vulkan(VkResult::ErrorFeatureNotPresent));
    }
    if n_in as u64 > 0xffff_ffff || n_out as u64 > 0xffff_ffff {
        return Err(MatmulError::Vulkan(VkResult::ErrorUnknown));
    }
    proof {
        assert(cols * n_out >= 0) by (nonlinear_arith);
        assert(1 <= geom.0 / 64 <= 16);
        assert(0 < (geom.0 / 64) * geom.1 <= 16 * 4) by (nonlinear_arith)
            requires
                1 <= geom.0 / 64 <= 16,
                1 <= geom.1 <= 4,
        ;
    }
    let (rows, w, constantes): (u32, usize, Vec<(u32, u32)>) = match ty {
        GgmlType::Q6_K => (8, w_len / 210 * 212, vec![(0, cols as u32)]),
        _ => (
            geom.0 / 64 * geom.1,
            w_len,
            vec![(0, geom.0), (1, geom.1), (2, cols as u32)],
        ),
    };
    let shader = match ty {
        GgmlType::Q6_K => Shader::MatvecQ6K,
        GgmlType::Q5_K => Shader::MatvecQ5K,
        _ => Shader::MatvecQ4K,
    };
    let p: Vec<u32> = vec![n_in as u32, n_out as u32, 0, 0];
    proof {
        assert(p@ =~= seq![n_in as u32, n_out as u32, 0u32, 0u32]);
        let m = produto_k(
            ty,
            w_len as int,
            x_len as int,
            n_in as int,
            n_out as int,
            cols as int,
            geom,
        );
        assert(constantes@ =~= m.constantes);
    }
    Ok(
        Produto {
            shader,
            constantes,
            tamanhos: tamanhos(w as u64, x_len, cols * n_out),
            push: palavras_em_bytes(&p),
            grupos: teto_u32(n_out as u32, rows),
            y_len: cols * n_out,
        },
    )
}

/// The workgroups of a product cover all its rows.
pub proof fn lei_produto_k_cobre(
    ty: GgmlType,
    w_len: int,
    x_len: int,
    n_in: int,
    n_out: int,
    cols: int,
    geom: (u32, u32),
)
    requires
        geom_ok(geom),
        0 <= n_out <= u32::MAX,
    ensures
        produto_k(ty, w_len, x_len, n_in, n_out, cols, geom).grupos * linhas_k(ty, geom) >= n_out,
{
    assert(1 <= geom.0 / 64);
    assert((geom.0 / 64) * geom.1 > 0) by (nonlinear_arith)
        requires
            1 <= geom.0 / 64,
            1 <= geom.1,
    ;
    lei_teto(n_out, linhas_k(ty, geom));
}

// ---------------------------------------------------------------------------
// Two GPUs
// ---------------------------------------------------------------------------

/// Half of the rows for each of two GPUs.
#[derive(Clone, Copy, Debug, PartialEq, Eq, Structural)]
pub struct Metades {
    pub n0: usize,
    pub n1: usize,
    /// Where the weights of the second half start.
    pub byte: usize,
}

/// Cuts `n_out` rows of Q8_0 weights in two.
pub fn divide_linhas(n_in: usize, n_out: usize) -> (r: Metades)
    requires
        n_out * (n_in as int / 32 * 34) <= usize::MAX,
        n_in as int / 32 * 34 <= usize::MAX,
    ensures
        r.n0 == n_out as int / 2,
        r.n0 + r.n1 == n_out,
        r.byte == r.n0 * (n_in as int / 32 * 34),
        r.n1 * (n_in as int / 32 * 34) == n_out * (n_in as int / 32 * 34) - r.byte,
{
    let n0: usize = n_out / 2;
    let row: usize = (n_in / 32) * 34;
    proof {
        let k = row as int;
        assert(0 <= n0 * k <= n_out * k) by (nonlinear_arith)
            requires
                0 <= n0 <= n_out,
                0 <= k,
        ;
        assert((n_out - n0) * k == n_out * k - n0 * k) by (nonlinear_arith);
    }
    Metades { n0, n1: n_out - n0, byte: n0 * row }
}

/// The results of the two GPUs one after the other; the error of the first one
/// that failed.
pub fn junta_metades<T>(
    r0: Result<Vec<T>, MatmulError>,
    r1: Result<Vec<T>, MatmulError>,
) -> (r: Result<Vec<T>, DualGpuError>)
    ensures
        match (r0, r1, r) {
            (Ok(a), Ok(b), Ok(c)) => c@ == a@ + b@,
            (Err(e), _, Err(f)) => f == (DualGpuError::Matmul { gpu: 0, source: e }),
            (Ok(_), Err(e), Err(f)) => f == (DualGpuError::Matmul { gpu: 1, source: e }),
            _ => false,
        },
{
    match r0 {
        Err(e) => Err(DualGpuError::Matmul { gpu: 0, source: e }),
        Ok(a) => match r1 {
            Err(e) => Err(DualGpuError::Matmul { gpu: 1, source: e }),
            Ok(b) => {
                let mut y = a;
                let mut z = b;
                y.append(&mut z);
                Ok(y)
            },
        },
    }
}

/// Fails unless there are two devices.
pub fn dois_devices(n: usize) -> (r: Result<(), DualGpuError>)
    ensures
        r == (if n < 2 {
            Err::<(), DualGpuError>(DualGpuError::NotEnoughDevices)
        } else {
            Ok(())
        }),
{
    if n < 2 {
        Err(DualGpuError::NotEnoughDevices)
    } else {
        Ok(())
    }
}

} // verus!
