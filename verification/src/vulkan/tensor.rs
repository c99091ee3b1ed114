//! The layout of weights in device memory, and where that memory comes from.

use vstd::prelude::*;

use crate::vulkan::alocador::ALINHAMENTO;
use crate::vulkan::erro::{TensorError, VkResult};
use crate::vulkan::ops::GgmlType;

verus! {

/// Blocks that one thread lays out at a time.
pub const BLOCOS_POR_FATIA: usize = 4096;

/// Bytes of a block in the file and in device memory, for the types that have a
/// kernel. Blocks that are not made of whole words are padded.
pub open spec fn layout(ty: GgmlType) -> Option<(int, int)> {
    match ty {
        GgmlType::Q8_0 => Some((34, 36)),
        GgmlType::Q6_K => Some((210, 212)),
        GgmlType::Q5_K => Some((176, 176)),
        GgmlType::Q4_K => Some((144, 144)),
        _ => None,
    }
}

/// Bytes of a block in the file.
pub open spec fn no_arquivo(ty: GgmlType) -> int {
    match layout(ty) {
        Some((a, _)) => a,
        None => 1,
    }
}

/// Bytes of a block in device memory.
pub open spec fn na_vram(ty: GgmlType) -> int {
    match layout(ty) {
        Some((_, b)) => b,
        None => 1,
    }
}

pub fn layout_de(ty: GgmlType) -> (r: Option<(usize, usize)>)
    ensures
        r is Some <==> layout(ty) is Some,
        r matches Some(x) ==> layout(ty) == Some((x.0 as int, x.1 as int)),
{
    match ty {
        GgmlType::Q8_0 => Some((34, 36)),
        GgmlType::Q6_K => Some((210, 212)),
        GgmlType::Q5_K => Some((176, 176)),
        GgmlType::Q4_K => Some((144, 144)),
        _ => None,
    }
}

/// A block with two zeros after its first `k` bytes.
pub open spec fn com_pad(s: Seq<u8>, k: int) -> Seq<u8> {
    s.take(k) + seq![0u8, 0u8] + s.skip(k)
}

/// The first `n` blocks of `bl` bytes, each with its zeros.
pub open spec fn blocos(s: Seq<u8>, bl: int, k: int, n: int) -> Seq<u8>
    decreases n,
{
    if n <= 0 {
        Seq::empty()
    } else {
        blocos(s, bl, k, n - 1) + com_pad(s.subrange((n - 1) * bl, n * bl), k)
    }
}

/// Q8_0 in device memory: the zeros follow the scale.
pub open spec fn q8_0(s: Seq<u8>) -> Seq<u8> {
    blocos(s, 34, 2, s.len() as int / 34)
}

/// Q6_K in device memory: the zeros follow the block.
pub open spec fn q6_k(s: Seq<u8>) -> Seq<u8> {
    blocos(s, 210, 210, s.len() as int / 210)
}

/// The weights as their kernel reads them.
pub open spec fn transformado(ty: GgmlType, s: Seq<u8>) -> Seq<u8> {
    match ty {
        GgmlType::Q8_0 => q8_0(s),
        GgmlType::Q6_K => q6_k(s),
        _ => s,
    }
}

pub proof fn lemma_blocos(s: Seq<u8>, bl: int, k: int, n: int)
    requires
        0 <= k <= bl,
        0 < bl,
        0 <= n,
        n * bl <= s.len(),
    ensures
        blocos(s, bl, k, n).len() == n * (bl + 2),
        forall|i: int, j: int|
            #![trigger blocos(s, bl, k, n)[i * (bl + 2) + j]]
            0 <= i < n && 0 <= j < bl + 2 ==> blocos(s, bl, k, n)[i * (bl + 2) + j] == com_pad(
                s.subrange(i * bl, (i + 1) * bl),
                k,
            )[j],
    decreases n,
{
    if n > 0 {
        assert((n - 1) * bl == n * bl - bl) by (nonlinear_arith);
        assert((n - 1) * (bl + 2) == n * (bl + 2) - (bl + 2)) by (nonlinear_arith);
        lemma_blocos(s, bl, k, n - 1);
        let b = blocos(s, bl, k, n);
        let a = blocos(s, bl, k, n - 1);
        assert((n - 1) * bl >= 0) by (nonlinear_arith)
            requires
                n >= 1,
                bl > 0,
        ;
        let u = com_pad(s.subrange((n - 1) * bl, n * bl), k);
        assert(u.len() == bl + 2);
        assert forall|i: int, j: int|
            #![trigger b[i * (bl + 2) + j]]
            0 <= i < n && 0 <= j < bl + 2 implies b[i * (bl + 2) + j] == com_pad(
            s.subrange(i * bl, (i + 1) * bl),
            k,
        )[j] by {
            if i < n - 1 {
                assert(i * (bl + 2) + (bl + 2) <= (n - 1) * (bl + 2)) by (nonlinear_arith)
                    requires
                        i + 1 <= n - 1,
                        bl > 0,
                ;
                assert(i * (bl + 2) >= 0) by (nonlinear_arith)
                    requires
                        i >= 0,
                        bl > 0,
                ;
                assert(b[i * (bl + 2) + j] == a[i * (bl + 2) + j]);
            } else {
                assert(b[(n - 1) * (bl + 2) + j] == u[j]);
            }
        }
    } else {
        assert(n * (bl + 2) == 0) by (nonlinear_arith)
            requires
                n == 0,
        ;
    }
}

/// Lays out whole blocks; what follows them in `dst` stays.
fn poe_blocos(src: &[u8], dst: &mut [u8], bl: usize, k: usize)
    requires
        0 < bl < 1000,
        k <= bl,
        src@.len() as int / bl as int == old(dst)@.len() as int / (bl + 2),
    ensures
        final(dst)@.len() == old(dst)@.len(),
        final(dst)@ == blocos(src@, bl as int, k as int, src@.len() as int / bl as int)
            + old(dst)@.skip(src@.len() as int / bl as int * (bl + 2)),
{
    let ls: usize = src.len();
    let ld: usize = dst.len();
    let n: usize = ls / bl;
    let out: usize = bl + 2;
    let ghost d0 = dst@;
    let mut i: usize = 0;
    proof {
        vstd::arithmetic::div_mod::lemma_fundamental_div_mod(src@.len() as int, bl as int);
        vstd::arithmetic::div_mod::lemma_fundamental_div_mod(d0.len() as int, out as int);
        assert(n * bl <= src@.len()) by (nonlinear_arith)
            requires
                src@.len() == bl * n + src@.len() as int % bl as int,
                src@.len() as int % bl as int >= 0,
        ;
        assert(n * out <= d0.len()) by (nonlinear_arith)
            requires
                d0.len() == out * n + d0.len() as int % out as int,
                d0.len() as int % out as int >= 0,
        ;
        assert(0 * out == 0) by (nonlinear_arith);
        assert(dst@ =~= blocos(src@, bl as int, k as int, 0) + d0.skip(0));
    }
    while i < n
        invariant
            i <= n,
            0 < bl < 1000,
            k <= bl,
            out == bl + 2,
            ls == src@.len(),
            ld == d0.len(),
            n * bl <= ls,
            n * out <= ld,
            dst@.len() == d0.len(),
            dst@ == blocos(src@, bl as int, k as int, i as int) + d0.skip(i * out),
        decreases n - i,
    {
        let ghost pre = blocos(src@, bl as int, k as int, i as int);
        let ghost b = com_pad(src@.subrange(i * bl, (i + 1) * bl), k as int);
        proof {
            assert(i * bl + bl == (i + 1) * bl) by (nonlinear_arith);
            assert(i * out + out == (i + 1) * out) by (nonlinear_arith);
            assert((i + 1) * bl <= n * bl) by (nonlinear_arith)
                requires
                    i + 1 <= n,
            ;
            assert((i + 1) * out <= n * out) by (nonlinear_arith)
                requires
                    i + 1 <= n,
            ;
            assert(i * bl >= 0) by (nonlinear_arith);
            assert(i * out >= 0) by (nonlinear_arith);
            lemma_blocos(src@, bl as int, k as int, i as int);
            assert(b.len() == out);
            assert(b.take(0) =~= Seq::<u8>::empty());
            assert(dst@ =~= pre + b.take(0) + d0.skip(i * out + 0));
        }
        let a: usize = i * bl;
        let c: usize = i * out;
        let mut w: usize = 0;
        while w < out
            invariant
                w <= out,
                0 < bl < 1000,
                k <= bl,
                out == bl + 2,
                a == i * bl,
                c == i * out,
                ls == src@.len(),
                ld == d0.len(),
                a + bl <= ls,
                c + out <= ld,
                dst@.len() == d0.len(),
                pre.len() == c,
                b == com_pad(src@.subrange(a as int, a + bl), k as int),
                b.len() == out,
                dst@ == pre + b.take(w as int) + d0.skip(c + w),
            decreases out - w,
        {
            let v: u8 = if w < k {
                src[a + w]
            } else if w < k + 2 {
                0
            } else {
                src[a + (w - 2)]
            };
            assert(v == b[w as int]);
            let ghost d1 = dst@;
            dst[c + w] = v;
            proof {
                assert(dst@ =~= pre + b.take(w + 1) + d0.skip(c + w + 1));
            }
            w += 1;
        }
        proof {
            assert(b.take(out as int) =~= b);
            assert(dst@ =~= blocos(src@, bl as int, k as int, i + 1) + d0.skip((i + 1) * out));
        }
        i += 1;
    }
}

/// Lays out blocks of Q8_0.
pub fn repack_q8_0_into(src: &[u8], dst: &mut [u8])
    requires
        src.len() / 34 == old(dst).len() / 36,
    ensures
        final(dst)@ == q8_0(src@) + old(dst)@.skip(src@.len() as int / 34 * 36),
        final(dst)@.len() == old(dst)@.len(),
{
    poe_blocos(src, dst, 34, 2);
}

/// Lays out blocks of Q6_K.
pub fn pad_q6_k_into(src: &[u8], dst: &mut [u8])
    requires
        src.len() / 210 == old(dst).len() / 212,
    ensures
        final(dst)@ == q6_k(src@) + old(dst)@.skip(src@.len() as int / 210 * 212),
        final(dst)@.len() == old(dst)@.len(),
{
    poe_blocos(src, dst, 210, 210);
}

/// Lays out weights as their kernel reads them.
pub fn transformar(ty: GgmlType, src: &[u8], dst: &mut [u8])
    requires
        match ty {
            GgmlType::Q8_0 => src.len() / 34 == old(dst).len() / 36,
            GgmlType::Q6_K => src.len() / 210 == old(dst).len() / 212,
            _ => src.len() == old(dst).len(),
        },
    ensures
        final(dst)@.len() == old(dst)@.len(),
        final(dst)@ == transformado(ty, src@) + old(dst)@.skip(
            transformado(ty, src@).len() as int,
        ),
{
    match ty {
        GgmlType::Q8_0 => {
            proof {
                lemma_blocos(src@, 34, 2, src@.len() as int / 34);
            }
            repack_q8_0_into(src, dst);
        },
        GgmlType::Q6_K => {
            proof {
                lemma_blocos(src@, 210, 210, src@.len() as int / 210);
            }
            pad_q6_k_into(src, dst);
        },
        _ => {
            let ghost d0 = dst@;
            let mut i: usize = 0;
            assert(dst@ =~= src@.take(0) + d0.skip(0));
            while i < src.len()
                invariant
                    i <= src.len(),
                    src@.len() == d0.len(),
                    dst@.len() == d0.len(),
                    dst@ == src@.take(i as int) + d0.skip(i as int),
                decreases src.len() - i,
            {
                let v: u8 = src[i];
                dst[i] = v;
                assert(dst@ =~= src@.take(i + 1) + d0.skip(i + 1));
                i += 1;
            }
            assert(src@.take(i as int) =~= src@);
        },
    }
}

/// Bytes that weights take in device memory.
pub proof fn lei_tamanho_transformado(ty: GgmlType, s: Seq<u8>)
    requires
        layout(ty) is Some,
        s.len() as int % no_arquivo(ty) == 0,
    ensures
        transformado(ty, s).len() == s.len() as int / no_arquivo(ty) * na_vram(ty),
{
    match ty {
        GgmlType::Q8_0 => {
            lemma_blocos(s, 34, 2, s.len() as int / 34);
            assert(no_arquivo(ty) == 34 && na_vram(ty) == 36);
            assert(q8_0(s).len() == s.len() as int / 34 * 36);
        },
        GgmlType::Q6_K => {
            lemma_blocos(s, 210, 210, s.len() as int / 210);
            assert(no_arquivo(ty) == 210 && na_vram(ty) == 212);
            assert(q6_k(s).len() == s.len() as int / 210 * 212);
        },
        GgmlType::Q5_K => {
            assert(no_arquivo(ty) == 176 && na_vram(ty) == 176);
            assert(s.len() as int / 176 * 176 == s.len());
        },
        GgmlType::Q4_K => {
            assert(no_arquivo(ty) == 144 && na_vram(ty) == 144);
            assert(s.len() as int / 144 * 144 == s.len());
        },
        _ => {},
    }
}

proof fn lemma_blocos_soma(a: Seq<u8>, b: Seq<u8>, bl: int, k: int, m: int, n: int)
    requires
        0 < bl,
        0 <= k <= bl,
        0 <= m,
        0 <= n,
        a.len() == m * bl,
        n * bl <= b.len(),
    ensures
        blocos(a + b, bl, k, m + n) == blocos(a, bl, k, m) + blocos(b, bl, k, n),
    decreases n,
{
    let s = a + b;
    if n > 0 {
        lemma_blocos_soma_passo(a, b, bl, m, n);
        lemma_blocos_soma(a, b, bl, k, m, n - 1);
        assert(m + n - 1 == m + (n - 1));
        assert(blocos(s, bl, k, m + n) =~= blocos(a, bl, k, m) + blocos(b, bl, k, n));
    } else {
        lemma_blocos_prefixo(a, b, bl, k, m);
        assert(blocos(b, bl, k, n) =~= Seq::<u8>::empty());
        assert(blocos(a, bl, k, m) + blocos(b, bl, k, n) =~= blocos(a, bl, k, m));
    }
}

proof fn lemma_blocos_soma_passo(a: Seq<u8>, b: Seq<u8>, bl: int, m: int, n: int)
    requires
        0 < bl,
        0 <= m,
        0 < n,
        a.len() == m * bl,
        n * bl <= b.len(),
    ensures
        (n - 1) * bl <= b.len(),
        (a + b).subrange((m + n - 1) * bl, (m + n) * bl) == b.subrange((n - 1) * bl, n * bl),
{
    assert((m + n) * bl == m * bl + n * bl) by (nonlinear_arith);
    assert((m + n - 1) * bl == m * bl + (n - 1) * bl) by (nonlinear_arith);
    assert((n - 1) * bl == n * bl - bl) by (nonlinear_arith);
    assert((n - 1) * bl >= 0) by (nonlinear_arith)
        requires
            n >= 1,
            bl > 0,
    ;
    assert((a + b).subrange((m + n - 1) * bl, (m + n) * bl) =~= b.subrange((n - 1) * bl, n * bl));
}

proof fn lemma_blocos_prefixo(a: Seq<u8>, b: Seq<u8>, bl: int, k: int, m: int)
    requires
        0 < bl,
        0 <= m,
        m * bl <= a.len(),
    ensures
        blocos(a + b, bl, k, m) == blocos(a, bl, k, m),
    decreases m,
{
    if m > 0 {
        assert((m - 1) * bl == m * bl - bl) by (nonlinear_arith);
        assert((m - 1) * bl >= 0) by (nonlinear_arith)
            requires
                m >= 1,
                bl > 0,
        ;
        lemma_blocos_prefixo(a, b, bl, k, m - 1);
        assert((a + b).subrange((m - 1) * bl, m * bl) =~= a.subrange((m - 1) * bl, m * bl));
    }
}

/// Slices of whole blocks can be laid out one by one, by different threads: the
/// result is the same.
pub proof fn lei_transformar_por_fatias(ty: GgmlType, a: Seq<u8>, b: Seq<u8>)
    requires
        layout(ty) is Some,
        a.len() as int % no_arquivo(ty) == 0,
    ensures
        transformado(ty, a + b) == transformado(ty, a) + transformado(ty, b),
{
    match ty {
        GgmlType::Q8_0 => {
            lemma_blocos_soma(a, b, 34, 2, a.len() as int / 34, b.len() as int / 34);
            assert((a + b).len() as int / 34 == a.len() as int / 34 + b.len() as int / 34);
        },
        GgmlType::Q6_K => {
            lemma_blocos_soma(a, b, 210, 210, a.len() as int / 210, b.len() as int / 210);
            assert((a + b).len() as int / 210 == a.len() as int / 210 + b.len() as int / 210);
        },
        _ => {},
    }
}

/// The layout only moves bytes: every byte of a block of Q8_0 is found again, and
/// the two added ones are zero.
pub proof fn lei_q8_0_so_desloca(s: Seq<u8>, i: int, j: int)
    requires
        0 <= i < s.len() as int / 34,
        0 <= j < 34,
    ensures
        q8_0(s)[i * 36 + if j < 2 {
            j
        } else {
            j + 2
        }] == s[i * 34 + j],
        q8_0(s)[i * 36 + 2] == 0,
        q8_0(s)[i * 36 + 3] == 0,
{
    let n = s.len() as int / 34;
    lemma_blocos(s, 34, 2, n);
    let w = if j < 2 {
        j
    } else {
        j + 2
    };
    let b = com_pad(s.subrange(i * 34, (i + 1) * 34), 2);
    assert(blocos(s, 34, 2, n)[i * (34 + 2) + w] == b[w]);
    assert(blocos(s, 34, 2, n)[i * (34 + 2) + 2] == b[2]);
    assert(blocos(s, 34, 2, n)[i * (34 + 2) + 3] == b[3]);
}

/// The same for Q6_K.
pub proof fn lei_q6_k_so_desloca(s: Seq<u8>, i: int, j: int)
    requires
        0 <= i < s.len() as int / 210,
        0 <= j < 210,
    ensures
        q6_k(s)[i * 212 + j] == s[i * 210 + j],
        q6_k(s)[i * 212 + 210] == 0,
        q6_k(s)[i * 212 + 211] == 0,
{
    let n = s.len() as int / 210;
    lemma_blocos(s, 210, 210, n);
    let b = com_pad(s.subrange(i * 210, (i + 1) * 210), 210);
    assert(blocos(s, 210, 210, n)[i * (210 + 2) + j] == b[j]);
    assert(blocos(s, 210, 210, n)[i * (210 + 2) + 210] == b[210]);
    assert(blocos(s, 210, 210, n)[i * (210 + 2) + 211] == b[211]);
}

/// The bytes of a Q8_0 matrix of `n_out` rows of `n_in` elements as they go to
/// device memory.
pub fn repack_q8_0(bytes: &[u8], n_in: usize, n_out: usize) -> (r: Vec<u8>)
    requires
        n_in % 32 == 0,
        bytes@.len() == n_out * (n_in as int / 32) * 34,
        n_out * (n_in as int / 32) * 36 <= usize::MAX,
    ensures
        r@ == q8_0(bytes@),
        r@.len() == n_out * (n_in as int / 32) * 36,
{
    let ghost n = n_out * (n_in as int / 32);
    proof {
        assert(n >= 0) by (nonlinear_arith)
            requires
                n == n_out * (n_in as int / 32),
                n_in as int / 32 >= 0,
        ;
        lemma_blocos(bytes@, 34, 2, n);
    }
    let total: usize = n_out * (n_in / 32) * 36;
    let mut out: Vec<u8> = Vec::new();
    while out.len() < total
        invariant
            out@.len() <= total,
        decreases total - out.len(),
    {
        out.push(0);
    }
    let d: &mut [u8] = out.as_mut_slice();
    repack_q8_0_into(bytes, d);
    assert(out@ =~= q8_0(bytes@));
    out
}

// ---------------------------------------------------------------------------
// Memory types
// ---------------------------------------------------------------------------

/// Properties of a memory type, as the driver encodes them.
pub const DEVICE_LOCAL: u32 = 1;

pub const HOST_VISIBLE: u32 = 2;

pub const HOST_COHERENT: u32 = 4;

pub const HOST_CACHED: u32 = 8;

/// Whether the bit `i` is set.
pub open spec fn bit(bits: u32, i: int) -> bool {
    bits & (1u32 << (i as u32)) != 0
}

/// Whether a memory type can be used and has all the properties.
pub open spec fn serve_tipo(tipos: Seq<u32>, bits: u32, flags: u32, i: int) -> bool {
    bit(bits, i) && tipos[i] & flags == flags
}

/// The first memory type from `i` on that can be used and has the properties.
pub open spec fn primeiro_tipo(tipos: Seq<u32>, bits: u32, flags: u32, i: int) -> Option<u32>
    decreases tipos.len() - i,
{
    if i >= tipos.len() {
        None
    } else if serve_tipo(tipos, bits, flags, i) {
        Some(i as u32)
    } else {
        primeiro_tipo(tipos, bits, flags, i + 1)
    }
}

/// The first memory type among those in `bits` with all properties of `flags`.
pub fn tipo_de_memoria(tipos: &[u32], bits: u32, flags: u32) -> (r: Result<u32, VkResult>)
    requires
        tipos.len() <= 32,
    ensures
        match r {
            Ok(i) => primeiro_tipo(tipos@, bits, flags, 0) == Some(i),
            Err(e) => primeiro_tipo(tipos@, bits, flags, 0) is None && e
                == VkResult::ErrorOutOfDeviceMemory,
        },
{
    let mut i: usize = 0;
    while i < tipos.len()
        invariant
            i <= tipos.len() <= 32,
            primeiro_tipo(tipos@, bits, flags, 0) == primeiro_tipo(tipos@, bits, flags, i as int),
        decreases tipos.len() - i,
    {
        let b: u32 = i as u32;
        if bits & (1u32 << b) != 0 && tipos[i] & flags == flags {
            return Ok(b);
        }
        i += 1;
    }
    Err(VkResult::ErrorOutOfDeviceMemory)
}

/// The properties of staging memory and of device memory.
pub fn flags_para(host_visible: bool) -> (r: u32)
    ensures
        r == (if host_visible {
            HOST_VISIBLE | HOST_COHERENT
        } else {
            DEVICE_LOCAL
        }),
{
    if host_visible {
        HOST_VISIBLE | HOST_COHERENT
    } else {
        DEVICE_LOCAL
    }
}

/// The properties of memory that the host reads.
pub fn flags_de_leitura() -> (r: u32)
    ensures
        r == HOST_VISIBLE | HOST_COHERENT | HOST_CACHED,
{
    HOST_VISIBLE | HOST_COHERENT | HOST_CACHED
}

/// Fails unless a buffer with that alignment and those memory types can be bound
/// to a place in a chunk of the type `mem_type_idx`.
pub fn confere_pedido(alignment: u64, bits: u32, mem_type_idx: u32) -> (r: Result<
    (),
    TensorError,
>)
    requires
        mem_type_idx < 32,
    ensures
        r is Ok <==> alignment > 0 && ALINHAMENTO % alignment == 0 && bit(
            bits,
            mem_type_idx as int,
        ),
        r matches Err(e) ==> e == TensorError::Vulkan(VkResult::ErrorOutOfDeviceMemory),
{
    if alignment == 0 || ALINHAMENTO % alignment != 0 || bits & (1u32 << mem_type_idx) == 0 {
        return Err(TensorError::Vulkan(VkResult::ErrorOutOfDeviceMemory));
    }
    Ok(())
}

} // verus!
