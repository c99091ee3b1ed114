//! Small arithmetic that the rest of the backend shares.

use vstd::prelude::*;

verus! {

/// Quotient rounded up.
pub open spec fn teto(a: int, b: int) -> int {
    a / b + if a % b == 0 {
        0int
    } else {
        1
    }
}

/// `teto(a, b)` parts of size `b` hold `a`, and one less does not.
pub proof fn lei_teto(a: int, b: int)
    requires
        0 <= a,
        0 < b,
    ensures
        0 <= teto(a, b) <= a,
        teto(a, b) * b >= a,
        a > 0 ==> (teto(a, b) - 1) * b < a,
{
    vstd::arithmetic::div_mod::lemma_fundamental_div_mod(a, b);
    vstd::arithmetic::div_mod::lemma_mod_bound(a, b);
    let q = a / b;
    let r = a % b;
    assert(q >= 0) by (nonlinear_arith)
        requires
            a == b * q + r,
            0 <= r < b,
            0 <= a,
    ;
    assert(q * b == b * q) by (nonlinear_arith);
    assert((q + 1) * b == b * q + b) by (nonlinear_arith);
    assert((q - 1) * b == b * q - b) by (nonlinear_arith);
    assert(q <= b * q) by (nonlinear_arith)
        requires
            q >= 0,
            b > 0,
    ;
}

pub fn teto_u32(a: u32, b: u32) -> (r: u32)
    requires
        b > 0,
    ensures
        r == teto(a as int, b as int),
{
    proof {
        lei_teto(a as int, b as int);
    }
    let q: u32 = a / b;
    if a % b == 0 {
        q
    } else {
        q + 1
    }
}

pub fn teto_u64(a: u64, b: u64) -> (r: u64)
    requires
        b > 0,
    ensures
        r == teto(a as int, b as int),
{
    proof {
        lei_teto(a as int, b as int);
    }
    let q: u64 = a / b;
    if a % b == 0 {
        q
    } else {
        q + 1
    }
}

pub fn teto_usize(a: usize, b: usize) -> (r: usize)
    requires
        b > 0,
    ensures
        r == teto(a as int, b as int),
{
    proof {
        lei_teto(a as int, b as int);
    }
    let q: usize = a / b;
    if a % b == 0 {
        q
    } else {
        q + 1
    }
}

/// The number as 32 bits, or the greatest such number.
pub open spec fn sat(n: int) -> u32 {
    if 0 <= n <= u32::MAX {
        n as u32
    } else {
        u32::MAX
    }
}

/// The number as 32 bits, or `padrao`.
pub open spec fn ou(n: int, padrao: u32) -> u32 {
    if 0 <= n <= u32::MAX {
        n as u32
    } else {
        padrao
    }
}

pub fn u32_sat(n: usize) -> (r: u32)
    ensures
        r == sat(n as int),
{
    u32_ou(n, u32::MAX)
}

pub fn u32_ou(n: usize, padrao: u32) -> (r: u32)
    ensures
        r == ou(n as int, padrao),
{
    if n as u64 <= 0xffff_ffff {
        n as u32
    } else {
        padrao
    }
}

/// The four bytes of a word, the least significant one first.
pub open spec fn bytes_le(n: u32) -> Seq<u8> {
    seq![
        (n % 0x100) as u8,
        (n / 0x100 % 0x100) as u8,
        (n / 0x1_0000 % 0x100) as u8,
        (n / 0x100_0000) as u8,
    ]
}

/// The bytes of several words one after the other.
pub open spec fn palavras(w: Seq<u32>) -> Seq<u8>
    decreases w.len(),
{
    if w.len() == 0 {
        Seq::empty()
    } else {
        palavras(w.drop_last()) + bytes_le(w.last())
    }
}

/// A word takes four bytes.
pub proof fn lei_palavras_len(w: Seq<u32>)
    ensures
        palavras(w).len() == 4 * w.len(),
    decreases w.len(),
{
    if w.len() > 0 {
        lei_palavras_len(w.drop_last());
    }
}

/// Which words they were can be read off the bytes.
pub proof fn lei_palavras_lidas(w: Seq<u32>, i: int)
    requires
        0 <= i < w.len(),
    ensures
        palavras(w).len() == 4 * w.len(),
        w[i] == palavras(w)[4 * i] + palavras(w)[4 * i + 1] * 0x100 + palavras(w)[4 * i + 2]
            * 0x1_0000 + palavras(w)[4 * i + 3] * 0x100_0000,
    decreases w.len(),
{
    lei_palavras_len(w);
    lei_palavras_len(w.drop_last());
    if i < w.len() - 1 {
        lei_palavras_lidas(w.drop_last(), i);
        assert(w.drop_last()[i] == w[i]);
    }
}

pub fn palavras_em_bytes(w: &Vec<u32>) -> (r: Vec<u8>)
    ensures
        r@ == palavras(w@),
{
    let mut r: Vec<u8> = Vec::new();
    let mut i: usize = 0;
    proof {
        assert(w@.take(0) =~= Seq::<u32>::empty());
    }
    while i < w.len()
        invariant
            i <= w.len(),
            r@ == palavras(w@.take(i as int)),
        decreases w.len() - i,
    {
        let n: u32 = w[i];
        proof {
            assert(w@.take(i + 1).drop_last() =~= w@.take(i as int));
            assert(w@.take(i + 1).last() == n);
        }
        r.push((n % 0x100) as u8);
        r.push((n / 0x100 % 0x100) as u8);
        r.push((n / 0x1_0000 % 0x100) as u8);
        r.push((n / 0x100_0000) as u8);
        assert(r@ =~= palavras(w@.take(i as int)) + bytes_le(n));
        i += 1;
    }
    assert(w@.take(i as int) =~= w@);
    r
}

pub open spec fn menor(a: int, b: int) -> int {
    if a <= b {
        a
    } else {
        b
    }
}

pub open spec fn maior(a: int, b: int) -> int {
    if a >= b {
        a
    } else {
        b
    }
}

/// The number nearest to `n` between the two bounds.
pub open spec fn entre(n: int, min: int, max: int) -> int {
    if n < min {
        min
    } else if n > max {
        max
    } else {
        n
    }
}

/// The number that a text in decimal stands for has these digits.
pub open spec fn decimal(n: int) -> Seq<char>
    decreases n,
{
    if n < 10 {
        seq![algarismo(n)]
    } else {
        decimal(n / 10).push(algarismo(n % 10))
    }
}

pub open spec fn algarismo(n: int) -> char {
    ('0' as u32 + n) as u32 as char
}

fn um_algarismo(n: usize) -> (r: char)
    requires
        n < 10,
    ensures
        r == algarismo(n as int),
{
    match n {
        0 => '0',
        1 => '1',
        2 => '2',
        3 => '3',
        4 => '4',
        5 => '5',
        6 => '6',
        7 => '7',
        8 => '8',
        _ => '9',
    }
}

/// Appends a number in decimal.
pub(crate) fn poe_decimal(s: &mut String, n: usize)
    ensures
        final(s)@ == old(s)@ + decimal(n as int),
    decreases n,
{
    if n < 10 {
        s.push(um_algarismo(n));
        assert(s@ =~= old(s)@ + decimal(n as int));
    } else {
        poe_decimal(s, n / 10);
        s.push(um_algarismo(n % 10));
        assert(s@ =~= old(s)@ + decimal(n as int));
    }
}

/// The words that those bytes hold.
pub open spec fn palavra(b: Seq<u8>, i: int) -> u32 {
    (b[4 * i] + b[4 * i + 1] * 0x100 + b[4 * i + 2] * 0x1_0000 + b[4 * i + 3] * 0x100_0000) as u32
}

/// The words of a compiled shader.
pub fn palavras_de(b: &[u8]) -> (r: Vec<u32>)
    requires
        b.len() % 4 == 0,
    ensures
        r@ == Seq::new((b@.len() / 4) as nat, |i: int| palavra(b@, i)),
{
    let n: usize = b.len() / 4;
    let mut r: Vec<u32> = Vec::new();
    let mut i: usize = 0;
    while i < n
        invariant
            i <= n,
            n == b.len() / 4,
            r@ =~= Seq::new(i as nat, |i: int| palavra(b@, i)),
        decreases n - i,
    {
        let j: usize = 4 * i;
        let w: u32 = b[j] as u32 + b[j + 1] as u32 * 0x100 + b[j + 2] as u32 * 0x1_0000 + b[j + 3]
            as u32 * 0x100_0000;
        r.push(w);
        i += 1;
    }
    r
}

/// Words written as bytes are read back as they were.
pub proof fn lei_palavras_ida_e_volta(w: Seq<u32>, i: int)
    requires
        0 <= i < w.len(),
    ensures
        palavra(palavras(w), i) == w[i],
{
    lei_palavras_lidas(w, i);
}

} // verus!
