//! The knobs that the environment variables set. Each function takes the value
//! of its variable, `None` where it is not set or no text.

use vstd::prelude::*;
use vstd::string::*;

use crate::tokenizer::texto::mesmo_texto;
use crate::vulkan::contas::{entre, menor};

verus! {

// ---------------------------------------------------------------------------
// Numbers in a text
// ---------------------------------------------------------------------------

pub open spec fn eh_digito(c: char) -> bool {
    '0' <= c <= '9'
}

pub open spec fn so_digitos(t: Seq<char>) -> bool {
    forall|i: int| 0 <= i < t.len() ==> eh_digito(#[trigger] t[i])
}

/// The value of decimal digits.
pub open spec fn valor_decimal(t: Seq<char>) -> int
    decreases t.len(),
{
    if t.len() == 0 {
        0
    } else {
        valor_decimal(t.drop_last()) * 10 + (t.last() as int - '0' as int)
    }
}

/// The digits of a number, without the sign that may stand before them.
pub open spec fn sem_sinal(t: Seq<char>) -> Seq<char> {
    if t.len() > 0 && t[0] == '+' {
        t.drop_first()
    } else {
        t
    }
}

/// The number that a text holds: one or more decimal digits, with an optional
/// plus before them, and no more than `max`.
pub open spec fn numero(t: Seq<char>, max: int) -> Option<int> {
    let d = sem_sinal(t);
    if d.len() > 0 && so_digitos(d) && valor_decimal(d) <= max {
        Some(valor_decimal(d))
    } else {
        None
    }
}

proof fn lemma_valor_decimal(t: Seq<char>, i: int)
    requires
        so_digitos(t),
        0 <= i <= t.len(),
    ensures
        0 <= valor_decimal(t.take(i)) <= valor_decimal(t),
    decreases t.len(),
{
    if i == t.len() {
        assert(t.take(i) =~= t);
        if t.len() > 0 {
            assert(eh_digito(t[t.len() - 1]));
            assert forall|k: int| 0 <= k < t.drop_last().len() implies eh_digito(
                #[trigger] t.drop_last()[k],
            ) by {
                assert(t.drop_last()[k] == t[k]);
            }
            lemma_valor_decimal(t.drop_last(), i - 1);
        }
    } else {
        assert(eh_digito(t[t.len() - 1]));
        assert forall|k: int| 0 <= k < t.drop_last().len() implies eh_digito(
            #[trigger] t.drop_last()[k],
        ) by {
            assert(t.drop_last()[k] == t[k]);
        }
        lemma_valor_decimal(t.drop_last(), i);
        assert(t.drop_last().take(i) =~= t.take(i));
    }
}

/// Reads a number of at most `max`.
pub fn le_numero(texto: &str, max: u64) -> (r: Option<u64>)
    ensures
        match r {
            Some(n) => numero(texto@, max as int) == Some(n as int),
            None => numero(texto@, max as int) is None,
        },
{
    let ghost t = texto@;
    let ghost d = sem_sinal(t);
    let mut n: u64 = 0;
    let mut lidos: bool = false;
    let mut primeiro: bool = true;
    let mut cabe: bool = true;
    let mut digitos: bool = true;
    for c in it: texto.chars()
        invariant
            it.seq() == t,
            d == sem_sinal(t),
            primeiro == (it.index() == 0),
            ({
                let k = if t.len() > 0 && t[0] == '+' && it.index() > 0 {
                    it.index() - 1
                } else {
                    it.index() as int
                };
                &&& lidos == (it.index() > 0 && k > 0)
                &&& digitos == so_digitos(d.take(k)) || (it.index() == 0 && digitos)
                &&& digitos ==> cabe == (valor_decimal(d.take(k)) <= max)
                &&& digitos && cabe ==> n == valor_decimal(d.take(k))
            }),
            !(it.index() > 0) ==> digitos && cabe && n == 0,
    {
        let ghost i = it.index() as int;
        if primeiro && c == '+' {
            assert(d.take(0) =~= Seq::<char>::empty());
        } else {
            let ghost k = if t.len() > 0 && t[0] == '+' {
                i - 1
            } else {
                i
            };
            proof {
                assert(d[k] == c);
                assert(d.take(k + 1).drop_last() =~= d.take(k));
                assert(d.take(k + 1).last() == c);
                if i == 0 {
                    assert(d.take(0) =~= Seq::<char>::empty());
                }
                if so_digitos(d.take(k + 1)) {
                    assert forall|x: int| 0 <= x < k implies eh_digito(#[trigger] d.take(k)[x]) by {
                        assert(d.take(k)[x] == d.take(k + 1)[x]);
                    }
                    assert(eh_digito(d.take(k + 1)[k]));
                } else if eh_digito(c) && so_digitos(d.take(k)) {
                    assert forall|x: int| 0 <= x < k + 1 implies eh_digito(
                        #[trigger] d.take(k + 1)[x],
                    ) by {
                        if x < k {
                            assert(d.take(k)[x] == d.take(k + 1)[x]);
                        }
                    }
                }
                if so_digitos(d.take(k)) {
                    lemma_valor_decimal(d.take(k), 0);
                    assert(d.take(k).take(0) =~= Seq::<char>::empty());
                }
            }
            lidos = true;
            if !('0' <= c && c <= '9') {
                digitos = false;
            } else if digitos && cabe {
                let v: u64 = (c as u32 - 0x30) as u64;
                if n > max / 10 {
                    cabe = false;
                } else {
                    let dez: u64 = n * 10;
                    if v > max - dez {
                        cabe = false;
                    } else {
                        n = dez + v;
                    }
                }
            }
        }
        primeiro = false;
    }
    proof {
        assert(d.take(d.len() as int) =~= d);
    }
    if lidos && digitos && cabe {
        Some(n)
    } else {
        None
    }
}

// ---------------------------------------------------------------------------
// White space
// ---------------------------------------------------------------------------

/// The characters with the Unicode property `White_Space`.
pub open spec fn branco(c: char) -> bool {
    let n = c as int;
    0x9 <= n <= 0xD || n == 0x20 || n == 0x85 || n == 0xA0 || n == 0x1680 || 0x2000 <= n <= 0x200A
        || n == 0x2028 || n == 0x2029 || n == 0x202F || n == 0x205F || n == 0x3000
}

pub open spec fn sem_brancos_antes(t: Seq<char>) -> Seq<char>
    decreases t.len(),
{
    if t.len() > 0 && branco(t[0]) {
        sem_brancos_antes(t.drop_first())
    } else {
        t
    }
}

pub open spec fn sem_brancos_depois(t: Seq<char>) -> Seq<char>
    decreases t.len(),
{
    if t.len() > 0 && branco(t.last()) {
        sem_brancos_depois(t.drop_last())
    } else {
        t
    }
}

/// The text without the white space at its two ends.
pub open spec fn aparado(t: Seq<char>) -> Seq<char> {
    sem_brancos_depois(sem_brancos_antes(t))
}

fn eh_branco(c: char) -> (r: bool)
    ensures
        r == branco(c),
{
    let n: u32 = c as u32;
    (0x9 <= n && n <= 0xD) || n == 0x20 || n == 0x85 || n == 0xA0 || n == 0x1680 || (0x2000 <= n
        && n <= 0x200A) || n == 0x2028 || n == 0x2029 || n == 0x202F || n == 0x205F || n == 0x3000
}

/// The characters from `a` to `b`, as a text.
fn junta(v: &Vec<char>, a: usize, b: usize) -> (r: String)
    requires
        a <= b <= v.len(),
    ensures
        r@ == v@.subrange(a as int, b as int),
{
    let mut r: String = String::new();
    let mut i: usize = a;
    proof {
        assert(v@.subrange(a as int, a as int) =~= Seq::<char>::empty());
    }
    while i < b
        invariant
            a <= i <= b <= v.len(),
            r@ == v@.subrange(a as int, i as int),
        decreases b - i,
    {
        r.push(v[i]);
        assert(v@.subrange(a as int, i + 1) =~= v@.subrange(a as int, i as int).push(
            v@[i as int],
        ));
        i += 1;
    }
    r
}

fn apara(v: &Vec<char>, a: usize, b: usize) -> (r: String)
    requires
        a <= b <= v.len(),
    ensures
        r@ == aparado(v@.subrange(a as int, b as int)),
{
    let ghost t = v@.subrange(a as int, b as int);
    let mut i: usize = a;
    while i < b && eh_branco(v[i])
        invariant
            a <= i <= b <= v.len(),
            sem_brancos_antes(t) == sem_brancos_antes(v@.subrange(i as int, b as int)),
        decreases b - i,
    {
        assert(v@.subrange(i as int, b as int).drop_first() =~= v@.subrange(i + 1, b as int));
        i += 1;
    }
    let ghost u = v@.subrange(i as int, b as int);
    assert(sem_brancos_antes(t) == u);
    let mut j: usize = b;
    while i < j && eh_branco(v[j - 1])
        invariant
            i <= j <= b <= v.len(),
            sem_brancos_depois(u) == sem_brancos_depois(v@.subrange(i as int, j as int)),
        decreases j - i,
    {
        assert(v@.subrange(i as int, j as int).drop_last() =~= v@.subrange(i as int, j - 1));
        j -= 1;
    }
    junta(v, i, j)
}

pub(crate) fn caracteres(t: &str) -> (v: Vec<char>)
    ensures
        v@ == t@,
{
    let ghost s = t@;
    let mut v: Vec<char> = Vec::new();
    for c in it: t.chars()
        invariant
            it.seq() == s,
            v@ == s.take(it.index() as int),
    {
        v.push(c);
        assert(s.take(it.index() + 1) =~= s.take(it.index() as int).push(c));
    }
    assert(s.take(s.len() as int) =~= s);
    v
}

/// The text without the white space at its two ends.
pub(crate) fn texto_aparado(t: &str) -> (r: String)
    ensures
        r@ == aparado(t@),
{
    let v = caracteres(t);
    let n: usize = v.len();
    let r = apara(&v, 0, n);
    assert(v@.subrange(0, n as int) =~= t@);
    r
}

// ---------------------------------------------------------------------------
// Knobs
// ---------------------------------------------------------------------------

/// The number in a variable, if it is set to one.
pub open spec fn numero_da_var(v: Option<&str>, max: int) -> Option<int> {
    match v {
        Some(t) => numero(t@, max),
        None => None,
    }
}

pub fn usize_da_var(v: Option<&str>) -> (r: Option<usize>)
    ensures
        match r {
            Some(n) => numero_da_var(v, usize::MAX as int) == Some(n as int),
            None => numero_da_var(v, usize::MAX as int) is None,
        },
{
    match v {
        Some(t) => match le_numero(t, usize::MAX as u64) {
            Some(n) => Some(n as usize),
            None => None,
        },
        None => None,
    }
}

pub fn u32_da_var(v: Option<&str>) -> (r: Option<u32>)
    ensures
        match r {
            Some(n) => numero_da_var(v, u32::MAX as int) == Some(n as int),
            None => numero_da_var(v, u32::MAX as int) is None,
        },
{
    match v {
        Some(t) => match le_numero(t, u32::MAX as u64) {
            Some(n) => Some(n as u32),
            None => None,
        },
        None => None,
    }
}

/// Tokens in a block of the prefill (`LLAMA_RS_BATCH`): 24 unless set, at least
/// one and at most 32.
pub fn batch_size(v: Option<&str>) -> (r: usize)
    ensures
        r == match numero_da_var(v, usize::MAX as int) {
            Some(n) => entre(n, 1, 32),
            None => 24,
        },
{
    let n: usize = match usize_da_var(v) {
        Some(n) => n,
        None => 24,
    };
    if n < 1 {
        1
    } else if n > 32 {
        32
    } else {
        n
    }
}

/// Position of the first comma from `i` on.
pub open spec fn virgula(t: Seq<char>, i: int) -> Option<int>
    decreases t.len() - i,
{
    if i >= t.len() {
        None
    } else if t[i] == ',' {
        Some(i)
    } else {
        virgula(t, i + 1)
    }
}

/// A geometry of the matrix-vector kernels, `lanes,rows`: the lanes a multiple
/// of 64 up to 1024, and one to four rows.
pub open spec fn geometria(t: Seq<char>) -> Option<(u32, u32)> {
    match virgula(t, 0) {
        None => None,
        Some(p) => match (
            numero(aparado(t.take(p)), u32::MAX as int),
            numero(aparado(t.skip(p + 1)), u32::MAX as int),
        ) {
            (Some(wg), Some(rows)) => if wg % 64 == 0 && 64 <= wg <= 1024 && 1 <= rows <= 4 {
                Some((wg as u32, rows as u32))
            } else {
                None
            },
            _ => None,
        },
    }
}

pub open spec fn geometria_ou(v: Option<&str>, padrao: (u32, u32)) -> (u32, u32) {
    match v {
        None => padrao,
        Some(t) => match geometria(t@) {
            Some(g) => g,
            None => padrao,
        },
    }
}

fn le_geometria(texto: &str) -> (r: Option<(u32, u32)>)
    ensures
        r == geometria(texto@),
{
    let v = caracteres(texto);
    let ghost t = texto@;
    let mut p: usize = 0;
    while p < v.len() && v[p] != ','
        invariant
            v@ == t,
            p <= v.len(),
            virgula(t, 0) == virgula(t, p as int),
        decreases v.len() - p,
    {
        p += 1;
    }
    if p == v.len() {
        return None;
    }
    assert(virgula(t, 0) == Some(p as int));
    proof {
        assert(t.subrange(0, p as int) =~= t.take(p as int));
        assert(t.subrange(p + 1, t.len() as int) =~= t.skip(p + 1));
    }
    let a = apara(&v, 0, p);
    let b = apara(&v, p + 1, v.len());
    match (le_numero(a.as_str(), u32::MAX as u64), le_numero(b.as_str(), u32::MAX as u64)) {
        (Some(wg), Some(rows)) => if wg % 64 == 0 && 64 <= wg && wg <= 1024 && 1 <= rows && rows
            <= 4 {
            Some((wg as u32, rows as u32))
        } else {
            None
        },
        _ => None,
    }
}

/// Geometry of the K-quant kernels of the decode (`LLAMA_RS_MATVEC_GEOM`).
pub fn matvec_geom(v: Option<&str>) -> (r: (u32, u32))
    ensures
        r == geometria_ou(v, (256, 2)),
        geom_ok(r),
{
    match v {
        None => (256, 2),
        Some(t) => match le_geometria(t) {
            Some(g) => g,
            None => (256, 2),
        },
    }
}

/// Geometry of the K-quant kernels of the prefill (`LLAMA_RS_MATVEC_GEOM_B`).
pub fn matvec_geom_batch(v: Option<&str>) -> (r: (u32, u32))
    ensures
        r == geometria_ou(v, (64, 1)),
        geom_ok(r),
{
    match v {
        None => (64, 1),
        Some(t) => match le_geometria(t) {
            Some(g) => g,
            None => (64, 1),
        },
    }
}

/// What holds of every geometry.
pub open spec fn geom_ok(g: (u32, u32)) -> bool {
    64 <= g.0 <= 1024 && g.0 % 64 == 0 && 1 <= g.1 <= 4
}

/// Whether the variable is set to that text.
pub open spec fn var_eh(v: Option<&str>, t: Seq<char>) -> bool {
    match v {
        Some(x) => x@ == t,
        None => false,
    }
}

/// Whether the prefill uses the tiled product (`LLAMA_RS_PREFILL_GEMM`): yes,
/// unless set to `0`.
pub fn gemm_prefill(v: Option<&str>) -> (r: bool)
    ensures
        r == !var_eh(v, "0"@),
{
    match v {
        Some(t) => !mesmo_texto(t, "0"),
        None => true,
    }
}

/// Block widths that the tile of the product covers: multiples of 8 up to 64.
pub open spec fn largura_ok(cols: int) -> bool {
    8 <= cols <= 64 && cols % 8 == 0
}

pub fn gemm_largura_ok(cols: usize) -> (r: bool)
    ensures
        r == largura_ok(cols as int),
{
    8 <= cols && cols <= 64 && cols % 8 == 0
}

/// KiB of unused local memory per workgroup (`LLAMA_RS_MATVEC_LDS_PAD`): none
/// unless set, and at most 48.
pub fn matvec_lds_pad(v: Option<&str>) -> (r: u32)
    ensures
        r == match numero_da_var(v, u32::MAX as int) {
            Some(n) => menor(n, 48),
            None => 0,
        },
{
    match u32_da_var(v) {
        Some(n) => if n < 48 {
            n
        } else {
            48
        },
        None => 0,
    }
}

/// Whether the rotation of K writes straight to the cache
/// (`LLAMA_RS_ROPE_KV`): only if set to `1`.
pub fn rope_no_kv(v: Option<&str>) -> (r: bool)
    ensures
        r == var_eh(v, "1"@),
{
    match v {
        Some(t) => mesmo_texto(t, "1"),
        None => false,
    }
}

/// A switch that is on if the variable is set to anything but `0`
/// (`LLAMA_RS_NO_GROUP`, `LLAMA_RS_PROFILE`).
pub fn ligado(v: Option<&str>) -> (r: bool)
    ensures
        r == (v is Some && !var_eh(v, "0"@)),
{
    match v {
        Some(t) => !mesmo_texto(t, "0"),
        None => false,
    }
}

/// Tokens whose operations are kept for the timeline
/// (`LLAMA_RS_TRACE_TOKENS`): 8 unless set.
pub fn max_trace_tokens(v: Option<&str>) -> (r: usize)
    ensures
        r == match numero_da_var(v, usize::MAX as int) {
            Some(n) => n,
            None => 8,
        },
{
    match usize_da_var(v) {
        Some(n) => n,
        None => 8,
    }
}

} // verus!
