//! Strings, their UTF-8 bytes, and the few std functions on them that the
//! tokenizers need.

use vstd::prelude::*;
use vstd::string::*;
use vstd::utf8::*;

verus! {

/// `String::push` appends the character to the end of the string.
pub assume_specification[ String::push ](s: &mut String, c: char)
    ensures
        final(s)@ == old(s)@.push(c),
;

/// `char::from_u32` gives the character with that code point, and `None` for
/// the numbers that are no Unicode scalar value.
pub assume_specification[ char::from_u32 ](i: u32) -> (r: Option<char>)
    ensures
        r == if is_scalar(i) {
            Some(i as char)
        } else {
            None
        },
;

/// What `String::from_utf8_lossy` makes of a byte sequence.
pub uninterp spec fn utf8_com_perdas(bytes: Seq<u8>) -> Seq<char>;

/// `String::from_utf8_lossy`, as an owned string. Valid UTF-8 is decoded as it
/// is. What replaces the invalid sequences is left unsaid: it is only claimed
/// to depend on the bytes alone.
#[verifier::external_body]
pub(crate) fn de_utf8_com_perdas(bytes: &[u8]) -> (r: String)
    ensures
        r@ == utf8_com_perdas(bytes@),
        valid_utf8(bytes@) ==> r@ == decode_utf8(bytes@),
{
    String::from_utf8_lossy(bytes).into_owned()
}

/// The text of a byte sequence: its own if it is valid UTF-8, and else one in
/// which the invalid sequences are replaced.
pub open spec fn texto_de_bytes(bytes: Seq<u8>) -> Seq<char> {
    if valid_utf8(bytes) {
        decode_utf8(bytes)
    } else {
        utf8_com_perdas(bytes)
    }
}

/// The text of the bytes of a text is that text.
pub proof fn lemma_texto_de_bytes(t: Seq<char>)
    ensures
        texto_de_bytes(encode_utf8(t)) == t,
{
    encode_utf8_valid_utf8(t);
    encode_utf8_decode_utf8(t);
}

/// The bytes of a text start with that of a space if and only if the text starts
/// with a space, and that byte is all of it.
pub proof fn lemma_espaco_inicial(t: Seq<char>)
    ensures
        encode_utf8(t).len() > 0 <==> t.len() > 0,
        t.len() > 0 ==> (encode_utf8(t)[0] == 0x20 <==> t[0] == ' '),
        t.len() > 0 && t[0] == ' ' ==> encode_utf8(t).drop_first() == encode_utf8(t.drop_first()),
{
    if t.len() > 0 {
        let c = t[0] as u32;
        char_is_scalar(t[0]);
        char_u32_cast(t[0], c);
        char_u32_cast(' ', 0x20);
        assert(c < 0x80 ==> ((c & 0x7F) as u8 == 0x20 <==> c == 0x20)) by (bit_vector);
        assert(0xC0u8 | ((c >> 6) & 0x1F) as u8 != 0x20u8) by (bit_vector);
        assert(0xE0u8 | ((c >> 12) & 0x0F) as u8 != 0x20u8) by (bit_vector);
        assert(0xF0u8 | ((c >> 18) & 0x7) as u8 != 0x20u8) by (bit_vector);
        assert(encode_utf8(t)[0] == encode_scalar(c)[0]);
        if t[0] == ' ' {
            assert(encode_utf8(t).drop_first() =~= encode_utf8(t.drop_first()));
        }
    }
}

/// The UTF-8 bytes of two texts put together are the bytes of one after those
/// of the other.
pub proof fn lemma_encode_utf8_concat(a: Seq<char>, b: Seq<char>)
    ensures
        encode_utf8(a + b) == encode_utf8(a) + encode_utf8(b),
    decreases a.len(),
{
    if a.len() == 0 {
        assert(a + b =~= b);
        assert(encode_utf8(a) + encode_utf8(b) =~= encode_utf8(b));
    } else {
        assert((a + b).drop_first() =~= a.drop_first() + b);
        lemma_encode_utf8_concat(a.drop_first(), b);
        assert(encode_utf8(a + b) =~= encode_utf8(a) + encode_utf8(b));
    }
}

/// Two texts with the same UTF-8 bytes are the same text.
pub proof fn lemma_encode_utf8_injetivo(a: Seq<char>, b: Seq<char>)
    requires
        encode_utf8(a) == encode_utf8(b),
    ensures
        a == b,
{
    encode_utf8_decode_utf8(a);
    encode_utf8_decode_utf8(b);
}

/// The byte offset at which the character number `i` of `s` starts.
pub open spec fn desloc(s: Seq<char>, i: int) -> int {
    encode_utf8(s.take(i)).len() as int
}

pub proof fn lemma_desloc(s: Seq<char>, i: int, j: int)
    requires
        0 <= i <= j <= s.len(),
    ensures
        0 <= desloc(s, i) <= desloc(s, j) <= encode_utf8(s).len(),
        desloc(s, j) - desloc(s, i) == encode_utf8(s.subrange(i, j)).len(),
        i < j ==> desloc(s, i) < desloc(s, j),
        encode_utf8(s.subrange(i, j)) == encode_utf8(s).subrange(desloc(s, i), desloc(s, j)),
{
    let a = s.take(i);
    let m = s.subrange(i, j);
    let z = s.skip(j);
    assert(s =~= a + m + z);
    assert(s.take(j) =~= a + m);
    lemma_encode_utf8_concat(a + m, z);
    lemma_encode_utf8_concat(a, m);
    assert(encode_utf8(m) =~= encode_utf8(s).subrange(desloc(s, i), desloc(s, j)));
    if i < j {
        char_is_scalar(m[0]);
        assert(encode_scalar(m[0] as u32).len() > 0);
    }
}

pub proof fn lemma_desloc_extremos(s: Seq<char>)
    ensures
        desloc(s, 0) == 0,
        desloc(s, s.len() as int) == encode_utf8(s).len(),
{
    assert(s.take(0) =~= Seq::<char>::empty());
    assert(s.take(s.len() as int) =~= s);
}

/// The offsets of the characters of a text are character boundaries.
pub proof fn lemma_desloc_fronteira(s: Seq<char>, i: int)
    requires
        0 <= i <= s.len(),
    ensures
        valid_utf8(encode_utf8(s)),
        is_char_boundary(encode_utf8(s), desloc(s, i)),
    decreases i,
{
    encode_utf8_valid_utf8(s);
    if i == 0 {
        lemma_desloc_extremos(s);
    } else {
        let r = s.drop_first();
        lemma_desloc_fronteira(r, i - 1);
        lemma_desloc(s, 0, i);
        encode_utf8_first_scalar(s);
        assert(pop_first_scalar(encode_utf8(s)) =~= encode_utf8(r));
        assert(s.take(i).drop_first() =~= r.take(i - 1));
        assert(desloc(s, i) == encode_scalar(s[0] as u32).len() + desloc(r, i - 1));
    }
}

/// The text between two of its characters, given by their byte offsets.
pub(crate) fn sub_str<'a>(
    s: &'a str,
    a: usize,
    b: usize,
    Ghost(i): Ghost<int>,
    Ghost(j): Ghost<int>,
) -> (r: &'a str)
    requires
        0 <= i <= j <= s@.len(),
        a == desloc(s@, i),
        b == desloc(s@, j),
    ensures
        r@ == s@.subrange(i, j),
{
    proof {
        lemma_desloc(s@, i, j);
        lemma_desloc_fronteira(s@, i);
        lemma_desloc(s@, i, s@.len() as int);
        lemma_desloc_extremos(s@);
    }
    let (_, resto) = s.split_at(a);
    proof {
        assert(s@.subrange(i, s@.len() as int) =~= s@.skip(i));
        lemma_encode_utf8_injetivo(resto@, s@.skip(i));
        lemma_desloc_fronteira(s@.skip(i), j - i);
        assert(s@.skip(i).take(j - i) =~= s@.subrange(i, j));
    }
    let (r, _) = resto.split_at(b - a);
    proof {
        lemma_desloc(s@.skip(i), 0, j - i);
        lemma_desloc_extremos(s@.skip(i));
        assert(s@.skip(i).subrange(0, j - i) =~= s@.subrange(i, j));
        lemma_encode_utf8_injetivo(r@, s@.subrange(i, j));
    }
    r
}

/// Whether the two texts are the same.
pub fn mesmo_texto(a: &str, b: &str) -> (r: bool)
    ensures
        r == (a@ == b@),
{
    let x: &[u8] = a.as_bytes();
    let y: &[u8] = b.as_bytes();
    if x.len() != y.len() {
        return false;
    }
    let mut i: usize = 0;
    while i < x.len()
        invariant
            x@ == encode_utf8(a@),
            y@ == encode_utf8(b@),
            x.len() == y.len(),
            i <= x.len(),
            x@.take(i as int) == y@.take(i as int),
        decreases x.len() - i,
    {
        if x[i] != y[i] {
            return false;
        }
        assert(x@.take(i + 1) =~= x@.take(i as int).push(x@[i as int]));
        assert(y@.take(i + 1) =~= y@.take(i as int).push(y@[i as int]));
        i += 1;
    }
    proof {
        assert(x@.take(i as int) =~= x@);
        assert(y@.take(i as int) =~= y@);
        lemma_encode_utf8_injetivo(a@, b@);
    }
    true
}

/// The texts of a list of strings.
pub open spec fn textos(v: Seq<String>) -> Seq<Seq<char>> {
    v.map_values(|s: String| s@)
}

/// The text in a byte range of another one.
pub open spec fn fatia_de(t: Seq<char>, a: int, b: int) -> Seq<char> {
    decode_utf8(encode_utf8(t).subrange(a, b))
}

/// A character boundary is still one once an earlier part is cut off.
pub proof fn lemma_fronteira_resto(bytes: Seq<u8>, a: int, b: int)
    requires
        valid_utf8(bytes),
        is_char_boundary(bytes, a),
        is_char_boundary(bytes, b),
        0 <= a <= b <= bytes.len(),
    ensures
        valid_utf8(bytes.subrange(a, bytes.len() as int)),
        is_char_boundary(bytes.subrange(a, bytes.len() as int), b - a),
    decreases bytes.len(),
{
    let n = bytes.len() as int;
    if a == 0 {
        assert(bytes.subrange(0, n) =~= bytes);
    } else {
        reveal_with_fuel(is_char_boundary, 2);
        let l = length_of_first_scalar(bytes);
        let r = pop_first_scalar(bytes);
        lemma_fronteira_resto(r, a - l, b - l);
        assert(r.subrange(a - l, r.len() as int) =~= bytes.subrange(a, n));
    }
}

/// The text in a byte range of another one.
pub(crate) fn fatia<'a>(s: &'a str, a: usize, b: usize) -> (r: &'a str)
    requires
        a <= b <= encode_utf8(s@).len(),
        is_char_boundary(encode_utf8(s@), a as int),
        is_char_boundary(encode_utf8(s@), b as int),
    ensures
        encode_utf8(r@) == encode_utf8(s@).subrange(a as int, b as int),
        r@ == fatia_de(s@, a as int, b as int),
{
    proof {
        encode_utf8_valid_utf8(s@);
        lemma_fronteira_resto(encode_utf8(s@), a as int, b as int);
    }
    let (_, resto) = s.split_at(a);
    let (r, _) = resto.split_at(b - a);
    proof {
        assert(encode_utf8(r@) =~= encode_utf8(s@).subrange(a as int, b as int));
        encode_utf8_decode_utf8(r@);
    }
    r
}

} // verus!
