//! SentencePiece tokenization: merges by score, with a fallback to raw bytes.

use vstd::multiset::Multiset;
use vstd::prelude::*;
use vstd::string::*;
use vstd::utf8::*;

use crate::tokenizer::fila::{ordem, Bigram, Fila};
use crate::tokenizer::texto::{
    desloc, lemma_desloc, lemma_desloc_extremos, sub_str,
};
use crate::tokenizer::vocab::{Vocab, VocabModelo};

verus! {

// ---------------------------------------------------------------------------
// What the tokenization of a text is
// ---------------------------------------------------------------------------

/// Whether the segments `i` and `i + 1` can be merged: their joint text is a
/// token.
pub open spec fn candidato(v: VocabModelo, segs: Seq<Seq<char>>, i: int) -> bool {
    0 <= i < segs.len() - 1 && v.id(segs[i] + segs[i + 1]) is Some
}

/// The place of a merge in the order of the scores.
pub open spec fn valor(v: VocabModelo, segs: Seq<Seq<char>>, i: int) -> int {
    ordem(v.score(v.id(segs[i] + segs[i + 1])->0))
}

/// Whether the merge at `i` has the greatest score, and is the leftmost of
/// those that have it.
pub open spec fn melhor(v: VocabModelo, segs: Seq<Seq<char>>, i: int) -> bool {
    &&& candidato(v, segs, i)
    &&& forall|j: int| #[trigger]
        candidato(v, segs, j) ==> valor(v, segs, j) < valor(v, segs, i) || (valor(v, segs, j)
            == valor(v, segs, i) && i <= j)
}

/// The segments with `i` and `i + 1` made one.
pub open spec fn funde(segs: Seq<Seq<char>>, i: int) -> Seq<Seq<char>> {
    segs.take(i).push(segs[i] + segs[i + 1]) + segs.skip(i + 2)
}

/// The segments after every merge, the best one first each time.
pub open spec fn guloso(v: VocabModelo, segs: Seq<Seq<char>>) -> Seq<Seq<char>>
    decreases segs.len(),
{
    if exists|i: int| melhor(v, segs, i) {
        guloso(v, funde(segs, choose|i: int| melhor(v, segs, i)))
    } else {
        segs
    }
}

/// The characters of a text, each a segment of its own.
pub open spec fn letras(t: Seq<char>) -> Seq<Seq<char>> {
    t.map_values(|c: char| seq![c])
}

/// The tokens of raw bytes; a byte without a token is left out.
pub open spec fn ids_de_bytes(v: VocabModelo, b: Seq<u8>) -> Seq<u32>
    decreases b.len(),
{
    if b.len() == 0 {
        Seq::empty()
    } else {
        let r = ids_de_bytes(v, b.drop_last());
        match v.id_do_byte(b.last()) {
            Some(id) => r.push(id),
            None => r,
        }
    }
}

/// The tokens of a segment: its own, or else those of its UTF-8 bytes.
pub open spec fn ids_do_segmento(v: VocabModelo, t: Seq<char>) -> Seq<u32> {
    match v.id(t) {
        Some(id) => seq![id],
        None => ids_de_bytes(v, encode_utf8(t)),
    }
}

pub open spec fn ids_dos_segmentos(v: VocabModelo, segs: Seq<Seq<char>>) -> Seq<u32>
    decreases segs.len(),
{
    if segs.len() == 0 {
        Seq::empty()
    } else {
        ids_dos_segmentos(v, segs.drop_last()) + ids_do_segmento(v, segs.last())
    }
}

/// The tokens of a text.
pub open spec fn spm(v: VocabModelo, t: Seq<char>) -> Seq<u32> {
    ids_dos_segmentos(v, guloso(v, letras(t)))
}

// ---------------------------------------------------------------------------
// Laws
// ---------------------------------------------------------------------------

/// Of the first `n` pairs, the best one.
proof fn lemma_melhor_ate(v: VocabModelo, segs: Seq<Seq<char>>, n: int) -> (r: Option<int>)
    requires
        0 <= n,
    ensures
        match r {
            None => forall|j: int| 0 <= j < n ==> !candidato(v, segs, j),
            Some(i) => {
                &&& 0 <= i < n
                &&& candidato(v, segs, i)
                &&& forall|j: int|
                    0 <= j < n && #[trigger] candidato(v, segs, j) ==> valor(v, segs, j) < valor(
                        v,
                        segs,
                        i,
                    ) || (valor(v, segs, j) == valor(v, segs, i) && i <= j)
            },
        },
    decreases n,
{
    if n == 0 {
        None
    } else {
        let r = lemma_melhor_ate(v, segs, n - 1);
        match r {
            None => if candidato(v, segs, n - 1) {
                Some(n - 1)
            } else {
                None
            },
            Some(i) => if candidato(v, segs, n - 1) && valor(v, segs, i) < valor(
                v,
                segs,
                n - 1,
            ) {
                Some(n - 1)
            } else {
                Some(i)
            },
        }
    }
}

/// There is one best merge, and no more than one, as long as there is any.
pub proof fn lemma_melhor_existe(v: VocabModelo, segs: Seq<Seq<char>>, i: int)
    requires
        candidato(v, segs, i),
    ensures
        exists|k: int| melhor(v, segs, k),
        forall|k: int, l: int| melhor(v, segs, k) && melhor(v, segs, l) ==> k == l,
{
    let r = lemma_melhor_ate(v, segs, segs.len() as int);
    let k = r->0;
    assert(melhor(v, segs, k));
}

/// The tokenization ends only when no two neighbouring segments form a token.
pub proof fn lei_nada_mais_a_fundir(v: VocabModelo, segs: Seq<Seq<char>>, i: int)
    ensures
        !candidato(v, guloso(v, segs), i),
    decreases segs.len(),
{
    if exists|k: int| melhor(v, segs, k) {
        let k = choose|k: int| melhor(v, segs, k);
        lei_nada_mais_a_fundir(v, funde(segs, k), i);
    } else if candidato(v, segs, i) {
        lemma_melhor_existe(v, segs, i);
    }
}

/// All the segments, one after the other.
pub open spec fn junto(segs: Seq<Seq<char>>) -> Seq<char>
    decreases segs.len(),
{
    if segs.len() == 0 {
        Seq::empty()
    } else {
        junto(segs.drop_last()) + segs.last()
    }
}

pub proof fn lemma_junto_concat(a: Seq<Seq<char>>, b: Seq<Seq<char>>)
    ensures
        junto(a + b) == junto(a) + junto(b),
    decreases b.len(),
{
    if b.len() == 0 {
        assert(a + b =~= a);
        assert(junto(a) + junto(b) =~= junto(a));
    } else {
        assert((a + b).drop_last() =~= a + b.drop_last());
        lemma_junto_concat(a, b.drop_last());
        assert(junto(a + b) =~= junto(a) + junto(b));
    }
}

proof fn lemma_junto_funde(segs: Seq<Seq<char>>, i: int)
    requires
        0 <= i < segs.len() - 1,
    ensures
        junto(funde(segs, i)) == junto(segs),
{
    let a = segs.take(i);
    let z = segs.skip(i + 2);
    let p = seq![segs[i], segs[i + 1]];
    let q = seq![segs[i] + segs[i + 1]];
    assert(segs =~= a + p + z);
    assert(funde(segs, i) =~= a + q + z);
    lemma_junto_concat(a + p, z);
    lemma_junto_concat(a, p);
    lemma_junto_concat(a + q, z);
    lemma_junto_concat(a, q);
    reveal_with_fuel(junto, 3);
    assert(p.drop_last() =~= seq![segs[i]]);
    assert(p.drop_last().drop_last() =~= Seq::<Seq<char>>::empty());
    assert(q.drop_last() =~= Seq::<Seq<char>>::empty());
    assert(junto(p) =~= segs[i] + segs[i + 1]);
    assert(junto(q) =~= segs[i] + segs[i + 1]);
}

/// Merging neither adds, drops nor moves a character.
pub proof fn lei_segmentos_preservam_o_texto(v: VocabModelo, segs: Seq<Seq<char>>)
    ensures
        junto(guloso(v, segs)) == junto(segs),
    decreases segs.len(),
{
    if exists|k: int| melhor(v, segs, k) {
        let k = choose|k: int| melhor(v, segs, k);
        lemma_junto_funde(segs, k);
        lei_segmentos_preservam_o_texto(v, funde(segs, k));
    }
}

pub proof fn lemma_junto_letras(t: Seq<char>)
    ensures
        junto(letras(t)) == t,
    decreases t.len(),
{
    if t.len() > 0 {
        lemma_junto_letras(t.drop_last());
        assert(letras(t).drop_last() =~= letras(t.drop_last()));
        assert(junto(letras(t)) =~= t);
    }
}

// ---------------------------------------------------------------------------
// The chain of symbols
// ---------------------------------------------------------------------------

/// A symbol of the chain: the bytes `[start, start + len)` of the text, and
/// its neighbours. A symbol that was merged away has length zero.
#[derive(Clone, Copy, Debug)]
struct Symbol {
    start: usize,
    len: usize,
    prev: Option<usize>,
    next: Option<usize>,
}

/// The character at which the segment number `k` of the chain ends. A chain is
/// the list of the first characters of the segments.
spec fn fim(c: Seq<int>, k: int, n: int) -> int {
    if k + 1 < c.len() {
        c[k + 1]
    } else {
        n
    }
}

spec fn segmento(c: Seq<int>, t: Seq<char>, k: int) -> Seq<char> {
    t.subrange(c[k], fim(c, k, t.len() as int))
}

spec fn segmentos(c: Seq<int>, t: Seq<char>) -> Seq<Seq<char>> {
    Seq::new(c.len(), |k: int| segmento(c, t, k))
}

spec fn opcao(c: Seq<int>, k: int) -> Option<usize> {
    if 0 <= k < c.len() {
        Some(c[k] as usize)
    } else {
        None
    }
}

spec fn cadeia_ok(c: Seq<int>, n: int) -> bool {
    &&& (n > 0 ==> c.len() > 0 && c[0] == 0)
    &&& (n == 0 ==> c.len() == 0)
    &&& forall|k: int| 0 <= k < c.len() ==> 0 <= #[trigger] c[k] < n
    &&& forall|k: int, l: int| 0 <= k < l < c.len() ==> #[trigger] c[k] < #[trigger] c[l]
}

/// That the symbol of the segment `k` has its length and its neighbours.
spec fn elo_ok(s: Seq<Symbol>, c: Seq<int>, t: Seq<char>, k: int) -> bool {
    &&& s[c[k]].len == desloc(t, fim(c, k, t.len() as int)) - desloc(t, c[k])
    &&& s[c[k]].next == opcao(c, k + 1)
    &&& s[c[k]].prev == opcao(c, k - 1)
}

/// That the symbols are those of the chain.
spec fn simbolos_ok(s: Seq<Symbol>, c: Seq<int>, t: Seq<char>) -> bool {
    let n = t.len() as int;
    &&& cadeia_ok(c, n)
    &&& s.len() == n
    &&& encode_utf8(t).len() <= usize::MAX
    &&& forall|i: int| 0 <= i < n ==> (#[trigger] s[i]).start == desloc(t, i)
    &&& n <= usize::MAX
    &&& forall|k: int| 0 <= k < c.len() ==> #[trigger] elo_ok(s, c, t, k)
    &&& forall|i: int| 0 <= i < n && !c.contains(i) ==> (#[trigger] s[i]).len == 0
}

/// The candidate for the merge of the segments `k` and `k + 1`.
spec fn esperado(v: VocabModelo, c: Seq<int>, t: Seq<char>, k: int) -> Bigram {
    let n = t.len() as int;
    Bigram {
        left: c[k] as usize,
        right: c[k + 1] as usize,
        score: v.score(v.id(segmento(c, t, k) + segmento(c, t, k + 1))->0),
        size: (desloc(t, fim(c, k + 1, n)) - desloc(t, c[k])) as usize,
    }
}

/// What is known of a candidate in the queue, stale or not: its joint text was
/// that of `left` up to `right` and from there on to `e`, a token with that
/// score, and a symbol never gets shorter without vanishing.
spec fn bigrama_ok(v: VocabModelo, s: Seq<Symbol>, t: Seq<char>, b: Bigram, e: int) -> bool {
    let l0 = desloc(t, b.right as int) - desloc(t, b.left as int);
    &&& b.left < b.right < e <= t.len()
    &&& desloc(t, e) == desloc(t, b.left as int) + b.size
    &&& v.id(t.subrange(b.left as int, e)) matches Some(id) && b.score == v.score(id)
    &&& s[b.left as int].len == 0 || s[b.left as int].len >= l0
    &&& s[b.right as int].len == 0 || s[b.right as int].len >= b.size - l0
}

/// That the candidate is sound for some end of its joint text.
spec fn bigrama_vale(v: VocabModelo, s: Seq<Symbol>, t: Seq<char>, b: Bigram) -> bool {
    exists|e: int| bigrama_ok(v, s, t, b, e)
}

spec fn fila_ok(
    v: VocabModelo,
    s: Seq<Symbol>,
    c: Seq<int>,
    t: Seq<char>,
    f: Multiset<Bigram>,
) -> bool {
    &&& forall|b: Bigram| #[trigger] f.contains(b) ==> bigrama_vale(v, s, t, b)
    &&& forall|k: int| #[trigger]
        candidato(v, segmentos(c, t), k) ==> f.contains(esperado(v, c, t, k))
}

/// Length in bytes of a UTF-8 character, from its first byte.
pub open spec fn largura_utf8(first: u8) -> usize {
    if first <= 0x7F {
        1
    } else if 0xC0 <= first <= 0xDF {
        2
    } else if 0xE0 <= first <= 0xEF {
        3
    } else if 0xF0 <= first <= 0xF7 {
        4
    } else {
        1
    }
}

/// Length in bytes of a UTF-8 character, from its first byte; a byte that
/// starts no character counts as one.
pub fn utf8_len(first: u8) -> (r: usize)
    ensures
        r == largura_utf8(first),
{
    match first {
        0x00..=0x7F => 1,
        0xC0..=0xDF => 2,
        0xE0..=0xEF => 3,
        0xF0..=0xF7 => 4,
        _ => 1,
    }
}

proof fn lemma_largura(t: Seq<char>, i: int)
    requires
        0 <= i < t.len(),
    ensures
        desloc(t, i) < encode_utf8(t).len(),
        largura_utf8(encode_utf8(t)[desloc(t, i)]) == desloc(t, i + 1) - desloc(t, i),
        desloc(t, i + 1) <= encode_utf8(t).len(),
{
    let n = t.len() as int;
    lemma_desloc(t, i, n);
    lemma_desloc(t, i, i + 1);
    lemma_desloc(t, i + 1, n);
    lemma_desloc_extremos(t);
    let z = t.subrange(i, n);
    let u = t.subrange(i, i + 1);
    encode_utf8_first_scalar(z);
    encode_utf8_first_scalar(u);
    assert(encode_utf8(u).len() == encode_scalar(t[i] as u32).len()) by {
        assert(u.drop_first() =~= Seq::<char>::empty());
        reveal_with_fuel(encode_utf8, 2);
    }
    assert(encode_utf8(z)[0] == encode_utf8(t)[desloc(t, i)]);
}

/// Splits the text in symbols of one character each.
fn divide(text: &str) -> (s: Vec<Symbol>)
    ensures
        simbolos_ok(s@, Seq::new(text@.len(), |i: int| i), text@),
{
    let bytes: &[u8] = text.as_bytes();
    let ghost t = text@;
    let mut s: Vec<Symbol> = Vec::new();
    let mut offs: usize = 0;
    let mut index: usize = 0;
    proof {
        lemma_desloc_extremos(t);
    }
    while offs < bytes.len()
        invariant
            t == text@,
            bytes@ == encode_utf8(t),
            index <= t.len(),
            offs == desloc(t, index as int),
            s.len() == index,
            forall|i: int|
                0 <= i < index ==> {
                    &&& (#[trigger] s@[i]).start == desloc(t, i)
                    &&& s@[i].len == desloc(t, i + 1) - desloc(t, i)
                    &&& s@[i].next == if i + 1 < t.len() {
                        Some((i + 1) as usize)
                    } else {
                        None::<usize>
                    }
                    &&& s@[i].prev == if i > 0 {
                        Some((i - 1) as usize)
                    } else {
                        None::<usize>
                    }
                },
        decreases bytes.len() - offs,
    {
        proof {
            lemma_desloc_extremos(t);
            lemma_largura(t, index as int);
            lemma_desloc(t, index + 1, t.len() as int);
            lemma_desloc(t, index as int, index + 1);
            lemma_desloc(t, 0, index as int);
            if index + 1 < t.len() {
                lemma_desloc(t, index + 1, t.len() as int);
            }
            lemma_indice(t, index as int);
        }
        let len: usize = utf8_len(bytes[offs]).min(bytes.len() - offs);
        let next: Option<usize> = if offs + len == bytes.len() {
            None
        } else {
            Some(index + 1)
        };
        let prev: Option<usize> = index.checked_sub(1);
        s.push(Symbol { start: offs, len, prev, next });
        offs += len;
        index += 1;
    }
    proof {
        lemma_desloc_extremos(t);
        if index < t.len() {
            lemma_desloc(t, index as int, t.len() as int);
        }
        let c = Seq::new(t.len(), |i: int| i);
        lemma_indice(t, t.len() as int);
        assert forall|k: int| 0 <= k < c.len() implies #[trigger] elo_ok(s@, c, t, k) by {
            assert(s@[k].start == desloc(t, k));
        }
        assert forall|i: int| 0 <= i < t.len() && !c.contains(i) implies (#[trigger] s@[i]).len
            == 0 by {
            assert(c[i] == i);
        }
    }
    s
}

/// A character's number is below the number of bytes before it, plus one.
proof fn lemma_indice(t: Seq<char>, i: int)
    requires
        0 <= i <= t.len(),
    ensures
        i <= desloc(t, i),
    decreases i,
{
    if i > 0 {
        lemma_indice(t, i - 1);
        lemma_desloc(t, i - 1, i);
    } else {
        lemma_desloc_extremos(t);
    }
}

/// Two neighbouring segments of the chain make one stretch of the text.
proof fn lemma_vizinhos(c: Seq<int>, t: Seq<char>, k: int)
    requires
        cadeia_ok(c, t.len() as int),
        0 <= k < c.len() - 1,
    ensures
        segmento(c, t, k) + segmento(c, t, k + 1) == t.subrange(
            c[k],
            fim(c, k + 1, t.len() as int),
        ),
        c[k] < c[k + 1] < fim(c, k + 1, t.len() as int) <= t.len(),
{
    assert(segmento(c, t, k) + segmento(c, t, k + 1) =~= t.subrange(
        c[k],
        fim(c, k + 1, t.len() as int),
    ));
}

/// Puts the merge of two neighbouring symbols in the queue, if their joint
/// text is a token.
fn try_add_bigram(
    work: &mut Fila,
    vocab: &Vocab,
    text: &str,
    symbols: &Vec<Symbol>,
    left: Option<usize>,
    right: Option<usize>,
    Ghost(c): Ghost<Seq<int>>,
    Ghost(k): Ghost<int>,
)
    requires
        simbolos_ok(symbols@, c, text@),
        left == opcao(c, k),
        right == opcao(c, k + 1),
    ensures
        final(work)@ == if candidato(vocab@, segmentos(c, text@), k) {
            old(work)@.insert(esperado(vocab@, c, text@, k))
        } else {
            old(work)@
        },
        candidato(vocab@, segmentos(c, text@), k) ==> bigrama_vale(
            vocab@,
            symbols@,
            text@,
            esperado(vocab@, c, text@, k),
        ),
{
    let ghost t = text@;
    let ghost n = t.len() as int;
    if let (Some(l), Some(r)) = (left, right) {
        proof {
            assert(0 <= k < c.len() - 1);
            assert(elo_ok(symbols@, c, t, k));
            assert(elo_ok(symbols@, c, t, k + 1));
            lemma_vizinhos(c, t, k);
            assert(c[k] == l && c[k + 1] == r);
            lemma_desloc(t, c[k], c[k + 1]);
            lemma_desloc(t, c[k + 1], fim(c, k + 1, n));
            lemma_desloc(t, fim(c, k + 1, n), n);
            lemma_desloc_extremos(t);
        }
        let start: usize = symbols[l].start;
        let size: usize = symbols[l].len + symbols[r].len;
        let span = sub_str(
            text,
            start,
            start + size,
            Ghost(c[k]),
            Ghost(fim(c, k + 1, n)),
        );
        assert(segmentos(c, t)[k] == segmento(c, t, k));
        assert(segmentos(c, t)[k + 1] == segmento(c, t, k + 1));
        if let Some(id) = vocab.text_to_token(span) {
            let b = Bigram { left: l, right: r, score: vocab.score(id), size };
            assert(b == esperado(vocab@, c, t, k));
            assert(bigrama_ok(vocab@, symbols@, t, b, fim(c, k + 1, n)));
            work.push(b);
        }
    }
}

/// A candidate that still fits the lengths of its symbols is the merge of two
/// neighbouring segments.
proof fn lemma_valido(
    v: VocabModelo,
    s: Seq<Symbol>,
    c: Seq<int>,
    t: Seq<char>,
    b: Bigram,
    e: int,
) -> (k: int)
    requires
        simbolos_ok(s, c, t),
        bigrama_ok(v, s, t, b, e),
        s[b.left as int].len > 0,
        s[b.right as int].len > 0,
        s[b.left as int].len + s[b.right as int].len == b.size,
    ensures
        0 <= k < c.len() - 1,
        c[k] == b.left,
        c[k + 1] == b.right,
        candidato(v, segmentos(c, t), k),
        b == esperado(v, c, t, k),
{
    let n = t.len() as int;
    assert(c.contains(b.left as int));
    assert(c.contains(b.right as int));
    let k = choose|k: int| 0 <= k < c.len() && c[k] == b.left;
    let kr = choose|k: int| 0 <= k < c.len() && c[k] == b.right;
    let f = fim(c, k, n);
    assert(elo_ok(s, c, t, k));
    assert(elo_ok(s, c, t, kr));
    if f < b.right {
        lemma_desloc(t, f, b.right as int);
    } else if f > b.right {
        lemma_desloc(t, b.right as int, f);
    }
    assert(f == b.right);
    assert(k + 1 < c.len());
    assert(kr == k + 1) by {
        if kr < k + 1 {
            assert(c[kr] < c[k + 1]);
        } else if k + 1 < kr {
            assert(c[k + 1] < c[kr]);
        }
    }
    let g = fim(c, k + 1, n);
    lemma_vizinhos(c, t, k);
    lemma_desloc(t, b.left as int, b.right as int);
    lemma_desloc(t, b.right as int, e);
    lemma_desloc(t, b.right as int, g);
    if g < e {
        lemma_desloc(t, g, e);
    } else if e < g {
        lemma_desloc(t, e, g);
    }
    assert(g == e);
    assert(segmentos(c, t)[k] == segmento(c, t, k));
    assert(segmentos(c, t)[k + 1] == segmento(c, t, k + 1));
    lemma_desloc(t, e, n);
    lemma_desloc_extremos(t);
    k
}

/// The candidate that comes out first, if it still fits, is the best merge.
proof fn lemma_melhor_da_fila(
    v: VocabModelo,
    s: Seq<Symbol>,
    c: Seq<int>,
    t: Seq<char>,
    f: Multiset<Bigram>,
    b: Bigram,
    k: int,
)
    requires
        simbolos_ok(s, c, t),
        fila_ok(v, s, c, t, f),
        candidato(v, segmentos(c, t), k),
        b == esperado(v, c, t, k),
        forall|o: Bigram| #[trigger] f.contains(o) ==> o.cede_a(b),
    ensures
        melhor(v, segmentos(c, t), k),
{
    let segs = segmentos(c, t);
    assert forall|j: int| #[trigger] candidato(v, segs, j) implies valor(v, segs, j) < valor(
        v,
        segs,
        k,
    ) || (valor(v, segs, j) == valor(v, segs, k) && k <= j) by {
        let o = esperado(v, c, t, j);
        assert(f.contains(o));
        assert(o.cede_a(b));
        assert(segs[j] == segmento(c, t, j));
        assert(segs[j + 1] == segmento(c, t, j + 1));
        assert(segs[k] == segmento(c, t, k));
        assert(segs[k + 1] == segmento(c, t, k + 1));
        if j < k {
            assert(c[j] < c[k]);
        }
    }
}

/// Merging two neighbours takes the second one out of the chain.
proof fn lemma_segmentos_fundidos(c: Seq<int>, t: Seq<char>, k: int)
    requires
        cadeia_ok(c, t.len() as int),
        0 <= k < c.len() - 1,
    ensures
        cadeia_ok(c.remove(k + 1), t.len() as int),
        segmentos(c.remove(k + 1), t) == funde(segmentos(c, t), k),
{
    let n = t.len() as int;
    let d = c.remove(k + 1);
    lemma_vizinhos(c, t, k);
    let a = segmentos(d, t);
    let b = funde(segmentos(c, t), k);
    assert(a.len() == b.len());
    assert forall|j: int| 0 <= j < a.len() implies a[j] == b[j] by {
        if j < k {
            assert(d[j] == c[j] && fim(d, j, n) == fim(c, j, n));
        } else if j == k {
            assert(d[j] == c[j] && fim(d, j, n) == fim(c, k + 1, n));
        } else {
            assert(d[j] == c[j + 1] && fim(d, j, n) == fim(c, j + 1, n));
        }
    }
    assert(a =~= b);
}

/// The symbols after the merge of the segments `k` and `k + 1`.
proof fn lemma_simbolos_fundidos(
    s: Seq<Symbol>,
    z: Seq<Symbol>,
    c: Seq<int>,
    t: Seq<char>,
    k: int,
)
    requires
        simbolos_ok(s, c, t),
        0 <= k < c.len() - 1,
        z.len() == s.len(),
        forall|i: int| 0 <= i < s.len() ==> (#[trigger] z[i]).start == s[i].start,
        z[c[k]].len == s[c[k]].len + s[c[k + 1]].len,
        z[c[k]].next == s[c[k + 1]].next,
        z[c[k]].prev == s[c[k]].prev,
        z[c[k + 1]].len == 0,
        k + 2 < c.len() ==> z[c[k + 2]].len == s[c[k + 2]].len && z[c[k + 2]].next
            == s[c[k + 2]].next && z[c[k + 2]].prev == Some(c[k] as usize),
        forall|i: int|
            0 <= i < s.len() && i != c[k] && i != c[k + 1] && !(k + 2 < c.len() && i == c[k + 2])
                ==> #[trigger] z[i] == s[i],
    ensures
        simbolos_ok(z, c.remove(k + 1), t),
{
    let n = t.len() as int;
    let d = c.remove(k + 1);
    lemma_segmentos_fundidos(c, t, k);
    assert(elo_ok(s, c, t, k));
    assert(elo_ok(s, c, t, k + 1));
    assert forall|j: int| 0 <= j < d.len() implies #[trigger] elo_ok(z, d, t, j) by {
        if j < k {
            assert(elo_ok(s, c, t, j));
            assert(c[j] < c[k] < c[k + 1]);
            assert(k + 2 < c.len() ==> c[j] < c[k + 2]);
            assert(d[j] == c[j]);
            assert(fim(d, j, n) == fim(c, j, n));
        } else if j == k {
            assert(d[j] == c[k]);
            assert(s[c[k]].prev == opcao(c, k - 1));
            assert(s[c[k + 1]].next == opcao(c, k + 2));
        } else {
            let i = j + 1;
            assert(elo_ok(s, c, t, i));
            assert(d[j] == c[i]);
            assert(c[k] < c[k + 1] < c[i]);
            assert(k + 2 < c.len());
            if i > k + 2 {
                assert(c[k + 2] < c[i]);
            }
            assert(s[c[i]].prev == opcao(c, i - 1));
            assert(s[c[i]].next == opcao(c, i + 1));
            assert(fim(d, j, n) == fim(c, i, n));
        }
    }
    assert forall|i: int| 0 <= i < n && !d.contains(i) implies (#[trigger] z[i]).len == 0 by {
        if i == c[k] {
            assert(d[k] == i);
        } else if i == c[k + 1] {
        } else if k + 2 < c.len() && i == c[k + 2] {
            assert(d[k + 1] == i);
        } else {
            if c.contains(i) {
                let x = choose|x: int| 0 <= x < c.len() && c[x] == i;
                if x < k + 1 {
                    assert(d[x] == i);
                } else {
                    assert(d[x - 1] == i);
                }
            }
            assert(s[i].len == 0);
        }
    }
}

/// What the queue holds stays sound across a merge.
proof fn lemma_fila_fundida(
    v: VocabModelo,
    s: Seq<Symbol>,
    z: Seq<Symbol>,
    c: Seq<int>,
    t: Seq<char>,
    k: int,
    b: Bigram,
)
    requires
        bigrama_vale(v, s, t, b),
        s.len() == t.len(),
        0 <= k < c.len() - 1,
        0 <= c[k] < s.len(),
        0 <= c[k + 1] < s.len(),
        z.len() == s.len(),
        z[c[k]].len >= s[c[k]].len,
        s[c[k]].len > 0,
        z[c[k + 1]].len == 0,
        forall|i: int|
            0 <= i < s.len() && i != c[k] && i != c[k + 1] ==> (#[trigger] z[i]).len == s[i].len,
    ensures
        bigrama_vale(v, z, t, b),
{
    let e = choose|e: int| bigrama_ok(v, s, t, b, e);
    assert(bigrama_ok(v, z, t, b, e));
}

/// The candidates of the merged chain are those of the chain before it, but
/// for the two beside the merge.
proof fn lemma_candidatos_fundidos(v: VocabModelo, c: Seq<int>, t: Seq<char>, k: int, j: int)
    requires
        cadeia_ok(c, t.len() as int),
        0 <= k < c.len() - 1,
        candidato(v, segmentos(c.remove(k + 1), t), j),
        j != k - 1,
        j != k,
    ensures
        ({
            let i = if j < k {
                j
            } else {
                j + 1
            };
            &&& candidato(v, segmentos(c, t), i)
            &&& esperado(v, c.remove(k + 1), t, j) == esperado(v, c, t, i)
            &&& c[i] != c[k]
        }),
{
    let n = t.len() as int;
    let d = c.remove(k + 1);
    let i = if j < k {
        j
    } else {
        j + 1
    };
    assert(0 <= j < d.len() - 1);
    assert(d[j] == c[i] && d[j + 1] == c[i + 1]);
    assert(fim(d, j, n) == fim(c, i, n));
    assert(fim(d, j + 1, n) == fim(c, i + 1, n));
    assert(segmentos(d, t)[j] == segmento(d, t, j));
    assert(segmentos(d, t)[j + 1] == segmento(d, t, j + 1));
    assert(segmentos(c, t)[i] == segmento(c, t, i));
    assert(segmentos(c, t)[i + 1] == segmento(c, t, i + 1));
    if i < k {
        assert(c[i] < c[k]);
    } else {
        assert(c[k] < c[i]);
    }
}

/// Two symbols are never longer together than the text.
proof fn lemma_soma(s: Seq<Symbol>, c: Seq<int>, t: Seq<char>, i: int, j: int)
    requires
        simbolos_ok(s, c, t),
        0 <= i < j < s.len(),
    ensures
        s[i].len + s[j].len <= usize::MAX,
{
    let n = t.len() as int;
    lemma_desloc_extremos(t);
    if c.contains(i) && c.contains(j) {
        let a = choose|k: int| 0 <= k < c.len() && c[k] == i;
        let b = choose|k: int| 0 <= k < c.len() && c[k] == j;
        assert(elo_ok(s, c, t, a));
        assert(elo_ok(s, c, t, b));
        if b < a {
            assert(c[b] < c[a]);
        }
        assert(a < b);
        if a + 1 < b {
            assert(c[a + 1] < c[b]);
        }
        assert(fim(c, a, n) <= c[b]);
        lemma_desloc(t, c[a], fim(c, a, n));
        lemma_desloc(t, fim(c, a, n), c[b]);
        lemma_desloc(t, c[b], fim(c, b, n));
        lemma_desloc(t, fim(c, b, n), n);
    }
}

/// The merge of two neighbouring segments fits their lengths.
proof fn lemma_esperado_vale(v: VocabModelo, s: Seq<Symbol>, c: Seq<int>, t: Seq<char>, k: int)
    requires
        simbolos_ok(s, c, t),
        0 <= k < c.len() - 1,
    ensures
        ({
            let b = esperado(v, c, t, k);
            &&& s[b.left as int].len > 0
            &&& s[b.right as int].len > 0
            &&& s[b.left as int].len + s[b.right as int].len == b.size
        }),
{
    let n = t.len() as int;
    assert(elo_ok(s, c, t, k));
    assert(elo_ok(s, c, t, k + 1));
    lemma_vizinhos(c, t, k);
    lemma_desloc(t, c[k], c[k + 1]);
    lemma_desloc(t, c[k + 1], fim(c, k + 1, n));
    lemma_desloc(t, fim(c, k + 1, n), n);
    lemma_desloc_extremos(t);
}

/// One step of the merging.
proof fn lemma_passo(v: VocabModelo, segs: Seq<Seq<char>>, k: int)
    requires
        melhor(v, segs, k),
    ensures
        guloso(v, segs) == guloso(v, funde(segs, k)),
{
    lemma_melhor_existe(v, segs, k);
}

/// The queue with the merges of all neighbouring characters.
fn semeia(vocab: &Vocab, text: &str, symbols: &Vec<Symbol>) -> (work: Fila)
    requires
        simbolos_ok(symbols@, Seq::new(text@.len(), |i: int| i), text@),
    ensures
        fila_ok(vocab@, symbols@, Seq::new(text@.len(), |i: int| i), text@, work@),
{
    let ghost v = vocab@;
    let ghost t = text@;
    let ghost c = Seq::new(t.len(), |i: int| i);
    let mut work = Fila::new();
    let mut i: usize = 1;
    while i < symbols.len()
        invariant
            v == vocab@,
            t == text@,
            c == Seq::new(t.len(), |i: int| i),
            simbolos_ok(symbols@, c, t),
            1 <= i,
            forall|b: Bigram| #[trigger]
                work@.contains(b) ==> bigrama_vale(v, symbols@, t, b),
            forall|k: int| #[trigger]
                candidato(v, segmentos(c, t), k) && k < i - 1 ==> work@.contains(
                    esperado(v, c, t, k),
                ),
            i <= symbols.len() || symbols.len() == 0,
        decreases symbols.len() - i,
    {
        let ghost antes = work@;
        try_add_bigram(
            &mut work,
            vocab,
            text,
            symbols,
            Some(i - 1),
            Some(i),
            Ghost(c),
            Ghost(i - 1),
        );
        proof {
            assert forall|b: Bigram| #[trigger] work@.contains(b) implies bigrama_vale(
                v,
                symbols@,
                t,
                b,
            ) by {
                if !antes.contains(b) {
                    assert(b == esperado(v, c, t, i - 1));
                }
            }
            assert forall|k: int| #[trigger] candidato(v, segmentos(c, t), k) && k
                < i implies work@.contains(esperado(v, c, t, k)) by {
                if k < i - 1 {
                    assert(antes.contains(esperado(v, c, t, k)));
                }
            }
        }
        i += 1;
    }
    work
}

/// The queue after a merge and after its two new candidates were added.
proof fn lemma_fila_depois(
    v: VocabModelo,
    s: Seq<Symbol>,
    z: Seq<Symbol>,
    c: Seq<int>,
    t: Seq<char>,
    k: int,
    antes: Multiset<Bigram>,
    b: Bigram,
    depois: Multiset<Bigram>,
)
    requires
        simbolos_ok(s, c, t),
        fila_ok(v, s, c, t, antes),
        0 <= k < c.len() - 1,
        b == esperado(v, c, t, k),
        z.len() == s.len(),
        z[c[k]].len >= s[c[k]].len,
        s[c[k]].len > 0,
        z[c[k + 1]].len == 0,
        forall|i: int|
            0 <= i < s.len() && i != c[k] && i != c[k + 1] ==> (#[trigger] z[i]).len == s[i].len,
        ({
            let d = c.remove(k + 1);
            let segs = segmentos(d, t);
            let f1 = if candidato(v, segs, k - 1) {
                antes.remove(b).insert(esperado(v, d, t, k - 1))
            } else {
                antes.remove(b)
            };
            let f2 = if candidato(v, segs, k) {
                f1.insert(esperado(v, d, t, k))
            } else {
                f1
            };
            &&& depois == f2
            &&& candidato(v, segs, k - 1) ==> bigrama_vale(v, z, t, esperado(v, d, t, k - 1))
            &&& candidato(v, segs, k) ==> bigrama_vale(v, z, t, esperado(v, d, t, k))
        }),
    ensures
        fila_ok(v, z, c.remove(k + 1), t, depois),
{
    let d = c.remove(k + 1);
    let segs = segmentos(d, t);
    assert forall|o: Bigram| #[trigger] depois.contains(o) implies bigrama_vale(v, z, t, o) by {
        if antes.contains(o) {
            lemma_fila_fundida(v, s, z, c, t, k, o);
        }
    }
    assert forall|j: int| #[trigger] candidato(v, segs, j) implies depois.contains(
        esperado(v, d, t, j),
    ) by {
        if j != k && j != k - 1 {
            lemma_candidatos_fundidos(v, c, t, k, j);
            let i = if j < k {
                j
            } else {
                j + 1
            };
            assert(antes.contains(esperado(v, c, t, i)));
            assert(esperado(v, c, t, i).left != b.left);
        }
    }
}

/// Makes two neighbouring symbols one, under the place of the first.
fn une(
    symbols: &mut Vec<Symbol>,
    left: usize,
    right: usize,
    Ghost(c): Ghost<Seq<int>>,
    Ghost(t): Ghost<Seq<char>>,
    Ghost(k): Ghost<int>,
)
    requires
        simbolos_ok(old(symbols)@, c, t),
        0 <= k < c.len() - 1,
        c[k] == left,
        c[k + 1] == right,
        old(symbols)@[left as int].len + old(symbols)@[right as int].len <= usize::MAX,
    ensures
        simbolos_ok(final(symbols)@, c.remove(k + 1), t),
        final(symbols)@.len() == old(symbols)@.len(),
        final(symbols)@[c[k]].len >= old(symbols)@[c[k]].len,
        final(symbols)@[c[k + 1]].len == 0,
        forall|i: int|
            #![trigger final(symbols)@[i]]
            0 <= i < old(symbols)@.len() && i != c[k] && i != c[k + 1] ==> final(symbols)@[i].len
                == old(symbols)@[i].len,
{
    let ghost s0 = symbols@;
    proof {
        assert(elo_ok(s0, c, t, k));
        assert(elo_ok(s0, c, t, k + 1));
        if k + 2 < c.len() {
            assert(elo_ok(s0, c, t, k + 2));
            assert(c[k + 1] < c[k + 2]);
            assert(c[k] < c[k + 2]);
        }
    }
    let right_next: Option<usize> = symbols[right].next;
    let mut l: Symbol = symbols[left];
    let mut r: Symbol = symbols[right];
    l.len = l.len + r.len;
    l.next = right_next;
    r.len = 0;
    symbols.set(left, l);
    symbols.set(right, r);
    if let Some(x) = right_next {
        let mut p: Symbol = symbols[x];
        p.prev = Some(left);
        symbols.set(x, p);
    }
    proof {
        lemma_simbolos_fundidos(s0, symbols@, c, t, k);
    }
}

/// Merges the best pair as long as there is one. The result is the chain of the
/// segments that are left.
fn funde_tudo(vocab: &Vocab, text: &str, symbols: &mut Vec<Symbol>) -> (c: Ghost<Seq<int>>)
    requires
        simbolos_ok(old(symbols)@, Seq::new(text@.len(), |i: int| i), text@),
    ensures
        simbolos_ok(final(symbols)@, c@, text@),
        segmentos(c@, text@) == guloso(vocab@, letras(text@)),
{
    let mut work = semeia(vocab, text, &*symbols);
    let ghost v = vocab@;
    let ghost t = text@;
    let ghost n = t.len() as int;
    let ghost mut c = Seq::new(t.len(), |i: int| i);
    proof {
        assert forall|k: int| 0 <= k < n implies segmentos(c, t)[k] == letras(t)[k] by {
            assert(segmento(c, t, k) =~= seq![t[k]]);
        }
        assert(segmentos(c, t) =~= letras(t));
    }
    loop
        invariant
            v == vocab@,
            t == text@,
            n == t.len(),
            simbolos_ok(symbols@, c, t),
            fila_ok(v, symbols@, c, t, work@),
            guloso(v, segmentos(c, t)) == guloso(v, letras(t)),
        ensures
            simbolos_ok(symbols@, c, t),
            segmentos(c, t) == guloso(v, letras(t)),
        decreases c.len(), work@.len(),
    {
        let ghost fila = work@;
        match work.pop() {
            None => {
                proof {
                    let segs = segmentos(c, t);
                    assert forall|k: int| !melhor(v, segs, k) by {
                        if candidato(v, segs, k) {
                            assert(fila.contains(esperado(v, c, t, k)));
                        }
                    }
                }
                break;
            },
            Some(b) => {
                let ghost e = choose|e: int| bigrama_ok(v, symbols@, t, b, e);
                let ln: usize = symbols[b.left].len;
                let rn: usize = symbols[b.right].len;
                proof {
                    // The lengths of two symbols never add up beyond the text.
                    lemma_soma(symbols@, c, t, b.left as int, b.right as int);
                    assert(fila.remove(b).len() == fila.len() - 1);
                }
                if ln == 0 || rn == 0 || ln + rn != b.size {
                    // One of the two symbols was merged since.
                    proof {
                        assert forall|o: Bigram| #[trigger] work@.contains(o) implies fila.contains(
                            o,
                        ) by {}
                        assert forall|k: int| #[trigger]
                            candidato(v, segmentos(c, t), k) implies work@.contains(
                            esperado(v, c, t, k),
                        ) by {
                            let o = esperado(v, c, t, k);
                            assert(fila.contains(o));
                            if o == b {
                                lemma_esperado_vale(v, symbols@, c, t, k);
                            }
                        }
                    }
                    continue ;
                }
                let ghost k = lemma_valido(v, symbols@, c, t, b, e);
                let ghost s0 = symbols@;
                let ghost c0 = c;
                proof {
                    lemma_melhor_da_fila(v, s0, c, t, fila, b, k);
                    lemma_segmentos_fundidos(c0, t, k);
                    lemma_passo(v, segmentos(c0, t), k);
                }
                une(symbols, b.left, b.right, Ghost(c0), Ghost(t), Ghost(k));
                proof {
                    c = c0.remove(k + 1);
                    assert(elo_ok(symbols@, c, t, k));
                    assert(c[k] == b.left);
                }
                let left_prev: Option<usize> = symbols[b.left].prev;
                let left_next: Option<usize> = symbols[b.left].next;
                try_add_bigram(
                    &mut work,
                    vocab,
                    text,
                    &*symbols,
                    left_prev,
                    Some(b.left),
                    Ghost(c),
                    Ghost(k - 1),
                );
                try_add_bigram(
                    &mut work,
                    vocab,
                    text,
                    &*symbols,
                    Some(b.left),
                    left_next,
                    Ghost(c),
                    Ghost(k),
                );
                proof {
                    lemma_fila_depois(v, s0, symbols@, c0, t, k, fila, b, work@);
                }
            },
        }
    }
    Ghost(c)
}

/// Appends the tokens of one segment: its own token, or else one token for each
/// of its bytes. A segment of several characters always is a token, because
/// only tokens are ever merged into, so there is nothing to split again.
fn resegment(vocab: &Vocab, span: &str, output: &mut Vec<u32>)
    ensures
        final(output)@ == old(output)@ + ids_do_segmento(vocab@, span@),
{
    if let Some(id) = vocab.text_to_token(span) {
        output.push(id);
        return;
    }
    let bytes: &[u8] = span.as_bytes();
    let mut j: usize = 0;
    proof {
        assert(bytes@.take(0) =~= Seq::<u8>::empty());
    }
    while j < bytes.len()
        invariant
            j <= bytes.len(),
            bytes@ == encode_utf8(span@),
            output@ == old(output)@ + ids_de_bytes(vocab@, bytes@.take(j as int)),
        decreases bytes.len() - j,
    {
        proof {
            assert(bytes@.take(j + 1).drop_last() =~= bytes@.take(j as int));
            assert(bytes@.take(j + 1).last() == bytes@[j as int]);
        }
        if let Some(id) = vocab.byte_to_token(bytes[j]) {
            output.push(id);
        }
        j += 1;
    }
    assert(bytes@.take(j as int) =~= bytes@);
}

/// Tokenizes a text whose spaces are already escaped.
pub fn tokenize_spm(vocab: &Vocab, text: &str) -> (output: Vec<u32>)
    ensures
        output@ == spm(vocab@, text@),
{
    let mut symbols: Vec<Symbol> = divide(text);
    let Ghost(c) = funde_tudo(vocab, text, &mut symbols);
    let ghost t = text@;
    let ghost n = t.len() as int;
    let ghost segs = segmentos(c, t);
    let mut output: Vec<u32> = Vec::new();
    let ghost mut k: int = 0;
    let mut cursor: Option<usize> = if symbols.len() > 0 {
        Some(0)
    } else {
        None
    };
    proof {
        assert(segs.take(0) =~= Seq::<Seq<char>>::empty());
    }
    while cursor.is_some()
        invariant
            t == text@,
            n == t.len(),
            simbolos_ok(symbols@, c, t),
            segs == segmentos(c, t),
            0 <= k <= c.len(),
            cursor == opcao(c, k),
            output@ == ids_dos_segmentos(vocab@, segs.take(k)),
        decreases c.len() - k,
    {
        let i: usize = cursor.unwrap();
        proof {
            assert(elo_ok(symbols@, c, t, k));
            assert(c[k] == i);
            if k + 1 < c.len() {
                assert(c[k] < c[k + 1]);
            }
            lemma_desloc(t, c[k], fim(c, k, n));
            lemma_desloc(t, fim(c, k, n), n);
            lemma_desloc_extremos(t);
            assert(segs.take(k + 1).drop_last() =~= segs.take(k));
            assert(segs.take(k + 1).last() == segmento(c, t, k));
        }
        let start: usize = symbols[i].start;
        let len: usize = symbols[i].len;
        let span = sub_str(text, start, start + len, Ghost(c[k]), Ghost(fim(c, k, n)));
        resegment(vocab, span, &mut output);
        cursor = symbols[i].next;
        proof {
            k = k + 1;
        }
    }
    assert(segs.take(k) =~= segs);
    output
}

} // verus!
