//! Regular expressions of the `regex` crate, as the tokenizers use them.

use regex::Regex;
use vstd::prelude::*;
use vstd::string::*;
use vstd::utf8::*;

verus! {

/// A compiled regular expression of the `regex` crate.
#[verifier::external_type_specification]
#[verifier::external_body]
pub struct ExRegex(regex::Regex);

/// What `regex::Regex::new` makes of a pattern: `None` stands for the patterns
/// that it refuses.
pub uninterp spec fn compilado(padrao: Seq<char>) -> Option<regex::Regex>;

/// The byte ranges of the successive matches of an expression in a text.
pub uninterp spec fn casamentos(re: regex::Regex, texto: Seq<char>) -> Seq<(usize, usize)>;

/// `regex::Regex::new`. Which patterns compile, and what they match, is left
/// unsaid: the result is only claimed to depend on the pattern alone.
#[verifier::external_body]
pub(crate) fn compila(padrao: &str) -> (r: Option<Regex>)
    ensures
        r == compilado(padrao@),
{
    Regex::new(padrao).ok()
}

/// That the ranges are in order, do not overlap and lie on the character
/// boundaries of the text.
pub open spec fn em_ordem(m: Seq<(usize, usize)>, bytes: Seq<u8>) -> bool {
    &&& forall|i: int|
        0 <= i < m.len() ==> {
            &&& (#[trigger] m[i]).0 <= m[i].1 <= bytes.len()
            &&& is_char_boundary(bytes, m[i].0 as int)
            &&& is_char_boundary(bytes, m[i].1 as int)
        }
    &&& forall|i: int, j: int|
        0 <= i < j < m.len() ==> (#[trigger] m[i]).1 <= (#[trigger] m[j]).0
}

/// The characters that have a meaning of their own in a pattern.
pub open spec fn meta(c: char) -> bool {
    c == '\\' || c == '.' || c == '+' || c == '*' || c == '?' || c == '(' || c == ')' || c == '|'
        || c == '[' || c == ']' || c == '{' || c == '}' || c == '^' || c == '$' || c == '#' || c
        == '&' || c == '-' || c == '~'
}

/// The pattern that matches a text literally.
pub open spec fn escapado(t: Seq<char>) -> Seq<char>
    decreases t.len(),
{
    if t.len() == 0 {
        Seq::empty()
    } else if meta(t.last()) {
        escapado(t.drop_last()).push('\\').push(t.last())
    } else {
        escapado(t.drop_last()).push(t.last())
    }
}

/// The pattern that matches one of the texts literally.
pub open spec fn alternacao(lits: Seq<Seq<char>>) -> Seq<char>
    decreases lits.len(),
{
    if lits.len() == 0 {
        Seq::empty()
    } else if lits.len() == 1 {
        escapado(lits[0])
    } else {
        alternacao(lits.drop_last()).push('|') + escapado(lits.last())
    }
}

/// That none of the texts is empty.
pub open spec fn cheios(lits: Seq<Seq<char>>) -> bool {
    forall|i: int| 0 <= i < lits.len() ==> (#[trigger] lits[i]).len() > 0
}

/// Whether the text stands at `p`.
pub open spec fn ocorre(lit: Seq<char>, bytes: Seq<u8>, p: int) -> bool {
    let e = encode_utf8(lit);
    0 <= p && p + e.len() <= bytes.len() && bytes.subrange(p, p + e.len()) == e
}

/// The first of the texts that stands at `p`.
pub open spec fn literal_em(lits: Seq<Seq<char>>, bytes: Seq<u8>, p: int) -> Option<Seq<char>>
    decreases lits.len(),
{
    if lits.len() == 0 {
        None
    } else if ocorre(lits[0], bytes, p) {
        Some(lits[0])
    } else {
        literal_em(lits.drop_first(), bytes, p)
    }
}

/// The byte ranges of the texts from `p` on: at each place the first text that
/// stands there is taken, and what follows it is searched.
pub open spec fn literais(lits: Seq<Seq<char>>, bytes: Seq<u8>, p: int) -> Seq<(usize, usize)>
    decreases bytes.len() - p,
{
    if p >= bytes.len() {
        Seq::empty()
    } else {
        match literal_em(lits, bytes, p) {
            Some(l) => {
                let f = p + encode_utf8(l).len();
                if p < f <= bytes.len() {
                    seq![(p as usize, f as usize)] + literais(lits, bytes, f)
                } else {
                    literais(lits, bytes, p + 1)
                }
            },
            None => literais(lits, bytes, p + 1),
        }
    }
}

/// `regex::Regex::find_iter`, with the byte range of each match. The matches
/// come in text order, do not overlap, and start and end on character
/// boundaries. For an alternation of texts they are the leftmost ones, and of
/// those that start at the same place the one that stands first in the pattern.
/// Which ones they are for another expression is only claimed to depend on the
/// expression and the text.
#[verifier::external_body]
pub(crate) fn acha(re: &Regex, texto: &str) -> (r: Vec<(usize, usize)>)
    ensures
        r@ == casamentos(*re, texto@),
        em_ordem(r@, encode_utf8(texto@)),
        forall|lits: Seq<Seq<char>>| #[trigger]
            compilado(alternacao(lits)) == Some(*re) && lits.len() > 0 && cheios(lits) ==> r@
                == literais(lits, encode_utf8(texto@), 0),
{
    re.find_iter(texto).map(|m| (m.start(), m.end())).collect()
}

/// `regex::escape`: puts a backslash before each character that has a meaning
/// in a pattern, and keeps the others.
#[verifier::external_body]
pub(crate) fn escapa(texto: &str) -> (r: String)
    ensures
        r@ == escapado(texto@),
{
    regex::escape(texto)
}

} // verus!
