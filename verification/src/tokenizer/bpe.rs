//! Byte-level BPE (GPT-2 / Qwen2).
//!
//! A text is cut in pieces; each byte of a piece becomes a printable character
//! and that character a token; then neighbouring tokens are merged, the lowest
//! rank first.

use std::collections::HashMap;

use regex::Regex;
use vstd::prelude::*;
use vstd::string::*;
use vstd::utf8::*;

use crate::tokenizer::expressao::{acha, casamentos, compila, compilado, em_ordem};
use crate::tokenizer::pretok::Pretok;
use crate::tokenizer::texto::{de_utf8_com_perdas, utf8_com_perdas};
use crate::tokenizer::vocab::{chave_par, rank, Vocab, VocabModelo};

verus! {

// ---------------------------------------------------------------------------
// Bytes and their characters
// ---------------------------------------------------------------------------

/// The character that stands for a byte. The printable ones stand for
/// themselves; the other 68 are numbered from U+0100 on.
pub open spec fn char_do_byte(b: u8) -> char {
    if b <= 32 {
        (0x100 + b) as char
    } else if 127 <= b <= 160 {
        (0x100 + 33 + (b - 127)) as char
    } else if b == 173 {
        0x143 as char
    } else {
        b as char
    }
}

/// The byte that a character stands for.
pub open spec fn byte_do_char(c: char) -> Option<u8> {
    let n = c as int;
    if 0x100 <= n <= 0x120 {
        Some((n - 0x100) as u8)
    } else if 0x121 <= n <= 0x142 {
        Some((n - 0x121 + 127) as u8)
    } else if n == 0x143 {
        Some(173)
    } else if 33 <= n <= 126 || 161 <= n <= 172 || 174 <= n <= 255 {
        Some(n as u8)
    } else {
        None
    }
}

/// The two tables are inverse to each other: every byte has a character of its
/// own, from which it is found again.
pub proof fn lei_tabela_inversa(b: u8, c: char)
    ensures
        byte_do_char(char_do_byte(b)) == Some(b),
        byte_do_char(c) == Some(b) <==> c == char_do_byte(b),
{
}

/// The table of the 256 characters.
pub fn byte_table() -> (t: [char; 256])
    ensures
        forall|i: int| 0 <= i < 256 ==> #[trigger] t@[i] == char_do_byte(i as u8),
{
    let mut t: [char; 256] = ['\0'; 256];
    let mut hi: u32 = 256;
    let mut i: usize = 0;
    while i < 256
        invariant
            i <= 256,
            hi == 256 + (if i <= 33 {
                i as int
            } else if i <= 127 {
                33
            } else if i <= 161 {
                33 + (i - 127)
            } else if i <= 173 {
                67
            } else {
                68
            }),
            forall|k: int| 0 <= k < i ==> #[trigger] t@[k] == char_do_byte(k as u8),
        decreases 256 - i,
    {
        let c: char = if (33 <= i && i <= 126) || (161 <= i && i <= 172) || 174 <= i {
            (i as u8) as char
        } else {
            let c: char = match char::from_u32(hi) {
                Some(c) => c,
                None => '\u{FFFD}',
            };
            hi += 1;
            c
        };
        t[i] = c;
        i += 1;
    }
    t
}

/// The byte that a character stands for.
fn byte_de(c: char) -> (r: Option<u8>)
    ensures
        r == byte_do_char(c),
{
    let n: u32 = c as u32;
    if 0x100 <= n && n <= 0x120 {
        Some((n - 0x100) as u8)
    } else if 0x121 <= n && n <= 0x142 {
        Some((n - 0x121 + 127) as u8)
    } else if n == 0x143 {
        Some(173)
    } else if (33 <= n && n <= 126) || (161 <= n && n <= 172) || (174 <= n && n <= 255) {
        Some(n as u8)
    } else {
        None
    }
}

/// Inverse of `byte_table`, keyed by the code point of the character.
pub fn unicode_to_byte() -> (m: HashMap<u32, u8>)
    ensures
        forall|c: char|
            #![trigger m@.contains_key(c as u32)]
            m@.contains_key(c as u32) <==> byte_do_char(c) is Some,
        forall|c: char|
            #![trigger m@[c as u32]]
            byte_do_char(c) matches Some(b) ==> m@[c as u32] == b,
        forall|k: u32| #[trigger] m@.contains_key(k) ==> exists|b: u8| k == char_do_byte(b) as u32,
        m@.len() == 256,
{
    broadcast use vstd::std_specs::hash::group_hash_axioms;

    let bt = byte_table();
    let mut m: HashMap<u32, u8> = HashMap::new();
    let mut i: usize = 0;
    while i < 256
        invariant
            i <= 256,
            forall|k: int| 0 <= k < 256 ==> #[trigger] bt@[k] == char_do_byte(k as u8),
            forall|c: char|
                #![trigger m@.contains_key(c as u32)]
                m@.contains_key(c as u32) <==> (byte_do_char(c) matches Some(b) && b < i),
            forall|c: char|
                #![trigger m@[c as u32]]
                byte_do_char(c) is Some && byte_do_char(c)->0 < i ==> m@[c as u32]
                    == byte_do_char(c)->0,
            forall|k: u32| #[trigger]
                m@.contains_key(k) ==> exists|b: u8| k == char_do_byte(b) as u32,
            m@.dom().finite(),
            m@.len() == i,
        decreases 256 - i,
    {
        broadcast use vstd::std_specs::hash::group_hash_axioms;

        let ch: char = bt[i];
        let ghost antes = m@;
        m.insert(ch as u32, i as u8);
        proof {
            assert(bt@[i as int] == char_do_byte(i as u8));
            lei_tabela_inversa(i as u8, ch);
            assert(!antes.contains_key(ch as u32));
            assert forall|c: char|
                #![trigger m@.contains_key(c as u32)]
                m@.contains_key(c as u32) <==> (byte_do_char(c) matches Some(b) && b < i + 1) by {
                lei_tabela_inversa(i as u8, c);
                assert(antes.contains_key(c as u32) <==> (byte_do_char(c) matches Some(b) && b
                    < i));
            }
            assert forall|c: char|
                #![trigger m@[c as u32]]
                byte_do_char(c) is Some && byte_do_char(c)->0 < i + 1 implies m@[c as u32]
                == byte_do_char(c)->0 by {
                lei_tabela_inversa(i as u8, c);
                if byte_do_char(c)->0 < i {
                    assert(antes[c as u32] == byte_do_char(c)->0);
                }
            }
        }
        i += 1;
    }
    m
}

// ---------------------------------------------------------------------------
// Decoding
// ---------------------------------------------------------------------------

/// The bytes that a character of a token text stands for; one outside of the
/// table stands for its own UTF-8 bytes.
pub open spec fn bytes_do_char(c: char) -> Seq<u8> {
    match byte_do_char(c) {
        Some(b) => seq![b],
        None => encode_utf8(seq![c]),
    }
}

/// The bytes that a token text stands for.
pub open spec fn decodificado(t: Seq<char>) -> Seq<u8>
    decreases t.len(),
{
    if t.len() == 0 {
        Seq::empty()
    } else {
        decodificado(t.drop_last()) + bytes_do_char(t.last())
    }
}

/// The bytes of two token texts one after the other are those of the first and
/// then those of the second.
pub proof fn lei_decodificado_concat(a: Seq<char>, b: Seq<char>)
    ensures
        decodificado(a + b) == decodificado(a) + decodificado(b),
    decreases b.len(),
{
    if b.len() == 0 {
        assert(a + b =~= a);
        assert(decodificado(a) + decodificado(b) =~= decodificado(a));
    } else {
        assert((a + b).drop_last() =~= a + b.drop_last());
        lei_decodificado_concat(a, b.drop_last());
        assert(decodificado(a + b) =~= decodificado(a) + decodificado(b));
    }
}

/// Decodes token texts to the bytes that they stand for. The result can end in
/// the middle of a character.
pub fn decode_bpe_bytes(encoded: &str) -> (bytes: Vec<u8>)
    ensures
        bytes@ == decodificado(encoded@),
{
    let ghost t = encoded@;
    let mut bytes: Vec<u8> = Vec::new();
    proof {
        assert(t.take(0) =~= Seq::<char>::empty());
    }
    for c in it: encoded.chars()
        invariant
            it.seq() == t,
            bytes@ == decodificado(t.take(it.index() as int)),
    {
        proof {
            let i = it.index() as int;
            assert(t.take(i + 1).drop_last() =~= t.take(i));
            assert(t.take(i + 1).last() == c);
        }
        match byte_de(c) {
            Some(b) => {
                bytes.push(b);
            },
            None => {
                let mut um: String = String::new();
                um.push(c);
                assert(um@ =~= seq![c]);
                bytes.extend_from_slice(um.as_str().as_bytes());
            },
        }
    }
    assert(t.take(t.len() as int) =~= t);
    bytes
}

/// Like `decode_bpe_bytes`, as text: what is no valid UTF-8 is replaced.
pub fn decode_bpe(encoded: &str) -> (r: String)
    ensures
        r@ == utf8_com_perdas(decodificado(encoded@)),
        valid_utf8(decodificado(encoded@)) ==> r@ == decode_utf8(decodificado(encoded@)),
{
    let bytes = decode_bpe_bytes(encoded);
    de_utf8_com_perdas(bytes.as_slice())
}

// ---------------------------------------------------------------------------
// Pieces
// ---------------------------------------------------------------------------

/// The pattern of the Qwen2 / GPT-4 pre-tokenizer.
pub const PADRAO_QWEN2: &'static str = r"(?:'[sStTdDmM]|'re|'RE|'ve|'VE|'ll|'LL)|[^\r\n\p{L}\p{N}]?\p{L}+|\p{N}| ?[^\s\p{L}\p{N}]+[\r\n]*|\s*[\r\n]+|\s+";

/// The pattern of the Qwen3.5 pre-tokenizer: a combining mark goes with the
/// letters before it and not with punctuation.
pub const PADRAO_QWEN35: &'static str = r"(?:'[sStTdDmM]|'re|'RE|'ve|'VE|'ll|'LL)|[^\r\n\p{L}\p{N}]?[\p{L}\p{M}]+|\p{N}| ?[^\s\p{L}\p{M}\p{N}]+[\r\n]*|\s*[\r\n]+|\s+";

pub open spec fn padrao(pre: Pretok) -> Seq<char> {
    match pre {
        Pretok::Qwen2 => PADRAO_QWEN2@,
        Pretok::Qwen35 => PADRAO_QWEN35@,
    }
}

/// The expression that cuts a text in pieces; `None` if it does not compile.
pub fn pretok_re(pre: Pretok) -> (r: Option<Regex>)
    ensures
        r == compilado(padrao(pre)),
{
    match pre {
        Pretok::Qwen2 => compila(PADRAO_QWEN2),
        Pretok::Qwen35 => compila(PADRAO_QWEN35),
    }
}

// ---------------------------------------------------------------------------
// Tokens of a piece
// ---------------------------------------------------------------------------

/// The tokens of the single bytes of a piece; a byte without one is left out.
pub open spec fn ids_iniciais(v: VocabModelo, b: Seq<u8>) -> Seq<u32>
    decreases b.len(),
{
    if b.len() == 0 {
        Seq::empty()
    } else {
        let r = ids_iniciais(v, b.drop_last());
        match v.id(seq![char_do_byte(b.last())]) {
            Some(id) => r.push(id),
            None => r,
        }
    }
}

/// The rank of the merge of the tokens `i` and `i + 1`.
pub open spec fn rank_em(m: Map<u64, u32>, ids: Seq<u32>, i: int) -> Option<u32> {
    if 0 <= i < ids.len() - 1 {
        rank(m, ids[i], ids[i + 1])
    } else {
        None
    }
}

/// Whether the merge at `i` has the lowest rank, and is the leftmost of those
/// that have it.
pub open spec fn menor_rank(m: Map<u64, u32>, ids: Seq<u32>, i: int) -> bool {
    &&& rank_em(m, ids, i) is Some
    &&& forall|j: int|
        (#[trigger] rank_em(m, ids, j)) is Some ==> rank_em(m, ids, i)->0 < rank_em(m, ids, j)->0
            || (rank_em(m, ids, i)->0 == rank_em(m, ids, j)->0 && i <= j)
}

/// The text of a token, empty for an id that is none.
pub open spec fn texto_ou_nada(v: VocabModelo, id: u32) -> Seq<char> {
    match v.texto(id) {
        Some(t) => t,
        None => Seq::empty(),
    }
}

/// The token of the joint text of the tokens `i` and `i + 1`.
pub open spec fn id_fundido(v: VocabModelo, ids: Seq<u32>, i: int) -> Option<u32> {
    v.id(texto_ou_nada(v, ids[i]) + texto_ou_nada(v, ids[i + 1]))
}

/// The tokens with `i` and `i + 1` made the one token `m`.
pub open spec fn troca_par(ids: Seq<u32>, i: int, m: u32) -> Seq<u32> {
    ids.update(i, m).remove(i + 1)
}

/// The tokens after every merge of a table of ranks, the lowest rank first each
/// time. A merge whose joint text is no token ends it.
pub open spec fn fundidos(v: VocabModelo, m: Map<u64, u32>, ids: Seq<u32>) -> Seq<u32>
    decreases ids.len(),
{
    if exists|i: int| menor_rank(m, ids, i) {
        let i = choose|i: int| menor_rank(m, ids, i);
        match id_fundido(v, ids, i) {
            Some(id) => fundidos(v, m, troca_par(ids, i, id)),
            None => ids,
        }
    } else {
        ids
    }
}

/// The tokens of a piece.
pub open spec fn ids_do_pedaco(v: VocabModelo, m: Map<u64, u32>, b: Seq<u8>) -> Seq<u32> {
    fundidos(v, m, ids_iniciais(v, b))
}

/// The tokens of the pieces of a text, given by their byte ranges.
pub open spec fn bpe(
    v: VocabModelo,
    m: Map<u64, u32>,
    bytes: Seq<u8>,
    pedacos: Seq<(usize, usize)>,
) -> Seq<u32>
    decreases pedacos.len(),
{
    if pedacos.len() == 0 {
        Seq::empty()
    } else {
        bpe(v, m, bytes, pedacos.drop_last()) + ids_do_pedaco(
            v,
            m,
            bytes.subrange(pedacos.last().0 as int, pedacos.last().1 as int),
        )
    }
}

/// The tokens of the single bytes of a piece.
fn iniciais(vocab: &Vocab, bt: &[char; 256], b: &[u8], ini: usize, fim: usize) -> (ids: Vec<u32>)
    requires
        ini <= fim <= b.len(),
        forall|i: int| 0 <= i < 256 ==> #[trigger] bt@[i] == char_do_byte(i as u8),
    ensures
        ids@ == ids_iniciais(vocab@, b@.subrange(ini as int, fim as int)),
{
    let mut ids: Vec<u32> = Vec::new();
    let ghost p = b@.subrange(ini as int, fim as int);
    let mut i: usize = ini;
    proof {
        assert(p.take(0) =~= Seq::<u8>::empty());
    }
    while i < fim
        invariant
            ini <= i <= fim <= b.len(),
            p == b@.subrange(ini as int, fim as int),
            forall|i: int| 0 <= i < 256 ==> #[trigger] bt@[i] == char_do_byte(i as u8),
            ids@ == ids_iniciais(vocab@, p.take(i - ini)),
        decreases fim - i,
    {
        let c: char = bt[b[i] as usize];
        let mut um: String = String::new();
        um.push(c);
        proof {
            assert(um@ =~= seq![c]);
            assert(p.take(i - ini + 1).drop_last() =~= p.take(i - ini));
            assert(p.take(i - ini + 1).last() == b@[i as int]);
        }
        if let Some(id) = vocab.text_to_token(um.as_str()) {
            ids.push(id);
        }
        i += 1;
    }
    assert(p.take(fim - ini) =~= p);
    ids
}

/// Looks up the rank of a pair.
fn rank_de(ranks: &HashMap<u64, u32>, a: u32, b: u32) -> (r: Option<u32>)
    ensures
        r == rank(ranks@, a, b),
{
    broadcast use vstd::std_specs::hash::group_hash_axioms;

    let k: u64 = (a as u64) * 0x1_0000_0000 + (b as u64);
    assert(k == chave_par(a, b));
    match ranks.get(&k) {
        Some(r) => Some(*r),
        None => None,
    }
}

/// The leftmost pair of the lowest rank.
fn acha_menor(ranks: &HashMap<u64, u32>, ids: &Vec<u32>) -> (r: Option<usize>)
    ensures
        match r {
            Some(i) => menor_rank(ranks@, ids@, i as int),
            None => forall|i: int| rank_em(ranks@, ids@, i) is None,
        },
{
    let ghost m = ranks@;
    let mut melhor: Option<(usize, u32)> = None;
    let mut i: usize = 0;
    while i + 1 < ids.len()
        invariant
            m == ranks@,
            i <= ids.len(),
            i + 1 <= ids.len() || i == 0,
            match melhor {
                None => forall|j: int| 0 <= j < i ==> rank_em(m, ids@, j) is None,
                Some((p, r)) => {
                    &&& p < i
                    &&& rank_em(m, ids@, p as int) == Some(r)
                    &&& forall|j: int|
                        0 <= j < i && (#[trigger] rank_em(m, ids@, j)) is Some ==> r < rank_em(
                            m,
                            ids@,
                            j,
                        )->0 || (r == rank_em(m, ids@, j)->0 && p <= j)
                },
            },
        decreases ids.len() - i,
    {
        let r = rank_de(ranks, ids[i], ids[i + 1]);
        assert(r == rank_em(m, ids@, i as int));
        if let Some(r) = r {
            match melhor {
                None => {
                    melhor = Some((i, r));
                },
                Some((_, menor)) => {
                    if r < menor {
                        melhor = Some((i, r));
                    }
                },
            }
        }
        i += 1;
    }
    match melhor {
        Some((p, _)) => Some(p),
        None => None,
    }
}

/// Merges the tokens of a piece until no merge is left.
fn funde_pedaco(vocab: &Vocab, ranks: &HashMap<u64, u32>, ids: &mut Vec<u32>)
    ensures
        final(ids)@ == fundidos(vocab@, ranks@, old(ids)@),
{
    let ghost v = vocab@;
    let ghost m = ranks@;
    loop
        invariant
            v == vocab@,
            m == ranks@,
            fundidos(v, m, ids@) == fundidos(v, m, old(ids)@),
        ensures
            ids@ == fundidos(v, m, old(ids)@),
        decreases ids.len(),
    {
        let pos: usize = match acha_menor(ranks, &*ids) {
            Some(p) => p,
            None => {
                break;
            },
        };
        proof {
            assert(menor_rank(m, ids@, pos as int));
            assert forall|i: int| menor_rank(m, ids@, i) implies i == pos by {
                assert(rank_em(m, ids@, i) is Some);
                assert(rank_em(m, ids@, pos as int) is Some);
            }
        }
        let mut junto: String = String::new();
        if let Some(a) = vocab.token_text(ids[pos]) {
            junto.append(a);
        }
        assert(junto@ =~= texto_ou_nada(v, ids@[pos as int]));
        if let Some(b) = vocab.token_text(ids[pos + 1]) {
            junto.append(b);
        }
        assert(junto@ =~= texto_ou_nada(v, ids@[pos as int]) + texto_ou_nada(v, ids@[pos + 1]));
        match vocab.text_to_token(junto.as_str()) {
            Some(id) => {
                ids.set(pos, id);
                ids.remove(pos + 1);
            },
            None => {
                break;
            },
        }
    }
}

/// The tokens of the pieces of a text, given by their byte ranges, with any table
/// of ranks.
pub fn tokenize_pieces(
    vocab: &Vocab,
    merge_ranks: &HashMap<u64, u32>,
    text: &str,
    pedacos: &Vec<(usize, usize)>,
) -> (output: Vec<u32>)
    requires
        em_ordem(pedacos@, encode_utf8(text@)),
    ensures
        output@ == bpe(vocab@, merge_ranks@, encode_utf8(text@), pedacos@),
{
    let bt = byte_table();
    let b: &[u8] = text.as_bytes();
    let mut output: Vec<u32> = Vec::new();
    let mut k: usize = 0;
    proof {
        assert(pedacos@.take(0) =~= Seq::<(usize, usize)>::empty());
    }
    while k < pedacos.len()
        invariant
            em_ordem(pedacos@, b@),
            b@ == encode_utf8(text@),
            forall|i: int| 0 <= i < 256 ==> #[trigger] bt@[i] == char_do_byte(i as u8),
            k <= pedacos.len(),
            output@ == bpe(vocab@, merge_ranks@, b@, pedacos@.take(k as int)),
        decreases pedacos.len() - k,
    {
        let (ini, fim) = pedacos[k];
        proof {
            assert(pedacos@[k as int].0 <= pedacos@[k as int].1);
            assert(pedacos@.take(k + 1).drop_last() =~= pedacos@.take(k as int));
            assert(pedacos@.take(k + 1).last() == pedacos@[k as int]);
        }
        let mut ids = iniciais(vocab, &bt, b, ini, fim);
        funde_pedaco(vocab, merge_ranks, &mut ids);
        output.append(&mut ids);
        k += 1;
    }
    assert(pedacos@.take(k as int) =~= pedacos@);
    output
}

/// Tokenizes a text with the pieces that the expression cuts it in, with any table
/// of ranks.
pub fn tokenize_bpe(
    vocab: &Vocab,
    merge_ranks: &HashMap<u64, u32>,
    re: &Regex,
    text: &str,
) -> (output: Vec<u32>)
    ensures
        output@ == bpe(vocab@, merge_ranks@, encode_utf8(text@), casamentos(*re, text@)),
        em_ordem(casamentos(*re, text@), encode_utf8(text@)),
{
    let pedacos = acha(re, text);
    tokenize_pieces(vocab, merge_ranks, text, &pedacos)
}

} // verus!
