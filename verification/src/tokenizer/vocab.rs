//! The vocabulary: token texts, scores, types, merges and special ids.

use std::collections::HashMap;

use vstd::hash_map::StringHashMap;
use vstd::prelude::*;
use vstd::seq_lib::*;

use crate::tokenizer::error::{ErroModelo, TokenizerError};
use crate::tokenizer::gguf::{valor_em, GgufFile, GgufValue, ValorModelo};
use crate::tokenizer::pretok::Pretok;
use crate::tokenizer::texto::{mesmo_texto, textos};

verus! {

/// The bits of the single precision negative infinity.
pub const MENOS_INFINITO: u32 = 0xFF80_0000;

/// A vocabulary as plain data. A token's id is its position in `tokens`;
/// a score is given by the bits of its single precision float.
pub struct VocabModelo {
    pub tokens: Seq<Seq<char>>,
    pub scores: Seq<u32>,
    pub tipos: Seq<i32>,
    pub bos: u32,
    pub eos: u32,
    pub unk: u32,
    pub merges: Seq<(u32, u32)>,
    pub pre: Pretok,
}

/// The id of a text: the position of its first occurrence among the tokens.
pub open spec fn id_em(tokens: Seq<Seq<char>>, t: Seq<char>) -> Option<u32> {
    match tokens.index_of_first(t) {
        Some(i) => Some(i as u32),
        None => None,
    }
}

/// A digit of the upper-case hexadecimal notation.
pub open spec fn digito_hex(n: int) -> char {
    if n < 10 {
        ('0' as int + n) as char
    } else {
        ('A' as int + n - 10) as char
    }
}

/// The text of the token that stands for one raw byte: `<0xXX>`.
pub open spec fn texto_do_byte(b: u8) -> Seq<char> {
    seq!['<', '0', 'x', digito_hex(b as int / 16), digito_hex(b as int % 16), '>']
}

/// The value of a digit of the upper-case hexadecimal notation.
pub open spec fn valor_hex(c: char) -> Option<int> {
    if '0' <= c && c <= '9' {
        Some(c as int - '0' as int)
    } else if 'A' <= c && c <= 'F' {
        Some(c as int - 'A' as int + 10)
    } else {
        None
    }
}

/// The raw byte of a token text `<0xXX>`.
pub open spec fn byte_do_texto(t: Seq<char>) -> Option<u8> {
    if t.len() == 6 && t[0] == '<' && t[1] == '0' && t[2] == 'x' && t[5] == '>' && valor_hex(
        t[3],
    ) is Some && valor_hex(t[4]) is Some {
        Some((valor_hex(t[3])->0 * 16 + valor_hex(t[4])->0) as u8)
    } else {
        None
    }
}

/// The text of a byte is read back as that byte, and no other text is.
pub proof fn lei_texto_do_byte(b: u8, t: Seq<char>)
    ensures
        byte_do_texto(t) == Some(b) <==> t == texto_do_byte(b),
{
    if byte_do_texto(t) == Some(b) {
        assert(t =~= texto_do_byte(b));
    }
}

/// The type of the tokens that stand for one raw byte.
pub const TIPO_BYTE: i32 = 6;

impl VocabModelo {
    pub open spec fn id(self, t: Seq<char>) -> Option<u32> {
        id_em(self.tokens, t)
    }

    pub open spec fn score(self, id: u32) -> u32 {
        if id < self.scores.len() {
            self.scores[id as int]
        } else {
            MENOS_INFINITO
        }
    }

    pub open spec fn texto(self, id: u32) -> Option<Seq<char>> {
        if id < self.tokens.len() {
            Some(self.tokens[id as int])
        } else {
            None
        }
    }

    /// The token of one raw byte: `<0xXX>`, or else, for an ASCII byte, the
    /// token that is that one character.
    pub open spec fn id_do_byte(self, b: u8) -> Option<u32> {
        match self.id(texto_do_byte(b)) {
            Some(id) => Some(id),
            None => if b < 0x80 {
                self.id(seq![b as char])
            } else {
                None
            },
        }
    }

    /// The raw byte that a token stands for: it is of the type of the bytes, and
    /// its text is that of a byte.
    pub open spec fn byte(self, id: u32) -> Option<u8> {
        if id < self.tokens.len() && id < self.tipos.len() && self.tipos[id as int] == TIPO_BYTE {
            byte_do_texto(self.tokens[id as int])
        } else {
            None
        }
    }

    /// Whether the token is one that stands for itself in a prompt: a control
    /// token (type 3) or a user-defined one (type 4).
    pub open spec fn especial(self, i: int) -> bool {
        &&& 0 <= i < self.tokens.len()
        &&& i < self.tipos.len()
        &&& (self.tipos[i] == 3 || self.tipos[i] == 4)
    }
}

/// The key of the pair in the table of ranks.
pub open spec fn chave_par(a: u32, b: u32) -> u64 {
    (a * 0x1_0000_0000 + b) as u64
}

/// The pair of a key.
pub open spec fn par_da_chave(k: u64) -> (u32, u32) {
    ((k / 0x1_0000_0000) as u32, (k % 0x1_0000_0000) as u32)
}

/// The table of the ranks of merges: the rank of a pair is its first position.
pub open spec fn ranks_de(merges: Seq<(u32, u32)>) -> Map<u64, u32> {
    Map::new(
        |k: u64| merges.index_of_first(par_da_chave(k)) is Some,
        |k: u64| merges.index_of_first(par_da_chave(k))->0 as u32,
    )
}

/// The rank of a pair in a table.
pub open spec fn rank(m: Map<u64, u32>, a: u32, b: u32) -> Option<u32> {
    if m.contains_key(chave_par(a, b)) {
        Some(m[chave_par(a, b)])
    } else {
        None
    }
}

/// The rank of a pair in the table of its merges is its first position among
/// them.
pub proof fn lei_rank_e_a_posicao(merges: Seq<(u32, u32)>, a: u32, b: u32)
    ensures
        rank(ranks_de(merges), a, b) == match merges.index_of_first((a, b)) {
            Some(i) => Some(i as u32),
            None => None,
        },
{
    lemma_par_da_chave(chave_par(a, b), a, b);
}

proof fn lemma_par_da_chave(k: u64, a: u32, b: u32)
    ensures
        par_da_chave(k) == (a, b) <==> k == chave_par(a, b),
{
}

pub proof fn lemma_primeiro<T>(s: Seq<T>, x: T)
    ensures
        match s.index_of_first(x) {
            Some(i) => 0 <= i < s.len() && s[i] == x && (forall|j: int| 0 <= j < i ==> s[j] != x),
            None => forall|j: int| 0 <= j < s.len() ==> s[j] != x,
        },
{
    s.index_of_first_ensures(x);
    if s.index_of_first(x) is None {
        assert forall|j: int| 0 <= j < s.len() implies s[j] != x by {
            if s[j] == x {
                assert(s.contains(x));
            }
        }
    }
}

/// The first occurrence in a list that grew by one element.
pub proof fn lemma_primeiro_push<T>(s: Seq<T>, n: T, x: T)
    ensures
        s.push(n).index_of_first(x) == match s.index_of_first(x) {
            Some(i) => Some(i),
            None => if n == x {
                Some(s.len() as int)
            } else {
                None::<int>
            },
        },
{
    lemma_primeiro(s, x);
    lemma_primeiro(s.push(n), x);
    let p = s.push(n);
    match s.index_of_first(x) {
        Some(i) => {
            assert(p[i] == x);
            let k = p.index_of_first(x)->0;
            if k < i {
                assert(p[k] == s[k]);
            }
        },
        None => {
            if n == x {
                assert(p[s.len() as int] == x);
                let k = p.index_of_first(x)->0;
                if k < s.len() {
                    assert(p[k] == s[k]);
                }
            } else {
                if let Some(k) = p.index_of_first(x) {
                    if k < s.len() {
                        assert(p[k] == s[k]);
                    }
                }
            }
        },
    }
}

/// Vocabulary of a model. The table of ids is kept beside the token texts; on
/// equal texts the first id wins.
pub struct Vocab {
    tokens: Vec<String>,
    scores: Vec<u32>,
    token_types: Vec<i32>,
    token_to_id: StringHashMap<u32>,
    merges: Vec<(u32, u32)>,
    bos_id: u32,
    eos_id: u32,
    unk_id: u32,
    pre: Pretok,
}

/// That the table holds exactly the ids of the tokens.
spec fn tabela_de_ids(m: Map<Seq<char>, u32>, tokens: Seq<Seq<char>>) -> bool {
    &&& forall|t: Seq<char>| #[trigger]
        m.contains_key(t) <==> tokens.index_of_first(t) is Some
    &&& forall|t: Seq<char>|
        tokens.index_of_first(t) matches Some(i) ==> #[trigger] m[t] == i as u32
}

impl View for Vocab {
    type V = VocabModelo;

    closed spec fn view(&self) -> VocabModelo {
        VocabModelo {
            tokens: textos(self.tokens@),
            scores: self.scores@,
            tipos: self.token_types@,
            bos: self.bos_id,
            eos: self.eos_id,
            unk: self.unk_id,
            merges: self.merges@,
            pre: self.pre,
        }
    }
}

impl Vocab {
    #[verifier::type_invariant]
    spec fn inv(&self) -> bool {
        tabela_de_ids(self.token_to_id@, textos(self.tokens@))
    }

    /// A vocabulary from its parts, with the usual pre-tokenizer.
    pub fn new(
        tokens: Vec<String>,
        scores: Vec<u32>,
        token_types: Vec<i32>,
        bos_id: u32,
        eos_id: u32,
        unk_id: u32,
        merges: Vec<(u32, u32)>,
    ) -> (r: Vocab)
        ensures
            r@ == (VocabModelo {
                tokens: textos(tokens@),
                scores: scores@,
                tipos: token_types@,
                bos: bos_id,
                eos: eos_id,
                unk: unk_id,
                merges: merges@,
                pre: Pretok::Qwen2,
            }),
    {
        let mut token_to_id: StringHashMap<u32> = StringHashMap::with_capacity(tokens.len());
        let ghost ts = textos(tokens@);
        let mut i: usize = 0;
        proof {
            assert(ts.take(0) =~= Seq::<Seq<char>>::empty());
            assert forall|t: Seq<char>| ts.take(0).index_of_first(t) is None by {
                lemma_primeiro(ts.take(0), t);
            }
        }
        while i < tokens.len()
            invariant
                i <= tokens.len(),
                ts == textos(tokens@),
                tabela_de_ids(token_to_id@, ts.take(i as int)),
            decreases tokens.len() - i,
        {
            let ghost antes = token_to_id@;
            if !token_to_id.contains_key(tokens[i].as_str()) {
                token_to_id.insert(tokens[i].clone(), i as u32);
            }
            proof {
                let a = ts.take(i as int);
                assert(ts.take(i + 1) =~= a.push(ts[i as int]));
                assert forall|t: Seq<char>| #[trigger]
                    token_to_id@.contains_key(t) <==> ts.take(i + 1).index_of_first(t) is Some by {
                    lemma_primeiro_push(a, ts[i as int], t);
                }
                assert forall|t: Seq<char>| #![trigger token_to_id@[t]]
                    ts.take(i + 1).index_of_first(t) matches Some(k) ==> token_to_id@[t]
                        == k as u32 by {
                    lemma_primeiro_push(a, ts[i as int], t);
                }
            }
            i += 1;
        }
        assert(ts.take(i as int) =~= ts);
        Vocab {
            tokens,
            scores,
            token_types,
            token_to_id,
            merges,
            bos_id,
            eos_id,
            unk_id,
            pre: Pretok::Qwen2,
        }
    }

    /// The id of a token text.
    pub fn text_to_token(&self, text: &str) -> (r: Option<u32>)
        ensures
            r == self@.id(text@),
    {
        proof {
            use_type_invariant(self);
        }
        match self.token_to_id.get(text) {
            Some(id) => Some(*id),
            None => None,
        }
    }

    /// The score of a token, negative infinity for an id that is no token.
    pub fn score(&self, id: u32) -> (r: u32)
        ensures
            r == self@.score(id),
    {
        if (id as usize) < self.scores.len() {
            self.scores[id as usize]
        } else {
            MENOS_INFINITO
        }
    }

    /// The text of a token.
    pub fn token_text(&self, id: u32) -> (r: Option<&str>)
        ensures
            match r {
                Some(t) => self@.texto(id) == Some(t@),
                None => self@.texto(id) is None,
            },
    {
        if (id as usize) < self.tokens.len() {
            Some(self.tokens[id as usize].as_str())
        } else {
            None
        }
    }

    /// The id of the token that stands for one raw byte: `<0xXX>` in upper
    /// case, or else the byte as a text of one character.
    pub fn byte_to_token(&self, ch: u8) -> (r: Option<u32>)
        ensures
            r == self@.id_do_byte(ch),
    {
        let mut chave: String = String::new();
        chave.push('<');
        chave.push('0');
        chave.push('x');
        chave.push(digito(ch / 16));
        chave.push(digito(ch % 16));
        chave.push('>');
        assert(chave@ =~= texto_do_byte(ch));
        if let Some(id) = self.text_to_token(chave.as_str()) {
            return Some(id);
        }
        if ch < 0x80 {
            let mut um: String = String::new();
            um.push(ch as char);
            assert(um@ =~= seq![ch as char]);
            self.text_to_token(um.as_str())
        } else {
            None
        }
    }

    /// The raw byte that a token stands for, if it is one of those.
    pub fn token_byte(&self, id: u32) -> (r: Option<u8>)
        ensures
            r == self@.byte(id),
    {
        let i: usize = id as usize;
        if i < self.tokens.len() && i < self.token_types.len() && self.token_types[i]
            == TIPO_BYTE {
            byte_de_texto(self.tokens[i].as_str())
        } else {
            None
        }
    }

    pub fn bos_id(&self) -> (r: u32)
        ensures
            r == self@.bos,
    {
        self.bos_id
    }

    pub fn eos_id(&self) -> (r: u32)
        ensures
            r == self@.eos,
    {
        self.eos_id
    }

    pub fn unk_id(&self) -> (r: u32)
        ensures
            r == self@.unk,
    {
        self.unk_id
    }

    pub fn pre(&self) -> (r: Pretok)
        ensures
            r == self@.pre,
    {
        self.pre
    }

    /// Whether there are merges, as byte-level BPE has them.
    pub fn tem_merges(&self) -> (r: bool)
        ensures
            r == (self@.merges.len() > 0),
    {
        self.merges.len() > 0
    }

    /// The table of merge ranks, keyed by `chave_par`. On a repeated merge the
    /// first position wins.
    pub fn merge_ranks(&self) -> (m: HashMap<u64, u32>)
        ensures
            m@ == ranks_de(self@.merges),
    {
        broadcast use vstd::std_specs::hash::group_hash_axioms;

        let mut m: HashMap<u64, u32> = HashMap::new();
        let ghost ms = self.merges@;
        let mut i: usize = 0;
        proof {
            assert forall|p: (u32, u32)| ms.take(0).index_of_first(p) is None by {
                lemma_primeiro(ms.take(0), p);
            }
            assert(m@ =~= ranks_de(ms.take(0)));
        }
        while i < self.merges.len()
            invariant
                i <= self.merges.len(),
                ms == self.merges@,
                m@ == ranks_de(ms.take(i as int)),
            decreases self.merges.len() - i,
        {
            broadcast use vstd::std_specs::hash::group_hash_axioms;

            let (a, b) = self.merges[i];
            let k: u64 = (a as u64) * 0x1_0000_0000 + (b as u64);
            let ghost s = ms.take(i as int);
            if !m.contains_key(&k) {
                m.insert(k, i as u32);
            }
            proof {
                assert(ms.take(i + 1) =~= s.push(ms[i as int]));
                lemma_par_da_chave(k, a, b);
                assert forall|c: u64|
                    #![trigger m@.contains_key(c)]
                    m@.contains_key(c) == ranks_de(ms.take(i + 1)).contains_key(c) && (
                    m@.contains_key(c) ==> m@[c] == ranks_de(ms.take(i + 1))[c]) by {
                    lemma_primeiro_push(s, ms[i as int], par_da_chave(c));
                    lemma_par_da_chave(c, a, b);
                }
                assert(m@ =~= ranks_de(ms.take(i + 1)));
            }
            i += 1;
        }
        assert(ms.take(i as int) =~= ms);
        m
    }
}

/// Length of a text in UTF-8 bytes.
pub open spec fn bytes_de(t: Seq<char>) -> int {
    vstd::utf8::encode_utf8(t).len() as int
}

/// Puts `x` behind the last entry that is at least as long, in a list that
/// goes from the longest text to the shortest.
pub open spec fn insere_por_tamanho(s: Seq<(Seq<char>, u32)>, x: (Seq<char>, u32)) -> Seq<
    (Seq<char>, u32),
>
    decreases s.len(),
{
    if s.len() == 0 || bytes_de(s.last().0) >= bytes_de(x.0) {
        s.push(x)
    } else {
        insere_por_tamanho(s.drop_last(), x).push(s.last())
    }
}

impl VocabModelo {
    /// The special ones among the first `n` tokens, with their ids, from the
    /// longest text to the shortest and by id where the lengths are equal.
    pub open spec fn especiais_ate(self, n: int) -> Seq<(Seq<char>, u32)>
        decreases n,
    {
        if n <= 0 {
            Seq::empty()
        } else if self.especial(n - 1) {
            insere_por_tamanho(self.especiais_ate(n - 1), (self.tokens[n - 1], (n - 1) as u32))
        } else {
            self.especiais_ate(n - 1)
        }
    }

    pub open spec fn especiais(self) -> Seq<(Seq<char>, u32)> {
        self.especiais_ate(self.tokens.len() as int)
    }

    /// The texts of the special tokens, from the longest to the shortest.
    pub open spec fn marcas(self) -> Seq<Seq<char>> {
        self.especiais().map_values(|e: (Seq<char>, u32)| e.0)
    }
}

/// That the list goes from the longest text to the shortest.
pub open spec fn do_mais_longo(s: Seq<(Seq<char>, u32)>) -> bool {
    forall|i: int, j: int|
        0 <= i <= j < s.len() ==> bytes_de(#[trigger] s[i].0) >= bytes_de(#[trigger] s[j].0)
}

proof fn lemma_insere_por_tamanho(s: Seq<(Seq<char>, u32)>, x: (Seq<char>, u32))
    requires
        do_mais_longo(s),
    ensures
        do_mais_longo(insere_por_tamanho(s, x)),
        insere_por_tamanho(s, x).to_multiset() == s.to_multiset().insert(x),
        insere_por_tamanho(s, x).len() == s.len() + 1,
        s.len() > 0 ==> bytes_de(insere_por_tamanho(s, x).last().0) == bytes_de(s.last().0)
            || bytes_de(insere_por_tamanho(s, x).last().0) == bytes_de(x.0),
    decreases s.len(),
{
    broadcast use vstd::seq_lib::group_to_multiset_ensures;

    if s.len() == 0 || bytes_de(s.last().0) >= bytes_de(x.0) {
        assert(s.push(x).to_multiset() =~= s.to_multiset().insert(x));
    } else {
        let d = s.drop_last();
        lemma_insere_por_tamanho(d, x);
        let r = insere_por_tamanho(d, x);
        assert(r.push(s.last()).to_multiset() =~= r.to_multiset().insert(s.last()));
        assert(s =~= d.push(s.last()));
        assert(s.to_multiset() =~= d.to_multiset().insert(s.last()));
        assert(insere_por_tamanho(s, x).to_multiset() =~= s.to_multiset().insert(x));
        let n = r.len() as int;
        assert forall|i: int| 0 <= i < n implies bytes_de(#[trigger] r[i].0) >= bytes_de(
            s.last().0,
        ) by {
            assert(bytes_de(r[i].0) >= bytes_de(r[n - 1].0));
            if d.len() > 0 {
                assert(d.last() == s[s.len() - 2]);
            }
        }
    }
}

/// The special tokens come from the longest text to the shortest, and they are
/// exactly the control and user-defined tokens, each with its id.
pub proof fn lei_especiais_do_mais_longo(v: VocabModelo, n: int)
    requires
        0 <= n <= v.tokens.len(),
    ensures
        do_mais_longo(v.especiais_ate(n)),
        forall|t: Seq<char>, id: u32|
            v.tokens.len() <= 0x1_0000_0000 ==> (#[trigger] v.especiais_ate(n).contains((t, id))
                <==> id < n && v.especial(id as int) && v.tokens[id as int] == t),
    decreases n,
{
    broadcast use vstd::seq_lib::group_to_multiset_ensures;

    if n > 0 {
        lei_especiais_do_mais_longo(v, n - 1);
        let a = v.especiais_ate(n - 1);
        let x = (v.tokens[n - 1], (n - 1) as u32);
        if v.especial(n - 1) {
            lemma_insere_por_tamanho(a, x);
            let r = insere_por_tamanho(a, x);
            assert forall|t: Seq<char>, id: u32| v.tokens.len() <= 0x1_0000_0000 implies (
            #[trigger] r.contains((t, id)) <==> id < n && v.especial(id as int)
                && v.tokens[id as int] == t) by {
                assert(r.contains((t, id)) <==> r.to_multiset().count((t, id)) > 0);
                assert(a.contains((t, id)) <==> a.to_multiset().count((t, id)) > 0);
            }
        }
    }
}

impl Vocab {
    /// The special tokens (control and user-defined) with their ids, from the
    /// longest text to the shortest.
    pub fn especiais(&self) -> (r: Vec<(String, u32)>)
        ensures
            r@.map_values(|e: (String, u32)| (e.0@, e.1)) == self@.especiais(),
    {
        let ghost modelo = |e: (String, u32)| (e.0@, e.1);
        let mut r: Vec<(String, u32)> = Vec::new();
        let mut i: usize = 0;
        while i < self.tokens.len()
            invariant
                i <= self.tokens.len(),
                modelo == (|e: (String, u32)| (e.0@, e.1)),
                r@.map_values(modelo) == self@.especiais_ate(i as int),
            decreases self.tokens.len() - i,
        {
            if i < self.token_types.len() && (self.token_types[i] == 3 || self.token_types[i]
                == 4) {
                let tam: usize = self.tokens[i].as_str().as_bytes().len();
                let mut p: usize = r.len();
                let ghost s = r@.map_values(modelo);
                let ghost x = (self@.tokens[i as int], i as u32);
                proof {
                    assert(s.take(p as int) =~= s);
                    assert(s.skip(p as int) =~= Seq::empty());
                    let a = insere_por_tamanho(s, x);
                    assert(a =~= a + s.skip(p as int));
                }
                while p > 0 && r[p - 1].0.as_str().as_bytes().len() < tam
                    invariant
                        p <= r.len(),
                        modelo == (|e: (String, u32)| (e.0@, e.1)),
                        s == r@.map_values(modelo),
                        tam == bytes_de(x.0),
                        insere_por_tamanho(s, x) == insere_por_tamanho(s.take(p as int), x)
                            + s.skip(p as int),
                    decreases p,
                {
                    proof {
                        let t = s.take(p as int);
                        assert(t.last() == s[p - 1]);
                        assert(t.drop_last() =~= s.take(p - 1));
                        assert(insere_por_tamanho(s.take(p - 1), x).push(s[p - 1]) + s.skip(
                            p as int,
                        ) =~= insere_por_tamanho(s.take(p - 1), x) + s.skip(p - 1));
                    }
                    p -= 1;
                }
                r.insert(p, (self.tokens[i].clone(), i as u32));
                proof {
                    let t = s.take(p as int);
                    if p > 0 {
                        assert(t.last() == s[p - 1]);
                    }
                    assert(r@.map_values(modelo) =~= t.push(x) + s.skip(p as int));
                }
            }
            i += 1;
        }
        r
    }
}

/// The value under the key, if it is a text.
pub open spec fn str_em(
    f: Seq<(Seq<char>, ValorModelo)>,
    chave: Seq<char>,
    nome: Seq<char>,
) -> Result<
    Seq<char>,
    ErroModelo,
> {
    match valor_em(f, chave) {
        None => Err(ErroModelo::ChaveAusente(chave)),
        Some(ValorModelo::Str(s)) => Ok(s),
        Some(_) => Err(ErroModelo::TipoErrado(nome)),
    }
}

/// The value under the key, if it is a number.
pub open spec fn u32_em(
    f: Seq<(Seq<char>, ValorModelo)>,
    chave: Seq<char>,
    nome: Seq<char>,
) -> Result<
    u32,
    ErroModelo,
> {
    match valor_em(f, chave) {
        None => Err(ErroModelo::ChaveAusente(chave)),
        Some(ValorModelo::U32(n)) => Ok(n),
        Some(_) => Err(ErroModelo::TipoErrado(nome)),
    }
}

/// The value under the key, if it is a list of texts.
pub open spec fn strs_em(
    f: Seq<(Seq<char>, ValorModelo)>,
    chave: Seq<char>,
    nome: Seq<char>,
) -> Result<Seq<Seq<char>>, ErroModelo> {
    match valor_em(f, chave) {
        None => Err(ErroModelo::ChaveAusente(chave)),
        Some(ValorModelo::StrArray(v)) => Ok(v),
        Some(_) => Err(ErroModelo::TipoErrado(nome)),
    }
}

/// The value under the key, if it is a list of floats.
pub open spec fn f32s_em(
    f: Seq<(Seq<char>, ValorModelo)>,
    chave: Seq<char>,
    nome: Seq<char>,
) -> Result<Seq<u32>, ErroModelo> {
    match valor_em(f, chave) {
        None => Err(ErroModelo::ChaveAusente(chave)),
        Some(ValorModelo::F32Array(v)) => Ok(v),
        Some(_) => Err(ErroModelo::TipoErrado(nome)),
    }
}

/// The value under the key, if it is a list of integers.
pub open spec fn i32s_em(
    f: Seq<(Seq<char>, ValorModelo)>,
    chave: Seq<char>,
    nome: Seq<char>,
) -> Result<Seq<i32>, ErroModelo> {
    match valor_em(f, chave) {
        None => Err(ErroModelo::ChaveAusente(chave)),
        Some(ValorModelo::I32Array(v)) => Ok(v),
        Some(_) => Err(ErroModelo::TipoErrado(nome)),
    }
}

/// Position of the space that parts a merge entry in two: the first one after
/// the first character.
pub open spec fn corte(t: Seq<char>, i: int) -> Option<int>
    decreases t.len() - i,
{
    if i >= t.len() {
        None
    } else if t[i] == ' ' {
        Some(i)
    } else {
        corte(t, i + 1)
    }
}

/// The ids of the two halves of a merge entry.
pub open spec fn par_de(tokens: Seq<Seq<char>>, t: Seq<char>) -> Option<(u32, u32)> {
    match corte(t, 1) {
        None => None,
        Some(p) => match (id_em(tokens, t.take(p)), id_em(tokens, t.skip(p + 1))) {
            (Some(a), Some(b)) => Some((a, b)),
            _ => None,
        },
    }
}

/// The merges of a list of entries, in order; an entry that is not made of two
/// tokens is left out.
pub open spec fn merges_de(tokens: Seq<Seq<char>>, ms: Seq<Seq<char>>) -> Seq<(u32, u32)>
    decreases ms.len(),
{
    if ms.len() == 0 {
        Seq::empty()
    } else {
        let r = merges_de(tokens, ms.drop_last());
        match par_de(tokens, ms.last()) {
            Some(p) => r.push(p),
            None => r,
        }
    }
}

/// The scores of a vocabulary of `n` tokens. A byte-level BPE file may go
/// without them: they are then all zero.
pub open spec fn scores_de(f: Seq<(Seq<char>, ValorModelo)>, bpe: bool, n: nat) -> Result<
    Seq<u32>,
    ErroModelo,
> {
    if bpe && valor_em(f, "tokenizer.ggml.scores"@) is None {
        Ok(Seq::new(n, |i: int| 0u32))
    } else {
        f32s_em(f, "tokenizer.ggml.scores"@, "tokenizer.ggml.scores"@)
    }
}

/// The id of the unknown token. A byte-level BPE file may go without it.
pub open spec fn unk_de(f: Seq<(Seq<char>, ValorModelo)>, bpe: bool) -> Result<u32, ErroModelo> {
    if bpe && valor_em(f, "tokenizer.ggml.unknown_token_id"@) is None {
        Ok(0)
    } else {
        u32_em(f, "tokenizer.ggml.unknown_token_id"@, "unk"@)
    }
}

/// The merges of a vocabulary: a SentencePiece file has none.
pub open spec fn lista_de_merges(
    f: Seq<(Seq<char>, ValorModelo)>,
    bpe: bool,
    tokens: Seq<Seq<char>>,
) -> Result<Seq<(u32, u32)>, ErroModelo> {
    if bpe {
        match strs_em(f, "tokenizer.ggml.merges"@, "tokenizer.ggml.merges"@) {
            Err(e) => Err(e),
            Ok(ms) => Ok(merges_de(tokens, ms)),
        }
    } else {
        Ok(Seq::empty())
    }
}

/// The pre-tokenizer that the file asks for.
pub open spec fn pre_de(f: Seq<(Seq<char>, ValorModelo)>) -> Pretok {
    match valor_em(f, "tokenizer.ggml.pre"@) {
        Some(ValorModelo::Str(s)) => Pretok::de_pre(s),
        _ => Pretok::Qwen2,
    }
}

/// The vocabulary that a file describes, or the first thing that is wrong with
/// it. `llama` is the SentencePiece family, `gpt2` byte-level BPE.
pub open spec fn vocab_de(f: Seq<(Seq<char>, ValorModelo)>) -> Result<VocabModelo, ErroModelo> {
    match str_em(f, "tokenizer.ggml.model"@, "tokenizer.ggml.model"@) {
        Err(e) => Err(e),
        Ok(m) => if m != "llama"@ && m != "gpt2"@ {
            Err(ErroModelo::UnsupportedModel(m))
        } else {
            match strs_em(f, "tokenizer.ggml.tokens"@, "tokenizer.ggml.tokens"@) {
                Err(e) => Err(e),
                Ok(tokens) => resto_do_vocab(f, m == "gpt2"@, tokens),
            }
        },
    }
}

/// The vocabulary of a file whose family and token texts are already read.
pub open spec fn resto_do_vocab(
    f: Seq<(Seq<char>, ValorModelo)>,
    bpe: bool,
    tokens: Seq<Seq<char>>,
) -> Result<VocabModelo, ErroModelo> {
    match scores_de(f, bpe, tokens.len()) {
        Err(e) => Err(e),
        Ok(scores) => match i32s_em(
            f,
            "tokenizer.ggml.token_type"@,
            "tokenizer.ggml.token_type"@,
        ) {
            Err(e) => Err(e),
            Ok(tipos) => if tokens.len() != scores.len() || tokens.len() != tipos.len() {
                Err(
                    ErroModelo::InconsistentVocab {
                        tokens: tokens.len(),
                        scores: scores.len(),
                        types: tipos.len(),
                    },
                )
            } else {
                match (
                    u32_em(f, "tokenizer.ggml.bos_token_id"@, "bos"@),
                    u32_em(f, "tokenizer.ggml.eos_token_id"@, "eos"@),
                    unk_de(f, bpe),
                    lista_de_merges(f, bpe, tokens),
                ) {
                    (Err(e), _, _, _) => Err(e),
                    (_, Err(e), _, _) => Err(e),
                    (_, _, Err(e), _) => Err(e),
                    (_, _, _, Err(e)) => Err(e),
                    (Ok(bos), Ok(eos), Ok(unk), Ok(merges)) => Ok(
                        VocabModelo {
                            tokens,
                            scores,
                            tipos,
                            bos,
                            eos,
                            unk,
                            merges,
                            pre: pre_de(f),
                        },
                    ),
                }
            },
        },
    }
}

fn ler_str<'a>(f: &'a GgufFile, chave: &str, nome: &str) -> (r: Result<&'a str, TokenizerError>)
    ensures
        match r {
            Ok(s) => str_em(f@, chave@, nome@) == Ok::<Seq<char>, ErroModelo>(s@),
            Err(e) => str_em(f@, chave@, nome@) == Err::<Seq<char>, ErroModelo>(e@),
        },
{
    match f.get(chave) {
        Err(e) => Err(TokenizerError::Gguf(e)),
        Ok(v) => match v.as_str(nome) {
            Err(e) => Err(TokenizerError::Gguf(e)),
            Ok(s) => Ok(s),
        },
    }
}

fn ler_u32(f: &GgufFile, chave: &str, nome: &str) -> (r: Result<u32, TokenizerError>)
    ensures
        match r {
            Ok(n) => u32_em(f@, chave@, nome@) == Ok::<u32, ErroModelo>(n),
            Err(e) => u32_em(f@, chave@, nome@) == Err::<u32, ErroModelo>(e@),
        },
{
    match f.get(chave) {
        Err(e) => Err(TokenizerError::Gguf(e)),
        Ok(v) => match v.as_u32(nome) {
            Err(e) => Err(TokenizerError::Gguf(e)),
            Ok(n) => Ok(n),
        },
    }
}

fn ler_strs<'a>(f: &'a GgufFile, chave: &str, nome: &str) -> (r: Result<
    &'a Vec<String>,
    TokenizerError,
>)
    ensures
        match r {
            Ok(v) => strs_em(f@, chave@, nome@) == Ok::<Seq<Seq<char>>, ErroModelo>(textos(v@)),
            Err(e) => strs_em(f@, chave@, nome@) == Err::<Seq<Seq<char>>, ErroModelo>(e@),
        },
{
    match f.get(chave) {
        Err(e) => Err(TokenizerError::Gguf(e)),
        Ok(v) => match v.as_string_array(nome) {
            Err(e) => Err(TokenizerError::Gguf(e)),
            Ok(v) => Ok(v),
        },
    }
}

fn ler_f32s<'a>(f: &'a GgufFile, chave: &str, nome: &str) -> (r: Result<
    &'a Vec<u32>,
    TokenizerError,
>)
    ensures
        match r {
            Ok(v) => f32s_em(f@, chave@, nome@) == Ok::<Seq<u32>, ErroModelo>(v@),
            Err(e) => f32s_em(f@, chave@, nome@) == Err::<Seq<u32>, ErroModelo>(e@),
        },
{
    match f.get(chave) {
        Err(e) => Err(TokenizerError::Gguf(e)),
        Ok(v) => match v.as_f32_array(nome) {
            Err(e) => Err(TokenizerError::Gguf(e)),
            Ok(v) => Ok(v),
        },
    }
}

fn ler_i32s<'a>(f: &'a GgufFile, chave: &str, nome: &str) -> (r: Result<
    &'a Vec<i32>,
    TokenizerError,
>)
    ensures
        match r {
            Ok(v) => i32s_em(f@, chave@, nome@) == Ok::<Seq<i32>, ErroModelo>(v@),
            Err(e) => i32s_em(f@, chave@, nome@) == Err::<Seq<i32>, ErroModelo>(e@),
        },
{
    match f.get(chave) {
        Err(e) => Err(TokenizerError::Gguf(e)),
        Ok(v) => match v.as_i32_array(nome) {
            Err(e) => Err(TokenizerError::Gguf(e)),
            Ok(v) => Ok(v),
        },
    }
}

impl Vocab {
    /// Reads the merges of a byte-level BPE file.
    fn ler_merges(&self, ms: &Vec<String>) -> (r: Vec<(u32, u32)>)
        ensures
            r@ == merges_de(self@.tokens, textos(ms@)),
    {
        let mut r: Vec<(u32, u32)> = Vec::new();
        let ghost ts = textos(ms@);
        let mut i: usize = 0;
        proof {
            assert(ts.take(0) =~= Seq::<Seq<char>>::empty());
        }
        while i < ms.len()
            invariant
                i <= ms.len(),
                ts == textos(ms@),
                r@ == merges_de(self@.tokens, ts.take(i as int)),
            decreases ms.len() - i,
        {
            let par = self.ler_par(ms[i].as_str());
            proof {
                assert(ts.take(i + 1).drop_last() =~= ts.take(i as int));
                assert(ts.take(i + 1).last() == ts[i as int]);
            }
            if let Some(p) = par {
                r.push(p);
            }
            i += 1;
        }
        assert(ts.take(i as int) =~= ts);
        r
    }

    /// Reads one merge entry: two token texts with a space between them.
    fn ler_par(&self, entrada: &str) -> (r: Option<(u32, u32)>)
        ensures
            r == par_de(self@.tokens, entrada@),
    {
        let ghost t = entrada@;
        let mut a: String = String::new();
        let mut b: String = String::new();
        let mut cortado: bool = false;
        let mut n: usize = 0;
        for c in it: entrada.chars()
            invariant
                it.seq() == t,
                n <= it.index(),
                n < 2 ==> n == it.index(),
                n >= 2 ==> it.index() >= 2,
                n <= 2,
                !cortado ==> corte(t, 1) == corte(
                    t,
                    if it.index() < 1 {
                        1
                    } else {
                        it.index() as int
                    },
                ),
                !cortado ==> a@ == t.take(it.index() as int) && b@ == Seq::<char>::empty(),
                cortado ==> it.index() >= 2 && (corte(t, 1) matches Some(p) && 0 <= p
                    < it.index() && a@ == t.take(p) && b@ == t.subrange(p + 1, it.index() as int)),
        {
            let ghost i = it.index() as int;
            if cortado {
                b.push(c);
                proof {
                    let p = corte(t, 1)->0;
                    assert(t.subrange(p + 1, i + 1) =~= t.subrange(p + 1, i).push(t[i]));
                }
            } else if n >= 1 && c == ' ' {
                cortado = true;
                proof {
                    assert(corte(t, 1) == Some(i));
                    assert(t.subrange(i + 1, i + 1) =~= Seq::<char>::empty());
                }
            } else {
                a.push(c);
                proof {
                    assert(t.take(i + 1) =~= t.take(i).push(t[i]));
                }
            }
            if n < 2 {
                n += 1;
            }
        }
        if !cortado {
            return None;
        }
        proof {
            let p = corte(t, 1)->0;
            assert(t.subrange(p + 1, t.len() as int) =~= t.skip(p + 1));
        }
        match (self.text_to_token(a.as_str()), self.text_to_token(b.as_str())) {
            (Some(x), Some(y)) => Some((x, y)),
            _ => None,
        }
    }

    /// Reads the vocabulary from the metadata of a model file.
    pub fn from_gguf(f: &GgufFile) -> (r: Result<Vocab, TokenizerError>)
        ensures
            match r {
                Ok(v) => vocab_de(f@) == Ok::<VocabModelo, ErroModelo>(v@),
                Err(e) => vocab_de(f@) == Err::<VocabModelo, ErroModelo>(e@),
            },
    {
        let modelo = match ler_str(f, "tokenizer.ggml.model", "tokenizer.ggml.model") {
            Err(e) => return Err(e),
            Ok(m) => m,
        };
        let bpe = mesmo_texto(modelo, "gpt2");
        if !bpe && !mesmo_texto(modelo, "llama") {
            return Err(TokenizerError::UnsupportedModel(modelo.to_owned()));
        }
        proof {
            reveal_strlit("gpt2");
            reveal_strlit("llama");
        }
        let tokens: Vec<String> = match ler_strs(
            f,
            "tokenizer.ggml.tokens",
            "tokenizer.ggml.tokens",
        ) {
            Err(e) => return Err(e),
            Ok(v) => v.clone(),
        };
        assert(strs_em(f@, "tokenizer.ggml.tokens"@, "tokenizer.ggml.tokens"@) == Ok::<
            Seq<Seq<char>>,
            ErroModelo,
        >(textos(tokens@)));
        let scores: Vec<u32> = if bpe && f.buscar("tokenizer.ggml.scores").is_none() {
            let z: Vec<u32> = vec![0u32; tokens.len()];
            assert(z@ =~= Seq::new(textos(tokens@).len(), |i: int| 0u32));
            z
        } else {
            match ler_f32s(f, "tokenizer.ggml.scores", "tokenizer.ggml.scores") {
                Err(e) => return Err(e),
                Ok(v) => v.clone(),
            }
        };
        assert(scores_de(f@, bpe, textos(tokens@).len()) == Ok::<Seq<u32>, ErroModelo>(scores@));
        let tipos: Vec<i32> = match ler_i32s(
            f,
            "tokenizer.ggml.token_type",
            "tokenizer.ggml.token_type",
        ) {
            Err(e) => return Err(e),
            Ok(v) => v.clone(),
        };
        if tokens.len() != scores.len() || tokens.len() != tipos.len() {
            return Err(
                TokenizerError::InconsistentVocab {
                    tokens: tokens.len(),
                    scores: scores.len(),
                    types: tipos.len(),
                },
            );
        }
        let bos = match ler_u32(f, "tokenizer.ggml.bos_token_id", "bos") {
            Err(e) => return Err(e),
            Ok(n) => n,
        };
        let eos = match ler_u32(f, "tokenizer.ggml.eos_token_id", "eos") {
            Err(e) => return Err(e),
            Ok(n) => n,
        };
        let unk: u32 = if bpe && f.buscar("tokenizer.ggml.unknown_token_id").is_none() {
            0
        } else {
            match ler_u32(f, "tokenizer.ggml.unknown_token_id", "unk") {
                Err(e) => return Err(e),
                Ok(n) => n,
            }
        };
        let mut v = Vocab::new(tokens, scores, tipos, bos, eos, unk, Vec::new());
        proof {
            use_type_invariant(&v);
        }
        if bpe {
            let ms = match ler_strs(f, "tokenizer.ggml.merges", "tokenizer.ggml.merges") {
                Err(e) => return Err(e),
                Ok(ms) => ms,
            };
            let merges = v.ler_merges(ms);
            v.merges = merges;
        }
        v.pre = match f.buscar("tokenizer.ggml.pre") {
            Some(GgufValue::Str(s)) => Pretok::from_pre(s.as_str()),
            _ => Pretok::Qwen2,
        };
        Ok(v)
    }
}

/// The value of a hexadecimal digit.
fn valor_do_digito(c: char) -> (r: Option<u8>)
    ensures
        match r {
            Some(n) => valor_hex(c) == Some(n as int) && n < 16,
            None => valor_hex(c) is None,
        },
{
    let n: u32 = c as u32;
    if 0x30 <= n && n <= 0x39 {
        Some((n - 0x30) as u8)
    } else if 0x41 <= n && n <= 0x46 {
        Some((n - 0x41 + 10) as u8)
    } else {
        None
    }
}

/// The raw byte of a token text `<0xXX>`.
fn byte_de_texto(t: &str) -> (r: Option<u8>)
    ensures
        r == byte_do_texto(t@),
{
    let ghost s = t@;
    let mut cs: Vec<char> = Vec::new();
    for c in it: t.chars()
        invariant
            it.seq() == s,
            cs@ == s.take(it.index() as int),
    {
        let ghost i = it.index() as int;
        cs.push(c);
        assert(cs@ =~= s.take(i + 1));
    }
    assert(s.take(s.len() as int) =~= s);
    if cs.len() != 6 || cs[0] != '<' || cs[1] != '0' || cs[2] != 'x' || cs[5] != '>' {
        return None;
    }
    match (valor_do_digito(cs[3]), valor_do_digito(cs[4])) {
        (Some(a), Some(b)) => Some(a * 16 + b),
        _ => None,
    }
}

fn digito(n: u8) -> (c: char)
    requires
        n < 16,
    ensures
        c == digito_hex(n as int),
{
    if n < 10 {
        (0x30 + n) as char
    } else {
        (0x41 + (n - 10)) as char
    }
}

} // verus!
