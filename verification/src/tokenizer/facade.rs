//! The tokenizer: picks the strategy and encodes and decodes texts.

use std::collections::HashMap;

use regex::Regex;
use vstd::prelude::*;
use vstd::string::*;
use vstd::utf8::*;

use crate::tokenizer::bpe::{
    bpe, decode_bpe_bytes, decodificado, padrao, pretok_re, tokenize_pieces,
};
use crate::tokenizer::error::{ErroModelo, TokenizerError};
use crate::tokenizer::expressao::{
    acha, alternacao, casamentos, cheios, compila, compilado, em_ordem, escapa, literais,
};
use crate::tokenizer::gguf::GgufFile;
use crate::tokenizer::spm::{spm, tokenize_spm};
use crate::tokenizer::texto::{de_utf8_com_perdas, fatia, fatia_de, texto_de_bytes};
use crate::tokenizer::vocab::{ranks_de, vocab_de, Vocab, VocabModelo};

verus! {

/// What stands for a space in the texts of a SentencePiece vocabulary.
pub const SPACE_ESCAPE: char = '\u{2581}';

pub open spec fn com_escape(t: Seq<char>) -> Seq<char> {
    t.map_values(
        |c: char|
            if c == ' ' {
                SPACE_ESCAPE
            } else {
                c
            },
    )
}

pub open spec fn sem_escape(t: Seq<char>) -> Seq<char> {
    t.map_values(
        |c: char|
            if c == SPACE_ESCAPE {
                ' '
            } else {
                c
            },
    )
}

/// The text without the space that it starts with, if it does.
pub open spec fn sem_espaco_inicial(t: Seq<char>) -> Seq<char> {
    if t.len() > 0 && t[0] == ' ' {
        t.drop_first()
    } else {
        t
    }
}

/// The bytes without that of the space that they start with, if they do.
pub open spec fn sem_byte_de_espaco(b: Seq<u8>) -> Seq<u8> {
    if b.len() > 0 && b[0] == 0x20 {
        b.drop_first()
    } else {
        b
    }
}

/// A tokenizer as plain data: its vocabulary and its compiled expressions.
pub struct TokModelo {
    pub v: VocabModelo,
    pub pretok: Option<Regex>,
    pub especiais: Option<Regex>,
}

/// The expression for the special tokens of a vocabulary; `None` if it has none,
/// or if it does not compile.
pub open spec fn especiais_de(v: VocabModelo) -> Option<Regex> {
    if alternacao(v.marcas()).len() == 0 {
        None
    } else {
        compilado(alternacao(v.marcas()))
    }
}

/// The tokenizer of a vocabulary.
pub open spec fn tokenizador_de(v: VocabModelo) -> TokModelo {
    TokModelo {
        v,
        pretok: if v.merges.len() == 0 {
            None
        } else {
            compilado(padrao(v.pre))
        },
        especiais: especiais_de(v),
    }
}

/// The texts of the ids one after the other, without those of the marks for
/// the beginning and the end.
pub open spec fn texto_dos_ids(v: VocabModelo, ids: Seq<u32>) -> Seq<char>
    decreases ids.len(),
{
    if ids.len() == 0 {
        Seq::empty()
    } else {
        let r = texto_dos_ids(v, ids.drop_last());
        if ids.last() == v.bos || ids.last() == v.eos {
            r
        } else {
            match v.texto(ids.last()) {
                Some(t) => r + t,
                None => r,
            }
        }
    }
}

/// The bytes of a SentencePiece token: the raw byte that it stands for, or those
/// of its text with the escape of spaces undone.
pub open spec fn bytes_do_token(v: VocabModelo, id: u32) -> Seq<u8> {
    match v.byte(id) {
        Some(b) => seq![b],
        None => match v.texto(id) {
            Some(t) => encode_utf8(sem_escape(t)),
            None => Seq::empty(),
        },
    }
}

/// The bytes of SentencePiece tokens one after the other, without those of the
/// marks for the beginning and the end.
pub open spec fn bytes_dos_ids(v: VocabModelo, ids: Seq<u32>) -> Seq<u8>
    decreases ids.len(),
{
    if ids.len() == 0 {
        Seq::empty()
    } else {
        let r = bytes_dos_ids(v, ids.drop_last());
        if ids.last() == v.bos || ids.last() == v.eos {
            r
        } else {
            r + bytes_do_token(v, ids.last())
        }
    }
}

impl TokModelo {
    /// Whether the tokenizer can encode: byte-level BPE needs the expression
    /// that cuts a text in pieces.
    pub open spec fn pronto(self) -> bool {
        self.v.merges.len() > 0 ==> self.pretok is Some
    }

    /// The tokens of a text whose pieces are given.
    pub open spec fn codificado(
        self,
        t: Seq<char>,
        add_bos: bool,
        pedacos: Seq<(usize, usize)>,
    ) -> Seq<u32> {
        let bos = if add_bos {
            seq![self.v.bos]
        } else {
            Seq::empty()
        };
        let espaco = if add_bos {
            seq![' ']
        } else {
            Seq::empty()
        };
        if self.v.merges.len() == 0 {
            bos + spm(self.v, com_escape(espaco + t))
        } else {
            bos + bpe(self.v, ranks_de(self.v.merges), encode_utf8(t), pedacos)
        }
    }

    /// The pieces of a text.
    pub open spec fn pedacos(self, t: Seq<char>) -> Seq<(usize, usize)> {
        casamentos(self.pretok->0, t)
    }

    pub open spec fn encode(self, t: Seq<char>, add_bos: bool) -> Seq<u32> {
        self.codificado(t, add_bos, self.pedacos(t))
    }

    /// The tokens of the text in a byte range.
    pub open spec fn entre(self, t: Seq<char>, a: int, b: int) -> Seq<u32> {
        if a < b {
            self.encode(fatia_de(t, a, b), false)
        } else {
            Seq::empty()
        }
    }

    /// The tokens up to the end of the marker number `k`: the text before each
    /// marker is encoded, and the marker is its own token.
    pub open spec fn marcado_ate(self, t: Seq<char>, m: Seq<(usize, usize)>, k: int) -> Seq<u32>
        decreases k,
    {
        if k <= 0 {
            Seq::empty()
        } else {
            let antes = self.marcado_ate(t, m, k - 1) + self.entre(
                t,
                fim_do_marcador(m, k - 1),
                m[k - 1].0 as int,
            );
            match self.v.id(fatia_de(t, m[k - 1].0 as int, m[k - 1].1 as int)) {
                Some(id) => antes.push(id),
                None => antes,
            }
        }
    }

    /// The tokens of a text whose markers are given.
    pub open spec fn marcado(self, t: Seq<char>, m: Seq<(usize, usize)>) -> Seq<u32> {
        self.marcado_ate(t, m, m.len() as int) + self.entre(
            t,
            fim_do_marcador(m, m.len() as int),
            encode_utf8(t).len() as int,
        )
    }

    /// The byte ranges of the markers of a text: the leftmost special tokens, and
    /// the longest of those that start at the same place. With an empty text
    /// among the special tokens they are what the expression matches.
    pub open spec fn marcadores(self, t: Seq<char>) -> Seq<(usize, usize)> {
        if cheios(self.v.marcas()) {
            literais(self.v.marcas(), encode_utf8(t), 0)
        } else {
            casamentos(self.especiais->0, t)
        }
    }

    pub open spec fn encode_special(self, t: Seq<char>) -> Seq<u32> {
        match self.especiais {
            None => self.encode(t, false),
            Some(_) => self.marcado(t, self.marcadores(t)),
        }
    }

    /// The bytes of the tokens. SentencePiece drops the space at the beginning.
    pub open spec fn decode_bytes(self, ids: Seq<u32>) -> Seq<u8> {
        if self.v.merges.len() == 0 {
            sem_byte_de_espaco(bytes_dos_ids(self.v, ids))
        } else {
            decodificado(texto_dos_ids(self.v, ids))
        }
    }

    pub open spec fn decode(self, ids: Seq<u32>) -> Seq<char> {
        texto_de_bytes(self.decode_bytes(ids))
    }
}

/// Where the marker before the number `k` ends.
pub open spec fn fim_do_marcador(m: Seq<(usize, usize)>, k: int) -> int {
    if k <= 0 {
        0
    } else {
        m[k - 1].1 as int
    }
}

/// Tokenizer of the SentencePiece (Llama) or byte-level BPE (Qwen2/GPT-2)
/// family.
pub struct Tokenizer {
    vocab: Vocab,
    /// Ranks of the merges; empty for SentencePiece.
    merge_ranks: HashMap<u64, u32>,
    /// Cuts a text in pieces; only byte-level BPE has it.
    pretok: Option<Regex>,
    /// Alternation of the special tokens, from the longest to the shortest.
    especiais: Option<Regex>,
}

impl View for Tokenizer {
    type V = TokModelo;

    closed spec fn view(&self) -> TokModelo {
        TokModelo { v: self.vocab@, pretok: self.pretok, especiais: self.especiais }
    }
}

/// Replaces one character by another.
fn troca(t: &str, de: char, por: char) -> (r: String)
    ensures
        r@ == t@.map_values(
            |c: char|
                if c == de {
                    por
                } else {
                    c
                },
        ),
{
    let ghost f = |c: char|
        if c == de {
            por
        } else {
            c
        };
    let ghost s = t@;
    let mut r: String = String::new();
    for c in it: t.chars()
        invariant
            it.seq() == s,
            f == (|c: char|
                if c == de {
                    por
                } else {
                    c
                }),
            r@ == s.take(it.index() as int).map_values(f),
    {
        let ghost i = it.index() as int;
        if c == de {
            r.push(por);
        } else {
            r.push(c);
        }
        assert(s.take(i + 1).map_values(f) =~= s.take(i).map_values(f).push(f(s[i])));
    }
    assert(s.take(s.len() as int) =~= s);
    r
}

/// The alternation of the special tokens, as a pattern.
fn monta_alternacao(e: &Vec<(String, u32)>) -> (r: String)
    ensures
        r@ == alternacao(e@.map_values(|x: (String, u32)| x.0@)),
{
    let ghost s = e@.map_values(|x: (String, u32)| x.0@);
    let mut r: String = String::new();
    let mut i: usize = 0;
    proof {
        assert(s.take(0) =~= Seq::<Seq<char>>::empty());
    }
    while i < e.len()
        invariant
            i <= e.len(),
            s == e@.map_values(|x: (String, u32)| x.0@),
            r@ == alternacao(s.take(i as int)),
        decreases e.len() - i,
    {
        proof {
            assert(s.take(i + 1).drop_last() =~= s.take(i as int));
            assert(s.take(i + 1).last() == s[i as int]);
        }
        if i > 0 {
            r.push('|');
        }
        let x = escapa(e[i].0.as_str());
        r.append(x.as_str());
        assert(r@ =~= alternacao(s.take(i + 1)));
        i += 1;
    }
    assert(s.take(i as int) =~= s);
    r
}

impl Tokenizer {
    #[verifier::type_invariant]
    spec fn inv(&self) -> bool {
        &&& self.merge_ranks@ == ranks_de(self.vocab@.merges)
        &&& self.especiais == especiais_de(self.vocab@)
    }

    pub fn new(vocab: Vocab) -> (r: Self)
        ensures
            r@ == tokenizador_de(vocab@),
    {
        let merge_ranks = vocab.merge_ranks();
        let pretok = if vocab.tem_merges() {
            pretok_re(vocab.pre())
        } else {
            None
        };
        let e = vocab.especiais();
        let alt = monta_alternacao(&e);
        assert(e@.map_values(|x: (String, u32)| x.0@) =~= vocab@.marcas()) by {
            let s = e@.map_values(|x: (String, u32)| (x.0@, x.1));
            assert forall|i: int| 0 <= i < e@.len() implies #[trigger] s[i].0 == e@[i].0@ by {}
        }
        let especiais = if alt.as_str().is_empty() {
            None
        } else {
            compila(alt.as_str())
        };
        Tokenizer { vocab, merge_ranks, pretok, especiais }
    }

    /// Reads the tokenizer from the metadata of a model file.
    pub fn from_gguf(f: &GgufFile) -> (r: Result<Self, TokenizerError>)
        ensures
            match r {
                Ok(t) => vocab_de(f@) matches Ok(v) && t@ == tokenizador_de(v),
                Err(e) => vocab_de(f@) == Err::<VocabModelo, ErroModelo>(e@),
            },
    {
        match Vocab::from_gguf(f) {
            Ok(v) => Ok(Self::new(v)),
            Err(e) => Err(e),
        }
    }

    /// Whether the tokenizer can encode.
    pub fn pronto(&self) -> (r: bool)
        ensures
            r == self@.pronto(),
    {
        !self.vocab.tem_merges() || self.pretok.is_some()
    }

    /// Encodes a text whose pieces are given by their byte ranges; a
    /// SentencePiece tokenizer makes no use of them.
    pub fn encode_com(&self, text: &str, add_bos: bool, pedacos: &Vec<(usize, usize)>) -> (r: Vec<
        u32,
    >)
        requires
            em_ordem(pedacos@, encode_utf8(text@)),
        ensures
            r@ == self@.codificado(text@, add_bos, pedacos@),
    {
        proof {
            use_type_invariant(self);
        }
        let mut output: Vec<u32> = Vec::new();
        if add_bos {
            output.push(self.vocab.bos_id());
        }
        let ghost bos = output@;
        if !self.vocab.tem_merges() {
            let mut buf: String = String::new();
            if add_bos {
                buf.push(' ');
            }
            let ghost espaco = buf@;
            buf.append(text);
            let normalizado = troca(buf.as_str(), ' ', SPACE_ESCAPE);
            let mut ids = tokenize_spm(&self.vocab, normalizado.as_str());
            output.append(&mut ids);
            proof {
                assert(bos =~= if add_bos {
                    seq![self@.v.bos]
                } else {
                    Seq::empty()
                });
                assert(espaco =~= if add_bos {
                    seq![' ']
                } else {
                    Seq::empty()
                });
                assert(normalizado@ =~= com_escape(espaco + text@));
            }
        } else {
            let mut ids = tokenize_pieces(&self.vocab, &self.merge_ranks, text, pedacos);
            output.append(&mut ids);
            assert(bos =~= if add_bos {
                seq![self@.v.bos]
            } else {
                Seq::empty()
            });
        }
        output
    }

    /// Encodes a text. SentencePiece puts the mark for the beginning and a
    /// space before it if `add_bos` is set; byte-level BPE only the mark.
    pub fn encode(&self, text: &str, add_bos: bool) -> (r: Vec<u32>)
        requires
            self@.pronto(),
        ensures
            r@ == self@.encode(text@, add_bos),
            self@.v.merges.len() > 0 ==> em_ordem(self@.pedacos(text@), encode_utf8(text@)),
    {
        let pedacos: Vec<(usize, usize)> = match &self.pretok {
            Some(re) => if self.vocab.tem_merges() {
                acha(re, text)
            } else {
                Vec::new()
            },
            None => Vec::new(),
        };
        self.encode_com(text, add_bos, &pedacos)
    }

    /// Like `encode`, or `None` if the tokenizer cannot encode.
    pub fn tentar_encode(&self, text: &str, add_bos: bool) -> (r: Option<Vec<u32>>)
        ensures
            match r {
                Some(ids) => self@.pronto() && ids@ == self@.encode(text@, add_bos),
                None => !self@.pronto(),
            },
    {
        if self.pronto() {
            Some(self.encode(text, add_bos))
        } else {
            None
        }
    }

    /// Encodes a text whose markers are given by their byte ranges.
    pub fn encode_special_com(&self, text: &str, marcadores: &Vec<(usize, usize)>) -> (r: Vec<u32>)
        requires
            self@.pronto(),
            em_ordem(marcadores@, encode_utf8(text@)),
        ensures
            r@ == self@.marcado(text@, marcadores@),
    {
        let ghost t = text@;
        let ghost m = marcadores@;
        let total: usize = text.as_bytes().len();
        let mut out: Vec<u32> = Vec::new();
        let mut ini: usize = 0;
        let mut k: usize = 0;
        proof {
            encode_utf8_valid_utf8(t);
            is_char_boundary_start_end_of_seq(encode_utf8(t));
        }
        while k < marcadores.len()
            invariant
                t == text@,
                m == marcadores@,
                self@.pronto(),
                em_ordem(m, encode_utf8(t)),
                k <= marcadores.len(),
                ini == fim_do_marcador(m, k as int),
                is_char_boundary(encode_utf8(t), ini as int),
                out@ == self@.marcado_ate(t, m, k as int),
            decreases marcadores.len() - k,
        {
            let (a, b) = marcadores[k];
            proof {
                assert(m[k as int] == (a, b));
                if k > 0 {
                    assert(m[k - 1].1 <= m[k as int].0);
                }
            }
            if ini < a {
                let mut ids = self.encode(fatia(text, ini, a), false);
                out.append(&mut ids);
            }
            if let Some(id) = self.vocab.text_to_token(fatia(text, a, b)) {
                out.push(id);
            }
            ini = b;
            k += 1;
        }
        proof {
            if k > 0 {
                assert(m[k - 1].1 <= encode_utf8(t).len());
            }
        }
        if ini < total {
            let mut ids = self.encode(fatia(text, ini, total), false);
            out.append(&mut ids);
        }
        out
    }

    /// Like `encode`, with each marker of the chat template (`<|im_start|>`,
    /// `<tool_call>`, ...) as its one token. No mark for the beginning is put
    /// before it.
    pub fn encode_special(&self, text: &str) -> (r: Vec<u32>)
        requires
            self@.pronto(),
        ensures
            r@ == self@.encode_special(text@),
    {
        match &self.especiais {
            None => self.encode(text, false),
            Some(re) => {
                proof {
                    use_type_invariant(self);
                }
                let m = acha(re, text);
                assert(m@ == self@.marcadores(text@));
                self.encode_special_com(text, &m)
            },
        }
    }

    /// The texts of the ids, without the marks for the beginning and the end.
    fn textos_de(&self, ids: &[u32]) -> (r: String)
        ensures
            r@ == texto_dos_ids(self@.v, ids@),
    {
        let mut encoded: String = String::new();
        let mut i: usize = 0;
        proof {
            assert(ids@.take(0) =~= Seq::<u32>::empty());
        }
        while i < ids.len()
            invariant
                i <= ids.len(),
                encoded@ == texto_dos_ids(self@.v, ids@.take(i as int)),
            decreases ids.len() - i,
        {
            let id: u32 = ids[i];
            proof {
                assert(ids@.take(i + 1).drop_last() =~= ids@.take(i as int));
                assert(ids@.take(i + 1).last() == id);
            }
            i += 1;
            if id == self.vocab.bos_id() || id == self.vocab.eos_id() {
                continue ;
            }
            if let Some(t) = self.vocab.token_text(id) {
                encoded.append(t);
            }
        }
        assert(ids@.take(i as int) =~= ids@);
        encoded
    }

    /// The bytes of SentencePiece tokens, without the marks for the beginning and
    /// the end.
    fn bytes_de(&self, ids: &[u32]) -> (r: Vec<u8>)
        ensures
            r@ == bytes_dos_ids(self@.v, ids@),
    {
        let mut bytes: Vec<u8> = Vec::new();
        let mut i: usize = 0;
        proof {
            assert(ids@.take(0) =~= Seq::<u32>::empty());
        }
        while i < ids.len()
            invariant
                i <= ids.len(),
                bytes@ == bytes_dos_ids(self@.v, ids@.take(i as int)),
            decreases ids.len() - i,
        {
            let id: u32 = ids[i];
            proof {
                assert(ids@.take(i + 1).drop_last() =~= ids@.take(i as int));
                assert(ids@.take(i + 1).last() == id);
            }
            i += 1;
            if id == self.vocab.bos_id() || id == self.vocab.eos_id() {
                continue ;
            }
            let ghost antes = bytes@;
            if let Some(b) = self.vocab.token_byte(id) {
                bytes.push(b);
            } else if let Some(t) = self.vocab.token_text(id) {
                let t = troca(t, SPACE_ESCAPE, ' ');
                assert(t@ =~= sem_escape(self@.v.texto(id)->0));
                bytes.extend_from_slice(t.as_str().as_bytes());
            }
            assert(bytes@ =~= antes + bytes_do_token(self@.v, id));
        }
        assert(ids@.take(i as int) =~= ids@);
        bytes
    }

    /// Decodes ids to text. What is no valid UTF-8 is replaced.
    pub fn decode(&self, ids: &[u32]) -> (r: String)
        ensures
            r@ == self@.decode(ids@),
    {
        let bytes = self.decode_bytes(ids);
        de_utf8_com_perdas(bytes.as_slice())
    }

    /// The bytes of the tokens, with a character that is cut in two left as it
    /// is: what is needed to stream a text.
    pub fn decode_bytes(&self, ids: &[u32]) -> (r: Vec<u8>)
        ensures
            r@ == self@.decode_bytes(ids@),
    {
        if !self.vocab.tem_merges() {
            let mut bytes = self.bytes_de(ids);
            if bytes.len() > 0 && bytes[0] == 0x20 {
                let ghost b = bytes@;
                bytes.remove(0);
                assert(bytes@ =~= b.drop_first());
            }
            bytes
        } else {
            let encoded = self.textos_de(ids);
            decode_bpe_bytes(encoded.as_str())
        }
    }
}

} // verus!
