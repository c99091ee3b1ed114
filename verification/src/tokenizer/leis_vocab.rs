//! What a vocabulary is read from, and what its bytes and special tokens are.

use vstd::prelude::*;
use vstd::utf8::*;

use crate::tokenizer::bpe::{
    byte_do_char, char_do_byte, decodificado, lei_decodificado_concat, PADRAO_QWEN2, PADRAO_QWEN35,
};
use crate::tokenizer::error::ErroModelo;
use crate::tokenizer::expressao::compilado;
use crate::tokenizer::facade::{
    bytes_dos_ids, sem_escape, texto_dos_ids, tokenizador_de, TokModelo,
};
use crate::tokenizer::gguf::{valor_em, ValorModelo};
use crate::tokenizer::pretok::Pretok;
use crate::tokenizer::vocab::{
    bytes_de, chave_par, corte, id_em, insere_por_tamanho, lei_especiais_do_mais_longo,
    lei_texto_do_byte, merges_de, par_de, texto_do_byte, vocab_de, VocabModelo, MENOS_INFINITO,
};

verus! {

// ---------------------------------------------------------------------------
// Bytes
// ---------------------------------------------------------------------------

/// Whether the character of that number is printed as itself: the printable
/// ones of ASCII and of Latin-1, without the soft hyphen.
pub open spec fn imprime(n: int) -> bool {
    '!' as int <= n <= '~' as int || '\u{A1}' as int <= n <= '\u{AC}' as int || '\u{AE}' as int
        <= n <= '\u{FF}' as int
}

/// A byte that is printed as itself stands for itself, and no other does.
pub proof fn lei_byte_impresso(b: u8)
    ensures
        imprime(b as int) <==> char_do_byte(b) as int == b,
{
}

/// The bytes that are not printed are numbered from U+0100 on, in their order
/// and without a gap: the next one after a byte has the next character.
pub proof fn lei_bytes_numerados(b: u8, c: u8)
    requires
        !imprime(b as int),
        !imprime(c as int),
        b < c,
        forall|k: int| b < k < c ==> imprime(k),
    ensures
        char_do_byte(0) as int == 0x100,
        char_do_byte(c) as int == char_do_byte(b) as int + 1,
{
    assert(b < 32 ==> c == b + 1) by {
        if b < 32 && c > b + 1 {
            assert(imprime(b + 1));
        }
    }
    assert(b == 32 ==> c == 127) by {
        if b == 32 && c > 127 {
            assert(imprime(127));
        }
    }
    assert(127 <= b < 160 ==> c == b + 1) by {
        if 127 <= b < 160 && c > b + 1 {
            assert(imprime(b + 1));
        }
    }
    assert(b == 160 ==> c == 173) by {
        if b == 160 && c > 173 {
            assert(imprime(173));
        }
    }
}

/// Bytes written as their characters are decoded to those bytes.
pub proof fn lei_bytes_de_volta(b: Seq<u8>)
    ensures
        decodificado(b.map_values(|x: u8| char_do_byte(x))) == b,
    decreases b.len(),
{
    let f = |x: u8| char_do_byte(x);
    if b.len() > 0 {
        let d = b.drop_last();
        lei_bytes_de_volta(d);
        assert(b.map_values(f).drop_last() =~= d.map_values(f));
        assert(b.map_values(f).last() == char_do_byte(b.last()));
        assert(d + seq![b.last()] =~= b);
    } else {
        assert(b.map_values(f) =~= Seq::empty());
        assert(decodificado(b.map_values(f)) =~= b);
    }
}

/// A text none of whose characters stands for a byte is decoded to its UTF-8
/// bytes, character by character.
pub proof fn lei_fora_da_tabela(t: Seq<char>, c: char)
    requires
        forall|b: u8| #[trigger] char_do_byte(b) != c,
    ensures
        decodificado(t.push(c)) == decodificado(t) + encode_utf8(seq![c]),
{
    assert(t.push(c).drop_last() =~= t);
    if let Some(b) = byte_do_char(c) {
        assert(char_do_byte(b) == c);
    }
}

/// The token of a byte is the one whose text is `<0xXX>`, in upper-case
/// hexadecimal digits; only where there is none, the one whose text is the ASCII
/// character of the byte. A byte has no token only if there is neither.
pub proof fn lei_token_do_byte(v: VocabModelo, b: u8)
    ensures
        v.id(texto_do_byte(b)) is Some ==> v.id_do_byte(b) == v.id(texto_do_byte(b)),
        v.id(texto_do_byte(b)) is None && b < 0x80 ==> v.id_do_byte(b) == v.id(seq![b as char]),
        v.id(texto_do_byte(b)) is None && b >= 0x80 ==> v.id_do_byte(b) is None,
        ({
            let t = texto_do_byte(b);
            let d = "0123456789ABCDEF"@;
            &&& t.len() == 6
            &&& t.take(3) == "<0x"@
            &&& t[3] == d[b as int / 16]
            &&& t[4] == d[b as int % 16]
            &&& t[5] == '>'
        }),
{
    reveal_strlit("0123456789ABCDEF");
    reveal_strlit("<0x");
    assert(texto_do_byte(b).take(3) =~= "<0x"@);
}

/// Only a token of the byte type stands for a raw byte; a score outside of the
/// vocabulary is lower than any other.
pub proof fn lei_fora_do_vocab(v: VocabModelo, id: u32)
    ensures
        v.byte(id) matches Some(b) ==> v.texto(id) == Some(texto_do_byte(b))
            && v.tipos[id as int] == 6,
        v.texto(id) is Some && id < v.tipos.len() && v.tipos[id as int] == 6 && v.byte(id) is None
            ==> forall|b: u8| v.texto(id) != Some(#[trigger] texto_do_byte(b)),
        id >= v.scores.len() ==> v.score(id) == MENOS_INFINITO,
        id < v.scores.len() ==> v.score(id) == v.scores[id as int],
{
    if let Some(b) = v.byte(id) {
        lei_texto_do_byte(b, v.tokens[id as int]);
    }
    if v.texto(id) is Some && id < v.tipos.len() && v.tipos[id as int] == 6 && v.byte(id) is None {
        assert forall|b: u8| v.texto(id) != Some(#[trigger] texto_do_byte(b)) by {
            lei_texto_do_byte(b, v.tokens[id as int]);
        }
    }
}

/// Two pairs have the same key only if they are the same pair.
pub proof fn lei_chaves_distintas(a: u32, b: u32, c: u32, d: u32)
    ensures
        chave_par(a, b) == chave_par(c, d) <==> a == c && b == d,
{
}

// ---------------------------------------------------------------------------
// Decoding one token
// ---------------------------------------------------------------------------

/// What one more token adds: nothing, if it is one of the two marks or outside
/// of the vocabulary; else its text, in byte-level BPE as the bytes that it
/// stands for.
pub proof fn lei_mais_um_token(m: TokModelo, ids: Seq<u32>, id: u32)
    ensures
        id == m.v.bos || id == m.v.eos || id >= m.v.tokens.len() ==> m.decode_bytes(ids.push(id))
            == m.decode_bytes(ids),
        id != m.v.bos && id != m.v.eos && id < m.v.tokens.len() ==> {
            &&& m.v.merges.len() > 0 ==> m.decode_bytes(ids.push(id)) == m.decode_bytes(ids)
                + decodificado(m.v.tokens[id as int])
            &&& m.v.merges.len() == 0 ==> bytes_dos_ids(m.v, ids.push(id)) == bytes_dos_ids(
                m.v,
                ids,
            ) + match m.v.byte(id) {
                Some(b) => seq![b],
                None => encode_utf8(sem_escape(m.v.tokens[id as int])),
            }
        },
{
    assert(ids.push(id).drop_last() =~= ids);
    let r = texto_dos_ids(m.v, ids);
    if id < m.v.tokens.len() {
        lei_decodificado_concat(r, m.v.tokens[id as int]);
    }
    assert(bytes_dos_ids(m.v, ids) + Seq::<u8>::empty() =~= bytes_dos_ids(m.v, ids));
}

// ---------------------------------------------------------------------------
// Special tokens
// ---------------------------------------------------------------------------

/// That `x` goes before `y`: its text has more bytes, or as many and a lower id.
pub open spec fn vem_antes(x: (Seq<char>, u32), y: (Seq<char>, u32)) -> bool {
    bytes_de(x.0) > bytes_de(y.0) || (bytes_de(x.0) == bytes_de(y.0) && x.1 < y.1)
}

pub open spec fn em_ordem_de_tamanho(s: Seq<(Seq<char>, u32)>) -> bool {
    forall|i: int, j: int| 0 <= i < j < s.len() ==> vem_antes(#[trigger] s[i], #[trigger] s[j])
}

proof fn lemma_insere_em_ordem(s: Seq<(Seq<char>, u32)>, x: (Seq<char>, u32))
    requires
        em_ordem_de_tamanho(s),
        forall|i: int| 0 <= i < s.len() ==> (#[trigger] s[i]).1 < x.1,
    ensures
        em_ordem_de_tamanho(insere_por_tamanho(s, x)),
        insere_por_tamanho(s, x).len() == s.len() + 1,
        forall|i: int|
            0 <= i <= s.len() ==> (#[trigger] insere_por_tamanho(s, x)[i]) == x || exists|j: int|
                0 <= j < s.len() && s[j] == insere_por_tamanho(s, x)[i],
    decreases s.len(),
{
    let r = insere_por_tamanho(s, x);
    if s.len() == 0 || bytes_de(s.last().0) >= bytes_de(x.0) {
        assert forall|i: int, j: int| 0 <= i < j < r.len() implies vem_antes(
            #[trigger] r[i],
            #[trigger] r[j],
        ) by {
            assert(r[i] == s[i]);
            if j < s.len() {
                assert(r[j] == s[j]);
            } else if i < s.len() - 1 {
                assert(vem_antes(s[i], s[s.len() - 1]));
            }
        }
        assert forall|i: int| 0 <= i <= s.len() implies (#[trigger] r[i]) == x || exists|j: int|
            0 <= j < s.len() && s[j] == r[i] by {
            if i < s.len() {
                assert(s[i] == r[i]);
            }
        }
    } else {
        let d = s.drop_last();
        assert forall|i: int, j: int| 0 <= i < j < d.len() implies vem_antes(
            #[trigger] d[i],
            #[trigger] d[j],
        ) by {
            assert(d[i] == s[i] && d[j] == s[j]);
        }
        assert forall|i: int| 0 <= i < d.len() implies (#[trigger] d[i]).1 < x.1 by {
            assert(d[i] == s[i]);
        }
        lemma_insere_em_ordem(d, x);
        let q = insere_por_tamanho(d, x);
        assert forall|i: int, j: int| 0 <= i < j < r.len() implies vem_antes(
            #[trigger] r[i],
            #[trigger] r[j],
        ) by {
            assert(r[i] == q[i]);
            if j < q.len() {
                assert(r[j] == q[j]);
            } else if q[i] != x {
                let k = choose|k: int| 0 <= k < d.len() && d[k] == q[i];
                assert(d[k] == s[k]);
                assert(vem_antes(s[k], s[s.len() - 1]));
            }
        }
        assert forall|i: int| 0 <= i <= s.len() implies (#[trigger] r[i]) == x || exists|j: int|
            0 <= j < s.len() && s[j] == r[i] by {
            if i < q.len() {
                assert(r[i] == q[i]);
                if q[i] != x {
                    let k = choose|k: int| 0 <= k < d.len() && d[k] == q[i];
                    assert(s[k] == r[i]);
                }
            } else {
                assert(s[s.len() - 1] == r[i]);
            }
        }
    }
}

/// Of two special tokens the one with more bytes comes first, and of two with as
/// many the one with the lower id; none comes twice.
pub proof fn lei_ordem_dos_especiais(v: VocabModelo, n: int)
    requires
        0 <= n <= v.tokens.len() <= 0x1_0000_0000,
    ensures
        em_ordem_de_tamanho(v.especiais_ate(n)),
        forall|i: int| 0 <= i < v.especiais_ate(n).len() ==> (#[trigger] v.especiais_ate(n)[i]).1
            < n,
    decreases n,
{
    if n > 0 {
        lei_ordem_dos_especiais(v, n - 1);
        if v.especial(n - 1) {
            let s = v.especiais_ate(n - 1);
            let x = (v.tokens[n - 1], (n - 1) as u32);
            lemma_insere_em_ordem(s, x);
            let r = v.especiais_ate(n);
            assert forall|i: int| 0 <= i < r.len() implies (#[trigger] r[i]).1 < n by {
                if r[i] != x {
                    let j = choose|j: int| 0 <= j < s.len() && s[j] == r[i];
                    assert(s[j].1 < n - 1);
                }
            }
        }
    }
}

/// The special tokens are those of the types 3 (control) and 4 (user-defined),
/// each with its own text and id, and no others.
pub proof fn lei_quais_especiais(v: VocabModelo, t: Seq<char>, id: u32)
    requires
        v.tokens.len() <= 0x1_0000_0000,
        v.tipos.len() == v.tokens.len(),
    ensures
        v.especiais().contains((t, id)) <==> id < v.tokens.len() && v.tokens[id as int] == t && (
        v.tipos[id as int] == 3 || v.tipos[id as int] == 4),
{
    lei_especiais_do_mais_longo(v, v.tokens.len() as int);
    assert(v.especiais_ate(v.tokens.len() as int).contains((t, id)) == v.especiais().contains(
        (t, id),
    ));
}

// ---------------------------------------------------------------------------
// The file
// ---------------------------------------------------------------------------

/// The value under a key is that of an entry with that key, and no entry before
/// it has the key; there is none only if no entry has it.
pub proof fn lei_primeira_entrada(f: Seq<(Seq<char>, ValorModelo)>, k: Seq<char>)
    ensures
        valor_em(f, k) matches Some(x) ==> exists|i: int|
            0 <= i < f.len() && #[trigger] f[i] == (k, x) && forall|j: int|
                0 <= j < i ==> (#[trigger] f[j]).0 != k,
        valor_em(f, k) is None ==> forall|j: int| 0 <= j < f.len() ==> (#[trigger] f[j]).0 != k,
    decreases f.len(),
{
    if f.len() > 0 {
        if f[0].0 == k {
            assert(f[0] == (k, f[0].1));
        } else {
            let d = f.drop_first();
            lei_primeira_entrada(d, k);
            match valor_em(f, k) {
                Some(x) => {
                    let i = choose|i: int|
                        0 <= i < d.len() && #[trigger] d[i] == (k, x) && forall|j: int|
                            0 <= j < i ==> (#[trigger] d[j]).0 != k;
                    assert(f[i + 1] == (k, x));
                    assert forall|j: int| 0 <= j < i + 1 implies (#[trigger] f[j]).0 != k by {
                        if j > 0 {
                            assert(d[j - 1] == f[j]);
                        }
                    }
                },
                None => {
                    assert forall|j: int| 0 <= j < f.len() implies (#[trigger] f[j]).0 != k by {
                        if j > 0 {
                            assert(d[j - 1] == f[j]);
                        }
                    }
                },
            }
        }
    }
}

/// A vocabulary holds what stands under the keys of its file: one text, one
/// score and one type per token, the ids of the marks, the pre-tokenizer. A
/// file without a merge list gives no merges; only byte-level BPE may go without
/// scores, which are then zero, and without an unknown token, which is then 0.
pub proof fn lei_vocab_do_arquivo(f: Seq<(Seq<char>, ValorModelo)>)
    ensures
        vocab_de(f) matches Ok(v) ==> {
            let bpe = valor_em(f, "tokenizer.ggml.model"@) == Some(ValorModelo::Str("gpt2"@));
            let scores = valor_em(f, "tokenizer.ggml.scores"@);
            let unk = valor_em(f, "tokenizer.ggml.unknown_token_id"@);
            &&& !bpe ==> valor_em(f, "tokenizer.ggml.model"@) == Some(ValorModelo::Str("llama"@))
            &&& valor_em(f, "tokenizer.ggml.tokens"@) == Some(ValorModelo::StrArray(v.tokens))
            &&& valor_em(f, "tokenizer.ggml.token_type"@) == Some(ValorModelo::I32Array(v.tipos))
            &&& valor_em(f, "tokenizer.ggml.bos_token_id"@) == Some(ValorModelo::U32(v.bos))
            &&& valor_em(f, "tokenizer.ggml.eos_token_id"@) == Some(ValorModelo::U32(v.eos))
            &&& v.scores.len() == v.tokens.len()
            &&& v.tipos.len() == v.tokens.len()
            &&& scores == Some(ValorModelo::F32Array(v.scores)) || (bpe && scores is None
                && forall|i: int| 0 <= i < v.scores.len() ==> #[trigger] v.scores[i] == 0)
            &&& unk == Some(ValorModelo::U32(v.unk)) || (bpe && unk is None && v.unk == 0)
            &&& !bpe ==> v.merges.len() == 0
            &&& bpe ==> exists|ms: Seq<Seq<char>>|
                valor_em(f, "tokenizer.ggml.merges"@) == Some(ValorModelo::StrArray(ms))
                    && v.merges == #[trigger] merges_de(v.tokens, ms)
            &&& v.pre is Qwen35 <==> valor_em(f, "tokenizer.ggml.pre"@) == Some(
                ValorModelo::Str("qwen35"@),
            )
        },
{
    reveal_strlit("gpt2");
    reveal_strlit("llama");
    reveal_strlit("qwen35");
    assert("gpt2"@.len() != "llama"@.len());
    if let Ok(v) = vocab_de(f) {
        if valor_em(f, "tokenizer.ggml.model"@) == Some(ValorModelo::Str("gpt2"@)) {
            if let Some(ValorModelo::StrArray(ms)) = valor_em(f, "tokenizer.ggml.merges"@) {
                assert(v.merges == merges_de(v.tokens, ms));
            }
        }
    }
}

/// When a file is refused: a family other than the two, a missing or wrong
/// entry, lists of different lengths, a missing id or merge list. In every other
/// case the vocabulary is read.
pub proof fn lei_arquivo_recusado(f: Seq<(Seq<char>, ValorModelo)>)
    ensures
        ({
            let modelo = valor_em(f, "tokenizer.ggml.model"@);
            let bpe = modelo == Some(ValorModelo::Str("gpt2"@));
            let llama = modelo == Some(ValorModelo::Str("llama"@));
            let tokens = valor_em(f, "tokenizer.ggml.tokens"@);
            let scores = valor_em(f, "tokenizer.ggml.scores"@);
            let tipos = valor_em(f, "tokenizer.ggml.token_type"@);
            let unk = valor_em(f, "tokenizer.ggml.unknown_token_id"@);
            let n = tokens->0->StrArray_0.len();
            vocab_de(f) is Ok <==> {
                &&& bpe || llama
                &&& tokens matches Some(ValorModelo::StrArray(_))
                &&& (scores matches Some(ValorModelo::F32Array(s)) && s.len() == n) || (bpe
                    && scores is None)
                &&& tipos matches Some(ValorModelo::I32Array(s)) && s.len() == n
                &&& valor_em(f, "tokenizer.ggml.bos_token_id"@) matches Some(ValorModelo::U32(_))
                &&& valor_em(f, "tokenizer.ggml.eos_token_id"@) matches Some(ValorModelo::U32(_))
                &&& (unk matches Some(ValorModelo::U32(_))) || (bpe && unk is None)
                &&& bpe ==> valor_em(f, "tokenizer.ggml.merges"@) matches Some(
                    ValorModelo::StrArray(_),
                )
            }
        }),
        valor_em(f, "tokenizer.ggml.model"@) is None ==> vocab_de(f) == Err::<
            VocabModelo,
            ErroModelo,
        >(ErroModelo::ChaveAusente("tokenizer.ggml.model"@)),
        valor_em(f, "tokenizer.ggml.model"@) matches Some(ValorModelo::Str(m)) && m != "llama"@
            && m != "gpt2"@ ==> vocab_de(f) == Err::<VocabModelo, ErroModelo>(
            ErroModelo::UnsupportedModel(valor_em(f, "tokenizer.ggml.model"@)->0->Str_0),
        ),
        vocab_de(f) matches Err(ErroModelo::InconsistentVocab { tokens, scores, types }) ==> !(
        tokens == scores && tokens == types),
{
    reveal_strlit("gpt2");
    reveal_strlit("llama");
    assert("gpt2"@.len() != "llama"@.len());
}

/// The value of `tokenizer.ggml.pre` that asks for the variant with combining
/// marks is `qwen35` and no other.
pub proof fn lei_variante_do_pretok(p: Seq<char>)
    ensures
        Pretok::de_pre(p) is Qwen35 <==> p == "qwen35"@,
{
}

/// The tokenizer of a vocabulary keeps it; a text is cut by the pattern of its
/// variant, and only in byte-level BPE.
pub proof fn lei_tokenizador(v: VocabModelo)
    ensures
        tokenizador_de(v).v == v,
        v.merges.len() == 0 ==> tokenizador_de(v).pretok is None && tokenizador_de(v).pronto(),
        v.merges.len() > 0 && v.pre is Qwen2 ==> tokenizador_de(v).pretok == compilado(
            PADRAO_QWEN2@,
        ),
        v.merges.len() > 0 && v.pre is Qwen35 ==> tokenizador_de(v).pretok == compilado(
            PADRAO_QWEN35@,
        ),
        v.merges.len() > 0 ==> (tokenizador_de(v).pronto() <==> tokenizador_de(v).pretok is Some),
        v.marcas().len() == 0 ==> tokenizador_de(v).especiais is None,
{
}

proof fn lemma_corte(t: Seq<char>, i: int, p: int)
    requires
        0 <= i <= p < t.len(),
        t[p] == ' ',
        forall|k: int| i <= k < p ==> #[trigger] t[k] != ' ',
    ensures
        corte(t, i) == Some(p),
    decreases p - i,
{
    if i < p {
        assert(t[i] != ' ');
        lemma_corte(t, i + 1, p);
    }
}

/// A merge entry is two token texts with a space between them, of which the
/// first has no space but perhaps at its start: it merges exactly those tokens,
/// and none if one of the texts is no token.
pub proof fn lei_entrada_de_merge(tokens: Seq<Seq<char>>, a: Seq<char>, b: Seq<char>)
    requires
        a.len() > 0,
        forall|i: int| 1 <= i < a.len() ==> #[trigger] a[i] != ' ',
    ensures
        par_de(tokens, a + seq![' '] + b) == match (
            id_em(tokens, a),
            id_em(tokens, b),
        ) {
            (Some(x), Some(y)) => Some((x, y)),
            _ => None::<(u32, u32)>,
        },
{
    let t = a + seq![' '] + b;
    let p = a.len() as int;
    assert forall|k: int| 1 <= k < p implies #[trigger] t[k] != ' ' by {
        assert(t[k] == a[k]);
    }
    lemma_corte(t, 1, p);
    assert(t.take(p) =~= a);
    assert(t.skip(p + 1) =~= b);
}

/// The merges of a list are those of its parts, in the order of the list.
pub proof fn lei_merges_em_ordem(tokens: Seq<Seq<char>>, a: Seq<Seq<char>>, b: Seq<Seq<char>>)
    ensures
        merges_de(tokens, a + b) == merges_de(tokens, a) + merges_de(tokens, b),
        forall|t: Seq<char>|
            #![trigger par_de(tokens, t)]
            merges_de(tokens, seq![t]) == match par_de(tokens, t) {
                Some(p) => seq![p],
                None => Seq::empty(),
            },
    decreases b.len(),
{
    if b.len() == 0 {
        assert(a + b =~= a);
        assert(merges_de(tokens, a) + merges_de(tokens, b) =~= merges_de(tokens, a));
    } else {
        assert((a + b).drop_last() =~= a + b.drop_last());
        lei_merges_em_ordem(tokens, a, b.drop_last());
        assert(merges_de(tokens, a + b) =~= merges_de(tokens, a) + merges_de(tokens, b));
    }
    assert forall|t: Seq<char>|
        #![trigger par_de(tokens, t)]
        merges_de(tokens, seq![t]) == match par_de(tokens, t) {
            Some(p) => seq![p],
            None => Seq::empty(),
        } by {
        reveal_with_fuel(merges_de, 2);
        assert(seq![t].drop_last() =~= Seq::<Seq<char>>::empty());
        if let Some(p) = par_de(tokens, t) {
            assert(Seq::<(u32, u32)>::empty().push(p) =~= seq![p]);
        }
    }
}

} // verus!
