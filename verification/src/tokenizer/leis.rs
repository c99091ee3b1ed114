//! What holds of the tokenizers as a whole.

use vstd::prelude::*;
use vstd::seq_lib::*;
use vstd::utf8::*;

use crate::tokenizer::bpe::{
    bpe, char_do_byte, decodificado, fundidos, id_fundido, ids_do_pedaco, ids_iniciais,
    lei_decodificado_concat, lei_tabela_inversa, menor_rank, texto_ou_nada, troca_par,
};
use crate::tokenizer::expressao::em_ordem;
use crate::tokenizer::facade::{
    bytes_do_token, bytes_dos_ids, com_escape, sem_byte_de_espaco, sem_escape, sem_espaco_inicial,
    texto_dos_ids, TokModelo, SPACE_ESCAPE,
};
use crate::tokenizer::spm::{
    funde, guloso, ids_de_bytes, ids_do_segmento, ids_dos_segmentos, junto,
    lei_segmentos_preservam_o_texto, lemma_junto_letras, letras, melhor, spm,
};
use crate::tokenizer::texto::{
    lemma_encode_utf8_concat, lemma_espaco_inicial, lemma_texto_de_bytes,
};
use crate::tokenizer::vocab::{lemma_primeiro, ranks_de, texto_do_byte, VocabModelo};

verus! {

/// A vocabulary whose ids all fit in 32 bits.
pub open spec fn ids_cabem(v: VocabModelo) -> bool {
    v.tokens.len() <= 0x1_0000_0000
}

/// The token found for a text has that text, and no token before it has it.
pub proof fn lei_id_tem_o_texto(v: VocabModelo, t: Seq<char>)
    requires
        ids_cabem(v),
    ensures
        v.id(t) matches Some(i) ==> v.texto(i) == Some(t) && forall|j: u32|
            j < i ==> #[trigger] v.texto(j) != Some(t),
        v.id(t) is None ==> forall|j: u32| #[trigger] v.texto(j) != Some(t),
{
    lemma_primeiro(v.tokens, t);
}

/// The texts of the ids one after the other, the marks among them too.
pub open spec fn texto_corrido(v: VocabModelo, ids: Seq<u32>) -> Seq<char>
    decreases ids.len(),
{
    if ids.len() == 0 {
        Seq::empty()
    } else {
        texto_corrido(v, ids.drop_last()) + texto_ou_nada(v, ids.last())
    }
}

pub proof fn lemma_texto_corrido_concat(v: VocabModelo, a: Seq<u32>, b: Seq<u32>)
    ensures
        texto_corrido(v, a + b) == texto_corrido(v, a) + texto_corrido(v, b),
    decreases b.len(),
{
    if b.len() == 0 {
        assert(a + b =~= a);
        assert(texto_corrido(v, a) + texto_corrido(v, b) =~= texto_corrido(v, a));
    } else {
        assert((a + b).drop_last() =~= a + b.drop_last());
        lemma_texto_corrido_concat(v, a, b.drop_last());
        assert(texto_corrido(v, a + b) =~= texto_corrido(v, a) + texto_corrido(v, b));
    }
}

proof fn lemma_texto_de_um(v: VocabModelo, id: u32)
    ensures
        texto_corrido(v, seq![id]) == texto_ou_nada(v, id),
{
    assert(seq![id].drop_last() =~= Seq::<u32>::empty());
    reveal_with_fuel(texto_corrido, 2);
    assert(texto_corrido(v, seq![id]) =~= texto_ou_nada(v, id));
}

/// The merges of byte-level BPE keep the text that the tokens spell, whatever the
/// table of ranks holds.
pub proof fn lei_merges_preservam_o_texto(v: VocabModelo, r: Map<u64, u32>, ids: Seq<u32>)
    requires
        ids_cabem(v),
    ensures
        texto_corrido(v, fundidos(v, r, ids)) == texto_corrido(v, ids),
    decreases ids.len(),
{
    if exists|i: int| menor_rank(r, ids, i) {
        let i = choose|i: int| menor_rank(r, ids, i);
        if let Some(m) = id_fundido(v, ids, i) {
            let a = ids.take(i);
            let z = ids.skip(i + 2);
            let p = seq![ids[i]] + seq![ids[i + 1]];
            assert(ids =~= a + p + z);
            assert(troca_par(ids, i, m) =~= a + seq![m] + z);
            lemma_texto_corrido_concat(v, a + p, z);
            lemma_texto_corrido_concat(v, a, p);
            lemma_texto_corrido_concat(v, seq![ids[i]], seq![ids[i + 1]]);
            lemma_texto_corrido_concat(v, a + seq![m], z);
            lemma_texto_corrido_concat(v, a, seq![m]);
            lemma_texto_de_um(v, ids[i]);
            lemma_texto_de_um(v, ids[i + 1]);
            lemma_texto_de_um(v, m);
            lei_id_tem_o_texto(v, texto_ou_nada(v, ids[i]) + texto_ou_nada(v, ids[i + 1]));
            lei_merges_preservam_o_texto(v, r, troca_par(ids, i, m));
        }
    }
}

/// That every one of these bytes has a token of its own.
pub open spec fn bytes_com_token(v: VocabModelo, b: Seq<u8>) -> bool {
    forall|i: int| 0 <= i < b.len() ==> v.id(seq![char_do_byte(#[trigger] b[i])]) is Some
}

proof fn lemma_iniciais_ida_e_volta(v: VocabModelo, b: Seq<u8>)
    requires
        ids_cabem(v),
        bytes_com_token(v, b),
    ensures
        decodificado(texto_corrido(v, ids_iniciais(v, b))) == b,
    decreases b.len(),
{
    if b.len() > 0 {
        let r = ids_iniciais(v, b.drop_last());
        let x = b.last();
        assert(b[b.len() - 1] == x);
        assert forall|i: int| 0 <= i < b.drop_last().len() implies v.id(
            seq![char_do_byte(#[trigger] b.drop_last()[i])],
        ) is Some by {
            assert(b.drop_last()[i] == b[i]);
        }
        lemma_iniciais_ida_e_volta(v, b.drop_last());
        let c = char_do_byte(x);
        lei_id_tem_o_texto(v, seq![c]);
        lei_tabela_inversa(x, c);
        let id = v.id(seq![c])->0;
        assert(r.push(id).drop_last() =~= r);
        lei_decodificado_concat(texto_corrido(v, r), seq![c]);
        assert(seq![c].drop_last() =~= Seq::<char>::empty());
        reveal_with_fuel(decodificado, 2);
        assert(decodificado(seq![c]) =~= seq![x]);
        assert(decodificado(texto_corrido(v, ids_iniciais(v, b))) =~= b);
    }
}

/// The pieces one after the other.
pub open spec fn pedacos_juntos(bytes: Seq<u8>, p: Seq<(usize, usize)>) -> Seq<u8>
    decreases p.len(),
{
    if p.len() == 0 {
        Seq::empty()
    } else {
        pedacos_juntos(bytes, p.drop_last()) + bytes.subrange(p.last().0 as int, p.last().1 as int)
    }
}

/// Byte-level BPE loses nothing of the pieces: their tokens spell their bytes,
/// whatever the table of ranks holds.
pub proof fn lei_bpe_soletra_os_pedacos(
    v: VocabModelo,
    r: Map<u64, u32>,
    bytes: Seq<u8>,
    p: Seq<(usize, usize)>,
)
    requires
        ids_cabem(v),
        bytes_com_token(v, bytes),
        em_ordem(p, bytes),
    ensures
        decodificado(texto_corrido(v, bpe(v, r, bytes, p))) == pedacos_juntos(bytes, p),
    decreases p.len(),
{
    if p.len() > 0 {
        let q = p.drop_last();
        assert forall|i: int| 0 <= i < q.len() implies {
            &&& (#[trigger] q[i]).0 <= q[i].1 <= bytes.len()
            &&& is_char_boundary(bytes, q[i].0 as int)
            &&& is_char_boundary(bytes, q[i].1 as int)
        } by {
            assert(q[i] == p[i]);
        }
        assert forall|i: int, j: int| 0 <= i < j < q.len() implies (#[trigger] q[i]).1 <= (
        #[trigger] q[j]).0 by {
            assert(q[i] == p[i] && q[j] == p[j]);
        }
        lei_bpe_soletra_os_pedacos(v, r, bytes, q);
        assert(p[p.len() - 1] == p.last());
        let b = bytes.subrange(p.last().0 as int, p.last().1 as int);
        assert forall|i: int| 0 <= i < b.len() implies v.id(
            seq![char_do_byte(#[trigger] b[i])],
        ) is Some by {
            assert(b[i] == bytes[p.last().0 + i]);
        }
        lemma_iniciais_ida_e_volta(v, b);
        lei_merges_preservam_o_texto(v, r, ids_iniciais(v, b));
        lemma_texto_corrido_concat(v, bpe(v, r, bytes, q), ids_do_pedaco(v, r, b));
        lei_decodificado_concat(
            texto_corrido(v, bpe(v, r, bytes, q)),
            texto_corrido(v, ids_do_pedaco(v, r, b)),
        );
    }
}

/// That neither mark is among the ids.
pub open spec fn sem_marcas(v: VocabModelo, ids: Seq<u32>) -> bool {
    forall|i: int| 0 <= i < ids.len() ==> #[trigger] ids[i] != v.bos && ids[i] != v.eos
}

pub proof fn lemma_sem_marcas(v: VocabModelo, ids: Seq<u32>)
    requires
        sem_marcas(v, ids),
    ensures
        texto_dos_ids(v, ids) == texto_corrido(v, ids),
    decreases ids.len(),
{
    if ids.len() > 0 {
        assert(ids[ids.len() - 1] == ids.last());
        assert forall|i: int| 0 <= i < ids.drop_last().len() implies #[trigger] ids.drop_last()[i]
            != v.bos && ids.drop_last()[i] != v.eos by {
            assert(ids.drop_last()[i] == ids[i]);
        }
        lemma_sem_marcas(v, ids.drop_last());
        assert(texto_dos_ids(v, ids) =~= texto_corrido(v, ids));
    }
}

proof fn lemma_marca_inicial(v: VocabModelo, ids: Seq<u32>)
    ensures
        texto_dos_ids(v, seq![v.bos] + ids) == texto_dos_ids(v, ids),
    decreases ids.len(),
{
    let s = seq![v.bos] + ids;
    if ids.len() == 0 {
        assert(s.drop_last() =~= Seq::<u32>::empty());
        assert(s.last() == v.bos);
        reveal_with_fuel(texto_dos_ids, 2);
    } else {
        assert(s.drop_last() =~= seq![v.bos] + ids.drop_last());
        assert(s.last() == ids.last());
        lemma_marca_inicial(v, ids.drop_last());
    }
}

/// Byte-level BPE round trip: decoding the tokens of a text gives it back, if
/// every byte has a token, the pieces cover the text and no token is one of the
/// two marks.
pub proof fn lei_ida_e_volta_bpe(
    m: TokModelo,
    t: Seq<char>,
    add_bos: bool,
    pedacos: Seq<(usize, usize)>,
)
    requires
        m.v.merges.len() > 0,
        ids_cabem(m.v),
        bytes_com_token(m.v, encode_utf8(t)),
        em_ordem(pedacos, encode_utf8(t)),
        pedacos_juntos(encode_utf8(t), pedacos) == encode_utf8(t),
        sem_marcas(m.v, bpe(m.v, ranks_de(m.v.merges), encode_utf8(t), pedacos)),
    ensures
        m.decode_bytes(m.codificado(t, add_bos, pedacos)) == encode_utf8(t),
        m.decode(m.codificado(t, add_bos, pedacos)) == t,
{
    lemma_texto_de_bytes(t);
    let ids = bpe(m.v, ranks_de(m.v.merges), encode_utf8(t), pedacos);
    lei_bpe_soletra_os_pedacos(m.v, ranks_de(m.v.merges), encode_utf8(t), pedacos);
    lemma_sem_marcas(m.v, ids);
    if add_bos {
        lemma_marca_inicial(m.v, ids);
    } else {
        assert(m.codificado(t, add_bos, pedacos) =~= ids);
    }
}

/// Every segment that SentencePiece ends with is a token or was there from the
/// start.
pub proof fn lei_segmentos_fundidos_sao_tokens(v: VocabModelo, segs: Seq<Seq<char>>, i: int)
    requires
        0 <= i < guloso(v, segs).len(),
    ensures
        v.id(guloso(v, segs)[i]) is Some || segs.contains(guloso(v, segs)[i]),
    decreases segs.len(),
{
    if exists|k: int| melhor(v, segs, k) {
        let k = choose|k: int| melhor(v, segs, k);
        let f = funde(segs, k);
        lei_segmentos_fundidos_sao_tokens(v, f, i);
        let x = guloso(v, segs)[i];
        if v.id(x) is None {
            let j = choose|j: int| 0 <= j < f.len() && f[j] == x;
            if j < k {
                assert(segs[j] == x);
            } else if j > k {
                assert(segs[j + 1] == x);
            }
        }
    } else {
        assert(segs[i] == guloso(v, segs)[i]);
    }
}

/// The bytes of SentencePiece tokens one after the other, the marks among them
/// too.
pub open spec fn bytes_corridos(v: VocabModelo, ids: Seq<u32>) -> Seq<u8>
    decreases ids.len(),
{
    if ids.len() == 0 {
        Seq::empty()
    } else {
        bytes_corridos(v, ids.drop_last()) + bytes_do_token(v, ids.last())
    }
}

proof fn lemma_bytes_corridos_concat(v: VocabModelo, a: Seq<u32>, b: Seq<u32>)
    ensures
        bytes_corridos(v, a + b) == bytes_corridos(v, a) + bytes_corridos(v, b),
    decreases b.len(),
{
    if b.len() == 0 {
        assert(a + b =~= a);
        assert(bytes_corridos(v, a) + bytes_corridos(v, b) =~= bytes_corridos(v, a));
    } else {
        assert((a + b).drop_last() =~= a + b.drop_last());
        lemma_bytes_corridos_concat(v, a, b.drop_last());
        assert(bytes_corridos(v, a + b) =~= bytes_corridos(v, a) + bytes_corridos(v, b));
    }
}

proof fn lemma_bytes_sem_marcas(v: VocabModelo, ids: Seq<u32>)
    requires
        sem_marcas(v, ids),
    ensures
        bytes_dos_ids(v, ids) == bytes_corridos(v, ids),
    decreases ids.len(),
{
    if ids.len() > 0 {
        assert(ids[ids.len() - 1] == ids.last());
        assert forall|i: int| 0 <= i < ids.drop_last().len() implies #[trigger] ids.drop_last()[i]
            != v.bos && ids.drop_last()[i] != v.eos by {
            assert(ids.drop_last()[i] == ids[i]);
        }
        lemma_bytes_sem_marcas(v, ids.drop_last());
    }
}

proof fn lemma_bytes_marca_inicial(v: VocabModelo, ids: Seq<u32>)
    ensures
        bytes_dos_ids(v, seq![v.bos] + ids) == bytes_dos_ids(v, ids),
    decreases ids.len(),
{
    let s = seq![v.bos] + ids;
    if ids.len() == 0 {
        assert(s.drop_last() =~= Seq::<u32>::empty());
        assert(s.last() == v.bos);
        reveal_with_fuel(bytes_dos_ids, 2);
    } else {
        assert(s.drop_last() =~= seq![v.bos] + ids.drop_last());
        assert(s.last() == ids.last());
        lemma_bytes_marca_inicial(v, ids.drop_last());
    }
}

/// That a raw byte has a token that stands for it.
pub open spec fn byte_com_token(v: VocabModelo, b: u8) -> bool {
    v.id(texto_do_byte(b)) matches Some(id) && v.byte(id) == Some(b)
}

/// That a character is a token, or that each of its bytes has one.
pub open spec fn letra_com_token(v: VocabModelo, c: char) -> bool {
    v.id(seq![c]) is Some || forall|i: int|
        0 <= i < encode_utf8(seq![c]).len() ==> byte_com_token(
            v,
            #[trigger] encode_utf8(seq![c])[i],
        )
}

/// That every character of the text is a token, or has those of its bytes.
pub open spec fn letras_com_token(v: VocabModelo, t: Seq<char>) -> bool {
    forall|i: int| 0 <= i < t.len() ==> letra_com_token(v, #[trigger] t[i])
}

/// That no segment is the text of a raw byte: its token would stand for the byte.
pub open spec fn sem_texto_de_byte(v: VocabModelo, segs: Seq<Seq<char>>) -> bool {
    forall|i: int|
        0 <= i < segs.len() ==> (v.id(#[trigger] segs[i]) matches Some(id) ==> v.byte(id) is None)
}

/// What the tokens of a segment are read back as: the escape of spaces is undone
/// in a token and stays in raw bytes.
pub open spec fn lido(v: VocabModelo, s: Seq<char>) -> Seq<char> {
    if v.id(s) is Some {
        sem_escape(s)
    } else {
        s
    }
}

/// What the tokens of an escaped text are read back as.
pub open spec fn relido(v: VocabModelo, t: Seq<char>) -> Seq<char> {
    junto(guloso(v, letras(t)).map_values(|s: Seq<char>| lido(v, s)))
}

proof fn lemma_bytes_ida_e_volta(v: VocabModelo, b: Seq<u8>)
    requires
        forall|i: int| 0 <= i < b.len() ==> byte_com_token(v, #[trigger] b[i]),
    ensures
        bytes_corridos(v, ids_de_bytes(v, b)) == b,
    decreases b.len(),
{
    if b.len() > 0 {
        let d = b.drop_last();
        assert(byte_com_token(v, b[b.len() - 1]));
        assert forall|i: int| 0 <= i < d.len() implies byte_com_token(v, #[trigger] d[i]) by {
            assert(d[i] == b[i]);
        }
        lemma_bytes_ida_e_volta(v, d);
        let r = ids_de_bytes(v, d);
        let id = v.id_do_byte(b.last())->0;
        assert(r.push(id).drop_last() =~= r);
        assert(bytes_corridos(v, r.push(id)) =~= b);
    }
}

/// The segments that SentencePiece ends with are tokens, or single characters
/// that were there from the start.
proof fn lemma_segmento_final(v: VocabModelo, t: Seq<char>, i: int) -> (j: int)
    requires
        0 <= i < guloso(v, letras(t)).len(),
    ensures
        v.id(guloso(v, letras(t))[i]) is None ==> 0 <= j < t.len() && guloso(v, letras(t))[i]
            == seq![t[j]],
{
    lei_segmentos_fundidos_sao_tokens(v, letras(t), i);
    let s = guloso(v, letras(t))[i];
    if v.id(s) is None {
        let j = choose|j: int| 0 <= j < letras(t).len() && letras(t)[j] == s;
        assert(s == seq![t[j]]);
        j
    } else {
        0
    }
}

proof fn lemma_segmentos_soletram(v: VocabModelo, segs: Seq<Seq<char>>)
    requires
        ids_cabem(v),
        sem_texto_de_byte(v, segs),
        forall|i: int|
            0 <= i < segs.len() && v.id(#[trigger] segs[i]) is None ==> segs[i].len() == 1
                && letra_com_token(v, segs[i][0]),
    ensures
        bytes_corridos(v, ids_dos_segmentos(v, segs)) == encode_utf8(
            junto(segs.map_values(|s: Seq<char>| lido(v, s))),
        ),
    decreases segs.len(),
{
    let f = |s: Seq<char>| lido(v, s);
    if segs.len() > 0 {
        let d = segs.drop_last();
        let x = segs.last();
        assert(segs[segs.len() - 1] == x);
        assert forall|i: int| 0 <= i < d.len() implies (v.id(#[trigger] d[i]) matches Some(id)
            ==> v.byte(id) is None) by {
            assert(d[i] == segs[i]);
        }
        assert forall|i: int| 0 <= i < d.len() && v.id(#[trigger] d[i]) is None implies d[i].len()
            == 1 && letra_com_token(v, d[i][0]) by {
            assert(d[i] == segs[i]);
        }
        lemma_segmentos_soletram(v, d);
        lemma_bytes_corridos_concat(v, ids_dos_segmentos(v, d), ids_do_segmento(v, x));
        assert(segs.map_values(f).drop_last() =~= d.map_values(f));
        assert(segs.map_values(f).last() == lido(v, x));
        lemma_encode_utf8_concat(junto(d.map_values(f)), lido(v, x));
        assert(bytes_corridos(v, ids_do_segmento(v, x)) == encode_utf8(lido(v, x))) by {
            match v.id(x) {
                Some(id) => {
                    lei_id_tem_o_texto(v, x);
                    assert(seq![id].drop_last() =~= Seq::<u32>::empty());
                    reveal_with_fuel(bytes_corridos, 2);
                    assert(bytes_corridos(v, seq![id]) =~= encode_utf8(sem_escape(x)));
                },
                None => {
                    assert(x =~= seq![x[0]]);
                    lemma_bytes_ida_e_volta(v, encode_utf8(x));
                },
            }
        }
    } else {
        assert(segs.map_values(f) =~= Seq::<Seq<char>>::empty());
        assert(bytes_corridos(v, ids_dos_segmentos(v, segs)) =~= encode_utf8(Seq::<char>::empty()));
    }
}

/// The tokens of a text spell it, character by character or byte by byte, with
/// the escape of spaces undone in those that are no raw bytes.
pub proof fn lei_spm_soletra_o_texto(v: VocabModelo, t: Seq<char>)
    requires
        ids_cabem(v),
        letras_com_token(v, t),
        sem_texto_de_byte(v, guloso(v, letras(t))),
    ensures
        bytes_corridos(v, spm(v, t)) == encode_utf8(relido(v, t)),
{
    let segs = guloso(v, letras(t));
    assert forall|i: int| 0 <= i < segs.len() && v.id(#[trigger] segs[i]) is None implies
        segs[i].len() == 1 && letra_com_token(v, segs[i][0]) by {
        let j = lemma_segmento_final(v, t, i);
        assert(letra_com_token(v, t[j]));
    }
    lemma_segmentos_soletram(v, segs);
}

proof fn lemma_sem_escape_concat(a: Seq<char>, b: Seq<char>)
    ensures
        sem_escape(a + b) == sem_escape(a) + sem_escape(b),
{
    assert(sem_escape(a + b) =~= sem_escape(a) + sem_escape(b));
}

proof fn lemma_junto_sem_escape(v: VocabModelo, segs: Seq<Seq<char>>)
    requires
        forall|i: int| 0 <= i < segs.len() ==> lido(v, #[trigger] segs[i]) == sem_escape(segs[i]),
    ensures
        junto(segs.map_values(|s: Seq<char>| lido(v, s))) == sem_escape(junto(segs)),
    decreases segs.len(),
{
    let f = |s: Seq<char>| lido(v, s);
    if segs.len() > 0 {
        let d = segs.drop_last();
        assert(segs[segs.len() - 1] == segs.last());
        assert forall|i: int| 0 <= i < d.len() implies lido(v, #[trigger] d[i]) == sem_escape(
            d[i],
        ) by {
            assert(d[i] == segs[i]);
        }
        lemma_junto_sem_escape(v, d);
        assert(segs.map_values(f).drop_last() =~= d.map_values(f));
        lemma_sem_escape_concat(junto(d), segs.last());
    } else {
        assert(segs.map_values(f) =~= Seq::<Seq<char>>::empty());
        assert(sem_escape(junto(segs)) =~= Seq::<char>::empty());
    }
}

/// The tokens of a text without the escape of the space are read back as that
/// text, if that escape is a token or there is no space to escape.
pub proof fn lei_escape_desfeito(v: VocabModelo, t: Seq<char>)
    requires
        forall|i: int| 0 <= i < t.len() ==> #[trigger] t[i] != SPACE_ESCAPE,
        v.id(seq![SPACE_ESCAPE]) is Some || forall|i: int|
            0 <= i < t.len() ==> #[trigger] t[i] != ' ',
    ensures
        relido(v, com_escape(t)) == t,
{
    let e = com_escape(t);
    let segs = guloso(v, letras(e));
    assert forall|i: int| 0 <= i < segs.len() implies lido(v, #[trigger] segs[i]) == sem_escape(
        segs[i],
    ) by {
        if v.id(segs[i]) is None {
            let j = lemma_segmento_final(v, e, i);
            assert(e[j] != SPACE_ESCAPE) by {
                if e[j] == SPACE_ESCAPE {
                    assert(t[j] == ' ');
                }
            }
            assert(sem_escape(segs[i]) =~= segs[i]);
        }
    }
    lemma_junto_sem_escape(v, segs);
    lei_segmentos_preservam_o_texto(v, letras(e));
    lemma_junto_letras(e);
    assert(sem_escape(e) =~= t);
}

/// The text that SentencePiece cuts in tokens: one that starts a prompt has a
/// space before it.
pub open spec fn com_prefixo(t: Seq<char>, add_bos: bool) -> Seq<char> {
    if add_bos {
        seq![' '] + t
    } else {
        t
    }
}

/// SentencePiece round trip: decoding the tokens of a text gives it back, also
/// where its characters have only the tokens of their bytes. Excluded are a
/// character without either, a segment that is the text of a raw byte, a token
/// that is one of the two marks, an escape of the space that is not read back as
/// what it stood for (see `lei_escape_desfeito`), and, without the mark for the
/// beginning, a text that starts with a space, since none is put before it.
pub proof fn lei_ida_e_volta_spm(
    m: TokModelo,
    t: Seq<char>,
    add_bos: bool,
    pedacos: Seq<(usize, usize)>,
)
    requires
        m.v.merges.len() == 0,
        ids_cabem(m.v),
        letras_com_token(m.v, com_escape(com_prefixo(t, add_bos))),
        sem_texto_de_byte(m.v, guloso(m.v, letras(com_escape(com_prefixo(t, add_bos))))),
        relido(m.v, com_escape(com_prefixo(t, add_bos))) == com_prefixo(t, add_bos),
        !add_bos ==> t.len() == 0 || t[0] != ' ',
        sem_marcas(m.v, spm(m.v, com_escape(com_prefixo(t, add_bos)))),
    ensures
        m.decode(m.codificado(t, add_bos, pedacos)) == t,
        m.decode_bytes(m.codificado(t, add_bos, pedacos)) == encode_utf8(t),
{
    let u = com_prefixo(t, add_bos);
    let e = com_escape(u);
    let ids = spm(m.v, e);
    lei_spm_soletra_o_texto(m.v, e);
    lemma_bytes_sem_marcas(m.v, ids);
    lemma_espaco_inicial(u);
    lemma_texto_de_bytes(t);
    if add_bos {
        assert(m.codificado(t, add_bos, pedacos) == seq![m.v.bos] + ids);
        lemma_bytes_marca_inicial(m.v, ids);
        assert(u.drop_first() =~= t);
    } else {
        assert(Seq::<char>::empty() + t =~= t);
        assert(m.codificado(t, add_bos, pedacos) =~= ids);
    }
}

/// A token that stands for a raw byte is decoded to that byte, and to its
/// character if it is of ASCII. A space is the one byte that is dropped at the
/// beginning.
pub proof fn lei_byte_decodificado(m: TokModelo, id: u32, b: u8)
    requires
        m.v.merges.len() == 0,
        m.v.byte(id) == Some(b),
        id != m.v.bos && id != m.v.eos,
        b != 0x20,
    ensures
        m.decode_bytes(seq![id]) == seq![b],
        b < 0x80 ==> m.decode(seq![id]) == seq![b as char],
{
    assert(seq![id].drop_last() =~= Seq::<u32>::empty());
    reveal_with_fuel(bytes_dos_ids, 2);
    assert(bytes_dos_ids(m.v, seq![id]) =~= seq![b]);
    if b < 0x80 {
        let t = seq![b as char];
        is_ascii_chars_encode_utf8(t);
        assert(encode_utf8(t) =~= seq![b]);
        lemma_texto_de_bytes(t);
    }
}

proof fn lemma_bytes_do_texto(v: VocabModelo, ids: Seq<u32>)
    requires
        forall|i: int| 0 <= i < ids.len() ==> v.byte(#[trigger] ids[i]) is None,
    ensures
        bytes_dos_ids(v, ids) == encode_utf8(sem_escape(texto_dos_ids(v, ids))),
    decreases ids.len(),
{
    if ids.len() > 0 {
        let d = ids.drop_last();
        assert(ids[ids.len() - 1] == ids.last());
        assert forall|i: int| 0 <= i < d.len() implies v.byte(#[trigger] d[i]) is None by {
            assert(d[i] == ids[i]);
        }
        lemma_bytes_do_texto(v, d);
        if let Some(t) = v.texto(ids.last()) {
            lemma_sem_escape_concat(texto_dos_ids(v, d), t);
            lemma_encode_utf8_concat(sem_escape(texto_dos_ids(v, d)), sem_escape(t));
        } else {
            assert(bytes_dos_ids(v, ids) =~= bytes_dos_ids(v, d));
        }
    } else {
        assert(sem_escape(texto_dos_ids(v, ids)) =~= Seq::<char>::empty());
    }
}

/// SentencePiece tokens none of which stands for a raw byte are decoded to their
/// texts, with the escape of spaces undone and without the space at the
/// beginning.
pub proof fn lei_decode_dos_textos(m: TokModelo, ids: Seq<u32>)
    requires
        m.v.merges.len() == 0,
        forall|i: int| 0 <= i < ids.len() ==> m.v.byte(#[trigger] ids[i]) is None,
    ensures
        m.decode(ids) == sem_espaco_inicial(sem_escape(texto_dos_ids(m.v, ids))),
{
    let t = sem_escape(texto_dos_ids(m.v, ids));
    lemma_bytes_do_texto(m.v, ids);
    lemma_espaco_inicial(t);
    lemma_texto_de_bytes(sem_espaco_inicial(t));
}

/// The decoded bytes are those of the decoded text, as long as they are valid
/// UTF-8.
pub proof fn lei_decode_e_decode_bytes(m: TokModelo, ids: Seq<u32>)
    requires
        valid_utf8(m.decode_bytes(ids)),
    ensures
        m.decode_bytes(ids) == encode_utf8(m.decode(ids)),
{
    decode_utf8_encode_utf8(m.decode_bytes(ids));
}

proof fn lemma_texto_dos_ids_concat(v: VocabModelo, a: Seq<u32>, b: Seq<u32>)
    ensures
        texto_dos_ids(v, a + b) == texto_dos_ids(v, a) + texto_dos_ids(v, b),
    decreases b.len(),
{
    if b.len() == 0 {
        assert(a + b =~= a);
        assert(texto_dos_ids(v, a) + texto_dos_ids(v, b) =~= texto_dos_ids(v, a));
    } else {
        assert((a + b).drop_last() =~= a + b.drop_last());
        lemma_texto_dos_ids_concat(v, a, b.drop_last());
        assert(texto_dos_ids(v, a + b) =~= texto_dos_ids(v, a) + texto_dos_ids(v, b));
    }
}

proof fn lemma_bytes_dos_ids_concat(v: VocabModelo, a: Seq<u32>, b: Seq<u32>)
    ensures
        bytes_dos_ids(v, a + b) == bytes_dos_ids(v, a) + bytes_dos_ids(v, b),
    decreases b.len(),
{
    if b.len() == 0 {
        assert(a + b =~= a);
        assert(bytes_dos_ids(v, a) + bytes_dos_ids(v, b) =~= bytes_dos_ids(v, a));
    } else {
        assert((a + b).drop_last() =~= a + b.drop_last());
        lemma_bytes_dos_ids_concat(v, a, b.drop_last());
        assert(bytes_dos_ids(v, a + b) =~= bytes_dos_ids(v, a) + bytes_dos_ids(v, b));
    }
}

/// A stream of tokens can be decoded in parts: the bytes of the parts, put
/// together, are those of the whole. Excluded is a later part of a SentencePiece
/// stream that starts with a space, which it would lose.
pub proof fn lei_decode_bytes_em_partes(m: TokModelo, a: Seq<u32>, b: Seq<u32>)
    requires
        m.v.merges.len() > 0 || bytes_dos_ids(m.v, a).len() == 0 || sem_byte_de_espaco(
            bytes_dos_ids(m.v, b),
        ) == bytes_dos_ids(m.v, b),
    ensures
        m.decode_bytes(a + b) == m.decode_bytes(a) + m.decode_bytes(b),
{
    if m.v.merges.len() > 0 {
        lemma_texto_dos_ids_concat(m.v, a, b);
        lei_decodificado_concat(texto_dos_ids(m.v, a), texto_dos_ids(m.v, b));
    } else {
        let x = bytes_dos_ids(m.v, a);
        let y = bytes_dos_ids(m.v, b);
        lemma_bytes_dos_ids_concat(m.v, a, b);
        if x.len() == 0 {
            assert(x + y =~= y);
        }
        assert(m.decode_bytes(a + b) =~= m.decode_bytes(a) + m.decode_bytes(b));
    }
}

} // verus!
