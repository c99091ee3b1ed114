//! How the two tokenizers merge: which pair comes next, and when nothing is left.

use vstd::prelude::*;
use vstd::utf8::*;

use crate::tokenizer::bpe::{
    bpe, char_do_byte, fundidos, ids_do_pedaco, ids_iniciais, menor_rank, rank_em, texto_ou_nada,
    troca_par,
};
use crate::tokenizer::facade::TokModelo;
use crate::tokenizer::fila::ordem;
use crate::tokenizer::leis::{bytes_com_token, ids_cabem, lei_id_tem_o_texto};
use crate::tokenizer::spm::{
    candidato, guloso, ids_de_bytes, ids_do_segmento, ids_dos_segmentos, largura_utf8,
    lemma_melhor_existe, melhor, valor,
};
use crate::tokenizer::vocab::{
    chave_par, lei_rank_e_a_posicao, lemma_primeiro, rank, ranks_de, VocabModelo,
};

verus! {

// ---------------------------------------------------------------------------
// Byte-level BPE
// ---------------------------------------------------------------------------

/// The number under which a table of ranks keeps a pair: the first token in the
/// upper half, the second in the lower one.
pub open spec fn numero_do_par(a: u32, b: u32) -> int {
    a * 0x1_0000_0000 + b
}

/// That the neighbours `i` and `i + 1` have a rank, and that it is `x`.
pub open spec fn tem_rank(m: Map<u64, u32>, ids: Seq<u32>, i: int, x: int) -> bool {
    &&& 0 <= i
    &&& i + 1 < ids.len()
    &&& m.contains_key(numero_do_par(ids[i], ids[i + 1]) as u64)
    &&& m[numero_do_par(ids[i], ids[i + 1]) as u64] == x
}

/// That no pair of neighbours has a lower rank than `x`, and none before `i` has
/// the same.
pub open spec fn ninguem_antes(m: Map<u64, u32>, ids: Seq<u32>, i: int, x: int) -> bool {
    forall|j: int, y: int| #[trigger] tem_rank(m, ids, j, y) ==> x < y || x == y && i <= j
}

proof fn lemma_rank_em(m: Map<u64, u32>, ids: Seq<u32>, i: int, x: int)
    ensures
        tem_rank(m, ids, i, x) <==> rank_em(m, ids, i) is Some && rank_em(m, ids, i)->0 == x,
{
    if 0 <= i && i + 1 < ids.len() {
        assert(chave_par(ids[i], ids[i + 1]) == numero_do_par(ids[i], ids[i + 1]) as u64);
    }
}

proof fn lemma_menor(m: Map<u64, u32>, ids: Seq<u32>, i: int, x: int)
    requires
        tem_rank(m, ids, i, x),
    ensures
        ninguem_antes(m, ids, i, x) <==> menor_rank(m, ids, i),
{
    lemma_rank_em(m, ids, i, x);
    if ninguem_antes(m, ids, i, x) {
        assert forall|j: int| (#[trigger] rank_em(m, ids, j)) is Some implies rank_em(
            m,
            ids,
            i,
        )->0 < rank_em(m, ids, j)->0 || (rank_em(m, ids, i)->0 == rank_em(m, ids, j)->0 && i
            <= j) by {
            lemma_rank_em(m, ids, j, rank_em(m, ids, j)->0 as int);
            assert(tem_rank(m, ids, j, rank_em(m, ids, j)->0 as int));
        }
    }
    if menor_rank(m, ids, i) {
        assert forall|j: int, y: int| #[trigger] tem_rank(m, ids, j, y) implies x < y || x == y
            && i <= j by {
            lemma_rank_em(m, ids, j, y);
        }
    }
}

/// Of the first `n` pairs, the leftmost of the lowest rank.
proof fn lemma_menor_ate(m: Map<u64, u32>, ids: Seq<u32>, n: int) -> (r: Option<int>)
    requires
        0 <= n,
    ensures
        match r {
            None => forall|j: int| 0 <= j < n ==> (#[trigger] rank_em(m, ids, j)) is None,
            Some(i) => {
                &&& 0 <= i < n
                &&& rank_em(m, ids, i) is Some
                &&& forall|j: int|
                    0 <= j < n && (#[trigger] rank_em(m, ids, j)) is Some ==> rank_em(
                        m,
                        ids,
                        i,
                    )->0 < rank_em(m, ids, j)->0 || (rank_em(m, ids, i)->0 == rank_em(
                        m,
                        ids,
                        j,
                    )->0 && i <= j)
            },
        },
    decreases n,
{
    if n == 0 {
        None
    } else {
        let r = lemma_menor_ate(m, ids, n - 1);
        let novo = rank_em(m, ids, n - 1);
        match r {
            None => if novo is Some {
                Some(n - 1)
            } else {
                None
            },
            Some(i) => if novo is Some && novo->0 < rank_em(m, ids, i)->0 {
                Some(n - 1)
            } else {
                Some(i)
            },
        }
    }
}

proof fn lemma_menor_existe(m: Map<u64, u32>, ids: Seq<u32>, i: int)
    requires
        rank_em(m, ids, i) is Some,
    ensures
        exists|k: int| menor_rank(m, ids, k),
{
    let r = lemma_menor_ate(m, ids, ids.len() as int);
    let k = r->0;
    assert(menor_rank(m, ids, k));
}

proof fn lemma_menor_unico(m: Map<u64, u32>, ids: Seq<u32>, i: int, k: int)
    requires
        menor_rank(m, ids, i),
        menor_rank(m, ids, k),
    ensures
        i == k,
{
    assert(rank_em(m, ids, i) is Some && rank_em(m, ids, k) is Some);
}

/// Where the merging of a piece ends, no neighbours have a rank, unless the joint
/// text of those of the lowest rank is no token.
pub proof fn lei_bpe_esgota_as_fusoes(v: VocabModelo, m: Map<u64, u32>, ids: Seq<u32>)
    ensures
        ({
            let r = fundidos(v, m, ids);
            ||| forall|i: int, x: int| !#[trigger] tem_rank(m, r, i, x)
            ||| exists|i: int, x: int| #[trigger]
                tem_rank(m, r, i, x) && ninguem_antes(m, r, i, x) && v.id(
                    texto_ou_nada(v, r[i]) + texto_ou_nada(v, r[i + 1]),
                ) is None
        }),
    decreases ids.len(),
{
    if exists|i: int| menor_rank(m, ids, i) {
        let i = choose|i: int| menor_rank(m, ids, i);
        let x = rank_em(m, ids, i)->0 as int;
        lemma_rank_em(m, ids, i, x);
        lemma_menor(m, ids, i, x);
        match v.id(texto_ou_nada(v, ids[i]) + texto_ou_nada(v, ids[i + 1])) {
            Some(id) => {
                lei_bpe_esgota_as_fusoes(v, m, troca_par(ids, i, id));
            },
            None => {
                assert(tem_rank(m, fundidos(v, m, ids), i, x));
            },
        }
    } else {
        assert forall|i: int, x: int| !#[trigger] tem_rank(m, ids, i, x) by {
            lemma_rank_em(m, ids, i, x);
            if tem_rank(m, ids, i, x) {
                lemma_menor_existe(m, ids, i);
            }
        }
    }
}

/// The pair that is merged next is the leftmost of those of the lowest rank; in
/// its place comes the token of its joint text, and all else stays.
pub proof fn lei_bpe_funde_o_menor(
    v: VocabModelo,
    m: Map<u64, u32>,
    ids: Seq<u32>,
    i: int,
    x: int,
    id: u32,
)
    requires
        tem_rank(m, ids, i, x),
        ninguem_antes(m, ids, i, x),
        v.id(texto_ou_nada(v, ids[i]) + texto_ou_nada(v, ids[i + 1])) == Some(id),
    ensures
        fundidos(v, m, ids) == fundidos(v, m, ids.take(i).push(id) + ids.skip(i + 2)),
        fundidos(v, m, ids).len() < ids.len(),
{
    lemma_menor(m, ids, i, x);
    let k = choose|k: int| menor_rank(m, ids, k);
    lemma_menor_unico(m, ids, i, k);
    let t = troca_par(ids, i, id);
    assert(t =~= ids.take(i).push(id) + ids.skip(i + 2));
    lemma_nao_cresce(v, m, t);
}

proof fn lemma_nao_cresce(v: VocabModelo, m: Map<u64, u32>, ids: Seq<u32>)
    ensures
        fundidos(v, m, ids).len() <= ids.len(),
    decreases ids.len(),
{
    if exists|i: int| menor_rank(m, ids, i) {
        let i = choose|i: int| menor_rank(m, ids, i);
        if let Some(id) = v.id(texto_ou_nada(v, ids[i]) + texto_ou_nada(v, ids[i + 1])) {
            lemma_nao_cresce(v, m, troca_par(ids, i, id));
        }
    }
}

/// Where no neighbours have a rank, nothing is merged.
pub proof fn lei_bpe_sem_rank_nada_muda(v: VocabModelo, m: Map<u64, u32>, ids: Seq<u32>)
    requires
        forall|i: int, x: int| !#[trigger] tem_rank(m, ids, i, x),
    ensures
        fundidos(v, m, ids) == ids,
{
    assert forall|i: int| !menor_rank(m, ids, i) by {
        if menor_rank(m, ids, i) {
            let x = rank_em(m, ids, i)->0 as int;
            lemma_rank_em(m, ids, i, x);
            assert(tem_rank(m, ids, i, x));
        }
    }
}

/// In the table of a list of merges a pair has a rank if it is in the list, and
/// the rank is how many merges come before its first occurrence.
pub proof fn lei_rank_dos_merges(merges: Seq<(u32, u32)>, ids: Seq<u32>, i: int, x: int)
    requires
        merges.len() <= 0x1_0000_0000,
        0 <= i,
        i + 1 < ids.len(),
    ensures
        tem_rank(ranks_de(merges), ids, i, x) <==> 0 <= x < merges.len() && merges[x] == (
            ids[i],
            ids[i + 1],
        ) && forall|j: int| 0 <= j < x ==> #[trigger] merges[j] != (ids[i], ids[i + 1]),
{
    let p = (ids[i], ids[i + 1]);
    lei_rank_e_a_posicao(merges, p.0, p.1);
    lemma_primeiro(merges, p);
    lemma_rank_em(ranks_de(merges), ids, i, x);
    assert(rank_em(ranks_de(merges), ids, i) == rank(ranks_de(merges), p.0, p.1));
}

/// The tokens that the merging of a piece starts from are those of its bytes, one
/// for each, in order.
pub proof fn lei_bpe_comeca_nos_bytes(v: VocabModelo, b: Seq<u8>)
    requires
        ids_cabem(v),
        bytes_com_token(v, b),
    ensures
        ids_iniciais(v, b).len() == b.len(),
        forall|i: int|
            0 <= i < b.len() ==> v.texto(#[trigger] ids_iniciais(v, b)[i]) == Some(
                seq![char_do_byte(b[i])],
            ),
    decreases b.len(),
{
    if b.len() > 0 {
        let r = b.drop_last();
        assert forall|i: int| 0 <= i < r.len() implies v.id(
            seq![char_do_byte(#[trigger] r[i])],
        ) is Some by {
            assert(r[i] == b[i]);
        }
        lei_bpe_comeca_nos_bytes(v, r);
        assert(b[b.len() - 1] == b.last());
        lei_id_tem_o_texto(v, seq![char_do_byte(b.last())]);
    }
}

/// Each piece of a text is tokenized by itself: its tokens are what the merging
/// makes of those of its bytes, and they stand between those of the pieces before
/// it and those of the pieces after it.
pub proof fn lei_bpe_por_pedacos(
    v: VocabModelo,
    m: Map<u64, u32>,
    b: Seq<u8>,
    antes: Seq<(usize, usize)>,
    p: (usize, usize),
    depois: Seq<(usize, usize)>,
)
    ensures
        bpe(v, m, b, antes.push(p) + depois) == bpe(v, m, b, antes) + fundidos(
            v,
            m,
            ids_iniciais(v, b.subrange(p.0 as int, p.1 as int)),
        ) + bpe(v, m, b, depois),
    decreases depois.len(),
{
    let um = bpe(v, m, b, antes) + fundidos(
        v,
        m,
        ids_iniciais(v, b.subrange(p.0 as int, p.1 as int)),
    );
    if depois.len() == 0 {
        assert(antes.push(p) + depois =~= antes.push(p));
        assert(antes.push(p).drop_last() =~= antes);
        assert(um + bpe(v, m, b, depois) =~= um);
    } else {
        let d = depois.drop_last();
        let u = depois.last();
        lei_bpe_por_pedacos(v, m, b, antes, p, d);
        assert((antes.push(p) + depois).drop_last() =~= antes.push(p) + d);
        assert(um + bpe(v, m, b, depois) =~= um + bpe(v, m, b, d) + ids_do_pedaco(
            v,
            m,
            b.subrange(u.0 as int, u.1 as int),
        ));
    }
}

// ---------------------------------------------------------------------------
// SentencePiece
// ---------------------------------------------------------------------------

/// The pair of segments that is merged next forms a token; no other pair that
/// does has a greater score, and none before it has the same. The two become one,
/// and all else stays.
pub proof fn lei_spm_funde_o_melhor(v: VocabModelo, segs: Seq<Seq<char>>, i: int, id: u32)
    requires
        0 <= i,
        i + 1 < segs.len(),
        v.id(segs[i] + segs[i + 1]) == Some(id),
        forall|j: int, o: u32|
            0 <= j && j + 1 < segs.len() && #[trigger] v.id(segs[j] + segs[j + 1]) == Some(o)
                ==> #[trigger] ordem(v.score(o)) < ordem(v.score(id)) || (ordem(v.score(o))
                == ordem(v.score(id)) && i <= j),
    ensures
        guloso(v, segs) == guloso(v, segs.take(i).push(segs[i] + segs[i + 1]) + segs.skip(i + 2)),
{
    assert(candidato(v, segs, i));
    assert forall|j: int| #[trigger] candidato(v, segs, j) implies valor(v, segs, j) < valor(
        v,
        segs,
        i,
    ) || (valor(v, segs, j) == valor(v, segs, i) && i <= j) by {
        let o = v.id(segs[j] + segs[j + 1])->0;
        assert(v.id(segs[j] + segs[j + 1]) == Some(o));
        assert(ordem(v.score(o)) == valor(v, segs, j));
    }
    assert(melhor(v, segs, i));
    lemma_melhor_existe(v, segs, i);
}

/// The scores are ordered as numbers: a number without a sign by its bits, one
/// with a sign the other way round, and below every one without.
pub proof fn lei_ordem_dos_scores(a: u32, b: u32)
    ensures
        a < b && b < 0x8000_0000 ==> ordem(a) < ordem(b),
        0x8000_0000 <= a && a < b ==> ordem(b) < ordem(a),
        a < 0x8000_0000 && 0x8000_0000 <= b ==> ordem(b) < ordem(a),
        ordem(a) == ordem(b) <==> a == b,
{
}

/// Where no two neighbouring segments form a token, nothing is merged.
pub proof fn lei_spm_sem_token_nada_muda(v: VocabModelo, segs: Seq<Seq<char>>)
    requires
        forall|j: int|
            0 <= j && j + 1 < segs.len() ==> (#[trigger] v.id(segs[j] + segs[j + 1])) is None,
    ensures
        guloso(v, segs) == segs,
{
    assert forall|j: int| !melhor(v, segs, j) by {
        if candidato(v, segs, j) {
            assert(v.id(segs[j] + segs[j + 1]) is Some);
        }
    }
}

/// A segment that is a token gives it; one that is none gives the tokens of its
/// bytes, in order, and nothing for a byte without one.
pub proof fn lei_tokens_do_segmento(v: VocabModelo, t: Seq<char>, a: Seq<u8>, b: u8)
    ensures
        v.id(t) matches Some(id) ==> ids_do_segmento(v, t) == seq![id],
        v.id(t) is None ==> ids_do_segmento(v, t) == ids_de_bytes(v, encode_utf8(t)),
        v.id_do_byte(b) matches Some(id) ==> ids_de_bytes(v, a.push(b)) == ids_de_bytes(v, a).push(
            id,
        ),
        v.id_do_byte(b) is None ==> ids_de_bytes(v, a.push(b)) == ids_de_bytes(v, a),
        ids_de_bytes(v, Seq::empty()) == Seq::<u32>::empty(),
{
    assert(a.push(b).drop_last() =~= a);
}

/// The tokens of segments are those of each, in order.
pub proof fn lei_tokens_em_ordem(v: VocabModelo, segs: Seq<Seq<char>>, t: Seq<char>)
    ensures
        ids_dos_segmentos(v, segs.push(t)) == ids_dos_segmentos(v, segs) + ids_do_segmento(v, t),
        ids_dos_segmentos(v, Seq::empty()) == Seq::<u32>::empty(),
{
    assert(segs.push(t).drop_last() =~= segs);
}

/// In byte-level BPE a byte without a token is left out as well.
pub proof fn lei_bpe_byte_sem_token(v: VocabModelo, a: Seq<u8>, b: u8)
    ensures
        v.id(seq![char_do_byte(b)]) matches Some(id) ==> ids_iniciais(v, a.push(b))
            == ids_iniciais(v, a).push(id),
        v.id(seq![char_do_byte(b)]) is None ==> ids_iniciais(v, a.push(b)) == ids_iniciais(v, a),
{
    assert(a.push(b).drop_last() =~= a);
}

/// The length that the first byte of a character tells is that of its UTF-8
/// encoding.
pub proof fn lei_largura_utf8(c: char)
    ensures
        largura_utf8(encode_utf8(seq![c])[0]) == encode_utf8(seq![c]).len(),
{
    reveal_with_fuel(encode_utf8, 2);
    let n = c as u32;
    assert(seq![c].drop_first() =~= Seq::<char>::empty());
    assert(encode_utf8(seq![c]) =~= encode_scalar(n));
    char_is_scalar(c);
    assert(n <= 0x7F ==> (n & 0x7F) as u8 <= 0x7F) by (bit_vector);
    assert(0xC0 <= (0xC0u8 | ((n >> 6) & 0x1F) as u8) <= 0xDF) by (bit_vector);
    assert(0xE0 <= (0xE0u8 | ((n >> 12) & 0x0F) as u8) <= 0xEF) by (bit_vector);
    assert(0xF0 <= (0xF0u8 | ((n >> 18) & 0x7) as u8) <= 0xF7) by (bit_vector);
}

// ---------------------------------------------------------------------------
// The mark of the beginning
// ---------------------------------------------------------------------------

/// With the mark of the beginning the tokens are that mark and those of the text
/// without it; a SentencePiece text then has a space in front.
pub proof fn lei_marca_do_comeco(m: TokModelo, t: Seq<char>, p: Seq<(usize, usize)>)
    ensures
        m.v.merges.len() > 0 ==> m.codificado(t, true, p) == seq![m.v.bos] + m.codificado(
            t,
            false,
            p,
        ),
        m.v.merges.len() == 0 ==> m.codificado(t, true, p) == seq![m.v.bos] + m.codificado(
            seq![' '] + t,
            false,
            p,
        ),
{
    let e = Seq::<u32>::empty();
    if m.v.merges.len() > 0 {
        let r = bpe(m.v, ranks_de(m.v.merges), encode_utf8(t), p);
        assert(e + r =~= r);
    } else {
        let s = seq![' '] + t;
        assert(Seq::<char>::empty() + s =~= s);
        assert(m.codificado(t, true, p) =~= seq![m.v.bos] + m.codificado(s, false, p));
    }
}

} // verus!
