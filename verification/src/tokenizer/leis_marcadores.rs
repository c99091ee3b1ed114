//! What holds of texts with markers.

use vstd::prelude::*;
use vstd::utf8::*;

use crate::tokenizer::bpe::{bpe, fundidos, ids_iniciais, menor_rank};
use crate::tokenizer::expressao::{cheios, em_ordem, literais, literal_em, ocorre};
use crate::tokenizer::facade::{com_escape, fim_do_marcador, TokModelo};
use crate::tokenizer::leis::ids_cabem;
use crate::tokenizer::spm::{candidato, guloso, letras, spm};
use crate::tokenizer::texto::{fatia_de, lemma_encode_utf8_injetivo};
use crate::tokenizer::vocab::{
    bytes_de, lei_especiais_do_mais_longo, lemma_primeiro, ranks_de, VocabModelo,
};

verus! {

// ---------------------------------------------------------------------------
// Texts without markers
// ---------------------------------------------------------------------------

proof fn lemma_bpe_de_nada(v: VocabModelo, r: Map<u64, u32>, p: Seq<(usize, usize)>)
    requires
        em_ordem(p, Seq::<u8>::empty()),
    ensures
        bpe(v, r, Seq::<u8>::empty(), p) == Seq::<u32>::empty(),
    decreases p.len(),
{
    if p.len() > 0 {
        let q = p.drop_last();
        assert forall|i: int| 0 <= i < q.len() implies {
            &&& (#[trigger] q[i]).0 <= q[i].1 <= 0
            &&& is_char_boundary(Seq::<u8>::empty(), q[i].0 as int)
            &&& is_char_boundary(Seq::<u8>::empty(), q[i].1 as int)
        } by {
            assert(q[i] == p[i]);
        }
        assert forall|i: int, j: int| 0 <= i < j < q.len() implies (#[trigger] q[i]).1 <= (
        #[trigger] q[j]).0 by {
            assert(q[i] == p[i] && q[j] == p[j]);
        }
        lemma_bpe_de_nada(v, r, q);
        assert(p[p.len() - 1] == p.last());
        let b = Seq::<u8>::empty().subrange(p.last().0 as int, p.last().1 as int);
        assert(b.len() == 0);
        let ids = ids_iniciais(v, b);
        assert(ids.len() == 0);
        assert forall|i: int| !menor_rank(r, ids, i) by {}
        assert(fundidos(v, r, ids) == ids);
        assert(bpe(v, r, Seq::<u8>::empty(), p) =~= Seq::<u32>::empty());
    }
}

proof fn lemma_sem_marcador(m: TokModelo, t: Seq<char>)
    requires
        m.v.merges.len() > 0 ==> em_ordem(m.pedacos(t), encode_utf8(t)),
    ensures
        m.marcado(t, Seq::<(usize, usize)>::empty()) == m.encode(t, false),
{
    let n = encode_utf8(t).len() as int;
    let s = Seq::<(usize, usize)>::empty();
    assert(encode_utf8(t).subrange(0, n) =~= encode_utf8(t));
    encode_utf8_decode_utf8(t);
    if n > 0 {
        assert(m.marcado(t, s) =~= m.encode(t, false));
    } else {
        encode_utf8_decode_utf8(Seq::<char>::empty());
        assert(encode_utf8(t) =~= encode_utf8(Seq::<char>::empty()));
        assert(t =~= Seq::<char>::empty());
        assert(encode_utf8(t) =~= Seq::<u8>::empty());
        assert(com_escape(Seq::<char>::empty() + t) =~= Seq::<char>::empty());
        let z = letras(Seq::<char>::empty());
        assert forall|i: int| !candidato(m.v, z, i) by {}
        assert(guloso(m.v, z) == z);
        assert(spm(m.v, Seq::<char>::empty()) =~= Seq::<u32>::empty());
        if m.v.merges.len() > 0 {
            lemma_bpe_de_nada(m.v, ranks_de(m.v.merges), m.pedacos(t));
        }
        assert(m.encode(t, false) =~= Seq::<u32>::empty());
        assert(m.marcado(t, s) =~= Seq::<u32>::empty());
    }
}

// ---------------------------------------------------------------------------
// The first marker
// ---------------------------------------------------------------------------

/// The token of a marker, if it is one.
pub open spec fn token_do_marcador(m: TokModelo, t: Seq<char>, a: int, b: int) -> Seq<u32> {
    match m.v.id(fatia_de(t, a, b)) {
        Some(id) => seq![id],
        None => Seq::empty(),
    }
}

/// The ranges as they are once the first `n` bytes are cut off.
pub open spec fn recuados(m: Seq<(usize, usize)>, n: int) -> Seq<(usize, usize)> {
    m.map_values(|x: (usize, usize)| ((x.0 - n) as usize, (x.1 - n) as usize))
}

/// That the ranges `r` are those of `m` after the first one, without the `s` bytes
/// up to its end.
spec fn sao_o_resto(m: Seq<(usize, usize)>, r: Seq<(usize, usize)>, s: int) -> bool {
    &&& m.len() == r.len() + 1
    &&& m[0].1 == s
    &&& forall|k: int|
        0 <= k < r.len() ==> m[k + 1].0 == (#[trigger] r[k]).0 + s && m[k + 1].1 == r[k].1 + s
}

/// That the ranges lie in a text of `n` bytes.
spec fn dentro(m: Seq<(usize, usize)>, n: int) -> bool {
    forall|k: int| 0 <= k < m.len() ==> (#[trigger] m[k]).0 <= m[k].1 <= n
}

/// The bytes of the text behind a boundary are those behind it.
proof fn lemma_resto(t: Seq<char>, s: int)
    requires
        0 <= s <= encode_utf8(t).len(),
        is_char_boundary(encode_utf8(t), s),
    ensures
        encode_utf8(fatia_de(t, s, encode_utf8(t).len() as int)) == encode_utf8(t).subrange(
            s,
            encode_utf8(t).len() as int,
        ),
{
    let b = encode_utf8(t);
    encode_utf8_valid_utf8(t);
    valid_utf8_split(b, s);
    decode_utf8_encode_utf8(b.subrange(s, b.len() as int));
}

proof fn lemma_fatia_do_resto(t: Seq<char>, s: int, a: int, b: int)
    requires
        0 <= s <= encode_utf8(t).len(),
        is_char_boundary(encode_utf8(t), s),
        0 <= a <= b <= encode_utf8(t).len() - s,
    ensures
        fatia_de(fatia_de(t, s, encode_utf8(t).len() as int), a, b) == fatia_de(t, a + s, b + s),
{
    let u = encode_utf8(t);
    let n = u.len() as int;
    lemma_resto(t, s);
    assert(u.subrange(s, n).subrange(a, b) =~= u.subrange(a + s, b + s));
}

proof fn lemma_entre_do_resto(m: TokModelo, t: Seq<char>, s: int, a: int, b: int)
    requires
        0 <= s <= encode_utf8(t).len(),
        is_char_boundary(encode_utf8(t), s),
        0 <= a,
        b <= encode_utf8(t).len() - s,
    ensures
        m.entre(fatia_de(t, s, encode_utf8(t).len() as int), a, b) == m.entre(t, a + s, b + s),
{
    if a < b {
        lemma_fatia_do_resto(t, s, a, b);
    }
}

proof fn lemma_marcado_ate(
    m: TokModelo,
    t: Seq<char>,
    ms: Seq<(usize, usize)>,
    r: Seq<(usize, usize)>,
    s: int,
    k: int,
)
    requires
        0 <= k <= r.len(),
        0 <= s <= encode_utf8(t).len(),
        is_char_boundary(encode_utf8(t), s),
        sao_o_resto(ms, r, s),
        dentro(r, encode_utf8(t).len() - s),
    ensures
        m.marcado_ate(t, ms, k + 1) == m.entre(t, 0, ms[0].0 as int) + token_do_marcador(
            m,
            t,
            ms[0].0 as int,
            s,
        ) + m.marcado_ate(fatia_de(t, s, encode_utf8(t).len() as int), r, k),
    decreases k,
{
    let resto = fatia_de(t, s, encode_utf8(t).len() as int);
    let cabeca = m.entre(t, 0, ms[0].0 as int) + token_do_marcador(m, t, ms[0].0 as int, s);
    if k == 0 {
        reveal_with_fuel(TokModelo::marcado_ate, 2);
        assert(m.marcado_ate(t, ms, 0) =~= Seq::<u32>::empty());
        assert(m.marcado_ate(t, ms, 1) =~= cabeca + m.marcado_ate(resto, r, 0));
    } else {
        lemma_marcado_ate(m, t, ms, r, s, k - 1);
        let x = r[k - 1];
        assert(ms[k].0 == x.0 + s && ms[k].1 == x.1 + s);
        assert(fim_do_marcador(ms, k) == fim_do_marcador(r, k - 1) + s) by {
            if k > 1 {
                assert(ms[k - 1].1 == r[k - 2].1 + s);
            }
        }
        lemma_entre_do_resto(m, t, s, fim_do_marcador(r, k - 1), x.0 as int);
        lemma_fatia_do_resto(t, s, x.0 as int, x.1 as int);
        assert(m.marcado_ate(t, ms, k + 1) =~= cabeca + m.marcado_ate(resto, r, k));
    }
}

proof fn lemma_marcado(
    m: TokModelo,
    t: Seq<char>,
    ms: Seq<(usize, usize)>,
    r: Seq<(usize, usize)>,
    s: int,
)
    requires
        0 <= s <= encode_utf8(t).len(),
        is_char_boundary(encode_utf8(t), s),
        sao_o_resto(ms, r, s),
        dentro(r, encode_utf8(t).len() - s),
    ensures
        m.marcado(t, ms) == m.entre(t, 0, ms[0].0 as int) + token_do_marcador(
            m,
            t,
            ms[0].0 as int,
            s,
        ) + m.marcado(fatia_de(t, s, encode_utf8(t).len() as int), r),
{
    let n = encode_utf8(t).len() as int;
    let k = r.len() as int;
    lemma_resto(t, s);
    lemma_marcado_ate(m, t, ms, r, s, k);
    assert(fim_do_marcador(ms, k + 1) == fim_do_marcador(r, k) + s) by {
        if k > 0 {
            assert(ms[k].1 == r[k - 1].1 + s);
        }
    }
    lemma_entre_do_resto(m, t, s, fim_do_marcador(r, k), n - s);
    assert(m.marcado(t, ms) =~= m.entre(t, 0, ms[0].0 as int) + token_do_marcador(
        m,
        t,
        ms[0].0 as int,
        s,
    ) + m.marcado(fatia_de(t, s, n), r));
}

/// The tokens of a text with markers are those of the text before the first one,
/// its token, and those of what follows it, with the markers that are left there.
pub proof fn lei_primeiro_marcador(m: TokModelo, t: Seq<char>, ms: Seq<(usize, usize)>)
    requires
        ms.len() > 0,
        em_ordem(ms, encode_utf8(t)),
    ensures
        m.marcado(t, ms) == m.entre(t, 0, ms[0].0 as int) + token_do_marcador(
            m,
            t,
            ms[0].0 as int,
            ms[0].1 as int,
        ) + m.marcado(
            fatia_de(t, ms[0].1 as int, encode_utf8(t).len() as int),
            recuados(ms.drop_first(), ms[0].1 as int),
        ),
{
    let s = ms[0].1 as int;
    let r = recuados(ms.drop_first(), s);
    assert forall|k: int| 0 <= k < r.len() implies ms[k + 1].0 == (#[trigger] r[k]).0 + s && ms[k
        + 1].1 == r[k].1 + s by {
        assert(ms[0].1 <= ms[k + 1].0);
    }
    assert forall|k: int| 0 <= k < r.len() implies (#[trigger] r[k]).0 <= r[k].1
        <= encode_utf8(t).len() - s by {
        assert(ms[k + 1].0 <= ms[k + 1].1);
    }
    lemma_marcado(m, t, ms, r, s);
}

// ---------------------------------------------------------------------------
// Where the markers are
// ---------------------------------------------------------------------------

proof fn lemma_literal_em(lits: Seq<Seq<char>>, b: Seq<u8>, p: int)
    ensures
        match literal_em(lits, b, p) {
            Some(l) => lits.contains(l) && ocorre(l, b, p),
            None => forall|k: int| 0 <= k < lits.len() ==> !ocorre(#[trigger] lits[k], b, p),
        },
    decreases lits.len(),
{
    if lits.len() > 0 {
        let r = lits.drop_first();
        lemma_literal_em(r, b, p);
        if ocorre(lits[0], b, p) {
            assert(lits.contains(lits[0]));
        } else {
            match literal_em(r, b, p) {
                Some(l) => {
                    let k = choose|k: int| 0 <= k < r.len() && r[k] == l;
                    assert(lits[k + 1] == l);
                },
                None => {
                    assert forall|k: int| 0 <= k < lits.len() implies !ocorre(
                        #[trigger] lits[k],
                        b,
                        p,
                    ) by {
                        if k > 0 {
                            assert(r[k - 1] == lits[k]);
                        }
                    }
                },
            }
        }
    }
}

/// In a list that goes from the longest text to the shortest the first one that
/// stands somewhere is the longest that does.
proof fn lemma_o_mais_longo(lits: Seq<Seq<char>>, b: Seq<u8>, p: int, k: int)
    requires
        0 <= k < lits.len(),
        ocorre(lits[k], b, p),
        forall|i: int, j: int|
            0 <= i <= j < lits.len() ==> bytes_de(#[trigger] lits[i]) >= bytes_de(
                #[trigger] lits[j],
            ),
    ensures
        literal_em(lits, b, p) matches Some(l) && bytes_de(l) >= bytes_de(lits[k]),
    decreases lits.len(),
{
    if !ocorre(lits[0], b, p) {
        let r = lits.drop_first();
        assert(r[k - 1] == lits[k]);
        assert forall|i: int, j: int| 0 <= i <= j < r.len() implies bytes_de(#[trigger] r[i])
            >= bytes_de(#[trigger] r[j]) by {
            assert(r[i] == lits[i + 1] && r[j] == lits[j + 1]);
        }
        lemma_o_mais_longo(r, b, p, k - 1);
    }
}

/// Where no text starts the search goes on.
proof fn lemma_literais_adiante(lits: Seq<Seq<char>>, b: Seq<u8>, p: int, i: int)
    requires
        0 <= p <= i <= b.len(),
        forall|q: int, k: int|
            p <= q < i && 0 <= k < lits.len() ==> !#[trigger] ocorre(lits[k], b, q),
    ensures
        literais(lits, b, p) == literais(lits, b, i),
    decreases i - p,
{
    if p < i {
        lemma_literal_em(lits, b, p);
        if let Some(l) = literal_em(lits, b, p) {
            let k = choose|k: int| 0 <= k < lits.len() && lits[k] == l;
            assert(!ocorre(lits[k], b, p));
        }
        lemma_literais_adiante(lits, b, p + 1, i);
    }
}

proof fn lemma_literal_do_resto(lits: Seq<Seq<char>>, b: Seq<u8>, s: int, p: int)
    requires
        0 <= s <= b.len(),
        0 <= p,
    ensures
        literal_em(lits, b.subrange(s, b.len() as int), p) == literal_em(lits, b, p + s),
    decreases lits.len(),
{
    if lits.len() > 0 {
        lemma_literal_do_resto(lits.drop_first(), b, s, p);
        let c = b.subrange(s, b.len() as int);
        let e = encode_utf8(lits[0]);
        if p + e.len() <= c.len() {
            assert(c.subrange(p, p + e.len()) =~= b.subrange(p + s, p + s + e.len()));
        }
    }
}

/// The ranges in what is left of a text are those in the text from there on.
proof fn lemma_literais_do_resto(lits: Seq<Seq<char>>, b: Seq<u8>, s: int, p: int)
    requires
        0 <= s <= b.len() <= usize::MAX,
        0 <= p,
    ensures
        ({
            let x = literais(lits, b, p + s);
            let y = literais(lits, b.subrange(s, b.len() as int), p);
            &&& x.len() == y.len()
            &&& forall|k: int|
                0 <= k < y.len() ==> x[k].0 == (#[trigger] y[k]).0 + s && x[k].1 == y[k].1 + s
            &&& dentro(y, b.len() - s)
        }),
    decreases b.len() - s - p,
{
    let c = b.subrange(s, b.len() as int);
    if p < c.len() {
        lemma_literal_do_resto(lits, b, s, p);
        let f = match literal_em(lits, c, p) {
            Some(l) => p + encode_utf8(l).len(),
            None => p,
        };
        if p < f <= c.len() {
            lemma_literais_do_resto(lits, b, s, f);
            let x = literais(lits, b, f + s);
            let y = literais(lits, c, f);
            let x1 = seq![((p + s) as usize, (f + s) as usize)] + x;
            let y1 = seq![(p as usize, f as usize)] + y;
            assert(literais(lits, b, p + s) == x1);
            assert(literais(lits, c, p) == y1);
            assert forall|k: int| 0 <= k < y1.len() implies x1[k].0 == (#[trigger] y1[k]).0 + s
                && x1[k].1 == y1[k].1 + s && y1[k].0 <= y1[k].1 <= c.len() by {
                if k > 0 {
                    assert(y1[k] == y[k - 1]);
                }
            }
        } else {
            lemma_literais_do_resto(lits, b, s, p + 1);
        }
    }
}

/// A text that stands somewhere in another one begins and ends at boundaries.
proof fn lemma_fronteiras(l: Seq<char>, t: Seq<char>, p: int)
    requires
        l.len() > 0,
        ocorre(l, encode_utf8(t), p),
    ensures
        encode_utf8(l).len() > 0,
        is_char_boundary(encode_utf8(t), p),
        is_char_boundary(encode_utf8(t), p + encode_utf8(l).len()),
        fatia_de(t, p, p + encode_utf8(l).len()) == l,
{
    let b = encode_utf8(t);
    let e = encode_utf8(l);
    let n = b.len() as int;
    let f = p + e.len();
    encode_utf8_valid_utf8(t);
    encode_utf8_valid_utf8(l);
    encode_utf8_decode_utf8(l);
    char_is_scalar(l[0]);
    assert(encode_scalar(l[0] as u32).len() > 0);
    is_char_boundary_iff_not_is_continuation_byte(e, 0);
    assert(e[0] == b.subrange(p, f)[0]);
    is_char_boundary_iff_not_is_continuation_byte(b, p);
    valid_utf8_split(b, p);
    let r = b.subrange(p, n);
    assert(r.subrange(0, e.len() as int) =~= e);
    if !valid_utf8(r.subrange(e.len() as int, r.len() as int)) {
        partial_valid_partial_invalid_utf8(r, e.len() as int);
    }
    let z = b.subrange(f, n);
    assert(r.subrange(e.len() as int, r.len() as int) =~= z);
    if f < n {
        is_char_boundary_iff_not_is_continuation_byte(z, 0);
        assert(z[0] == b[f]);
        is_char_boundary_iff_not_is_continuation_byte(b, f);
    } else {
        is_char_boundary_start_end_of_seq(b);
    }
}

// ---------------------------------------------------------------------------
// Laws
// ---------------------------------------------------------------------------

/// That no special token stands anywhere in a text.
pub open spec fn sem_marcadores(v: VocabModelo, t: Seq<char>) -> bool {
    forall|p: int, k: int|
        0 <= p < encode_utf8(t).len() && 0 <= k < v.marcas().len() ==> !#[trigger] ocorre(
            v.marcas()[k],
            encode_utf8(t),
            p,
        )
}

/// A text in which no special token stands is encoded as ordinary text.
pub proof fn lei_texto_sem_marcador(m: TokModelo, t: Seq<char>)
    requires
        cheios(m.v.marcas()),
        sem_marcadores(m.v, t),
        m.v.merges.len() > 0 ==> em_ordem(m.pedacos(t), encode_utf8(t)),
    ensures
        m.encode_special(t) == m.encode(t, false),
{
    let b = encode_utf8(t);
    lemma_literais_adiante(m.v.marcas(), b, 0, b.len() as int);
    lemma_sem_marcador(m, t);
}

/// That the special token `k` is the marker at `i`: no special token starts
/// before, and none that starts there is longer.
pub open spec fn marcador_em(v: VocabModelo, t: Seq<char>, i: int, k: int) -> bool {
    let s = v.marcas();
    let b = encode_utf8(t);
    &&& 0 <= k < s.len()
    &&& ocorre(s[k], b, i)
    &&& forall|p: int, j: int| 0 <= p < i && 0 <= j < s.len() ==> !#[trigger] ocorre(s[j], b, p)
    &&& forall|j: int|
        0 <= j < s.len() && ocorre(#[trigger] s[j], b, i) ==> bytes_de(s[j]) <= bytes_de(s[k])
}

proof fn lemma_marcas(v: VocabModelo, k: int)
    requires
        ids_cabem(v),
        0 <= k < v.marcas().len(),
    ensures
        v.id(v.marcas()[k]) is Some,
        forall|i: int, j: int|
            0 <= i <= j < v.marcas().len() ==> bytes_de(#[trigger] v.marcas()[i]) >= bytes_de(
                #[trigger] v.marcas()[j],
            ),
{
    let e = v.especiais();
    lei_especiais_do_mais_longo(v, v.tokens.len() as int);
    assert forall|i: int, j: int| 0 <= i <= j < v.marcas().len() implies bytes_de(
        #[trigger] v.marcas()[i],
    ) >= bytes_de(#[trigger] v.marcas()[j]) by {
        assert(bytes_de(e[i].0) >= bytes_de(e[j].0));
    }
    assert(e.contains((e[k].0, e[k].1)));
    lemma_primeiro(v.tokens, e[k].0);
}

/// A text is encoded up to its first marker, which is the leftmost special token
/// in it and the longest of those that start there; the marker is its one token,
/// and the rest is encoded in the same way.
pub proof fn lei_marcador_mais_a_esquerda(m: TokModelo, t: Seq<char>, i: int, k: int)
    requires
        m.especiais is Some,
        cheios(m.v.marcas()),
        ids_cabem(m.v),
        encode_utf8(t).len() <= usize::MAX,
        marcador_em(m.v, t, i, k),
    ensures
        m.v.id(m.v.marcas()[k]) is Some,
        m.encode_special(t) == m.entre(t, 0, i) + seq![m.v.id(m.v.marcas()[k])->0]
            + m.encode_special(
            fatia_de(t, i + bytes_de(m.v.marcas()[k]), encode_utf8(t).len() as int),
        ),
{
    let lits = m.v.marcas();
    let b = encode_utf8(t);
    let n = b.len() as int;
    let s = lits[k];
    let f = i + bytes_de(s);
    lemma_marcas(m.v, k);
    lemma_fronteiras(s, t, i);
    lemma_literais_adiante(lits, b, 0, i);
    lemma_o_mais_longo(lits, b, i, k);
    lemma_literal_em(lits, b, i);
    let l = literal_em(lits, b, i)->0;
    assert(l == s) by {
        let j = choose|j: int| 0 <= j < lits.len() && lits[j] == l;
        assert(bytes_de(lits[j]) <= bytes_de(s));
        lemma_encode_utf8_injetivo(l, s);
    }
    let ms = literais(lits, b, 0);
    assert(ms == seq![(i as usize, f as usize)] + literais(lits, b, f));
    lemma_literais_do_resto(lits, b, f, 0);
    lemma_resto(t, f);
    let r = literais(lits, b.subrange(f, n), 0);
    assert forall|x: int| 0 <= x < r.len() implies ms[x + 1].0 == (#[trigger] r[x]).0 + f && ms[x
        + 1].1 == r[x].1 + f by {
        assert(ms[x + 1] == literais(lits, b, f)[x]);
    }
    lemma_marcado(m, t, ms, r, f);
}

/// A text that is one marker and nothing else is the one token of the marker.
pub proof fn lei_marcador_e_um_token(m: TokModelo, k: int)
    requires
        m.especiais is Some,
        cheios(m.v.marcas()),
        ids_cabem(m.v),
        0 <= k < m.v.marcas().len(),
        bytes_de(m.v.marcas()[k]) <= usize::MAX,
    ensures
        m.v.id(m.v.marcas()[k]) is Some,
        m.encode_special(m.v.marcas()[k]) == seq![m.v.id(m.v.marcas()[k])->0],
{
    let t = m.v.marcas()[k];
    let b = encode_utf8(t);
    let n = b.len() as int;
    assert(b.subrange(0, n) =~= b);
    lei_marcador_mais_a_esquerda(m, t, 0, k);
    let z = fatia_de(t, n, n);
    assert(b.subrange(n, n) =~= Seq::<u8>::empty());
    assert(z =~= Seq::<char>::empty());
    assert(literais(m.v.marcas(), encode_utf8(z), 0) =~= Seq::<(usize, usize)>::empty());
    assert(m.encode_special(z) =~= Seq::<u32>::empty());
    assert(m.encode_special(t) =~= seq![m.v.id(t)->0]);
}

/// The text between two markers is encoded as ordinary text, without the mark of
/// the beginning; where there is none, it gives no token. A vocabulary without
/// special tokens has no markers.
pub proof fn lei_texto_entre_marcadores(m: TokModelo, t: Seq<char>, a: int, b: int)
    ensures
        a < b ==> m.entre(t, a, b) == m.encode(fatia_de(t, a, b), false),
        a >= b ==> m.entre(t, a, b).len() == 0,
        m.especiais is None ==> m.encode_special(t) == m.encode(t, false),
{
}

} // verus!
