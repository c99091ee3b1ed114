//! The profile of a plan: time and bytes of each kind of operation.

use vstd::prelude::*;

use crate::tokenizer::texto::mesmo_texto;
use crate::vulkan::ambiente::caracteres;
use crate::vulkan::estado::Modo;
use crate::vulkan::ops::{
    plano_de, rotulo_op, sem_repetir, soma_bytes, Faixa, OpM, PlannedOp,
};

verus! {

/// A stretch of time of an operation, in nanoseconds before the end of its step.
#[derive(Clone, Copy, Debug)]
pub struct GpuSpan {
    pub name: &'static str,
    pub start: u64,
    pub end: u64,
}

/// Ticks of the clock that each operation took; zero where the clock went back.
pub open spec fn durou(a: u64, b: u64) -> u64 {
    if b >= a {
        (b - a) as u64
    } else {
        0
    }
}

/// The ticks between each two timestamps.
pub fn duracoes(ticks: &[u64]) -> (r: Vec<u64>)
    ensures
        r.len() == if ticks.len() > 0 {
            ticks.len() - 1
        } else {
            0
        },
        forall|i: int| 0 <= i < r.len() ==> #[trigger] r[i] == durou(ticks[i], ticks[i + 1]),
{
    let mut r: Vec<u64> = Vec::new();
    let mut i: usize = 1;
    while i < ticks.len()
        invariant
            1 <= i,
            i <= ticks.len() || ticks.len() == 0 && i == 1,
            r.len() == i - 1,
            forall|k: int| 0 <= k < i - 1 ==> #[trigger] r[k] == durou(ticks[k], ticks[k + 1]),
        decreases ticks.len() - i,
    {
        r.push(ticks[i].saturating_sub(ticks[i - 1]));
        i += 1;
    }
    r
}

/// The ticks from each timestamp to the last one.
pub fn antes_do_fim(ticks: &[u64]) -> (r: Vec<u64>)
    ensures
        r.len() == ticks.len(),
        forall|i: int| 0 <= i < r.len() ==> #[trigger] r[i] == durou(
            ticks[i],
            ticks[ticks.len() - 1],
        ),
{
    let mut r: Vec<u64> = Vec::new();
    let mut i: usize = 0;
    while i < ticks.len()
        invariant
            i <= ticks.len(),
            r.len() == i,
            forall|k: int| 0 <= k < i ==> #[trigger] r[k] == durou(
                ticks[k],
                ticks[ticks.len() - 1],
            ),
        decreases ticks.len() - i,
    {
        r.push(ticks[ticks.len() - 1].saturating_sub(ticks[i]));
        i += 1;
    }
    r
}

/// What a step adds to the time of an operation.
pub open spec fn somado(acumulado: Seq<u64>, ns: Seq<u64>, i: int) -> int {
    (if i < acumulado.len() {
        acumulado[i] as int
    } else {
        0
    }) + (if i < ns.len() {
        ns[i] as int
    } else {
        0
    })
}

/// Adds the nanoseconds of each operation of a step to those of the steps
/// before.
pub fn acumula(acumulado: &mut Vec<u64>, ns: &[u64])
    requires
        forall|i: int| 0 <= i < ns.len() ==> #[trigger] somado(old(acumulado)@, ns@, i) <= u64::MAX,
    ensures
        final(acumulado)@.len() == (if old(acumulado)@.len() > ns@.len() {
            old(acumulado)@.len()
        } else {
            ns@.len()
        }),
        forall|i: int|
            0 <= i < final(acumulado)@.len() ==> #[trigger] final(acumulado)@[i] == somado(
                old(acumulado)@,
                ns@,
                i,
            ),
{
    let ghost a0 = acumulado@;
    while acumulado.len() < ns.len()
        invariant
            a0 == old(acumulado)@,
            acumulado@.len() >= a0.len(),
            acumulado@.len() <= a0.len() || acumulado@.len() <= ns@.len(),
            forall|i: int| 0 <= i < a0.len() ==> #[trigger] acumulado@[i] == a0[i],
            forall|i: int| a0.len() <= i < acumulado@.len() ==> #[trigger] acumulado@[i] == 0,
        decreases ns.len() - acumulado.len(),
    {
        acumulado.push(0);
    }
    let ghost a1 = acumulado@;
    let mut i: usize = 0;
    while i < ns.len()
        invariant
            i <= ns.len(),
            ns.len() <= acumulado.len(),
            acumulado@.len() == a1.len(),
            a0.len() <= a1.len(),
            a1.len() == a0.len() || a1.len() == ns.len(),
            forall|k: int| 0 <= k < a0.len() ==> #[trigger] a1[k] == a0[k],
            forall|k: int| a0.len() <= k < a1.len() ==> #[trigger] a1[k] == 0,
            forall|k: int| 0 <= k < ns.len() ==> #[trigger] somado(a0, ns@, k) <= u64::MAX,
            forall|k: int| 0 <= k < i ==> #[trigger] acumulado@[k] == somado(a0, ns@, k),
            forall|k: int| i <= k < a1.len() ==> #[trigger] acumulado@[k] == a1[k],
        decreases ns.len() - i,
    {
        proof {
            assert(somado(a0, ns@, i as int) <= u64::MAX);
            assert(acumulado@[i as int] == a1[i as int]);
        }
        let x: u64 = acumulado[i] + ns[i];
        acumulado.set(i, x);
        i += 1;
    }
    proof {
        assert forall|k: int| 0 <= k < acumulado@.len() implies #[trigger] acumulado@[k] == somado(
            a0,
            ns@,
            k,
        ) by {
            if k >= ns.len() {
                assert(acumulado@[k] == a1[k]);
            }
        }
    }
}

/// The stretches of a step: each operation of the plan with the nanoseconds
/// from its start and its end to the end of the step.
pub fn spans_de(plano: &Vec<PlannedOp>, ate_o_fim: &[u64]) -> (r: Vec<GpuSpan>)
    ensures
        r.len() == (if ate_o_fim.len() == 0 {
            0
        } else if plano.len() < ate_o_fim.len() - 1 {
            plano.len() as int
        } else {
            ate_o_fim.len() - 1
        }),
        forall|i: int|
            0 <= i < r.len() ==> (#[trigger] r[i]).name@ == rotulo_op(plano[i]@) && r[i].start
                == ate_o_fim[i] && r[i].end == ate_o_fim[i + 1],
{
    let mut r: Vec<GpuSpan> = Vec::new();
    let mut i: usize = 0;
    while i < plano.len() && ate_o_fim.len() > 0 && i < ate_o_fim.len() - 1
        invariant
            i <= plano.len(),
            i > 0 ==> i < ate_o_fim.len(),
            r.len() == i,
            forall|k: int|
                0 <= k < i ==> (#[trigger] r[k]).name@ == rotulo_op(plano[k]@) && r[k].start
                    == ate_o_fim[k] && r[k].end == ate_o_fim[k + 1],
        decreases plano.len() - i,
    {
        r.push(
            GpuSpan { name: plano[i].label(), start: ate_o_fim[i], end: ate_o_fim[i + 1] },
        );
        i += 1;
    }
    r
}

/// Whether the stretches of a step are kept: those of the first steps of the
/// decode.
pub fn guarda_spans(modo: Modo, passos: usize, max_trace_tokens: usize) -> (r: bool)
    ensures
        r == (modo is Decode && passos <= max_trace_tokens),
{
    modo == Modo::Decode && passos <= max_trace_tokens
}

// ---------------------------------------------------------------------------
// The table
// ---------------------------------------------------------------------------

/// A row: time, number and bytes of the operations with one label.
#[derive(Clone, Copy, Debug)]
pub struct Linha {
    pub rotulo: &'static str,
    pub ns: u64,
    pub n: usize,
    pub bytes: u128,
}

/// Whether the operation `i` has the label.
pub open spec fn tem_rotulo(p: Seq<OpM>, i: int, t: Seq<char>) -> bool {
    rotulo_op(p[i]) == t
}

/// Time of the first `n` operations with a label.
pub open spec fn ns_de(p: Seq<OpM>, ns: Seq<u64>, t: Seq<char>, n: int) -> int
    decreases n,
{
    if n <= 0 {
        0
    } else {
        ns_de(p, ns, t, n - 1) + if tem_rotulo(p, n - 1, t) {
            ns[n - 1] as int
        } else {
            0
        }
    }
}

/// Their number.
pub open spec fn n_de(p: Seq<OpM>, t: Seq<char>, n: int) -> int
    decreases n,
{
    if n <= 0 {
        0
    } else {
        n_de(p, t, n - 1) + if tem_rotulo(p, n - 1, t) {
            1int
        } else {
            0
        }
    }
}

/// The bytes that they read in a step.
pub open spec fn bytes_de(p: Seq<OpM>, t: Seq<char>, n: int) -> int
    decreases n,
{
    if n <= 0 {
        0
    } else {
        bytes_de(p, t, n - 1) + if tem_rotulo(p, n - 1, t) {
            bytes_da_op(p[n - 1])
        } else {
            0
        }
    }
}

/// What the copies and the attention read is not counted.
pub open spec fn bytes_da_op(o: OpM) -> int {
    match o {
        OpM::Dispatch(d) => d.bytes(),
        _ => 0,
    }
}

pub open spec fn soma_ns(ns: Seq<u64>, n: int) -> int
    decreases n,
{
    if n <= 0 {
        0
    } else {
        soma_ns(ns, n - 1) + ns[n - 1]
    }
}

/// Whether a text comes before another in the order of their characters.
pub open spec fn vem_antes(a: Seq<char>, b: Seq<char>) -> bool
    decreases a.len(),
{
    if b.len() == 0 {
        false
    } else if a.len() == 0 {
        true
    } else if a[0] != b[0] {
        (a[0] as u32) < (b[0] as u32)
    } else {
        vem_antes(a.skip(1), b.skip(1))
    }
}

/// Whether a row stands above another: it took longer, or as long and its label
/// comes first.
pub open spec fn acima(a: Linha, b: Linha) -> bool {
    a.ns > b.ns || a.ns == b.ns && vem_antes(a.rotulo@, b.rotulo@)
}

/// That a row sums up the first `n` operations with its label.
pub open spec fn resume(l: Linha, p: Seq<OpM>, ns: Seq<u64>, n: int) -> bool {
    &&& l.ns == ns_de(p, ns, l.rotulo@, n)
    &&& l.n == n_de(p, l.rotulo@, n)
    &&& l.bytes == bytes_de(p, l.rotulo@, n)
    &&& l.n > 0
}

/// A text never comes before itself.
proof fn lemma_irreflexo(a: Seq<char>)
    ensures
        !vem_antes(a, a),
    decreases a.len(),
{
    if a.len() > 0 {
        lemma_irreflexo(a.skip(1));
    }
}

proof fn lemma_caractere(a: char, b: char)
    requires
        a != b,
    ensures
        a as u32 != b as u32,
{
}

/// Of two texts one comes before the other.
proof fn lemma_total(a: Seq<char>, b: Seq<char>)
    ensures
        a == b || vem_antes(a, b) || vem_antes(b, a),
    decreases a.len(),
{
    if a.len() == 0 {
        if b.len() == 0 {
            assert(a =~= b);
        }
    } else if b.len() == 0 {
        assert(vem_antes(b, a));
    } else if a[0] != b[0] {
        lemma_caractere(a[0], b[0]);
    } else {
        lemma_total(a.skip(1), b.skip(1));
        if a.skip(1) == b.skip(1) {
            assert forall|i: int| 0 <= i < a.len() implies a[i] == b[i] by {
                if i > 0 {
                    assert(a.skip(1)[i - 1] == b.skip(1)[i - 1]);
                }
            }
            assert(a.len() == a.skip(1).len() + 1);
            assert(a =~= b);
        }
    }
}

proof fn lemma_transitivo(a: Seq<char>, b: Seq<char>, c: Seq<char>)
    requires
        vem_antes(a, b),
        vem_antes(b, c),
    ensures
        vem_antes(a, c),
    decreases a.len(),
{
    if a.len() > 0 && a[0] == b[0] && b[0] == c[0] {
        lemma_transitivo(a.skip(1), b.skip(1), c.skip(1));
    }
}

proof fn lemma_acima_transitivo(a: Linha, b: Linha, c: Linha)
    requires
        acima(a, b),
        acima(b, c),
    ensures
        acima(a, c),
{
    if a.ns == b.ns && b.ns == c.ns {
        lemma_transitivo(a.rotulo@, b.rotulo@, c.rotulo@);
    }
}

fn texto_antes(a: &str, b: &str) -> (r: bool)
    ensures
        r == vem_antes(a@, b@),
{
    let x = caracteres(a);
    let y = caracteres(b);
    let mut i: usize = 0;
    proof {
        assert(x@.skip(0) =~= x@);
        assert(y@.skip(0) =~= y@);
    }
    while i < x.len() && i < y.len()
        invariant
            i <= x.len(),
            i <= y.len(),
            x@ == a@,
            y@ == b@,
            vem_antes(a@, b@) == vem_antes(x@.skip(i as int), y@.skip(i as int)),
        decreases x.len() - i,
    {
        proof {
            assert(x@.skip(i as int)[0] == x@[i as int]);
            assert(y@.skip(i as int)[0] == y@[i as int]);
            assert(x@.skip(i as int).skip(1) =~= x@.skip(i + 1));
            assert(y@.skip(i as int).skip(1) =~= y@.skip(i + 1));
        }
        if x[i] != y[i] {
            return (x[i] as u32) < (y[i] as u32);
        }
        i += 1;
    }
    i < y.len()
}

fn esta_acima(a: &Linha, b: &Linha) -> (r: bool)
    ensures
        r == acima(*a, *b),
{
    a.ns > b.ns || (a.ns == b.ns && texto_antes(a.rotulo, b.rotulo))
}

proof fn lemma_ns_limite(p: Seq<OpM>, ns: Seq<u64>, t: Seq<char>, n: int, m: int)
    requires
        0 <= n <= m <= ns.len(),
    ensures
        0 <= ns_de(p, ns, t, n) <= soma_ns(ns, n) <= soma_ns(ns, m),
        0 <= n_de(p, t, n) <= n,
    decreases m,
{
    if n < m {
        lemma_ns_limite(p, ns, t, n, m - 1);
    } else if n > 0 {
        lemma_ns_limite(p, ns, t, n - 1, n - 1);
    }
}

/// Bytes of the first `n` operations.
pub open spec fn bytes_totais(p: Seq<OpM>, n: int) -> int
    decreases n,
{
    if n <= 0 {
        0
    } else {
        bytes_totais(p, n - 1) + bytes_da_op(p[n - 1])
    }
}

proof fn lemma_bytes_positivos(s: Seq<Faixa>)
    ensures
        soma_bytes(s) >= 0,
    decreases s.len(),
{
    if s.len() > 0 {
        lemma_bytes_positivos(s.drop_last());
    }
}

proof fn lemma_bytes_limite(p: Seq<OpM>, t: Seq<char>, n: int, m: int)
    requires
        0 <= n <= m <= p.len(),
    ensures
        0 <= bytes_de(p, t, n) <= bytes_totais(p, n) <= bytes_totais(p, m),
    decreases m,
{
    if m > 0 {
        if let OpM::Dispatch(d) = p[m - 1] {
            lemma_bytes_positivos(sem_repetir(d.le()));
        }
        if n < m {
            lemma_bytes_limite(p, t, n, m - 1);
        } else {
            lemma_bytes_limite(p, t, n - 1, n - 1);
        }
    }
}

/// That no two rows have one label.
spec fn rotulos_distintos(v: Seq<Linha>) -> bool {
    forall|i: int, j: int|
        0 <= i < j < v.len() ==> (#[trigger] v[i]).rotulo@ != (#[trigger] v[j]).rotulo@
}

/// Whether a row has the label.
pub open spec fn tem_linha(v: Seq<Linha>, t: Seq<char>) -> bool {
    exists|i: int| 0 <= i < v.len() && (#[trigger] v[i]).rotulo@ == t
}

/// The row of a label, or the number of rows.
fn acha_linha(v: &Vec<Linha>, t: &str) -> (r: usize)
    ensures
        r <= v.len(),
        r < v.len() ==> v@[r as int].rotulo@ == t@,
        r == v.len() ==> !tem_linha(v@, t@),
{
    let mut i: usize = 0;
    while i < v.len()
        invariant
            i <= v.len(),
            forall|k: int| 0 <= k < i ==> (#[trigger] v@[k]).rotulo@ != t@,
        decreases v.len() - i,
    {
        if mesmo_texto(v[i].rotulo, t) {
            return i;
        }
        i += 1;
    }
    i
}

/// One row for each label of the first `n` operations.
fn por_tipo(plano: &Vec<PlannedOp>, ns: &Vec<u64>, n: usize) -> (r: Vec<Linha>)
    requires
        n <= plano.len(),
        n <= ns.len(),
        soma_ns(ns@, ns@.len() as int) <= u64::MAX,
        bytes_totais(plano_de(plano@), plano@.len() as int) <= u128::MAX,
    ensures
        rotulos_distintos(r@),
        forall|i: int|
            0 <= i < r.len() ==> resume(#[trigger] r@[i], plano_de(plano@), ns@, n as int),
        forall|i: int| 0 <= i < n ==> tem_linha(r@, rotulo_op(#[trigger] plano_de(plano@)[i])),
{
    let ghost p = plano_de(plano@);
    let mut v: Vec<Linha> = Vec::new();
    let mut i: usize = 0;
    while i < n
        invariant
            i <= n,
            n <= plano.len(),
            n <= ns.len(),
            p == plano_de(plano@),
            soma_ns(ns@, ns@.len() as int) <= u64::MAX,
            bytes_totais(p, p.len() as int) <= u128::MAX,
            rotulos_distintos(v@),
            forall|k: int| 0 <= k < v.len() ==> resume(#[trigger] v@[k], p, ns@, i as int),
            forall|k: int| 0 <= k < i ==> tem_linha(v@, rotulo_op(#[trigger] p[k])),
        decreases n - i,
    {
        let op = &plano[i];
        let t = op.label();
        let b: u128 = match op {
            PlannedOp::Dispatch(d) => d.bytes(),
            _ => 0,
        };
        proof {
            assert(p[i as int] == plano@[i as int]@);
            assert(b == bytes_da_op(p[i as int]));
            assert(t@ == rotulo_op(p[i as int]));
            lemma_ns_limite(p, ns@, t@, i + 1, ns@.len() as int);
            lemma_ns_limite(p, ns@, t@, i as int, ns@.len() as int);
            lemma_bytes_limite(p, t@, i + 1, p.len() as int);
            lemma_bytes_limite(p, t@, i as int, p.len() as int);
        }
        let k: usize = acha_linha(&v, t);
        let ghost v0 = v@;
        if k < v.len() {
            let l = v[k];
            proof {
                assert(resume(v0[k as int], p, ns@, i as int));
            }
            let novo = Linha { rotulo: l.rotulo, ns: l.ns + ns[i], n: l.n + 1, bytes: l.bytes + b };
            v.set(k, novo);
            proof {
                assert(resume(novo, p, ns@, i + 1));
                assert forall|x: int| 0 <= x < v@.len() implies resume(
                    #[trigger] v@[x],
                    p,
                    ns@,
                    i + 1,
                ) by {
                    if x != k {
                        assert(v@[x] == v0[x]);
                        assert(v0[x].rotulo@ != v0[k as int].rotulo@);
                    }
                }
                assert forall|x: int, y: int| 0 <= x < y < v@.len() implies (
                #[trigger] v@[x]).rotulo@ != (#[trigger] v@[y]).rotulo@ by {
                    assert(v0[x].rotulo@ != v0[y].rotulo@);
                }
            }
        } else {
            let novo = Linha { rotulo: t, ns: ns[i], n: 1, bytes: b };
            v.push(novo);
            proof {
                lemma_ausente(p, ns@, v0, t@, i as int);
                assert(resume(novo, p, ns@, i + 1));
                assert forall|x: int| 0 <= x < v@.len() implies resume(
                    #[trigger] v@[x],
                    p,
                    ns@,
                    i + 1,
                ) by {
                    if x < v0.len() {
                        assert(v@[x] == v0[x]);
                        assert(v0[x].rotulo@ != t@);
                    }
                }
            }
        }
        proof {
            assert forall|x: int| 0 <= x <= i implies tem_linha(v@, rotulo_op(#[trigger] p[x])) by {
                if x < i {
                    assert(tem_linha(v0, rotulo_op(p[x])));
                    let y = choose|y: int|
                        0 <= y < v0.len() && (#[trigger] v0[y]).rotulo@ == rotulo_op(p[x]);
                    assert(v@[y].rotulo@ == rotulo_op(p[x]));
                } else {
                    assert(v@[k as int].rotulo@ == rotulo_op(p[x]));
                }
            }
        }
        i += 1;
    }
    v
}

/// A label that has no row has no operation.
proof fn lemma_ausente(p: Seq<OpM>, ns: Seq<u64>, v: Seq<Linha>, t: Seq<char>, n: int)
    requires
        0 <= n <= p.len(),
        n <= ns.len(),
        !tem_linha(v, t),
        forall|k: int| 0 <= k < n ==> tem_linha(v, rotulo_op(#[trigger] p[k])),
    ensures
        ns_de(p, ns, t, n) == 0,
        n_de(p, t, n) == 0,
        bytes_de(p, t, n) == 0,
    decreases n,
{
    if n > 0 {
        lemma_ausente(p, ns, v, t, n - 1);
        assert(tem_linha(v, rotulo_op(p[n - 1])));
    }
}

/// That the rows stand in order.
pub open spec fn em_ordem(v: Seq<Linha>) -> bool {
    forall|i: int, j: int| 0 <= i < j < v.len() ==> acima(#[trigger] v[i], #[trigger] v[j])
}

/// Puts a row in its place.
fn insere(v: &mut Vec<Linha>, l: Linha)
    requires
        em_ordem(old(v)@),
        !tem_linha(old(v)@, l.rotulo@),
    ensures
        em_ordem(final(v)@),
        exists|k: int|
            0 <= k <= old(v)@.len() && final(v)@ == #[trigger] old(v)@.insert(k, l),
{
    let mut k: usize = 0;
    while k < v.len() && esta_acima(&v[k], &l)
        invariant
            k <= v.len(),
            v@ == old(v)@,
            forall|x: int| 0 <= x < k ==> acima(#[trigger] v@[x], l),
        decreases v.len() - k,
    {
        k += 1;
    }
    let ghost v0 = v@;
    proof {
        if k < v0.len() {
            lemma_total(v0[k as int].rotulo@, l.rotulo@);
            assert(v0[k as int].rotulo@ != l.rotulo@);
            assert(acima(l, v0[k as int]));
        }
        assert forall|x: int| k <= x < v0.len() implies acima(l, #[trigger] v0[x]) by {
            if x > k {
                lemma_acima_transitivo(l, v0[k as int], v0[x]);
            }
        }
    }
    v.insert(k, l);
    proof {
        let w = v@;
        assert(w == v0.insert(k as int, l));
        assert forall|i: int, j: int| 0 <= i < j < w.len() implies acima(
            #[trigger] w[i],
            #[trigger] w[j],
        ) by {
            let a = if i < k {
                i
            } else {
                i - 1
            };
            let b = if j < k {
                j
            } else {
                j - 1
            };
            if i != k && j != k {
                assert(w[i] == v0[a] && w[j] == v0[b]);
            } else if i == k {
                assert(w[j] == v0[j - 1]);
            } else {
                assert(w[i] == v0[i]);
            }
        }
    }
}

/// The table of a plan: a row for each label of its operations, the longest
/// first, and the time and the bytes of all of them.
pub fn tabela(plano: &Vec<PlannedOp>, ns: &Vec<u64>) -> (r: (Vec<Linha>, u64, u128))
    requires
        soma_ns(ns@, ns@.len() as int) <= u64::MAX,
        bytes_totais(plano_de(plano@), plano@.len() as int) <= u128::MAX,
    ensures
        ({
            let n = if plano@.len() < ns@.len() {
                plano@.len() as int
            } else {
                ns@.len() as int
            };
            &&& em_ordem(r.0@)
            &&& forall|i: int|
                0 <= i < r.0@.len() ==> resume(#[trigger] r.0@[i], plano_de(plano@), ns@, n)
            &&& forall|i: int|
                0 <= i < n ==> tem_linha(r.0@, rotulo_op(#[trigger] plano_de(plano@)[i]))
            &&& r.1 == soma_ns(ns@, ns@.len() as int)
            &&& r.2 == bytes_totais(plano_de(plano@), n)
        }),
{
    let ghost p = plano_de(plano@);
    let n: usize = if plano.len() < ns.len() {
        plano.len()
    } else {
        ns.len()
    };
    let v = por_tipo(plano, ns, n);
    let mut w: Vec<Linha> = Vec::new();
    let mut i: usize = 0;
    while i < v.len()
        invariant
            i <= v.len(),
            rotulos_distintos(v@),
            em_ordem(w@),
            forall|k: int| 0 <= k < v.len() ==> resume(#[trigger] v@[k], p, ns@, n as int),
            forall|k: int| 0 <= k < w.len() ==> resume(#[trigger] w@[k], p, ns@, n as int),
            forall|k: int| 0 <= k < i ==> tem_linha(w@, (#[trigger] v@[k]).rotulo@),
            forall|k: int|
                0 <= k < w.len() ==> tem_linha(v@.take(i as int), (#[trigger] w@[k]).rotulo@),
        decreases v.len() - i,
    {
        let ghost w0 = w@;
        let l = v[i];
        proof {
            if tem_linha(w0, l.rotulo@) {
                let k = choose|k: int| 0 <= k < w0.len() && (#[trigger] w0[k]).rotulo@ == l.rotulo@;
                assert(tem_linha(v@.take(i as int), w0[k].rotulo@));
                let x = choose|x: int|
                    0 <= x < v@.take(i as int).len() && (#[trigger] v@.take(i as int)[x]).rotulo@
                        == w0[k].rotulo@;
                assert(v@[x].rotulo@ == v@[i as int].rotulo@);
            }
        }
        insere(&mut w, l);
        proof {
            let k = choose|k: int| 0 <= k <= w0.len() && w@ == #[trigger] w0.insert(k, l);
            assert(w@[k] == l);
            assert forall|x: int| 0 <= x < w@.len() implies resume(
                #[trigger] w@[x],
                p,
                ns@,
                n as int,
            ) && tem_linha(v@.take(i + 1), w@[x].rotulo@) by {
                assert(v@.take(i + 1)[i as int] == l);
                if x < k {
                    assert(w@[x] == w0[x]);
                } else if x > k {
                    assert(w@[x] == w0[x - 1]);
                } else {
                    assert(resume(v@[i as int], p, ns@, n as int));
                }
                if x != k {
                    let t = w@[x].rotulo@;
                    assert(tem_linha(v@.take(i as int), t));
                    let y = choose|y: int|
                        0 <= y < v@.take(i as int).len() && (
                        #[trigger] v@.take(i as int)[y]).rotulo@ == t;
                    assert(v@.take(i + 1)[y].rotulo@ == t);
                }
            }
            assert forall|x: int| 0 <= x <= i implies tem_linha(
                w@,
                (#[trigger] v@[x]).rotulo@,
            ) by {
                if x < i {
                    assert(tem_linha(w0, v@[x].rotulo@));
                    let y = choose|y: int|
                        0 <= y < w0.len() && (#[trigger] w0[y]).rotulo@ == v@[x].rotulo@;
                    if y < k {
                        assert(w@[y] == w0[y]);
                    } else {
                        assert(w@[y + 1] == w0[y]);
                    }
                }
            }
        }
        i += 1;
    }
    proof {
        assert forall|x: int| 0 <= x < n implies tem_linha(w@, rotulo_op(#[trigger] p[x])) by {
            assert(tem_linha(v@, rotulo_op(p[x])));
            let y = choose|y: int|
                0 <= y < v@.len() && (#[trigger] v@[y]).rotulo@ == rotulo_op(p[x]);
            assert(tem_linha(w@, v@[y].rotulo@));
        }
    }
    let mut total: u64 = 0;
    let mut k: usize = 0;
    while k < ns.len()
        invariant
            k <= ns.len(),
            total == soma_ns(ns@, k as int),
            soma_ns(ns@, ns@.len() as int) <= u64::MAX,
        decreases ns.len() - k,
    {
        proof {
            lemma_ns_limite(p, ns@, Seq::empty(), k + 1, ns@.len() as int);
        }
        total = total + ns[k];
        k += 1;
    }
    let mut bytes: u128 = 0;
    let mut j: usize = 0;
    while j < n
        invariant
            j <= n,
            n <= plano.len(),
            p == plano_de(plano@),
            bytes == bytes_totais(p, j as int),
            bytes_totais(p, p.len() as int) <= u128::MAX,
        decreases n - j,
    {
        proof {
            assert(p[j as int] == plano@[j as int]@);
            lemma_bytes_limite(p, Seq::empty(), j + 1, p.len() as int);
        }
        let b: u128 = match &plano[j] {
            PlannedOp::Dispatch(d) => d.bytes(),
            _ => 0,
        };
        bytes = bytes + b;
        j += 1;
    }
    (w, total, bytes)
}

} // verus!
