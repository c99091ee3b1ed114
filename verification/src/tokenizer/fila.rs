//! Priority queue of the candidate merges of the SentencePiece tokenizer.

use vstd::multiset::Multiset;
use vstd::prelude::*;
use vstd::seq_lib::*;

verus! {

/// Where a single precision float stands in the total order of IEEE-754
/// (negative below positive, magnitude within the sign), from its bits.
pub open spec fn ordem(bits: u32) -> int {
    if bits < 0x8000_0000 {
        bits as int
    } else {
        0x7fff_ffff - bits
    }
}

/// A candidate merge: two neighbouring symbols, the score of their joint text
/// and its length in bytes.
#[derive(Clone, Copy, Debug, PartialEq, Eq, Structural)]
pub struct Bigram {
    pub left: usize,
    pub right: usize,
    pub score: u32,
    pub size: usize,
}

impl Bigram {
    /// Whether `self` comes out no earlier than `o`: the greater score first,
    /// and of equal scores the one further left.
    pub open spec fn cede_a(self, o: Bigram) -> bool {
        ordem(self.score) < ordem(o.score) || (ordem(self.score) == ordem(o.score) && o.left
            <= self.left)
    }
}

fn chave(bits: u32) -> (k: i64)
    ensures
        k == ordem(bits),
{
    if bits < 0x8000_0000 {
        bits as i64
    } else {
        0x7fff_ffff - bits as i64
    }
}

fn cede(a: &Bigram, b: &Bigram) -> (r: bool)
    ensures
        r == a.cede_a(*b),
{
    let x: i64 = chave(a.score);
    let y: i64 = chave(b.score);
    x < y || (x == y && b.left <= a.left)
}

/// A binary heap of candidates. Its view is what it holds.
pub struct Fila {
    v: Vec<Bigram>,
}

/// That every entry but the one at `i` gives way to its parent.
spec fn quase_heap(s: Seq<Bigram>, i: int) -> bool {
    forall|k: int|
        0 < k < s.len() && k != i ==> (#[trigger] s[k]).cede_a(s[(k - 1) / 2])
}

/// That every entry gives way to its parent, but for the children of `i`.
spec fn quase_heap_abaixo(s: Seq<Bigram>, i: int) -> bool {
    forall|k: int|
        0 < k < s.len() && (k - 1) / 2 != i ==> (#[trigger] s[k]).cede_a(s[(k - 1) / 2])
}

spec fn heap(s: Seq<Bigram>) -> bool {
    forall|k: int| 0 < k < s.len() ==> (#[trigger] s[k]).cede_a(s[(k - 1) / 2])
}

proof fn lemma_topo(s: Seq<Bigram>, k: int)
    requires
        heap(s),
        0 <= k < s.len(),
    ensures
        s[k].cede_a(s[0]),
    decreases k,
{
    if k > 0 {
        lemma_topo(s, (k - 1) / 2);
        assert(s[k].cede_a(s[(k - 1) / 2]));
    }
}

proof fn lemma_troca(s: Seq<Bigram>, i: int, j: int)
    requires
        0 <= i < s.len(),
        0 <= j < s.len(),
        i != j,
    ensures
        s.update(i, s[j]).update(j, s[i]).to_multiset() == s.to_multiset(),
{
    to_multiset_update(s, i, s[j]);
    to_multiset_update(s.update(i, s[j]), j, s[i]);
    to_multiset_contains(s, s[i]);
    let m = s.to_multiset();
    assert(m.insert(s[j]).remove(s[i]).insert(s[i]).remove(s[j]) =~= m);
}

impl View for Fila {
    type V = Multiset<Bigram>;

    closed spec fn view(&self) -> Multiset<Bigram> {
        self.v@.to_multiset()
    }
}

impl Fila {
    #[verifier::type_invariant]
    spec fn inv(&self) -> bool {
        heap(self.v@)
    }

    pub fn new() -> (r: Fila)
        ensures
            r@ == Multiset::<Bigram>::empty(),
    {
        let v: Vec<Bigram> = Vec::new();
        proof {
            to_multiset_len(v@);
            assert(v@.to_multiset() =~= Multiset::<Bigram>::empty());
        }
        Fila { v }
    }

    /// Adds a candidate.
    pub fn push(&mut self, b: Bigram)
        ensures
            final(self)@ == old(self)@.insert(b),
    {
        proof {
            use_type_invariant(&*self);
        }
        let mut v: Vec<Bigram> = Vec::new();
        std::mem::swap(&mut v, &mut self.v);
        v.push(b);
        proof {
            to_multiset_build(old(self).v@, b);
        }
        let mut i: usize = v.len() - 1;
        while i > 0 && !cede(&v[i], &v[(i - 1) / 2])
            invariant
                i < v.len(),
                v@.to_multiset() == old(self)@.insert(b),
                quase_heap(v@, i as int),
                i > 0 ==> forall|k: int|
                    0 < k < v.len() && (k - 1) / 2 == i ==> (#[trigger] v@[k]).cede_a(
                        v@[(i - 1) / 2],
                    ),
            decreases i,
        {
            let p: usize = (i - 1) / 2;
            let x: Bigram = v[i];
            let y: Bigram = v[p];
            let ghost s = v@;
            v.set(i, y);
            v.set(p, x);
            proof {
                lemma_troca(s, i as int, p as int);
                if p > 0 {
                    assert(s[p as int].cede_a(s[(p - 1) / 2]));
                }
                assert forall|k: int| 0 < k < v.len() && k != p implies (#[trigger] v@[k]).cede_a(
                    v@[(k - 1) / 2],
                ) by {
                    assert(k != i ==> s[k].cede_a(s[(k - 1) / 2]));
                }
                if p > 0 {
                    assert forall|k: int| 0 < k < v.len() && (k - 1) / 2 == p implies (
                    #[trigger] v@[k]).cede_a(v@[(p - 1) / 2]) by {
                        if k != i {
                            assert(s[k].cede_a(s[p as int]));
                        }
                    }
                }
            }
            i = p;
        }
        assert(heap(v@));
        self.v = v;
    }

    /// Takes out a candidate that no other one comes before.
    pub fn pop(&mut self) -> (r: Option<Bigram>)
        ensures
            match r {
                None => old(self)@ == Multiset::<Bigram>::empty() && final(self)@ == old(self)@,
                Some(b) => {
                    &&& old(self)@.contains(b)
                    &&& final(self)@ == old(self)@.remove(b)
                    &&& forall|o: Bigram| #[trigger] old(self)@.contains(o) ==> o.cede_a(b)
                },
            },
    {
        proof {
            use_type_invariant(&*self);
        }
        let mut v: Vec<Bigram> = Vec::new();
        std::mem::swap(&mut v, &mut self.v);
        let ghost s0 = v@;
        if v.len() == 0 {
            proof {
                to_multiset_len(s0);
                assert(old(self)@ =~= Multiset::<Bigram>::empty());
            }
            self.v = v;
            return None;
        }
        let topo: Bigram = v[0];
        proof {
            to_multiset_contains(s0, topo);
            assert forall|o: Bigram| #[trigger] old(self)@.contains(o) implies o.cede_a(topo) by {
                to_multiset_contains(s0, o);
                let k = choose|k: int| 0 <= k < s0.len() && s0[k] == o;
                lemma_topo(s0, k);
            }
        }
        let ultimo: Bigram = v[v.len() - 1];
        let _ = v.pop();
        proof {
            assert(s0.drop_last() =~= s0.remove(s0.len() - 1));
            to_multiset_remove(s0, s0.len() - 1);
        }
        if v.len() > 0 {
            let ghost s1 = v@;
            v.set(0, ultimo);
            proof {
                to_multiset_update(s1, 0, ultimo);
                to_multiset_contains(s0, ultimo);
                to_multiset_contains(s1, topo);
                assert(s1[0] == topo);
                assert(s0.to_multiset().remove(ultimo).insert(ultimo).remove(topo)
                    =~= s0.to_multiset().remove(topo));
                assert forall|k: int| 0 < k < v.len() && (k - 1) / 2 != 0 implies (
                #[trigger] v@[k]).cede_a(v@[(k - 1) / 2]) by {
                    assert(s0[k].cede_a(s0[(k - 1) / 2]));
                }
            }
            let mut i: usize = 0;
            let n: usize = v.len();
            while i < n / 2
                invariant
                    n == v.len(),
                    i < n,
                    v@.to_multiset() == old(self)@.remove(topo),
                    quase_heap_abaixo(v@, i as int),
                    i > 0 ==> forall|k: int|
                        0 < k < v.len() && (k - 1) / 2 == i ==> (#[trigger] v@[k]).cede_a(
                            v@[(i - 1) / 2],
                        ),
                ensures
                    heap(v@),
                    v@.to_multiset() == old(self)@.remove(topo),
                decreases n - i,
            {
                let e: usize = 2 * i + 1;
                let d: usize = e + 1;
                let m: usize = if d < n && cede(&v[e], &v[d]) {
                    d
                } else {
                    e
                };
                assert(e < n);
                if cede(&v[m], &v[i]) {
                    proof {
                        assert forall|k: int| 0 < k < v.len() implies (#[trigger] v@[k]).cede_a(
                            v@[(k - 1) / 2],
                        ) by {
                            if (k - 1) / 2 == i {
                                assert(k == e || k == d);
                            }
                        }
                    }
                    break;
                }
                let x: Bigram = v[i];
                let y: Bigram = v[m];
                let ghost s = v@;
                v.set(i, y);
                v.set(m, x);
                proof {
                    lemma_troca(s, i as int, m as int);
                    assert((m - 1) / 2 == i);
                    assert forall|k: int| 0 < k < v.len() && (k - 1) / 2 != m implies (
                    #[trigger] v@[k]).cede_a(v@[(k - 1) / 2]) by {
                        if k == i {
                            assert(s[m as int].cede_a(s[(i - 1) / 2]));
                        } else if (k - 1) / 2 == i {
                            assert(k == e || k == d);
                        } else {
                            assert(s[k].cede_a(s[(k - 1) / 2]));
                        }
                    }
                    assert forall|k: int| 0 < k < v.len() && (k - 1) / 2 == m implies (
                    #[trigger] v@[k]).cede_a(v@[(m - 1) / 2]) by {
                        assert(s[k].cede_a(s[(k - 1) / 2]));
                    }
                }
                i = m;
            }
        } else {
            proof {
                to_multiset_len(s0);
                assert(s0.len() == 1);
                assert(ultimo == topo);
            }
        }
        self.v = v;
        Some(topo)
    }
}

} // verus!
