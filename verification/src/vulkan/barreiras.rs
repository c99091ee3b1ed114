//! Memory barriers between the operations of a plan.
//!
//! Operations between two barriers form a group and may run at the same time on
//! the GPU. An operation starts a new group only if it conflicts with one of the
//! current group: it reads what that one writes, or writes what that one reads
//! or writes.

use vstd::prelude::*;

use crate::vulkan::estado::ResidentState;
use crate::vulkan::ops::{plano_de, sobrepoe, Faixa, OpM, PlannedOp};

verus! {

/// What an operation reads and what it writes.
pub open spec fn toca(o: OpM, st: ResidentState) -> (Seq<Faixa>, Seq<Faixa>) {
    match o {
        OpM::Dispatch(d) => (d.le(), d.esc()),
        OpM::Embed => (seq![st.a.embd_stage.todo()], seq![st.a.b_x.todo()]),
        OpM::Copia { src, dst, bytes } => (
            seq![Faixa { buffer: src, offset: 0, bytes }],
            seq![Faixa { buffer: dst, offset: 0, bytes }],
        ),
        OpM::KvAppend { slot: _, com_k } => if com_k {
            (
                seq![st.a.b_k.todo(), st.a.b_v.todo()],
                seq![st.a.kcache.todo(), st.a.vcache.todo()],
            )
        } else {
            (seq![st.a.b_v.todo()], seq![st.a.vcache.todo()])
        },
        OpM::KvAppendMtp => match st.mtp {
            Some(m) => (
                seq![st.a.b_k.todo(), st.a.b_v.todo()],
                seq![m.kcache.todo(), m.vcache.todo()],
            ),
            None => (Seq::empty(), Seq::empty()),
        },
        OpM::CopiaHidden => match st.mtp {
            Some(m) => (seq![st.a.b_x.todo()], seq![m.b_h.todo()]),
            None => (Seq::empty(), Seq::empty()),
        },
        OpM::Atencao { curto, split, reduce } => (
            curto.le() + split.le() + reduce.le(),
            curto.esc() + split.esc() + reduce.esc(),
        ),
    }
}

/// Whether a stretch of the first list crosses one of the second.
pub open spec fn cruzam(a: Seq<Faixa>, b: Seq<Faixa>) -> bool {
    exists|i: int, j: int|
        0 <= i < a.len() && 0 <= j < b.len() && (#[trigger] a[i]).cruza(#[trigger] b[j])
}

/// Whether an operation cannot run together with one before it.
pub open spec fn conflita(antes: OpM, depois: OpM, st: ResidentState) -> bool {
    let a = toca(antes, st);
    let d = toca(depois, st);
    cruzam(d.0, a.1) || cruzam(d.1, a.1) || cruzam(d.1, a.0)
}

/// Whether `j` comes before `i` with no barrier between them; the one before
/// `i` itself does not count.
pub open spec fn no_grupo(b: Seq<bool>, j: int, i: int) -> bool {
    0 <= j < i && forall|k: int| j < k < i ==> !#[trigger] b[k]
}

/// Whether `i` conflicts with an operation of the group before it.
pub open spec fn preciso(p: Seq<OpM>, b: Seq<bool>, i: int, st: ResidentState) -> bool {
    exists|j: int| #[trigger] no_grupo(b, j, i) && conflita(p[j], p[i], st)
}

/// That there is a barrier before exactly the operations that need one.
pub open spec fn barreiras_de(p: Seq<OpM>, b: Seq<bool>, st: ResidentState) -> bool {
    &&& b.len() == p.len()
    &&& forall|i: int| 0 <= i < p.len() ==> #[trigger] b[i] == preciso(p, b, i, st)
}

/// Two operations that conflict always have a barrier between them.
pub proof fn lei_conflito_tem_barreira(
    p: Seq<OpM>,
    b: Seq<bool>,
    st: ResidentState,
    j: int,
    i: int,
)
    requires
        barreiras_de(p, b, st),
        0 <= j < i < p.len(),
        conflita(p[j], p[i], st),
    ensures
        exists|k: int| j < k <= i && #[trigger] b[k],
{
    if forall|k: int| j < k < i ==> !#[trigger] b[k] {
        assert(no_grupo(b, j, i));
        assert(preciso(p, b, i, st));
        assert(b[i]);
    }
}

/// There is no barrier that no conflict asks for.
pub proof fn lei_barreira_tem_conflito(p: Seq<OpM>, b: Seq<bool>, st: ResidentState, i: int)
    requires
        barreiras_de(p, b, st),
        0 <= i < p.len(),
        b[i],
    ensures
        exists|j: int|
            0 <= j < i && #[trigger] conflita(p[j], p[i], st) && forall|k: int|
                j < k < i ==> !#[trigger] b[k],
{
    assert(preciso(p, b, i, st));
    let j = choose|j: int| #[trigger] no_grupo(b, j, i) && conflita(p[j], p[i], st);
    assert(conflita(p[j], p[i], st));
}

/// The plan fixes its barriers.
pub proof fn lei_barreiras_unicas(p: Seq<OpM>, b: Seq<bool>, c: Seq<bool>, st: ResidentState)
    requires
        barreiras_de(p, b, st),
        barreiras_de(p, c, st),
    ensures
        b == c,
{
    assert forall|i: int| 0 <= i < p.len() implies b[i] == c[i] by {
        lemma_iguais_ate(p, b, c, st, i + 1);
    }
    assert(b =~= c);
}

proof fn lemma_iguais_ate(p: Seq<OpM>, b: Seq<bool>, c: Seq<bool>, st: ResidentState, n: int)
    requires
        barreiras_de(p, b, st),
        barreiras_de(p, c, st),
        0 <= n <= p.len(),
    ensures
        forall|i: int| 0 <= i < n ==> #[trigger] b[i] == c[i],
    decreases n,
{
    if n > 0 {
        let i = n - 1;
        lemma_iguais_ate(p, b, c, st, i);
        if b[i] {
            let j = choose|j: int| #[trigger] no_grupo(b, j, i) && conflita(p[j], p[i], st);
            assert forall|k: int| j < k < i implies !#[trigger] c[k] by {
                assert(b[k] == c[k]);
            }
            assert(no_grupo(c, j, i));
            assert(preciso(p, c, i, st));
        }
        if c[i] {
            let j = choose|j: int| #[trigger] no_grupo(c, j, i) && conflita(p[j], p[i], st);
            assert(no_grupo(b, j, i));
            assert(preciso(p, b, i, st));
        }
    }
}

// ---------------------------------------------------------------------------

/// What the operations from `a` up to `b` read.
spec fn lidas(p: Seq<OpM>, st: ResidentState, a: int, b: int) -> Seq<Faixa>
    decreases b - a,
{
    if a >= b {
        Seq::empty()
    } else {
        lidas(p, st, a, b - 1) + toca(p[b - 1], st).0
    }
}

/// What they write.
spec fn escritas(p: Seq<OpM>, st: ResidentState, a: int, b: int) -> Seq<Faixa>
    decreases b - a,
{
    if a >= b {
        Seq::empty()
    } else {
        escritas(p, st, a, b - 1) + toca(p[b - 1], st).1
    }
}

proof fn lemma_cruzam_soma(f: Seq<Faixa>, a: Seq<Faixa>, b: Seq<Faixa>)
    ensures
        cruzam(f, a + b) == (cruzam(f, a) || cruzam(f, b)),
{
    let s = a + b;
    if cruzam(f, a) {
        let (i, j) = choose|i: int, j: int|
            0 <= i < f.len() && 0 <= j < a.len() && (#[trigger] f[i]).cruza(#[trigger] a[j]);
        assert(s[j] == a[j]);
    }
    if cruzam(f, b) {
        let (i, j) = choose|i: int, j: int|
            0 <= i < f.len() && 0 <= j < b.len() && (#[trigger] f[i]).cruza(#[trigger] b[j]);
        assert(s[a.len() + j] == b[j]);
    }
    if cruzam(f, s) {
        let (i, j) = choose|i: int, j: int|
            0 <= i < f.len() && 0 <= j < s.len() && (#[trigger] f[i]).cruza(#[trigger] s[j]);
        if j < a.len() {
            assert(a[j] == s[j]);
        } else {
            assert(b[j - a.len()] == s[j]);
        }
    }
}

proof fn lemma_grupo(f: Seq<Faixa>, p: Seq<OpM>, st: ResidentState, a: int, b: int)
    ensures
        cruzam(f, lidas(p, st, a, b)) <==> exists|j: int|
            a <= j < b && cruzam(f, #[trigger] toca(p[j], st).0),
        cruzam(f, escritas(p, st, a, b)) <==> exists|j: int|
            a <= j < b && cruzam(f, #[trigger] toca(p[j], st).1),
    decreases b - a,
{
    if a < b {
        lemma_grupo(f, p, st, a, b - 1);
        lemma_cruzam_soma(f, lidas(p, st, a, b - 1), toca(p[b - 1], st).0);
        lemma_cruzam_soma(f, escritas(p, st, a, b - 1), toca(p[b - 1], st).1);
    }
}

fn alguma_cruza(a: &Vec<Faixa>, b: &Vec<Faixa>) -> (r: bool)
    ensures
        r == cruzam(a@, b@),
{
    let mut i: usize = 0;
    while i < a.len()
        invariant
            i <= a.len(),
            forall|x: int, y: int|
                0 <= x < i && 0 <= y < b.len() ==> !(#[trigger] a@[x]).cruza(#[trigger] b@[y]),
        decreases a.len() - i,
    {
        let mut j: usize = 0;
        while j < b.len()
            invariant
                i < a.len(),
                j <= b.len(),
                forall|y: int| 0 <= y < j ==> !a@[i as int].cruza(#[trigger] b@[y]),
            decreases b.len() - j,
        {
            if sobrepoe(&a[i], &b[j]) {
                assert(a@[i as int].cruza(b@[j as int]));
                return true;
            }
            j += 1;
        }
        i += 1;
    }
    false
}

fn junta(a: &mut Vec<Faixa>, b: &mut Vec<Faixa>)
    ensures
        final(a)@ == old(a)@ + old(b)@,
{
    a.append(b);
}

/// What an operation reads and what it writes.
fn faixas_de(o: &PlannedOp, st: &ResidentState) -> (r: (Vec<Faixa>, Vec<Faixa>))
    ensures
        (r.0@, r.1@) == toca(o@, *st),
{
    let a = &st.a;
    let r: (Vec<Faixa>, Vec<Faixa>) = match o {
        PlannedOp::Dispatch(d) => (d.le(), d.esc()),
        PlannedOp::Embed => (vec![a.embd_stage.inteiro()], vec![a.b_x.inteiro()]),
        PlannedOp::Copia { src, dst, bytes } => (
            vec![Faixa { buffer: *src, offset: 0, bytes: *bytes }],
            vec![Faixa { buffer: *dst, offset: 0, bytes: *bytes }],
        ),
        PlannedOp::KvAppend { slot: _, com_k } => if *com_k {
            (
                vec![a.b_k.inteiro(), a.b_v.inteiro()],
                vec![a.kcache.inteiro(), a.vcache.inteiro()],
            )
        } else {
            (vec![a.b_v.inteiro()], vec![a.vcache.inteiro()])
        },
        PlannedOp::KvAppendMtp => match &st.mtp {
            Some(m) => (
                vec![a.b_k.inteiro(), a.b_v.inteiro()],
                vec![m.kcache.inteiro(), m.vcache.inteiro()],
            ),
            None => (Vec::new(), Vec::new()),
        },
        PlannedOp::CopiaHidden => match &st.mtp {
            Some(m) => (vec![a.b_x.inteiro()], vec![m.b_h.inteiro()]),
            None => (Vec::new(), Vec::new()),
        },
        PlannedOp::Atencao { curto, split, reduce } => {
            let mut le = curto.le();
            let mut esc = curto.esc();
            junta(&mut le, &mut split.le());
            junta(&mut esc, &mut split.esc());
            junta(&mut le, &mut reduce.le());
            junta(&mut esc, &mut reduce.esc());
            (le, esc)
        },
    };
    proof {
        assert(r.0@ =~= toca(o@, *st).0);
        assert(r.1@ =~= toca(o@, *st).1);
    }
    r
}

/// For each operation, whether it needs a barrier before it. With `sem_grupo`
/// every operation has one.
pub fn marcar_barreiras(plan: &Vec<PlannedOp>, st: &ResidentState, sem_grupo: bool) -> (r: Vec<
    bool,
>)
    ensures
        r.len() == plan.len(),
        sem_grupo ==> forall|i: int| 0 <= i < r.len() ==> #[trigger] r[i],
        !sem_grupo ==> barreiras_de(plano_de(plan@), r@, *st),
{
    let ghost p = plano_de(plan@);
    let mut r: Vec<bool> = Vec::new();
    let mut i: usize = 0;
    if sem_grupo {
        while i < plan.len()
            invariant
                i <= plan.len(),
                r.len() == i,
                forall|k: int| 0 <= k < i ==> #[trigger] r[k],
            decreases plan.len() - i,
        {
            r.push(true);
            i += 1;
        }
        return r;
    }
    let mut grupo_le: Vec<Faixa> = Vec::new();
    let mut grupo_esc: Vec<Faixa> = Vec::new();
    let ghost mut ini: int = 0;
    while i < plan.len()
        invariant
            i <= plan.len(),
            p == plano_de(plan@),
            r.len() == i,
            0 <= ini <= i,
            0 < ini ==> ini < i && r@[ini],
            forall|k: int| ini < k < i ==> !#[trigger] r@[k],
            grupo_le@ == lidas(p, *st, ini, i as int),
            grupo_esc@ == escritas(p, *st, ini, i as int),
            forall|k: int| 0 <= k < i ==> #[trigger] r@[k] == preciso(p, r@, k, *st),
        decreases plan.len() - i,
    {
        let (mut le, mut esc) = faixas_de(&plan[i], st);
        let ghost t = toca(p[i as int], *st);
        proof {
            assert(p[i as int] == plan@[i as int]@);
            assert(le@ == t.0 && esc@ == t.1);
            lemma_grupo(t.0, p, *st, ini, i as int);
            lemma_grupo(t.1, p, *st, ini, i as int);
        }
        let precisa = alguma_cruza(&le, &grupo_esc) || alguma_cruza(&esc, &grupo_esc)
            || alguma_cruza(&esc, &grupo_le);
        let ghost r0 = r@;
        proof {
            if precisa {
                let j = choose|j: int|
                    ini <= j < i && conflita(#[trigger] p[j], p[i as int], *st);
                assert(no_grupo(r0, j, i as int));
                assert(preciso(p, r0, i as int, *st));
            }
            if preciso(p, r0, i as int, *st) {
                let j = choose|j: int|
                    #[trigger] no_grupo(r0, j, i as int) && conflita(p[j], p[i as int], *st);
                assert(j >= ini);
                assert(precisa);
            }
        }
        if precisa {
            grupo_le.clear();
            grupo_esc.clear();
            proof {
                ini = i as int;
            }
        }
        r.push(precisa);
        junta(&mut grupo_le, &mut le);
        junta(&mut grupo_esc, &mut esc);
        proof {
            assert(lidas(p, *st, i as int, i as int) =~= Seq::<Faixa>::empty());
            assert(escritas(p, *st, i as int, i as int) =~= Seq::<Faixa>::empty());
            assert(grupo_le@ =~= lidas(p, *st, ini, i as int) + t.0);
            assert(grupo_esc@ =~= escritas(p, *st, ini, i as int) + t.1);
            assert forall|k: int| 0 <= k <= i implies #[trigger] r@[k] == preciso(
                p,
                r@,
                k,
                *st,
            ) by {
                lemma_preciso_prefixo(p, r0, r@, k, *st);
            }
        }
        i += 1;
    }
    r
}

proof fn lemma_preciso_prefixo(
    p: Seq<OpM>,
    b: Seq<bool>,
    c: Seq<bool>,
    i: int,
    st: ResidentState,
)
    requires
        0 <= i <= b.len(),
        b.len() <= c.len(),
        forall|k: int| 0 <= k < b.len() ==> #[trigger] b[k] == c[k],
    ensures
        preciso(p, b, i, st) == preciso(p, c, i, st),
{
    if preciso(p, b, i, st) {
        let j = choose|j: int| #[trigger] no_grupo(b, j, i) && conflita(p[j], p[i], st);
        assert forall|k: int| j < k < i implies !#[trigger] c[k] by {
            assert(b[k] == c[k]);
        }
        assert(no_grupo(c, j, i));
    }
    if preciso(p, c, i, st) {
        let j = choose|j: int| #[trigger] no_grupo(c, j, i) && conflita(p[j], p[i], st);
        assert(no_grupo(b, j, i));
    }
}

} // verus!
