//! What a profile adds up to, and that measuring changes nothing of a step.

use vstd::prelude::*;

use crate::vulkan::estado::{Modo, ResidentState};
use crate::vulkan::gravacao::{
    cmd_saida, cmds_ate, cmds_op, passo_gravado, se_barreira, CmdM, Passo,
};
use crate::vulkan::ops::{rotulo, rotulo_op, sem_repetir, soma_bytes, Faixa, OpM, PipeId};
use crate::vulkan::perfil::{
    bytes_da_op, bytes_de, bytes_totais, durou, em_ordem, n_de, ns_de, resume, soma_ns, somado,
    tem_linha, vem_antes, Linha,
};

verus! {

// ---------------------------------------------------------------------------
// The table
// ---------------------------------------------------------------------------

/// The sum of a number over rows.
pub open spec fn soma_linhas(v: Seq<Linha>, f: spec_fn(Linha) -> int) -> int
    decreases v.len(),
{
    if v.len() == 0 {
        0
    } else {
        soma_linhas(v.drop_last(), f) + f(v.last())
    }
}

proof fn lemma_soma_igual(v: Seq<Linha>, f: spec_fn(Linha) -> int, g: spec_fn(Linha) -> int)
    requires
        forall|i: int| 0 <= i < v.len() ==> f(#[trigger] v[i]) == g(v[i]),
    ensures
        soma_linhas(v, f) == soma_linhas(v, g),
    decreases v.len(),
{
    if v.len() > 0 {
        let d = v.drop_last();
        assert forall|i: int| 0 <= i < d.len() implies f(#[trigger] d[i]) == g(d[i]) by {
            assert(d[i] == v[i]);
        }
        lemma_soma_igual(d, f, g);
        assert(v.last() == v[v.len() - 1]);
    }
}

/// A number that only the rows with a label get more of.
proof fn lemma_soma_mais(
    v: Seq<Linha>,
    f: spec_fn(Linha) -> int,
    g: spec_fn(Linha) -> int,
    t: Seq<char>,
    x: int,
)
    requires
        distintas(v),
        forall|l: Linha|
            #[trigger] g(l) == f(l) + if l.rotulo@ == t {
                x
            } else {
                0
            },
    ensures
        soma_linhas(v, g) == soma_linhas(v, f) + if tem_linha(v, t) {
            x
        } else {
            0
        },
    decreases v.len(),
{
    if v.len() > 0 {
        let d = v.drop_last();
        let n = v.len() - 1;
        assert forall|i: int, j: int| 0 <= i < j < d.len() implies (#[trigger] d[i]).rotulo@ != (
        #[trigger] d[j]).rotulo@ by {
            assert(d[i] == v[i] && d[j] == v[j]);
        }
        lemma_soma_mais(d, f, g, t, x);
        assert(g(v.last()) == f(v.last()) + if v.last().rotulo@ == t {
            x
        } else {
            0
        });
        if tem_linha(d, t) {
            let k = choose|k: int| 0 <= k < d.len() && (#[trigger] d[k]).rotulo@ == t;
            assert(v[k].rotulo@ == t);
            assert(v[k].rotulo@ != v[n].rotulo@);
        } else if v.last().rotulo@ == t {
            assert(v[n].rotulo@ == t);
        } else if tem_linha(v, t) {
            let k = choose|k: int| 0 <= k < v.len() && (#[trigger] v[k]).rotulo@ == t;
            assert(d[k].rotulo@ == t);
        }
    }
}

/// That no two rows have one label.
pub open spec fn distintas(v: Seq<Linha>) -> bool {
    forall|i: int, j: int|
        0 <= i < j < v.len() ==> (#[trigger] v[i]).rotulo@ != (#[trigger] v[j]).rotulo@
}

proof fn lemma_nao_antes(a: Seq<char>)
    ensures
        !vem_antes(a, a),
    decreases a.len(),
{
    if a.len() > 0 {
        lemma_nao_antes(a.skip(1));
    }
}

proof fn lemma_somas(v: Seq<Linha>, p: Seq<OpM>, ns: Seq<u64>, n: int, m: int)
    requires
        distintas(v),
        0 <= n <= m,
        forall|i: int| 0 <= i < m ==> tem_linha(v, rotulo_op(#[trigger] p[i])),
    ensures
        soma_linhas(v, |l: Linha| ns_de(p, ns, l.rotulo@, n)) == soma_ns(ns, n),
        soma_linhas(v, |l: Linha| n_de(p, l.rotulo@, n)) == n,
        soma_linhas(v, |l: Linha| bytes_de(p, l.rotulo@, n)) == bytes_totais(p, n),
    decreases n,
{
    let f1 = |l: Linha| ns_de(p, ns, l.rotulo@, n);
    let f2 = |l: Linha| n_de(p, l.rotulo@, n);
    let f3 = |l: Linha| bytes_de(p, l.rotulo@, n);
    if n == 0 {
        lemma_zero(v, f1);
        lemma_zero(v, f2);
        lemma_zero(v, f3);
    } else {
        lemma_somas(v, p, ns, n - 1, m);
        let t = rotulo_op(p[n - 1]);
        lemma_soma_mais(
            v,
            |l: Linha| ns_de(p, ns, l.rotulo@, n - 1),
            f1,
            t,
            ns[n - 1] as int,
        );
        lemma_soma_mais(v, |l: Linha| n_de(p, l.rotulo@, n - 1), f2, t, 1);
        lemma_soma_mais(
            v,
            |l: Linha| bytes_de(p, l.rotulo@, n - 1),
            f3,
            t,
            bytes_da_op(p[n - 1]),
        );
    }
}

proof fn lemma_zero(v: Seq<Linha>, f: spec_fn(Linha) -> int)
    requires
        forall|l: Linha| #[trigger] f(l) == 0,
    ensures
        soma_linhas(v, f) == 0,
    decreases v.len(),
{
    if v.len() > 0 {
        lemma_zero(v.drop_last(), f);
    }
}

/// The rows of a table add up to what was measured: every operation is in one
/// row and in one alone, so that the times of the rows sum to the time of the
/// operations, their numbers to the number of operations and their bytes to all
/// bytes.
pub proof fn lei_linhas_somam_o_total(v: Seq<Linha>, p: Seq<OpM>, ns: Seq<u64>, n: int)
    requires
        0 <= n <= p.len(),
        em_ordem(v),
        forall|i: int| 0 <= i < v.len() ==> resume(#[trigger] v[i], p, ns, n),
        forall|i: int| 0 <= i < n ==> tem_linha(v, rotulo_op(#[trigger] p[i])),
    ensures
        distintas(v),
        soma_linhas(v, |l: Linha| l.ns as int) == soma_ns(ns, n),
        soma_linhas(v, |l: Linha| l.n as int) == n,
        soma_linhas(v, |l: Linha| l.bytes as int) == bytes_totais(p, n),
{
    assert forall|i: int, j: int| 0 <= i < j < v.len() implies (#[trigger] v[i]).rotulo@ != (
    #[trigger] v[j]).rotulo@ by {
        if v[i].rotulo@ == v[j].rotulo@ {
            lemma_nao_antes(v[i].rotulo@);
            assert(resume(v[i], p, ns, n) && resume(v[j], p, ns, n));
        }
    }
    lemma_somas(v, p, ns, n, n);
    lemma_soma_igual(v, |l: Linha| l.ns as int, |l: Linha| ns_de(p, ns, l.rotulo@, n));
    lemma_soma_igual(v, |l: Linha| l.n as int, |l: Linha| n_de(p, l.rotulo@, n));
    lemma_soma_igual(v, |l: Linha| l.bytes as int, |l: Linha| bytes_de(p, l.rotulo@, n));
}

/// The longest come first: no row took longer than one above it.
pub proof fn lei_mais_longas_primeiro(v: Seq<Linha>, i: int, j: int)
    requires
        em_ordem(v),
        0 <= i < j < v.len(),
    ensures
        v[i].ns >= v[j].ns,
{
}

/// Stretches that a dispatch reads more than once are counted once: the list
/// without repetition has the same stretches, each a single time.
pub proof fn lei_conta_uma_vez(s: Seq<Faixa>)
    ensures
        sem_repetir(s).no_duplicates(),
        forall|f: Faixa| #[trigger] sem_repetir(s).contains(f) <==> s.contains(f),
    decreases s.len(),
{
    if s.len() > 0 {
        let d = s.drop_last();
        lei_conta_uma_vez(d);
        let r = sem_repetir(s);
        let q = sem_repetir(d);
        assert forall|f: Faixa| #[trigger] r.contains(f) <==> s.contains(f) by {
            if s.contains(f) {
                let k = choose|k: int| 0 <= k < s.len() && s[k] == f;
                if k < d.len() {
                    assert(d[k] == f);
                    assert(d.contains(f));
                    assert(q.contains(f));
                    let x = choose|x: int| 0 <= x < q.len() && q[x] == f;
                    assert(r[x] == f);
                } else if !q.contains(f) {
                    assert(r[r.len() - 1] == f);
                }
            }
            if r.contains(f) {
                let k = choose|k: int| 0 <= k < r.len() && r[k] == f;
                if k < q.len() {
                    assert(q[k] == f);
                    assert(q.contains(f));
                    assert(d.contains(f));
                    let x = choose|x: int| 0 <= x < d.len() && d[x] == f;
                    assert(s[x] == f);
                } else {
                    assert(s[s.len() - 1] == f);
                }
            }
        }
    }
}

/// The bytes of stretches one after the other are those of both lists.
pub proof fn lei_bytes_somados(a: Seq<Faixa>, b: Seq<Faixa>, f: Faixa)
    ensures
        soma_bytes(a + b) == soma_bytes(a) + soma_bytes(b),
        soma_bytes(seq![f]) == f.bytes,
    decreases b.len(),
{
    reveal_with_fuel(soma_bytes, 2);
    assert(seq![f].drop_last() =~= Seq::<Faixa>::empty());
    if b.len() == 0 {
        assert(a + b =~= a);
    } else {
        assert((a + b).drop_last() =~= a + b.drop_last());
        lei_bytes_somados(a, b.drop_last(), f);
    }
}

/// Durations on a clock that goes on add up; where it went back, nothing is
/// counted.
pub proof fn lei_duracoes(a: u64, b: u64, c: u64)
    ensures
        a <= b ==> a + durou(a, b) == b,
        a <= b <= c ==> durou(a, b) + durou(b, c) == durou(a, c),
        a > b ==> durou(a, b) == 0,
{
}

/// A step adds its time to that of the steps before, operation by operation; an
/// operation that one of them does not have took no time there.
pub proof fn lei_somado(a: Seq<u64>, ns: Seq<u64>, i: int)
    requires
        0 <= i,
    ensures
        i < a.len() && i < ns.len() ==> somado(a, ns, i) == a[i] + ns[i],
        i < a.len() && i >= ns.len() ==> somado(a, ns, i) == a[i],
        i >= a.len() && i < ns.len() ==> somado(a, ns, i) == ns[i],
        i >= a.len() && i >= ns.len() ==> somado(a, ns, i) == 0,
        somado(a, ns, i) == somado(ns, a, i),
{
}

/// That `b` and `v` are the pipelines of the product `p` for a block and for a
/// verification.
pub open spec fn mesmo_produto(p: PipeId, b: PipeId, v: PipeId) -> bool {
    match p {
        PipeId::Matvec => b is MatvecB && v is MatvecV,
        PipeId::MatvecQ4K => b is MatvecQ4KB && v is MatvecQ4KV,
        PipeId::MatvecQ5K => b is MatvecQ5KB && v is MatvecQ5KV,
        PipeId::MatvecQ6K => b is MatvecQ6KB && v is MatvecQ6KV,
        _ => false,
    }
}

/// The label of a product for a block or for a verification is that of the
/// product with one vector and a suffix.
pub proof fn lei_rotulos_dos_produtos(p: PipeId, b: PipeId, v: PipeId)
    requires
        mesmo_produto(p, b, v),
    ensures
        rotulo(b) == rotulo(p) + "_b"@,
        rotulo(v) == rotulo(p) + "_v"@,
{
    reveal_strlit("_b");
    reveal_strlit("_v");
    reveal_strlit("matvec");
    reveal_strlit("matvec_b");
    reveal_strlit("matvec_v");
    reveal_strlit("matvec_q4k");
    reveal_strlit("matvec_q4k_b");
    reveal_strlit("matvec_q4k_v");
    reveal_strlit("matvec_q5k");
    reveal_strlit("matvec_q5k_b");
    reveal_strlit("matvec_q5k_v");
    reveal_strlit("matvec_q6k");
    reveal_strlit("matvec_q6k_b");
    reveal_strlit("matvec_q6k_v");
    assert(rotulo(b) =~= rotulo(p) + "_b"@);
    assert(rotulo(v) =~= rotulo(p) + "_v"@);
}

// ---------------------------------------------------------------------------
// The commands
// ---------------------------------------------------------------------------

/// Whether a command does something to memory.
pub open spec fn trabalha(c: CmdM) -> bool {
    c is Despacha || c is Copia
}

/// The commands that do.
#[verifier::opaque]
pub open spec fn trabalho(s: Seq<CmdM>) -> Seq<CmdM> {
    s.filter(|c: CmdM| trabalha(c))
}

/// The timestamps among commands.
#[verifier::opaque]
pub open spec fn tempos(s: Seq<CmdM>) -> Seq<CmdM> {
    s.filter(|c: CmdM| c is Tempo)
}

proof fn lemma_trabalho_concat(a: Seq<CmdM>, b: Seq<CmdM>)
    ensures
        trabalho(a + b) == trabalho(a) + trabalho(b),
        tempos(a + b) == tempos(a) + tempos(b),
{
    reveal(trabalho);
    reveal(tempos);
    Seq::filter_distributes_over_add(a, b, |c: CmdM| trabalha(c));
    Seq::filter_distributes_over_add(a, b, |c: CmdM| c is Tempo);
}

proof fn lemma_um(c: CmdM)
    ensures
        trabalho(seq![c]) == if trabalha(c) {
            seq![c]
        } else {
            Seq::empty()
        },
        tempos(seq![c]) == if c is Tempo {
            seq![c]
        } else {
            Seq::empty()
        },
        trabalho(Seq::empty()) == Seq::<CmdM>::empty(),
        tempos(Seq::empty()) == Seq::<CmdM>::empty(),
{
    reveal(trabalho);
    reveal(tempos);
    reveal_with_fuel(Seq::filter, 2);
    assert(seq![c].drop_last() =~= Seq::<CmdM>::empty());
    assert(trabalho(seq![c]) =~= if trabalha(c) {
        seq![c]
    } else {
        Seq::empty()
    });
    assert(tempos(seq![c]) =~= if c is Tempo {
        seq![c]
    } else {
        Seq::empty()
    });
}

proof fn lemma_op_sem_tempo(i: int, o: OpM, st: ResidentState, q: Passo, forcado: u32)
    ensures
        tempos(cmds_op(i, o, st, q, forcado)) == Seq::<CmdM>::empty(),
{
    let s = cmds_op(i, o, st, q, forcado);
    assert(s.len() <= 3);
    assert(forall|k: int| 0 <= k < s.len() ==> !(#[trigger] s[k] is Tempo));
    lemma_nenhum(s);
}

proof fn lemma_nenhum(s: Seq<CmdM>)
    requires
        forall|k: int| 0 <= k < s.len() ==> !(#[trigger] s[k] is Tempo),
    ensures
        tempos(s) == Seq::<CmdM>::empty(),
    decreases s.len(),
{
    reveal(tempos);
    reveal(Seq::filter);
    if s.len() > 0 {
        let d = s.drop_last();
        assert forall|k: int| 0 <= k < d.len() implies !(#[trigger] d[k] is Tempo) by {
            assert(d[k] == s[k]);
        }
        lemma_nenhum(d);
        assert(s.last() == s[s.len() - 1]);
    }
}

/// The timestamps that end the first `n` operations.
pub open spec fn tempos_ate(n: int) -> Seq<CmdM> {
    Seq::new(n as nat, |i: int| CmdM::Tempo { slot: (i + 1) as u32, topo: false })
}

/// One more operation, with and without measuring.
proof fn lemma_mais_um(x: Seq<CmdM>, y: Seq<CmdM>, c: bool, o: Seq<CmdM>, n: int)
    requires
        0 < n,
        trabalho(x) == trabalho(y),
        tempos(x) == tempos_ate(n - 1),
        tempos(y) == Seq::<CmdM>::empty(),
        tempos(o) == Seq::<CmdM>::empty(),
    ensures
        ({
            let t = seq![CmdM::Tempo { slot: n as u32, topo: false }];
            let com = x + se_barreira(true) + o + t;
            let sem = y + se_barreira(c) + o + Seq::empty();
            &&& trabalho(com) == trabalho(sem)
            &&& tempos(com) == tempos_ate(n)
            &&& tempos(sem) == Seq::<CmdM>::empty()
        }),
{
    let t = CmdM::Tempo { slot: n as u32, topo: false };
    let bx = se_barreira(true);
    let by = se_barreira(c);
    let e = Seq::<CmdM>::empty();
    lemma_um(CmdM::Barreira);
    lemma_um(t);
    lemma_trabalho_concat(x, bx);
    lemma_trabalho_concat(x + bx, o);
    lemma_trabalho_concat(x + bx + o, seq![t]);
    lemma_trabalho_concat(y, by);
    lemma_trabalho_concat(y + by, o);
    lemma_trabalho_concat(y + by + o, e);
    assert(trabalho(x) + e =~= trabalho(x));
    assert(trabalho(x) + trabalho(o) + e =~= trabalho(x) + trabalho(o));
    assert(tempos(x) + e + e + seq![t] =~= tempos_ate(n));
    assert(e + e + e + e =~= e);
}

proof fn lemma_cmds(
    p: Seq<OpM>,
    b: Seq<bool>,
    st: ResidentState,
    q: Passo,
    forcado: u32,
    n: int,
)
    requires
        0 <= n,
    ensures
        trabalho(cmds_ate(p, b, st, q, forcado, true, n)) == trabalho(
            cmds_ate(p, b, st, q, forcado, false, n),
        ),
        tempos(cmds_ate(p, b, st, q, forcado, true, n)) == tempos_ate(n),
        tempos(cmds_ate(p, b, st, q, forcado, false, n)) == Seq::<CmdM>::empty(),
    decreases n,
{
    if n == 0 {
        lemma_um(CmdM::Barreira);
        assert(tempos_ate(0) =~= Seq::empty());
    } else {
        let i = n - 1;
        lemma_cmds(p, b, st, q, forcado, i);
        lemma_op_sem_tempo(i, p[i], st, q, forcado);
        lemma_mais_um(
            cmds_ate(p, b, st, q, forcado, true, i),
            cmds_ate(p, b, st, q, forcado, false, i),
            b[i],
            cmds_op(i, p[i], st, q, forcado),
            n,
        );
    }
}

/// The beginning and the end of a step, with and without measuring.
proof fn lemma_pontas(x: Seq<CmdM>, y: Seq<CmdM>, s: CmdM, n: int)
    requires
        0 <= n,
        trabalho(x) == trabalho(y),
        tempos(x) == tempos_ate(n),
        tempos(y) == Seq::<CmdM>::empty(),
        trabalha(s),
    ensures
        ({
            let z = CmdM::ZeraTempos { n: (n + 1) as u32 };
            let t = CmdM::Tempo { slot: 0, topo: true };
            let com = seq![z, t] + x + seq![CmdM::Barreira, s];
            let sem = Seq::<CmdM>::empty() + y + seq![CmdM::Barreira, s];
            &&& trabalho(com) == trabalho(sem)
            &&& tempos(com) == seq![t] + tempos_ate(n)
            &&& tempos(sem) == Seq::<CmdM>::empty()
        }),
{
    let fim = seq![CmdM::Barreira, s];
    let z = CmdM::ZeraTempos { n: (n + 1) as u32 };
    let t = CmdM::Tempo { slot: 0, topo: true };
    let ini = seq![z, t];
    let e = Seq::<CmdM>::empty();
    lemma_um(z);
    lemma_um(t);
    lemma_um(CmdM::Barreira);
    lemma_um(s);
    assert(fim =~= seq![CmdM::Barreira] + seq![s]);
    assert(ini =~= seq![z] + seq![t]);
    lemma_trabalho_concat(seq![CmdM::Barreira], seq![s]);
    lemma_trabalho_concat(seq![z], seq![t]);
    lemma_trabalho_concat(ini, x);
    lemma_trabalho_concat(ini + x, fim);
    lemma_trabalho_concat(e, y);
    lemma_trabalho_concat(e + y, fim);
    assert(e + e =~= e);
    assert(e + trabalho(x) =~= trabalho(x));
    assert(e + seq![t] + tempos_ate(n) + e =~= seq![t] + tempos_ate(n));
    assert(e + e + e =~= e);
}

/// Measuring changes nothing of a step: the same dispatches and copies come in
/// the same order, with a timestamp before the first operation and one after
/// each, numbered in order; without measuring there is none.
pub proof fn lei_medir_nao_muda_o_passo(
    p: Seq<OpM>,
    b: Seq<bool>,
    st: ResidentState,
    q: Passo,
    modo: Modo,
    forcado: u32,
)
    ensures
        ({
            let com = passo_gravado(p, b, st, q, modo, forcado, true);
            let sem = passo_gravado(p, b, st, q, modo, forcado, false);
            &&& trabalho(com) == trabalho(sem)
            &&& tempos(sem).len() == 0
            &&& tempos(com).len() == p.len() + 1
            &&& tempos(com)[0] == (CmdM::Tempo { slot: 0, topo: true })
            &&& forall|i: int|
                0 < i <= p.len() ==> #[trigger] tempos(com)[i] == (CmdM::Tempo {
                    slot: i as u32,
                    topo: false,
                })
            &&& com[0] == (CmdM::ZeraTempos { n: (p.len() + 1) as u32 })
        }),
{
    let n = p.len() as int;
    lemma_cmds(p, b, st, q, forcado, n);
    lemma_pontas(
        cmds_ate(p, b, st, q, forcado, true, n),
        cmds_ate(p, b, st, q, forcado, false, n),
        cmd_saida(st, q, modo),
        n,
    );
    assert(passo_gravado(p, b, st, q, modo, forcado, true)[0] == (CmdM::ZeraTempos {
        n: (p.len() + 1) as u32,
    }));
}

} // verus!
