//! What a snapshot of the recurrent state is good for: it outlives every step,
//! and going back to it brings back what it was taken of.

use vstd::prelude::*;

use crate::vulkan::estado::{Buf, DeltaBufs, Knobs, LayerAux, Modo, ResidentState, VERIFY_TOK};
use crate::vulkan::gravacao::{passo_gravado, proposta_gravada, Hidden, Passo};
use crate::vulkan::leis_escrita::{
    alheio, cmds_escrevem, fora_da_recorrencia, fora_dos_auxiliares, lei_passo_escreve_no_shard,
    lei_proposta_escreve_no_shard,
};
use crate::vulkan::plano::{camadas, planejavel, plano};
use crate::vulkan::plano_mtp::plano_mtp;
use crate::vulkan::sessao::{
    copias_de_volta, copias_do_ponto, copias_do_snapshot, executa_todas, independentes,
    lei_copiar_e_voltar, lemma_copiado, lemma_intocado, lineares, rollback_da_camada, zeros_de,
    Copia, Sessao,
};

verus! {

/// What can happen to a sequence after a snapshot of it was taken.
pub enum Evento {
    /// A block of tokens is run, or proposed tokens are verified.
    Bloco { modo: Modo, q: Passo, barreiras: Seq<bool>, forcado: u32, prof: bool },
    /// The prediction head proposes a token.
    Proposta { q: Passo, h: Hidden, barreiras: Seq<bool>, forcado: u32 },
    /// A verification is taken back but for its first tokens.
    Rollback { manter: int },
    /// The sequence goes back to the snapshot.
    Restaura,
}

/// That a copy goes to the buffer.
pub open spec fn copias_escrevem(c: Seq<Copia>, b: u64) -> bool {
    exists|i: int| 0 <= i < c.len() && (#[trigger] c[i]).dst == b
}

/// Whether an event writes to a buffer: one of its commands does, or the host
/// puts its input there.
pub open spec fn evento_escreve(
    st: ResidentState,
    k: Knobs,
    snap: Seq<(Buf, Buf)>,
    e: Evento,
    b: u64,
) -> bool {
    match e {
        Evento::Bloco { modo, q, barreiras, forcado, prof } => b == st.a.embd_stage.buffer
            || cmds_escrevem(
            passo_gravado(plano(st, k, modo), barreiras, st, q, modo, forcado, prof),
            plano(st, k, modo),
            b,
        ),
        Evento::Proposta { q, h, barreiras, forcado } => (st.mtp matches Some(m) && b
            == m.emb_stage.buffer) || cmds_escrevem(
            proposta_gravada(plano_mtp(st, k), barreiras, st, q, h, forcado),
            plano_mtp(st, k),
            b,
        ),
        Evento::Rollback { manter } => copias_escrevem(
            copias_do_ponto(lineares(st.aux@), manter - 1),
            b,
        ),
        Evento::Restaura => copias_escrevem(copias_de_volta(lineares(st.aux@), snap), b),
    }
}

/// That the event can happen: a block has its plan, and a rollback keeps some of
/// the tokens and not all.
pub open spec fn evento_ok(st: ResidentState, k: Knobs, e: Evento) -> bool {
    match e {
        Evento::Bloco { modo, .. } => planejavel(st, modo, camadas(st, k)),
        Evento::Rollback { manter } => 0 < manter < VERIFY_TOK,
        _ => true,
    }
}

/// That an event leads from one contents of the buffers to another: what it does
/// not write stays, and no buffer changes its size.
pub open spec fn leva(
    st: ResidentState,
    k: Knobs,
    snap: Seq<(Buf, Buf)>,
    e: Evento,
    antes: Map<u64, Seq<u8>>,
    depois: Map<u64, Seq<u8>>,
) -> bool {
    &&& evento_ok(st, k, e)
    &&& forall|b: u64|
        !evento_escreve(st, k, snap, e, b) ==> #[trigger] depois[b] == antes[b]
    &&& forall|b: u64| (#[trigger] depois[b]).len() == antes[b].len()
}

/// That the events lead through these contents, one after the other.
pub open spec fn historia(
    st: ResidentState,
    k: Knobs,
    snap: Seq<(Buf, Buf)>,
    es: Seq<Evento>,
    ms: Seq<Map<u64, Seq<u8>>>,
) -> bool {
    &&& ms.len() == es.len() + 1
    &&& forall|i: int| 0 <= i < es.len() ==> leva(st, k, snap, #[trigger] es[i], ms[i], ms[i + 1])
}

/// Where the sequence stands after an event.
pub open spec fn sessao_apos(s: Sessao, e: Evento) -> Sessao {
    match e {
        Evento::Bloco { q, .. } => s.depois_do_passo(q.pos as int),
        Evento::Proposta { .. } => Sessao { mtp_len: (s.mtp_len + 1) as usize, ..s },
        Evento::Rollback { manter } => s.depois_do_rollback(manter),
        Evento::Restaura => s.depois_de_restaurar(),
    }
}

/// After several of them.
pub open spec fn sessao_apos_todos(s: Sessao, es: Seq<Evento>) -> Sessao
    decreases es.len(),
{
    if es.len() == 0 {
        s
    } else {
        sessao_apos(sessao_apos_todos(s, es.drop_last()), es.last())
    }
}

/// The buffers of a snapshot: state and window of each layer.
pub open spec fn lugares(snap: Seq<(Buf, Buf)>) -> Seq<Buf> {
    Seq::new(
        2 * snap.len(),
        |i: int|
            if i % 2 == 0 {
                snap[i / 2].0
            } else {
                snap[i / 2].1
            },
    )
}

pub open spec fn distintos(v: Seq<Buf>) -> bool {
    forall|i: int, j: int|
        0 <= i < j < v.len() ==> (#[trigger] v[i]).buffer != (#[trigger] v[j]).buffer
}

/// That a snapshot has a place for each linear-attention layer, as large as what
/// goes there, and that its buffers are none of the shard's own.
pub open spec fn snapshot_ok(st: ResidentState, snap: Seq<(Buf, Buf)>) -> bool {
    let d = lineares(st.aux@);
    &&& snap.len() == d.len()
    &&& forall|x: int|
        0 <= x < d.len() ==> (#[trigger] snap[x]).0.size == d[x].estado.size && snap[x].1.size
            == d[x].janela.size
    &&& distintos(zeros_de(d))
    &&& distintos(lugares(snap))
    &&& forall|i: int|
        0 <= i < lugares(snap).len() ==> alheio(st, (#[trigger] lugares(snap)[i]).buffer)
}

/// That the buffers hold as many bytes as they are long.
pub open spec fn medidos(m: Map<u64, Seq<u8>>, v: Seq<Buf>) -> bool {
    forall|i: int| 0 <= i < v.len() ==> m[(#[trigger] v[i]).buffer].len() == v[i].size
}

// ---------------------------------------------------------------------------

proof fn lemma_lineares(aux: Seq<LayerAux>, b: u64)
    requires
        forall|l: int| 0 <= l < aux.len() ==> #[trigger] fora_dos_auxiliares(aux[l], b),
    ensures
        forall|x: int|
            0 <= x < lineares(aux).len() ==> fora_da_recorrencia(#[trigger] lineares(aux)[x], b),
    decreases aux.len(),
{
    if aux.len() > 0 {
        let r = aux.drop_last();
        assert forall|l: int| 0 <= l < r.len() implies #[trigger] fora_dos_auxiliares(r[l], b) by {
            assert(fora_dos_auxiliares(aux[l], b));
        }
        lemma_lineares(r, b);
        assert(fora_dos_auxiliares(aux[aux.len() - 1], b));
        let antes = lineares(r);
        let todas = lineares(aux);
        assert forall|x: int| 0 <= x < todas.len() implies fora_da_recorrencia(
            #[trigger] todas[x],
            b,
        ) by {
            if x < antes.len() {
                assert(todas[x] == antes[x]);
            }
        }
    }
}

proof fn lemma_rollback(d: Seq<DeltaBufs>, ponto: int, b: u64)
    requires
        forall|x: int| 0 <= x < d.len() ==> fora_da_recorrencia(#[trigger] d[x], b),
    ensures
        !copias_escrevem(copias_do_ponto(d, ponto), b),
    decreases d.len(),
{
    if d.len() > 0 {
        let r = d.drop_last();
        assert forall|x: int| 0 <= x < r.len() implies fora_da_recorrencia(#[trigger] r[x], b) by {
            assert(r[x] == d[x]);
        }
        lemma_rollback(r, ponto, b);
        let u = d[d.len() - 1];
        assert(fora_da_recorrencia(u, b));
        let a = copias_do_ponto(r, ponto);
        let z = rollback_da_camada(u, ponto);
        let c = copias_do_ponto(d, ponto);
        assert forall|i: int| 0 <= i < c.len() implies (#[trigger] c[i]).dst != b by {
            if i < a.len() {
                assert(c[i] == a[i]);
            } else {
                assert(c[i] == z[i - a.len()]);
            }
        }
    }
}

/// No event writes to a buffer that is none of the shard's own.
proof fn lemma_evento(st: ResidentState, k: Knobs, snap: Seq<(Buf, Buf)>, e: Evento, b: u64)
    requires
        st.completo(),
        evento_ok(st, k, e),
        alheio(st, b),
    ensures
        !evento_escreve(st, k, snap, e, b),
{
    lemma_lineares(st.aux@, b);
    match e {
        Evento::Bloco { modo, q, barreiras, forcado, prof } => {
            lei_passo_escreve_no_shard(st, k, modo, barreiras, q, forcado, prof, b);
        },
        Evento::Proposta { q, h, barreiras, forcado } => {
            lei_proposta_escreve_no_shard(st, k, barreiras, q, h, forcado, b);
        },
        Evento::Rollback { manter } => {
            lemma_rollback(lineares(st.aux@), manter - 1, b);
        },
        Evento::Restaura => {
            let d = lineares(st.aux@);
            let c = copias_de_volta(d, snap);
            assert forall|i: int| 0 <= i < c.len() implies (#[trigger] c[i]).dst != b by {
                assert(fora_da_recorrencia(d[i / 2], b));
            }
        },
    }
}

/// What no event writes stays, and every buffer keeps its size.
proof fn lemma_historia(
    st: ResidentState,
    k: Knobs,
    snap: Seq<(Buf, Buf)>,
    es: Seq<Evento>,
    ms: Seq<Map<u64, Seq<u8>>>,
    n: int,
    b: u64,
)
    requires
        st.completo(),
        historia(st, k, snap, es, ms),
        0 <= n <= es.len(),
    ensures
        ms[n][b].len() == ms[0][b].len(),
        alheio(st, b) ==> ms[n][b] == ms[0][b],
    decreases n,
{
    if n > 0 {
        lemma_historia(st, k, snap, es, ms, n - 1, b);
        assert(leva(st, k, snap, es[n - 1], ms[n - 1], ms[n]));
        assert(ms[n][b].len() == ms[n - 1][b].len());
        if alheio(st, b) {
            lemma_evento(st, k, snap, es[n - 1], b);
        }
    }
}

proof fn lemma_sessao(s: Sessao, es: Seq<Evento>)
    requires
        s.snap_len is Some,
    ensures
        sessao_apos_todos(s, es).snap_len == s.snap_len,
    decreases es.len(),
{
    if es.len() > 0 {
        lemma_sessao(s, es.drop_last());
    }
}

/// The copies of a snapshot, and those back, are independent of each other.
proof fn lemma_independentes(
    st: ResidentState,
    snap: Seq<(Buf, Buf)>,
    m: Map<u64, Seq<u8>>,
)
    requires
        snapshot_ok(st, snap),
        medidos(m, zeros_de(lineares(st.aux@))),
        medidos(m, lugares(snap)),
    ensures
        independentes(m, copias_do_snapshot(lineares(st.aux@), snap)),
        independentes(m, copias_de_volta(lineares(st.aux@), snap)),
{
    let d = lineares(st.aux@);
    let z = zeros_de(d);
    let l = lugares(snap);
    let ida = copias_do_snapshot(d, snap);
    let volta = copias_de_volta(d, snap);
    assert(ida.len() == z.len() && volta.len() == z.len() && l.len() == z.len());
    assert forall|i: int| 0 <= i < z.len() implies {
        &&& (#[trigger] ida[i]).src == z[i].buffer
        &&& ida[i].dst == l[i].buffer
        &&& ida[i].size == z[i].size
        &&& l[i].size == z[i].size
    } by {
        assert(snap[i / 2].0.size == d[i / 2].estado.size);
    }
    assert forall|i: int| 0 <= i < z.len() implies {
        &&& (#[trigger] volta[i]).src == l[i].buffer
        &&& volta[i].dst == z[i].buffer
        &&& volta[i].size == z[i].size
    } by {
        assert(snap[i / 2].0.size == d[i / 2].estado.size);
    }
    assert forall|i: int, j: int| 0 <= i < z.len() && 0 <= j < z.len() implies (
    #[trigger] z[i]).buffer != (#[trigger] l[j]).buffer by {
        let b = l[j].buffer;
        assert(alheio(st, b));
        lemma_lineares(st.aux@, b);
        assert(fora_da_recorrencia(d[i / 2], b));
    }
    assert forall|i: int| 0 <= i < ida.len() implies m[(#[trigger] ida[i]).src].len()
        == ida[i].size && m[ida[i].dst].len() == ida[i].size by {
        assert(m[z[i].buffer].len() == z[i].size);
        assert(m[l[i].buffer].len() == l[i].size);
    }
    assert forall|i: int| 0 <= i < volta.len() implies m[(#[trigger] volta[i]).src].len()
        == volta[i].size && m[volta[i].dst].len() == volta[i].size by {
        assert(ida[i].src == z[i].buffer);
        assert(m[z[i].buffer].len() == z[i].size);
        assert(m[l[i].buffer].len() == l[i].size);
    }
    assert forall|i: int, j: int| 0 <= i < j < ida.len() implies (#[trigger] ida[i]).dst != (
    #[trigger] ida[j]).dst by {
        assert(l[i].buffer != l[j].buffer);
    }
    assert forall|i: int, j: int| 0 <= i < j < volta.len() implies (#[trigger] volta[i]).dst != (
    #[trigger] volta[j]).dst by {
        assert(z[i].buffer != z[j].buffer);
    }
    assert forall|i: int, j: int| 0 <= i < ida.len() && 0 <= j < ida.len() implies (
    #[trigger] ida[i]).src != (#[trigger] ida[j]).dst by {
        assert(z[i].buffer != l[j].buffer);
    }
    assert forall|i: int, j: int| 0 <= i < volta.len() && 0 <= j < volta.len() implies (
    #[trigger] volta[i]).src != (#[trigger] volta[j]).dst by {
        assert(z[j].buffer != l[i].buffer);
    }
}

// ---------------------------------------------------------------------------
// Laws
// ---------------------------------------------------------------------------

/// Going back to a snapshot brings back what it was taken of, whatever was run,
/// proposed, taken back or restored since: no event writes to the buffers of the
/// snapshot, every linear-attention layer has its state and its window again, the
/// sequence has its length, and the snapshot stays as it was, so that a second
/// return gives the same.
pub proof fn lei_restaurar_traz_de_volta(
    st: ResidentState,
    k: Knobs,
    snap: Seq<(Buf, Buf)>,
    s: Sessao,
    m: Map<u64, Seq<u8>>,
    es: Seq<Evento>,
    ms: Seq<Map<u64, Seq<u8>>>,
)
    requires
        st.completo(),
        snapshot_ok(st, snap),
        medidos(m, zeros_de(lineares(st.aux@))),
        medidos(m, lugares(snap)),
        historia(st, k, snap, es, ms),
        ms[0] == executa_todas(m, copias_do_snapshot(lineares(st.aux@), snap)),
    ensures
        forall|i: int, j: int|
            0 <= i < es.len() && 0 <= j < lugares(snap).len() ==> !evento_escreve(
                st,
                k,
                snap,
                #[trigger] es[i],
                (#[trigger] lugares(snap)[j]).buffer,
            ),
        ({
            let d = lineares(st.aux@);
            let fim = executa_todas(ms.last(), copias_de_volta(d, snap));
            &&& forall|x: int|
                0 <= x < d.len() ==> fim[(#[trigger] d[x]).estado.buffer] == m[d[x].estado.buffer]
                    && fim[d[x].janela.buffer] == m[d[x].janela.buffer]
            &&& forall|j: int|
                0 <= j < lugares(snap).len() ==> fim[(#[trigger] lugares(snap)[j]).buffer]
                    == ms[0][lugares(snap)[j].buffer]
        }),
        ({
            let r = sessao_apos_todos(s.depois_de_marcar(), es).depois_de_restaurar();
            r.len == s.len && r.snap_len == Some(s.len)
        }),
{
    let d = lineares(st.aux@);
    let z = zeros_de(d);
    let l = lugares(snap);
    let ida = copias_do_snapshot(d, snap);
    let volta = copias_de_volta(d, snap);
    let ult = ms.last();
    let n = es.len() as int;
    lemma_independentes(st, snap, m);
    assert(ida.len() == z.len() && l.len() == z.len() && volta.len() == z.len());
    assert forall|i: int| 0 <= i < z.len() implies (#[trigger] ida[i]).src == z[i].buffer
        && ida[i].dst == l[i].buffer && volta[i].src == l[i].buffer && volta[i].dst
        == z[i].buffer by {}
    assert forall|i: int, j: int|
        0 <= i < es.len() && 0 <= j < l.len() implies !evento_escreve(
        st,
        k,
        snap,
        #[trigger] es[i],
        (#[trigger] l[j]).buffer,
    ) by {
        assert(leva(st, k, snap, es[i], ms[i], ms[i + 1]));
        lemma_evento(st, k, snap, es[i], l[j].buffer);
    }
    // The snapshot as it was taken, and after the events.
    assert forall|i: int| 0 <= i < l.len() implies ult[(#[trigger] l[i]).buffer]
        == ms[0][l[i].buffer] && ms[0][l[i].buffer] == m[z[i].buffer] by {
        lemma_historia(st, k, snap, es, ms, n, l[i].buffer);
        lemma_copiado(m, ida, i);
        assert(ida[i].dst == l[i].buffer);
    }
    assert(medidos(ult, l)) by {
        assert forall|i: int| 0 <= i < l.len() implies ult[(#[trigger] l[i]).buffer].len()
            == l[i].size by {
            assert(m[z[i].buffer].len() == z[i].size);
            assert(snap[i / 2].0.size == d[i / 2].estado.size);
        }
    }
    assert(medidos(ult, z)) by {
        assert forall|i: int| 0 <= i < z.len() implies ult[(#[trigger] z[i]).buffer].len()
            == z[i].size by {
            lemma_historia(st, k, snap, es, ms, n, z[i].buffer);
            assert forall|j: int| 0 <= j < ida.len() implies (#[trigger] ida[j]).dst
                != z[i].buffer by {
                assert(ida[i].src != ida[j].dst);
            }
            lemma_intocado(m, ida, z[i].buffer);
        }
    }
    lemma_independentes(st, snap, ult);
    assert forall|i: int| 0 <= i < z.len() implies executa_todas(ult, volta)[(
    #[trigger] z[i]).buffer] == m[z[i].buffer] by {
        lei_copiar_e_voltar(m, ult, ida, volta, i);
        assert(ida[i].src == z[i].buffer);
    }
    assert forall|x: int| 0 <= x < d.len() implies executa_todas(ult, volta)[(
    #[trigger] d[x]).estado.buffer] == m[d[x].estado.buffer] && executa_todas(
        ult,
        volta,
    )[d[x].janela.buffer] == m[d[x].janela.buffer] by {
        assert(z[2 * x] == d[x].estado);
        assert(z[2 * x + 1] == d[x].janela);
    }
    assert forall|j: int| 0 <= j < l.len() implies executa_todas(ult, volta)[(
    #[trigger] l[j]).buffer] == ms[0][l[j].buffer] by {
        assert forall|i: int| 0 <= i < volta.len() implies (#[trigger] volta[i]).dst
            != l[j].buffer by {
            assert(volta[j].src != volta[i].dst);
        }
        lemma_intocado(ult, volta, l[j].buffer);
    }
    lemma_sessao(s.depois_de_marcar(), es);
}

/// Without a snapshot, as after the start of a new sequence, there is nothing to
/// go back to: the sequence stays where it is.
pub proof fn lei_sem_snapshot_nada_muda(s: Sessao)
    requires
        s.snap_len is None,
    ensures
        s.depois_de_restaurar() == s,
{
}

} // verus!
