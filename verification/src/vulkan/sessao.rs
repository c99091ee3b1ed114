//! The course of a sequence: its length, the snapshot of its recurrent state,
//! and what a verification takes back.

use vstd::prelude::*;

use crate::vulkan::contas::menor;
use crate::vulkan::erro::{falta_recurso, sem_recurso, MatmulError};
use crate::vulkan::estado::{Buf, Cfg, DeltaBufs, LayerAux, Modo, VERIFY_TOK};

verus! {

/// A copy of the beginning of one buffer to the beginning of another.
#[derive(Clone, Copy, Debug, PartialEq, Eq, Structural)]
pub struct Copia {
    pub src: u64,
    pub dst: u64,
    pub size: u64,
}

/// How far a sequence has come.
#[derive(Clone, Copy, Debug, PartialEq, Eq, Structural)]
pub struct Sessao {
    /// Positions in the cache.
    pub len: usize,
    /// Positions at the last snapshot.
    pub snap_len: Option<usize>,
    /// Positions in the cache of the prediction head.
    pub mtp_len: usize,
}

// ---------------------------------------------------------------------------
// Steps
// ---------------------------------------------------------------------------

/// Whether a block of `n_tok` tokens can be run from `pos0` on. The plan of the
/// prefill has a fixed width.
pub open spec fn bloco_ok(c: Cfg, n_tok: int, pos0: int) -> bool {
    n_tok != 0 && (n_tok > 1 ==> n_tok == c.n_batch) && pos0 + n_tok <= c.ctx
}

/// The position of the last token of a block, and the plan that runs it.
pub fn passo_do_bloco(c: &Cfg, n_tok: usize, pos0: usize) -> (r: Result<
    (usize, Modo),
    MatmulError,
>)
    requires
        pos0 + n_tok <= usize::MAX,
    ensures
        r is Ok <==> bloco_ok(*c, n_tok as int, pos0 as int),
        r matches Ok(x) ==> x.0 == pos0 + n_tok - 1 && x.0 < c.ctx && x.1 == (if n_tok > 1 {
            Modo::Batch
        } else {
            Modo::Decode
        }) && x.1.tokens(*c) == n_tok,
        r matches Err(e) ==> e == sem_recurso(),
{
    if n_tok == 0 || (n_tok > 1 && n_tok != c.n_batch) || pos0 + n_tok > c.ctx {
        return Err(falta_recurso());
    }
    let modo = if n_tok > 1 {
        Modo::Batch
    } else {
        Modo::Decode
    };
    Ok((pos0 + n_tok - 1, modo))
}

/// The position of the last token of a verification. It needs its plan.
pub fn passo_do_verify(c: &Cfg, tem_plano: bool, pos0: usize) -> (r: Result<usize, MatmulError>)
    requires
        pos0 + VERIFY_TOK <= usize::MAX,
    ensures
        r is Ok <==> tem_plano && pos0 + VERIFY_TOK <= c.ctx,
        r matches Ok(p) ==> p == pos0 + VERIFY_TOK - 1,
        r matches Err(e) ==> e == sem_recurso(),
{
    if !tem_plano || pos0 + VERIFY_TOK > c.ctx {
        return Err(falta_recurso());
    }
    Ok(pos0 + VERIFY_TOK - 1)
}

/// Numbers that a shard hands over after a step: logits in the last shard, the
/// residual stream of every token in the others.
pub open spec fn floats_de_saida(c: Cfg, modo: Modo, n_tok: int) -> int {
    if c.shard.ultimo() {
        if modo is Verify {
            c.vocab * VERIFY_TOK
        } else {
            c.vocab as int
        }
    } else {
        c.n_embd * n_tok
    }
}

pub fn saida_len(c: &Cfg, modo: Modo, n_tok: usize) -> (r: usize)
    requires
        floats_de_saida(*c, modo, n_tok as int) <= usize::MAX,
    ensures
        r == floats_de_saida(*c, modo, n_tok as int),
{
    proof {
        assert(c.n_embd * n_tok >= 0) by (nonlinear_arith);
    }
    if c.shard.is_last() {
        if modo == Modo::Verify {
            c.vocab * VERIFY_TOK
        } else {
            c.vocab
        }
    } else {
        c.n_embd * n_tok
    }
}

impl Sessao {
    /// After a step whose last token is at `pos`.
    pub open spec fn depois_do_passo(self, pos: int) -> Self {
        Sessao { len: (pos + 1) as usize, ..self }
    }

    /// After a rollback that keeps `manter` tokens of a verification.
    pub open spec fn depois_do_rollback(self, manter: int) -> Self {
        let n = self.len - (VERIFY_TOK - manter);
        Sessao {
            len: (if n >= 0 {
                n
            } else {
                0
            }) as usize,
            ..self
        }
    }

    /// After a snapshot.
    pub open spec fn depois_de_marcar(self) -> Self {
        Sessao { snap_len: Some(self.len), ..self }
    }

    /// After going back to the snapshot, if there is one.
    pub open spec fn depois_de_restaurar(self) -> Self {
        Sessao {
            len: match self.snap_len {
                Some(n) => n,
                None => self.len,
            },
            ..self
        }
    }

    /// An empty sequence.
    pub fn nova() -> (r: Self)
        ensures
            r == (Sessao { len: 0, snap_len: None, mtp_len: 0 }),
    {
        Sessao { len: 0, snap_len: None, mtp_len: 0 }
    }

    /// A step whose last token is at `pos` is over.
    pub fn avancou(&mut self, pos: usize)
        requires
            pos < usize::MAX,
        ensures
            *final(self) == old(self).depois_do_passo(pos as int),
    {
        self.len = pos + 1;
    }

    /// Takes back the tokens of a verification but the first `manter`. Returns
    /// the number of the copies that restore the recurrent state.
    pub fn rollback_verify(&mut self, manter: usize) -> (r: Result<usize, MatmulError>)
        ensures
            r is Ok <==> 0 < manter < VERIFY_TOK,
            r matches Ok(i) ==> i == manter - 1 && *final(self) == old(self).depois_do_rollback(
                manter as int,
            ),
            r matches Err(e) ==> e == sem_recurso() && *final(self) == *old(self),
    {
        if manter == 0 || manter >= VERIFY_TOK {
            return Err(falta_recurso());
        }
        self.len = self.len.saturating_sub(VERIFY_TOK - manter);
        Ok(manter - 1)
    }

    /// The recurrent state has been copied away.
    pub fn marcou(&mut self)
        ensures
            *final(self) == old(self).depois_de_marcar(),
    {
        self.snap_len = Some(self.len);
    }

    /// Whether there is a snapshot to go back to.
    pub fn pode_restaurar(&self) -> (r: bool)
        ensures
            r == self.snap_len is Some,
    {
        self.snap_len.is_some()
    }

    /// The recurrent state has been copied back.
    pub fn restaurou(&mut self) -> (r: bool)
        ensures
            r == old(self).snap_len is Some,
            *final(self) == old(self).depois_de_restaurar(),
    {
        match self.snap_len {
            Some(n) => {
                self.len = n;
                true
            },
            None => false,
        }
    }

    /// A new sequence: the snapshot belonged to the old one.
    pub fn reset_len(&mut self)
        ensures
            *final(self) == (Sessao { len: 0, snap_len: None, mtp_len: 0 }),
    {
        self.len = 0;
        self.snap_len = None;
        self.mtp_len = 0;
    }

    /// The position of a proposal in the cache of the prediction head. It needs
    /// a plan, an embedding of the right length and a free position.
    pub fn posicao_da_proposta(&self, c: &Cfg, tem_plano: bool, emb_len: usize) -> (r: Result<
        usize,
        MatmulError,
    >)
        ensures
            r is Ok <==> tem_plano && emb_len == c.n_embd && self.mtp_len < c.ctx,
            r matches Ok(p) ==> p == self.mtp_len,
            r matches Err(e) ==> e == sem_recurso(),
    {
        if !tem_plano || emb_len != c.n_embd || self.mtp_len >= c.ctx {
            return Err(falta_recurso());
        }
        Ok(self.mtp_len)
    }

    /// A proposal is over.
    pub fn propos(&mut self)
        requires
            old(self).mtp_len < usize::MAX,
        ensures
            *final(self) == (Sessao { mtp_len: (old(self).mtp_len + 1) as usize, ..*old(self) }),
    {
        self.mtp_len = self.mtp_len + 1;
    }
}

/// After a verification from `pos0` on, the rollback leaves exactly the tokens
/// that are kept.
pub proof fn lei_rollback_mantem_os_aceitos(s: Sessao, pos0: int, manter: int)
    requires
        0 <= pos0,
        pos0 + VERIFY_TOK <= usize::MAX,
        0 < manter < VERIFY_TOK,
    ensures
        s.depois_do_passo(pos0 + VERIFY_TOK - 1).depois_do_rollback(manter) == (Sessao {
            len: (pos0 + manter) as usize,
            ..s
        }),
{
}

/// Going back to a snapshot gives the length at which it was taken, whatever
/// steps and rollbacks came between.
pub proof fn lei_restaurar_volta_ao_comprimento(s: Sessao, pos: int, manter: int)
    ensures
        s.depois_de_marcar().depois_de_restaurar() == s.depois_de_marcar(),
        s.depois_de_marcar().depois_do_passo(pos).depois_de_restaurar() == s.depois_de_marcar(),
        s.depois_de_marcar().depois_do_rollback(manter).depois_de_restaurar()
            == s.depois_de_marcar(),
        s.depois_de_restaurar().depois_de_restaurar() == s.depois_de_restaurar(),
{
}

// ---------------------------------------------------------------------------
// Copies of the recurrent state
// ---------------------------------------------------------------------------

/// The linear-attention layers, in order.
pub open spec fn lineares(aux: Seq<LayerAux>) -> Seq<DeltaBufs>
    decreases aux.len(),
{
    if aux.len() == 0 {
        Seq::empty()
    } else {
        let r = lineares(aux.drop_last());
        match aux.last().delta {
            Some(d) => r.push(d),
            None => r,
        }
    }
}

/// A copy of as much as both buffers hold.
pub open spec fn copia_de(a: Buf, b: Buf) -> Copia {
    Copia { src: a.buffer, dst: b.buffer, size: menor(a.size as int, b.size as int) as u64 }
}

fn copia(a: &Buf, b: &Buf) -> (r: Copia)
    ensures
        r == copia_de(*a, *b),
{
    let size: u64 = if a.size <= b.size {
        a.size
    } else {
        b.size
    };
    Copia { src: a.buffer, dst: b.buffer, size }
}

/// The copies that take a snapshot: state and window of each linear-attention
/// layer that has a place for it.
pub open spec fn copias_do_snapshot(d: Seq<DeltaBufs>, snap: Seq<(Buf, Buf)>) -> Seq<Copia> {
    let n = menor(d.len() as int, snap.len() as int);
    Seq::new(
        (2 * n) as nat,
        |i: int|
            if i % 2 == 0 {
                copia_de(d[i / 2].estado, snap[i / 2].0)
            } else {
                copia_de(d[i / 2].janela, snap[i / 2].1)
            },
    )
}

/// The copies that go back to it.
pub open spec fn copias_de_volta(d: Seq<DeltaBufs>, snap: Seq<(Buf, Buf)>) -> Seq<Copia> {
    let n = menor(d.len() as int, snap.len() as int);
    Seq::new(
        (2 * n) as nat,
        |i: int|
            if i % 2 == 0 {
                copia_de(snap[i / 2].0, d[i / 2].estado)
            } else {
                copia_de(snap[i / 2].1, d[i / 2].janela)
            },
    )
}

/// The copies of a snapshot, or with `volta` those that go back to it.
pub fn copias_snapshot(aux: &Vec<LayerAux>, snap: &Vec<(Buf, Buf)>, volta: bool) -> (r: Vec<
    Copia,
>)
    ensures
        !volta ==> r@ == copias_do_snapshot(lineares(aux@), snap@),
        volta ==> r@ == copias_de_volta(lineares(aux@), snap@),
{
    let mut r: Vec<Copia> = Vec::new();
    let mut k: usize = 0;
    let mut i: usize = 0;
    proof {
        assert(aux@.take(0) =~= Seq::<LayerAux>::empty());
    }
    while i < aux.len()
        invariant
            i <= aux.len(),
            k == lineares(aux@.take(i as int)).len(),
            k <= i,
            !volta ==> r@ =~= copias_do_snapshot(lineares(aux@.take(i as int)), snap@),
            volta ==> r@ =~= copias_de_volta(lineares(aux@.take(i as int)), snap@),
        decreases aux.len() - i,
    {
        let ghost antes = lineares(aux@.take(i as int));
        let ghost r0 = r@;
        proof {
            assert(aux@.take(i + 1).drop_last() =~= aux@.take(i as int));
            assert(aux@.take(i + 1).last() == aux@[i as int]);
        }
        if let Some(d) = &aux[i].delta {
            if k < snap.len() {
                if volta {
                    r.push(copia(&snap[k].0, &d.estado));
                    r.push(copia(&snap[k].1, &d.janela));
                } else {
                    r.push(copia(&d.estado, &snap[k].0));
                    r.push(copia(&d.janela, &snap[k].1));
                }
            }
            k += 1;
            proof {
                let depois = lineares(aux@.take(i + 1));
                assert(depois == antes.push(*d));
                let alvo = if volta {
                    copias_de_volta(depois, snap@)
                } else {
                    copias_do_snapshot(depois, snap@)
                };
                assert(r@.len() == alvo.len());
                assert forall|x: int| 0 <= x < r@.len() implies r@[x] == alvo[x] by {
                    if x < r0.len() {
                        assert(r@[x] == r0[x]);
                        assert(x / 2 < k - 1);
                        assert(depois[x / 2] == antes[x / 2]);
                    } else {
                        assert(x / 2 == k - 1);
                    }
                }
            }
        }
        i += 1;
    }
    assert(aux@.take(i as int) =~= aux@);
    r
}

/// What is to be filled with zeros when a sequence starts: state and window of
/// each linear-attention layer.
pub open spec fn zeros_de(d: Seq<DeltaBufs>) -> Seq<Buf> {
    Seq::new(
        2 * d.len(),
        |i: int|
            if i % 2 == 0 {
                d[i / 2].estado
            } else {
                d[i / 2].janela
            },
    )
}

pub fn zerar(aux: &Vec<LayerAux>) -> (r: Vec<Buf>)
    ensures
        r@ == zeros_de(lineares(aux@)),
{
    let mut r: Vec<Buf> = Vec::new();
    let mut i: usize = 0;
    proof {
        assert(aux@.take(0) =~= Seq::<LayerAux>::empty());
    }
    while i < aux.len()
        invariant
            i <= aux.len(),
            r@ =~= zeros_de(lineares(aux@.take(i as int))),
        decreases aux.len() - i,
    {
        proof {
            assert(aux@.take(i + 1).drop_last() =~= aux@.take(i as int));
            assert(aux@.take(i + 1).last() == aux@[i as int]);
        }
        if let Some(d) = &aux[i].delta {
            r.push(d.estado);
            r.push(d.janela);
        }
        i += 1;
    }
    assert(aux@.take(i as int) =~= aux@);
    r
}

/// The copies of a layer that go back to the state after the token `ponto` of a
/// verification.
pub open spec fn rollback_da_camada(d: DeltaBufs, ponto: int) -> Seq<Copia> {
    let e = if ponto < d.estado_snap@.len() {
        seq![
            Copia {
                src: d.estado_snap@[ponto].buffer,
                dst: d.estado.buffer,
                size: d.estado.size,
            },
        ]
    } else {
        Seq::empty()
    };
    if ponto < d.janela_snap@.len() {
        e.push(
            Copia {
                src: d.janela_snap@[ponto].buffer,
                dst: d.janela.buffer,
                size: d.janela.size,
            },
        )
    } else {
        e
    }
}

pub open spec fn copias_do_ponto(d: Seq<DeltaBufs>, ponto: int) -> Seq<Copia>
    decreases d.len(),
{
    if d.len() == 0 {
        Seq::empty()
    } else {
        copias_do_ponto(d.drop_last(), ponto) + rollback_da_camada(d.last(), ponto)
    }
}

/// That each point of a rollback has its copies, or that there are none at all
/// because a point has none.
pub open spec fn rollbacks_de(d: Seq<DeltaBufs>, r: Seq<Seq<Copia>>) -> bool {
    if forall|p: int| 0 <= p < VERIFY_TOK - 1 ==> #[trigger] copias_do_ponto(d, p).len() > 0 {
        r == Seq::new((VERIFY_TOK - 1) as nat, |p: int| copias_do_ponto(d, p))
    } else {
        r.len() == 0
    }
}

fn copias_ponto(aux: &Vec<LayerAux>, ponto: usize) -> (r: Vec<Copia>)
    ensures
        r@ == copias_do_ponto(lineares(aux@), ponto as int),
{
    let mut r: Vec<Copia> = Vec::new();
    let mut i: usize = 0;
    proof {
        assert(aux@.take(0) =~= Seq::<LayerAux>::empty());
    }
    while i < aux.len()
        invariant
            i <= aux.len(),
            r@ == copias_do_ponto(lineares(aux@.take(i as int)), ponto as int),
        decreases aux.len() - i,
    {
        let ghost antes = lineares(aux@.take(i as int));
        let ghost r0 = r@;
        proof {
            assert(aux@.take(i + 1).drop_last() =~= aux@.take(i as int));
            assert(aux@.take(i + 1).last() == aux@[i as int]);
        }
        if let Some(d) = &aux[i].delta {
            if ponto < d.estado_snap.len() {
                r.push(
                    Copia {
                        src: d.estado_snap[ponto].buffer,
                        dst: d.estado.buffer,
                        size: d.estado.size,
                    },
                );
            }
            if ponto < d.janela_snap.len() {
                r.push(
                    Copia {
                        src: d.janela_snap[ponto].buffer,
                        dst: d.janela.buffer,
                        size: d.janela.size,
                    },
                );
            }
            proof {
                assert(antes.push(*d).drop_last() =~= antes);
                assert(r@ =~= r0 + rollback_da_camada(*d, ponto as int));
            }
        }
        i += 1;
    }
    assert(aux@.take(i as int) =~= aux@);
    r
}

/// The copies of each point of a rollback: the point `i` keeps `i + 1` tokens.
/// None at all where the shard has no copies of the recurrent state.
pub fn gravar_rollback(aux: &Vec<LayerAux>) -> (r: Vec<Vec<Copia>>)
    ensures
        rollbacks_de(lineares(aux@), r@.map_values(|v: Vec<Copia>| v@)),
{
    let ghost d = lineares(aux@);
    let mut r: Vec<Vec<Copia>> = Vec::new();
    let mut p: usize = 0;
    while p < VERIFY_TOK - 1
        invariant
            p <= VERIFY_TOK - 1,
            d == lineares(aux@),
            r.len() == p,
            forall|i: int|
                0 <= i < p ==> (#[trigger] r@[i])@ == copias_do_ponto(d, i) && copias_do_ponto(
                    d,
                    i,
                ).len() > 0,
        decreases VERIFY_TOK - 1 - p,
    {
        let c = copias_ponto(aux, p);
        if c.len() == 0 {
            assert(copias_do_ponto(d, p as int).len() == 0);
            return Vec::new();
        }
        r.push(c);
        p += 1;
    }
    proof {
        let m = r@.map_values(|v: Vec<Copia>| v@);
        assert forall|i: int| 0 <= i < VERIFY_TOK - 1 implies #[trigger] copias_do_ponto(
            d,
            i,
        ).len() > 0 by {
            assert(r@[i]@ == copias_do_ponto(d, i));
        }
        assert(m =~= Seq::new((VERIFY_TOK - 1) as nat, |p: int| copias_do_ponto(d, p)));
    }
    r
}

// ---------------------------------------------------------------------------
// What the copies do
// ---------------------------------------------------------------------------

/// The contents of the buffers after a copy.
pub open spec fn executa(m: Map<u64, Seq<u8>>, c: Copia) -> Map<u64, Seq<u8>> {
    m.insert(c.dst, m[c.src].take(c.size as int) + m[c.dst].skip(c.size as int))
}

/// After several copies.
pub open spec fn executa_todas(m: Map<u64, Seq<u8>>, c: Seq<Copia>) -> Map<u64, Seq<u8>>
    decreases c.len(),
{
    if c.len() == 0 {
        m
    } else {
        executa(executa_todas(m, c.drop_last()), c.last())
    }
}

/// That the copies take whole buffers, no two to the same one, and that none
/// reads what another writes.
pub open spec fn independentes(m: Map<u64, Seq<u8>>, c: Seq<Copia>) -> bool {
    &&& forall|i: int|
        0 <= i < c.len() ==> m[(#[trigger] c[i]).src].len() == c[i].size && m[c[i].dst].len()
            == c[i].size
    &&& forall|i: int, j: int|
        0 <= i < j < c.len() ==> (#[trigger] c[i]).dst != (#[trigger] c[j]).dst
    &&& forall|i: int, j: int|
        0 <= i < c.len() && 0 <= j < c.len() ==> (#[trigger] c[i]).src != (#[trigger] c[j]).dst
}

pub proof fn lemma_intocado(m: Map<u64, Seq<u8>>, c: Seq<Copia>, b: u64)
    requires
        forall|i: int| 0 <= i < c.len() ==> (#[trigger] c[i]).dst != b,
    ensures
        executa_todas(m, c)[b] == m[b],
    decreases c.len(),
{
    if c.len() > 0 {
        lemma_intocado(m, c.drop_last(), b);
        assert(c.last() == c[c.len() - 1]);
    }
}

pub proof fn lemma_copiado(m: Map<u64, Seq<u8>>, c: Seq<Copia>, k: int)
    requires
        independentes(m, c),
        0 <= k < c.len(),
    ensures
        executa_todas(m, c)[c[k].dst] == m[c[k].src],
    decreases c.len(),
{
    let p = c.drop_last();
    assert(forall|i: int| 0 <= i < p.len() ==> p[i] == c[i]);
    if k < p.len() {
        lemma_copiado(m, p, k);
        assert(p[k].dst != c.last().dst);
    } else {
        let n = c.len() - 1;
        assert forall|i: int| 0 <= i < p.len() implies (#[trigger] p[i]).dst != c[n].src by {
            assert(c[n].src != c[i].dst);
        }
        assert forall|i: int| 0 <= i < p.len() implies (#[trigger] p[i]).dst != c[n].dst by {
            assert(c[i].dst != c[n].dst);
        }
        lemma_intocado(m, p, c[n].src);
        lemma_intocado(m, p, c[n].dst);
        let r = executa_todas(m, c)[c[n].dst];
        assert(r =~= m[c[n].src]);
    }
}

/// Copies and the same copies the other way round: whatever happened to the
/// origins in between, they hold again what they held, as long as nothing
/// wrote to the places of the copies.
pub proof fn lei_copiar_e_voltar(
    m: Map<u64, Seq<u8>>,
    depois: Map<u64, Seq<u8>>,
    ida: Seq<Copia>,
    volta: Seq<Copia>,
    k: int,
)
    requires
        independentes(m, ida),
        independentes(depois, volta),
        ida.len() == volta.len(),
        forall|i: int|
            0 <= i < ida.len() ==> (#[trigger] volta[i]).src == ida[i].dst && volta[i].dst
                == ida[i].src,
        forall|i: int|
            0 <= i < ida.len() ==> depois[(#[trigger] ida[i]).dst] == executa_todas(
                m,
                ida,
            )[ida[i].dst],
        0 <= k < ida.len(),
    ensures
        executa_todas(depois, volta)[ida[k].src] == m[ida[k].src],
{
    lemma_copiado(m, ida, k);
    lemma_copiado(depois, volta, k);
    assert(volta[k].src == ida[k].dst && volta[k].dst == ida[k].src);
    assert(depois[ida[k].dst] == executa_todas(m, ida)[ida[k].dst]);
}

/// The copies that go back to a snapshot are those that took it, the other way
/// round.
pub proof fn lei_volta_desfaz_o_snapshot(d: Seq<DeltaBufs>, snap: Seq<(Buf, Buf)>, i: int)
    requires
        0 <= i < copias_do_snapshot(d, snap).len(),
    ensures
        copias_de_volta(d, snap).len() == copias_do_snapshot(d, snap).len(),
        copias_de_volta(d, snap)[i].src == copias_do_snapshot(d, snap)[i].dst,
        copias_de_volta(d, snap)[i].dst == copias_do_snapshot(d, snap)[i].src,
        copias_de_volta(d, snap)[i].size == copias_do_snapshot(d, snap)[i].size,
{
}

} // verus!
