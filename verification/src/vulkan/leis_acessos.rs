//! What the barriers are placed by is what the kernels and commands do: the
//! bindings that a pipeline is said to read and write are those that it reads
//! and writes.

use vstd::prelude::*;

use crate::vulkan::barreiras::{barreiras_de, conflita, lei_conflito_tem_barreira, toca};
use crate::vulkan::contas::{lei_palavras_ida_e_volta, palavra};
use crate::vulkan::estado::{Modo, MtpBufs, ResidentState};
use crate::vulkan::gravacao::{
    cmds_mtp_ate, cmds_op, cmds_op_mtp, passo_gravado, proposta_gravada, push_de, CmdM, Hidden,
    Passo,
};
use crate::vulkan::leis_escrita::parte_de;
use crate::vulkan::ops::{acessos_de, DespachoM, Faixa, OpM, PipeId};
use crate::vulkan::pipelines::{interface_de, pipe_do_dn, shader_de, Compilacao, DnPipe};
use crate::vulkan::sentido::{efeito, le, perdida, Termo};
use crate::vulkan::shard::splits;

verus! {

/// That two memories hold the same in the bindings with those numbers.
pub open spec fn leem_igual(
    b: Seq<Faixa>,
    idx: Seq<usize>,
    m1: Map<u64, Termo>,
    m2: Map<u64, Termo>,
) -> bool {
    forall|k: int|
        0 <= k < idx.len() ==> le(m1, b[(#[trigger] idx[k]) as int]) == le(m2, b[idx[k] as int])
}

/// That they hold the same in the whole buffers of those bindings.
pub open spec fn tem_igual(
    b: Seq<Faixa>,
    idx: Seq<usize>,
    m1: Map<u64, Termo>,
    m2: Map<u64, Termo>,
) -> bool {
    forall|k: int|
        0 <= k < idx.len() ==> m1[b[(#[trigger] idx[k]) as int].buffer]
            == m2[b[idx[k] as int].buffer]
}

/// That a buffer belongs to none of those bindings.
pub open spec fn fora_de(b: Seq<Faixa>, idx: Seq<usize>, x: u64) -> bool {
    forall|k: int| 0 <= k < idx.len() ==> b[(#[trigger] idx[k]) as int].buffer != x
}

/// A dispatch changes no buffer but those of the bindings that its pipeline is
/// said to write.
pub proof fn lei_escreve_so_o_que_diz(
    c: Compilacao,
    pipe: PipeId,
    b: Seq<Faixa>,
    w: Seq<u32>,
    x: u32,
    y: u32,
    z: u32,
    m: Map<u64, Termo>,
    outro: u64,
)
    requires
        efeito(c, pipe, b, w, x, y, z, m) != perdida(),
        fora_de(b, acessos_de(pipe).1, outro),
    ensures
        efeito(c, pipe, b, w, x, y, z, m)[outro] == m[outro],
{
    let e = acessos_de(pipe).1;
    assert(e.len() > 0 ==> b[e[0] as int].buffer != outro);
    assert(e.len() > 1 ==> b[e[1] as int].buffer != outro);
    assert(e.len() > 2 ==> b[e[2] as int].buffer != outro);
}

/// What a dispatch leaves in the buffers that it writes depends only on them and
/// on the bindings that its pipeline is said to read.
pub proof fn lei_le_so_o_que_diz(
    c: Compilacao,
    pipe: PipeId,
    b: Seq<Faixa>,
    w: Seq<u32>,
    x: u32,
    y: u32,
    z: u32,
    m1: Map<u64, Termo>,
    m2: Map<u64, Termo>,
)
    requires
        leem_igual(b, acessos_de(pipe).0, m1, m2),
        tem_igual(b, acessos_de(pipe).1, m1, m2),
    ensures
        tem_igual(
            b,
            acessos_de(pipe).1,
            efeito(c, pipe, b, w, x, y, z, m1),
            efeito(c, pipe, b, w, x, y, z, m2),
        ),
{
    let l = acessos_de(pipe).0;
    let e = acessos_de(pipe).1;
    assert(l.len() > 0 ==> le(m1, b[l[0] as int]) == le(m2, b[l[0] as int]));
    assert(l.len() > 1 ==> le(m1, b[l[1] as int]) == le(m2, b[l[1] as int]));
    assert(l.len() > 2 ==> le(m1, b[l[2] as int]) == le(m2, b[l[2] as int]));
    assert(l.len() > 3 ==> le(m1, b[l[3] as int]) == le(m2, b[l[3] as int]));
    assert(l.len() > 4 ==> le(m1, b[l[4] as int]) == le(m2, b[l[4] as int]));
    assert(e.len() > 0 ==> m1[b[e[0] as int].buffer] == m2[b[e[0] as int].buffer]);
    assert(e.len() > 1 ==> m1[b[e[1] as int].buffer] == m2[b[e[1] as int].buffer]);
    assert(e.len() > 2 ==> m1[b[e[2] as int].buffer] == m2[b[e[2] as int].buffer]);
}

/// Every binding of a shader is read or written, and nothing else is.
pub proof fn lei_ligacoes_usadas(pipe: PipeId, i: usize)
    ensures
        i < interface_de(shader_de(pipe)).0 <==> acessos_de(pipe).0.contains(i) || acessos_de(
            pipe,
        ).1.contains(i),
{
    let (l, e) = acessos_de(pipe);
    assert(l.len() > 0 ==> l.contains(l[0]));
    assert(l.len() > 1 ==> l.contains(l[1]));
    assert(l.len() > 2 ==> l.contains(l[2]));
    assert(l.len() > 3 ==> l.contains(l[3]));
    assert(l.len() > 4 ==> l.contains(l[4]));
    assert(e.len() > 0 ==> e.contains(e[0]));
    assert(e.len() > 1 ==> e.contains(e[1]));
    assert(e.len() > 2 ==> e.contains(e[2]));
}

/// The slices of an attention are reduced only after all of them are done: there
/// is a barrier between them and the reduction, which is told their number. A
/// cache that is not cut is one dispatch.
pub proof fn lei_reducao_depois_das_fatias(
    i: int,
    st: ResidentState,
    q: Passo,
    forcado: u32,
    curto: DespachoM,
    split: DespachoM,
    reduce: DespachoM,
)
    requires
        0 <= i <= usize::MAX,
        reduce.push is AttnReduce,
    ensures
        ({
            let s = cmds_op(i, OpM::Atencao { curto, split, reduce }, st, q, forcado);
            let n = splits(forcado, q.total_len());
            &&& n == 1 ==> s.len() == 1 && s[0] is Despacha && s[0]->pipe == curto.pipe
            &&& n > 1 ==> {
                &&& s.len() == 3
                &&& s[0] is Despacha && s[0]->pipe == split.pipe && s[0]->z == n
                &&& s[1] == CmdM::Barreira
                &&& s[2] is Despacha && s[2]->pipe == reduce.pipe
                &&& palavra(s[2]->push, 2) == n
            }
        }),
{
    let n = splits(forcado, q.total_len());
    let w = push_de(reduce, st.cfg, q, n);
    lei_palavras_ida_e_volta(w, 2);
}

proof fn lemma_prefixo_mtp(
    p: Seq<OpM>,
    b: Seq<bool>,
    st: ResidentState,
    m: MtpBufs,
    q: Passo,
    h: Hidden,
    forcado: u32,
    n: int,
    k: int,
)
    requires
        0 <= n <= k,
    ensures
        ({
            let x = cmds_mtp_ate(p, b, st, m, q, h, forcado, n);
            let y = cmds_mtp_ate(p, b, st, m, q, h, forcado, k);
            x.len() <= y.len() && forall|i: int| 0 <= i < x.len() ==> #[trigger] y[i] == x[i]
        }),
    decreases k - n,
{
    if n < k {
        lemma_prefixo_mtp(p, b, st, m, q, h, forcado, n, k - 1);
    }
}

/// In a proposal, too, there is a barrier between the commands of two operations
/// that conflict: after those of the first one and before those of the second
/// one.
pub proof fn lei_barreira_na_proposta(
    p: Seq<OpM>,
    b: Seq<bool>,
    st: ResidentState,
    m: MtpBufs,
    q: Passo,
    h: Hidden,
    forcado: u32,
    j: int,
    i: int,
)
    requires
        barreiras_de(p, b, st),
        0 <= j < i < p.len(),
        conflita(p[j], p[i], st),
    ensures
        ({
            let todos = cmds_mtp_ate(p, b, st, m, q, h, forcado, p.len() as int);
            let fim_de_j = cmds_mtp_ate(p, b, st, m, q, h, forcado, j + 1).len();
            let fim_de_i = cmds_mtp_ate(p, b, st, m, q, h, forcado, i + 1).len();
            let de_i = cmds_op_mtp(i, p[i], st, m, q, h, forcado).len();
            exists|x: int|
                fim_de_j <= x < fim_de_i - de_i && x < todos.len() && #[trigger] todos[x]
                    == CmdM::Barreira
        }),
{
    lei_conflito_tem_barreira(p, b, st, j, i);
    let k = choose|k: int| j < k <= i && #[trigger] b[k];
    let n = p.len() as int;
    let todos = cmds_mtp_ate(p, b, st, m, q, h, forcado, n);
    let ate_k = cmds_mtp_ate(p, b, st, m, q, h, forcado, k);
    let com_k = cmds_mtp_ate(p, b, st, m, q, h, forcado, k + 1);
    lemma_prefixo_mtp(p, b, st, m, q, h, forcado, j + 1, k);
    lemma_prefixo_mtp(p, b, st, m, q, h, forcado, k + 1, n);
    lemma_prefixo_mtp(p, b, st, m, q, h, forcado, k, i);
    if k < i {
        lemma_prefixo_mtp(p, b, st, m, q, h, forcado, k + 1, i);
    }
    let x = ate_k.len() as int;
    assert(com_k[x] == CmdM::Barreira);
    assert(todos[x] == CmdM::Barreira);
}

/// What a step or a proposal hands over is copied last, after a barrier.
pub proof fn lei_barreira_antes_da_saida(
    p: Seq<OpM>,
    b: Seq<bool>,
    st: ResidentState,
    q: Passo,
    modo: Modo,
    h: Hidden,
    forcado: u32,
    prof: bool,
)
    ensures
        ({
            let s = passo_gravado(p, b, st, q, modo, forcado, prof);
            &&& s.len() >= 2
            &&& s[s.len() - 2] == CmdM::Barreira
            &&& s.last() is Copia
        }),
        st.mtp is Some ==> {
            let s = proposta_gravada(p, b, st, q, h, forcado);
            &&& s.len() >= 2
            &&& s[s.len() - 2] == CmdM::Barreira
            &&& s.last() is Copia
        },
        st.mtp is None ==> proposta_gravada(p, b, st, q, h, forcado).len() == 0,
{
}

/// A pipeline runs the shader of its name; those of the products run that of the
/// type of their weights.
pub proof fn lei_shader_do_pipe(p: PipeId)
    ensures
        p is MulMmQ4K <==> shader_de(p) is MulMm,
        p is QuantizeX <==> shader_de(p) is QuantizeX,
        p is NormFused <==> shader_de(p) is NormFused,
        p is NormP2 <==> shader_de(p) is NormP2,
        p is Rope <==> shader_de(p) is Rope,
        p is RopeKv <==> shader_de(p) is RopeKv,
        p is Attention <==> shader_de(p) is Attention,
        p is AttentionSplit <==> shader_de(p) is AttentionSplit,
        p is AttnReduce <==> shader_de(p) is AttnReduce,
        p is SwigluQuant <==> shader_de(p) is SwigluQuant,
        p is Add <==> shader_de(p) is Add,
        p is DeltaNet <==> shader_de(p) is DeltaNet,
        p is DnConv <==> shader_de(p) is DnConv,
        p is DnGates <==> shader_de(p) is DnGates,
        p is DnNorm <==> shader_de(p) is DnNorm,
        p is DnL2Qk <==> shader_de(p) is DnL2Qk,
        p is GateQuant <==> shader_de(p) is GateQuant,
        p is Matvec || p is MatvecB || p is MatvecV <==> shader_de(p) is MatvecQ8,
        p is MatvecQ4K || p is MatvecQ4KB || p is MatvecQ4KV <==> shader_de(p) is MatvecQ4K,
        p is MatvecQ5K || p is MatvecQ5KB || p is MatvecQ5KV <==> shader_de(p) is MatvecQ5K,
        p is MatvecQ6K || p is MatvecQ6KB || p is MatvecQ6KV <==> shader_de(p) is MatvecQ6K,
{
}

/// A kernel that is run on its own is the one of its name.
pub proof fn lei_kernel_sozinho(d: DnPipe)
    ensures
        d is DeltaNet <==> shader_de(pipe_do_dn(d)) is DeltaNet,
        d is Conv <==> shader_de(pipe_do_dn(d)) is DnConv,
        d is Gates <==> shader_de(pipe_do_dn(d)) is DnGates,
        d is Norm <==> shader_de(pipe_do_dn(d)) is DnNorm,
        d is L2Qk <==> shader_de(pipe_do_dn(d)) is DnL2Qk,
        d is GateQuant <==> shader_de(pipe_do_dn(d)) is GateQuant,
        d is SwigluQuant <==> shader_de(pipe_do_dn(d)) is SwigluQuant,
        d is RopeKv <==> shader_de(pipe_do_dn(d)) is RopeKv,
        d is QuantizeX <==> shader_de(pipe_do_dn(d)) is QuantizeX,
        d is NormFused <==> shader_de(pipe_do_dn(d)) is NormFused,
        d is NormP2 <==> shader_de(pipe_do_dn(d)) is NormP2,
{
}

/// Whether one of the stretches is of that buffer.
pub open spec fn algum_de(s: Seq<Faixa>, b: u64) -> bool {
    exists|k: int| 0 <= k < s.len() && (#[trigger] s[k]).buffer == b
}

/// That every stretch of the first list is in the second.
pub open spec fn contidas(a: Seq<Faixa>, b: Seq<Faixa>) -> bool {
    forall|k: int| 0 <= k < a.len() ==> b.contains(#[trigger] a[k])
}

/// The commands of an operation read and write nothing but what the barriers
/// were placed by: a copy goes from a buffer of its reads to one of its writes,
/// and what a dispatch reads and writes is among its own.
pub proof fn lei_comandos_tocam_o_que_dizem(
    i: int,
    o: OpM,
    st: ResidentState,
    q: Passo,
    forcado: u32,
    k: int,
)
    requires
        0 <= i <= usize::MAX,
        0 <= k < cmds_op(i, o, st, q, forcado).len(),
    ensures
        match cmds_op(i, o, st, q, forcado)[k] {
            CmdM::Copia { src, dst, .. } => algum_de(toca(o, st).0, src) && algum_de(
                toca(o, st).1,
                dst,
            ),
            CmdM::Despacha { parte, pipe, .. } => parte_de(o, parte) matches Some(d) && d.pipe
                == pipe && contidas(d.le(), toca(o, st).0) && contidas(d.esc(), toca(o, st).1),
            CmdM::Barreira => o is Atencao,
            _ => false,
        },
{
    let t = toca(o, st);
    assert(t.0.len() > 0 ==> algum_de(t.0, t.0[0].buffer));
    assert(t.0.len() > 1 ==> algum_de(t.0, t.0[1].buffer));
    assert(t.1.len() > 0 ==> algum_de(t.1, t.1[0].buffer));
    assert(t.1.len() > 1 ==> algum_de(t.1, t.1[1].buffer));
    if let OpM::Atencao { curto, split, reduce } = o {
        lemma_contidas(curto.le(), split.le(), reduce.le());
        lemma_contidas(curto.esc(), split.esc(), reduce.esc());
    } else if let OpM::Dispatch(d) = o {
        assert(contidas(d.le(), t.0));
        assert(contidas(d.esc(), t.1));
    }
}

proof fn lemma_contidas(a: Seq<Faixa>, b: Seq<Faixa>, c: Seq<Faixa>)
    ensures
        contidas(a, a + b + c),
        contidas(b, a + b + c),
        contidas(c, a + b + c),
{
    let t = a + b + c;
    assert forall|k: int| 0 <= k < a.len() implies t.contains(#[trigger] a[k]) by {
        assert(t[k] == a[k]);
    }
    assert forall|k: int| 0 <= k < b.len() implies t.contains(#[trigger] b[k]) by {
        assert(t[a.len() + k] == b[k]);
    }
    assert forall|k: int| 0 <= k < c.len() implies t.contains(#[trigger] c[k]) by {
        assert(t[a.len() + b.len() + k] == c[k]);
    }
}

} // verus!
