//! What holds of a recorded step, and of what a verification takes back.

use vstd::prelude::*;

use crate::vulkan::barreiras::{barreiras_de, conflita, lei_conflito_tem_barreira};
use crate::vulkan::contas::sat;
use crate::vulkan::estado::{DeltaBufs, DeltaNetConfig, DnBufs, ResidentState};
use crate::vulkan::gravacao::{cmds_ate, cmds_op, se_barreira, CmdM, Passo};
use crate::vulkan::ops::OpM;
use crate::vulkan::plano::{op_dn_conv, op_dn_delta, ops_conv_ate, ops_estado_ate};
use crate::vulkan::sessao::{rollback_da_camada, Copia};

verus! {

/// The commands of the first operations are the first commands.
pub(crate) proof fn lemma_prefixo(
    p: Seq<OpM>,
    b: Seq<bool>,
    st: ResidentState,
    q: Passo,
    forcado: u32,
    prof: bool,
    n: int,
    m: int,
)
    requires
        n <= m,
    ensures
        ({
            let x = cmds_ate(p, b, st, q, forcado, prof, n);
            let y = cmds_ate(p, b, st, q, forcado, prof, m);
            x.len() <= y.len() && forall|i: int| 0 <= i < x.len() ==> #[trigger] y[i] == x[i]
        }),
    decreases m - n,
{
    if n < m {
        lemma_prefixo(p, b, st, q, forcado, prof, n, m - 1);
        if m <= 0 {
            assert(cmds_ate(p, b, st, q, forcado, prof, n).len() == 0);
        }
    }
}

/// Between the commands of two operations that conflict there is a barrier: it
/// comes after the last command of the first one and before the first command
/// of the second one.
pub proof fn lei_barreira_entre_comandos(
    p: Seq<OpM>,
    b: Seq<bool>,
    st: ResidentState,
    q: Passo,
    forcado: u32,
    prof: bool,
    j: int,
    i: int,
)
    requires
        barreiras_de(p, b, st),
        0 <= j < i < p.len(),
        conflita(p[j], p[i], st),
    ensures
        ({
            let todos = cmds_ate(p, b, st, q, forcado, prof, p.len() as int);
            let fim_de_j = cmds_ate(p, b, st, q, forcado, prof, j + 1).len();
            let antes_de_i = cmds_ate(p, b, st, q, forcado, prof, i).len() + se_barreira(
                b[i] || prof,
            ).len();
            &&& exists|x: int|
                fim_de_j <= x < antes_de_i && x < todos.len() && #[trigger] todos[x]
                    == CmdM::Barreira
            &&& forall|k: int|
                0 <= k < cmds_op(i, p[i], st, q, forcado).len() ==> #[trigger] todos[antes_de_i + k]
                    == cmds_op(i, p[i], st, q, forcado)[k]
        }),
{
    lei_conflito_tem_barreira(p, b, st, j, i);
    let k = choose|k: int| j < k <= i && #[trigger] b[k];
    let n = p.len() as int;
    let todos = cmds_ate(p, b, st, q, forcado, prof, n);
    let ate_k = cmds_ate(p, b, st, q, forcado, prof, k);
    let com_k = cmds_ate(p, b, st, q, forcado, prof, k + 1);
    lemma_prefixo(p, b, st, q, forcado, prof, j + 1, k);
    lemma_prefixo(p, b, st, q, forcado, prof, k, i);
    lemma_prefixo(p, b, st, q, forcado, prof, k + 1, n);
    lemma_prefixo(p, b, st, q, forcado, prof, i + 1, n);
    if k < i {
        lemma_prefixo(p, b, st, q, forcado, prof, k + 1, i);
    }
    let x = ate_k.len() as int;
    assert(com_k[x] == CmdM::Barreira);
    assert(todos[x] == CmdM::Barreira);
    let ate_i = cmds_ate(p, b, st, q, forcado, prof, i);
    let com_i = cmds_ate(p, b, st, q, forcado, prof, i + 1);
    let se = se_barreira(b[i] || prof);
    let c = cmds_op(i, p[i], st, q, forcado);
    assert forall|k: int| 0 <= k < c.len() implies #[trigger] todos[ate_i.len() + se.len() + k]
        == c[k] by {
        assert(com_i[ate_i.len() + se.len() + k] == c[k]);
        assert(todos[ate_i.len() + se.len() + k] == com_i[ate_i.len() + se.len() + k]);
    }
}

/// The verification runs the recurrence token by token, and before each token
/// but the first it keeps the state that the one before left.
pub proof fn lei_estado_guardado_entre_tokens(
    d: DeltaNetConfig,
    b: DnBufs,
    da: DeltaBufs,
    n: int,
    t: int,
)
    requires
        0 <= t < n,
    ensures
        ({
            let s = ops_estado_ate(d, b, da, n);
            &&& s.len() == 2 * n - 1
            &&& s[2 * t] == op_dn_delta(d, b, da, t, 1, d.value_dim(), sat(d.value_dim()))
            &&& t > 0 ==> s[2 * t - 1] == (OpM::Copia {
                src: da.estado.buffer,
                dst: da.estado_snap@[t - 1].buffer,
                bytes: da.estado.size,
            })
        }),
    decreases n,
{
    if n > 1 {
        if t < n - 1 {
            lei_estado_guardado_entre_tokens(d, b, da, n - 1, t);
        } else {
            lei_estado_guardado_entre_tokens(d, b, da, n - 1, 0);
        }
    } else {
        assert(ops_estado_ate(d, b, da, 0).len() == 0);
    }
}

/// The same for the window of the convolution.
pub proof fn lei_janela_guardada_entre_tokens(
    d: DeltaNetConfig,
    b: DnBufs,
    da: DeltaBufs,
    n: int,
    t: int,
)
    requires
        0 <= t < n,
    ensures
        ({
            let s = ops_conv_ate(d, b, da, n);
            &&& s.len() == 2 * n - 1
            &&& s[2 * t] == op_dn_conv(d, b, da, t, 1)
            &&& t > 0 ==> s[2 * t - 1] == (OpM::Copia {
                src: da.janela.buffer,
                dst: da.janela_snap@[t - 1].buffer,
                bytes: da.janela.size,
            })
        }),
    decreases n,
{
    if n > 1 {
        if t < n - 1 {
            lei_janela_guardada_entre_tokens(d, b, da, n - 1, t);
        } else {
            lei_janela_guardada_entre_tokens(d, b, da, n - 1, 0);
        }
    } else {
        assert(ops_conv_ate(d, b, da, 0).len() == 0);
    }
}

/// A rollback that keeps `manter` tokens copies back what the verification kept
/// after the last of them.
pub proof fn lei_rollback_traz_de_volta_o_guardado(da: DeltaBufs, manter: int)
    requires
        0 < manter <= da.estado_snap@.len(),
        manter <= da.janela_snap@.len(),
    ensures
        rollback_da_camada(da, manter - 1) == seq![
            Copia {
                src: da.estado_snap@[manter - 1].buffer,
                dst: da.estado.buffer,
                size: da.estado.size,
            },
            Copia {
                src: da.janela_snap@[manter - 1].buffer,
                dst: da.janela.buffer,
                size: da.janela.size,
            },
        ],
{
    assert(rollback_da_camada(da, manter - 1) =~= seq![
        Copia {
            src: da.estado_snap@[manter - 1].buffer,
            dst: da.estado.buffer,
            size: da.estado.size,
        },
        Copia {
            src: da.janela_snap@[manter - 1].buffer,
            dst: da.janela.buffer,
            size: da.janela.size,
        },
    ]);
}

} // verus!
