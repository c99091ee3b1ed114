//! Whether the sizes of a model can be measured on this machine: the tests that
//! come before planning, laying out and recording.

use vstd::prelude::*;

use crate::vulkan::estado::{Cfg, DeltaNetConfig, MixerQ, ResidentState, NORM_P1_WG, VERIFY_TOK};
use crate::vulkan::gravacao::{
    gravavel, passo_ok, proposta_ok, push_ok, todos_gravaveis, Hidden, Passo,
};
use crate::vulkan::layout::{formas_ok, mede, mensuravel};
use crate::vulkan::ops::{plano_de, Despacho, PlannedOp, PushSpec};
use crate::vulkan::planejar::camadas_de_atencao;
use crate::vulkan::plano::{cabe, cabe_delta};
use crate::vulkan::plano_mtp::cabe_mtp;
use crate::vulkan::shard::{slots_kv, MAX_SPLITS};

verus! {

/// More than any number of the machine.
const TETO: u128 = 0x1_0000_0000_0000_0000;

/// A number, or the bound if it is larger.
spec fn cap(n: int) -> int {
    if n > TETO {
        TETO as int
    } else {
        n
    }
}

proof fn lemma_cap(x: int, b: int)
    requires
        0 <= x,
        0 <= b,
    ensures
        0 <= x * b,
        cap(cap(x) * b) == cap(x * b),
{
    assert(0 <= x * b) by (nonlinear_arith)
        requires
            0 <= x,
            0 <= b,
    ;
    if x > TETO {
        if b == 0 {
            assert(x * b == 0 && TETO * b == 0) by (nonlinear_arith)
                requires
                    b == 0,
            ;
        } else {
            assert(x * b >= x) by (nonlinear_arith)
                requires
                    b >= 1,
                    x >= 0,
            ;
            assert(TETO * b >= TETO) by (nonlinear_arith)
                requires
                    b >= 1,
            ;
        }
    }
}

fn vezes(a: u128, b: usize) -> (r: u128)
    requires
        a <= TETO,
    ensures
        r == cap(a * b),
        r <= TETO,
{
    proof {
        assert(a * b <= 0x1_0000_0000_0000_0000 * 0xffff_ffff_ffff_ffff) by (nonlinear_arith)
            requires
                a <= 0x1_0000_0000_0000_0000,
                b <= 0xffff_ffff_ffff_ffff,
        ;
        assert(a * b >= 0) by (nonlinear_arith);
    }
    let p: u128 = a * b as u128;
    if p > TETO {
        TETO
    } else {
        p
    }
}

fn p2(a: usize, b: usize) -> (r: u128)
    ensures
        r == cap(a * b),
        r <= TETO,
{
    vezes(a as u128, b)
}

fn p3(a: usize, b: usize, c: usize) -> (r: u128)
    ensures
        r == cap(a * b * c),
        r <= TETO,
{
    proof {
        lemma_cap(a as int, b as int);
        lemma_cap(a * b, c as int);
    }
    vezes(p2(a, b), c)
}

fn p4(a: usize, b: usize, c: usize, d: usize) -> (r: u128)
    ensures
        r == cap(a * b * c * d),
        r <= TETO,
{
    proof {
        lemma_cap(a as int, b as int);
        lemma_cap(a * b, c as int);
        lemma_cap(a * b * c, d as int);
    }
    vezes(p3(a, b, c), d)
}

fn p5(a: usize, b: usize, c: usize, d: usize, e: usize) -> (r: u128)
    ensures
        r == cap(a * b * c * d * e),
        r <= TETO,
{
    proof {
        lemma_cap(a as int, b as int);
        lemma_cap(a * b, c as int);
        lemma_cap(a * b * c, d as int);
        lemma_cap(a * b * c * d, e as int);
    }
    vezes(p4(a, b, c, d), e)
}

/// Whether a number, cut at the bound, is one of the machine.
fn cabe_na_maquina(n: u128) -> (r: bool)
    ensures
        r == (n <= usize::MAX),
{
    n <= usize::MAX as u128
}

fn conv_dim(d: &DeltaNetConfig) -> (r: u128)
    ensures
        r == cap(d.conv_dim()),
        r <= TETO,
{
    proof {
        lemma_cap(d.d_state as int, d.n_k_heads as int);
        lemma_cap(d.d_state * d.n_k_heads, 2);
        lemma_cap(d.head_v_dim as int, d.n_v_heads as int);
    }
    let s: u128 = p3(d.d_state, d.n_k_heads, 2) + p2(d.head_v_dim, d.n_v_heads);
    if s > TETO {
        TETO
    } else {
        s
    }
}

proof fn lemma_conv_positivo(d: DeltaNetConfig)
    ensures
        0 <= d.conv_dim(),
        0 <= d.key_dim(),
        0 <= d.value_dim(),
{
    lemma_cap(d.d_state as int, d.n_k_heads as int);
    lemma_cap(d.head_v_dim as int, d.n_v_heads as int);
}

/// Elements for each of `n` tokens, in bytes.
fn conv_por_token(d: &DeltaNetConfig, n: usize) -> (r: bool)
    ensures
        r == (d.conv_dim() * n * 4 <= usize::MAX),
{
    proof {
        lemma_conv_positivo(*d);
        lemma_cap(d.conv_dim(), n as int);
        lemma_cap(d.conv_dim() * n, 4);
    }
    cabe_na_maquina(vezes(vezes(conv_dim(d), n), 4))
}

fn cabe_delta_aqui(d: &DeltaNetConfig, nt: usize) -> (r: bool)
    ensures
        r == cabe_delta(*d, nt as int),
{
    d.n_k_heads > 0 && cabe_na_maquina(p4(d.d_state, d.n_k_heads, nt, 4)) && cabe_na_maquina(
        p4(d.head_v_dim, d.n_v_heads, nt, 4),
    ) && conv_por_token(d, nt) && cabe_na_maquina(p4(d.n_v_heads, 2, nt, 4)) && cabe_na_maquina(
        p2(d.n_k_heads, 2),
    ) && cabe_na_maquina(p2(d.n_v_heads, d.d_state))
}

fn q_out_por(c: &Cfg, n: usize) -> (r: bool)
    ensures
        r == (c.q_out() * n * 4 <= usize::MAX),
{
    if c.delta_net.is_some() {
        cabe_na_maquina(p5(c.head_dim, c.n_head, 2, n, 4))
    } else {
        cabe_na_maquina(p3(c.n_embd, n, 4))
    }
}

fn attn_dim_por(c: &Cfg, n: usize) -> (r: bool)
    ensures
        r == (c.attn_dim() * n * 4 <= usize::MAX),
{
    if c.delta_net.is_some() {
        cabe_na_maquina(p4(c.head_dim, c.n_head, n, 4))
    } else {
        cabe_na_maquina(p3(c.n_embd, n, 4))
    }
}

fn ha_delta(st: &ResidentState) -> (r: bool)
    ensures
        r == st.tem_delta(),
{
    let mut l: usize = 0;
    while l < st.qw.len()
        invariant
            l <= st.qw.len(),
            forall|k: int| 0 <= k < l ==> !((#[trigger] st.qw@[k]).mixer is Delta),
        decreases st.qw.len() - l,
    {
        if let MixerQ::Delta { .. } = &st.qw[l].mixer {
            assert(st.qw@[l as int].mixer is Delta);
            return true;
        }
        l += 1;
    }
    false
}

/// Slots of the cache of a shard.
pub fn n_slots(st: &ResidentState) -> (r: usize)
    ensures
        r == st.n_slots(),
{
    let a = camadas_de_atencao(st);
    let (_, n) = slots_kv(a.as_slice());
    n
}

/// Whether a plan for blocks of `nt` tokens can be made.
pub fn cabe_aqui(st: &ResidentState, nt: usize) -> (r: bool)
    ensures
        r == cabe(*st, nt as int),
{
    let c = &st.cfg;
    let n: usize = n_slots(st);
    let delta = match &c.delta_net {
        Some(d) => !ha_delta(st) || cabe_delta_aqui(d, nt),
        None => true,
    };
    nt >= 1 && cabe_na_maquina(p3(c.n_embd, nt, 4)) && q_out_por(c, nt) && attn_dim_por(c, nt)
        && cabe_na_maquina(p3(c.kv_dim, nt, 4)) && cabe_na_maquina(p3(c.n_ff, nt, 4))
        && cabe_na_maquina(p3(c.vocab, VERIFY_TOK, 4)) && cabe_na_maquina(p2(c.head_dim, 2))
        && cabe_na_maquina(p2(c.n_head, c.rope_dim)) && cabe_na_maquina(p2(c.n_head_kv, c.rope_dim))
        && cabe_na_maquina(p2(c.n_head_kv, c.head_dim)) && cabe_na_maquina(p2(c.n_head, nt))
        && cabe_na_maquina(p2(c.n_head_kv, nt)) && cabe_na_maquina(p2(n, c.ctx))
        && cabe_na_maquina(p3(n, c.ctx, c.kv_dim)) && delta
}

/// Whether the plan of the prediction head can be made.
pub fn cabe_mtp_aqui(c: &Cfg) -> (r: bool)
    ensures
        r == cabe_mtp(*c),
{
    proof {
        assert(c.q_out() * 1 == c.q_out());
        assert(c.attn_dim() * 1 == c.attn_dim());
    }
    cabe_na_maquina(p3(c.n_embd, 2, 4)) && q_out_por(c, 1) && attn_dim_por(c, 1)
        && cabe_na_maquina(p2(c.kv_dim, 4)) && cabe_na_maquina(p2(c.n_ff, 4)) && cabe_na_maquina(
        p2(c.vocab, 4),
    ) && cabe_na_maquina(p2(c.head_dim, 2)) && cabe_na_maquina(p2(c.n_head, c.rope_dim))
        && cabe_na_maquina(p2(c.n_head_kv, c.rope_dim))
}

/// Whether the shapes of the weights can be computed.
pub fn formas_cabem(c: &Cfg) -> (r: bool)
    ensures
        r == formas_ok(*c),
{
    let q: u128 = if c.delta_net.is_some() {
        p3(c.head_dim, c.n_head, 2)
    } else {
        c.n_embd as u128
    };
    let delta = match &c.delta_net {
        Some(d) => cabe_na_maquina(conv_dim(d)),
        None => true,
    };
    cabe_na_maquina(q) && cabe_na_maquina(p2(c.n_embd, 2)) && delta
}

fn delta_mensuravel(d: &DeltaNetConfig, n: usize) -> (r: bool)
    requires
        n >= 1,
    ensures
        r == {
            &&& d.d_conv >= 1
            &&& mede(d.conv_dim(), n as int)
            &&& mede(d.value_dim(), n as int)
            &&& mede(d.key_dim(), n as int)
            &&& mede(d.n_v_heads * 2, n as int)
            &&& d.n_v_heads * d.d_state <= usize::MAX
            &&& d.state_len() * 4 <= usize::MAX
            &&& d.janela_len() * 4 <= usize::MAX
        },
{
    if d.d_conv < 1 {
        return false;
    }
    let passos: usize = d.d_conv - 1;
    proof {
        lemma_conv_positivo(*d);
        lemma_cap(d.conv_dim(), passos as int);
        lemma_cap(d.conv_dim() * passos, 4);
    }
    conv_por_token(d, n) && cabe_na_maquina(p4(d.head_v_dim, d.n_v_heads, n, 4))
        && cabe_na_maquina(p4(d.d_state, d.n_k_heads, n, 4)) && cabe_na_maquina(
        p4(d.n_v_heads, 2, n, 4),
    ) && cabe_na_maquina(p2(d.n_v_heads, d.d_state)) && cabe_na_maquina(
        p4(d.n_v_heads, d.d_state, d.d_state, 4),
    ) && cabe_na_maquina(vezes(vezes(conv_dim(d), passos), 4))
}

/// Whether the sizes of the buffers of a shard can be computed.
pub fn mensuravel_aqui(c: &Cfg, n_slots: usize, mtp: bool) -> (r: bool)
    ensures
        r == mensuravel(*c, n_slots as int, mtp),
{
    let n: usize = if mtp && c.n_batch < VERIFY_TOK {
        VERIFY_TOK
    } else {
        c.n_batch
    };
    let cols: usize = if mtp {
        VERIFY_TOK
    } else {
        1
    };
    if n < 1 || c.head_dim > usize::MAX - 2 {
        return false;
    }
    let hd: usize = c.head_dim + 2;
    let delta = match &c.delta_net {
        Some(d) => delta_mensuravel(d, n),
        None => true,
    };
    cabe_na_maquina(p3(c.n_embd, n, 4)) && cabe_na_maquina(p3(c.n_ff, n, 4)) && q_out_por(c, n)
        && attn_dim_por(c, n) && cabe_na_maquina(p3(c.kv_dim, n, 4)) && cabe_na_maquina(
        p3(NORM_P1_WG as usize, n, 4),
    ) && cabe_na_maquina(p2(c.n_head, MAX_SPLITS as usize)) && cabe_na_maquina(
        p5(c.n_head, MAX_SPLITS as usize, hd, n, 4),
    ) && cabe_na_maquina(p3(c.vocab, cols, 4)) && cabe_na_maquina(p3(c.n_embd, 2, 4))
        && cabe_na_maquina(p2(n_slots, c.ctx)) && cabe_na_maquina(p4(n_slots, c.ctx, c.kv_dim, 4))
        && cabe_na_maquina(p3(c.ctx, c.kv_dim, 4)) && delta
}

/// Whether a step lies in the cache and its copies can be measured.
pub fn passo_cabe(st: &ResidentState, q: &Passo) -> (r: bool)
    ensures
        r == passo_ok(*st, *q),
{
    let c = &st.cfg;
    let n: usize = n_slots(st);
    1 <= q.n_tok && q.n_tok - 1 <= q.pos && q.pos < c.ctx && cabe_na_maquina(
        p3(c.n_embd, q.n_tok, 4),
    ) && cabe_na_maquina(p3(c.vocab, VERIFY_TOK, 4)) && cabe_na_maquina(p2(n, c.ctx))
        && cabe_na_maquina(p4(n, c.ctx, c.kv_dim, 4)) && (n == 0 || cabe_na_maquina(
        p3(c.kv_dim, q.n_tok, 4),
    ))
}

/// Whether a proposal lies in the cache of the prediction head and its copies can
/// be measured.
pub fn proposta_cabe(st: &ResidentState, q: &Passo, h: Hidden) -> (r: bool)
    ensures
        r == proposta_ok(*st, *q, h),
{
    let c = &st.cfg;
    let hidden = match h {
        Hidden::Tronco(j) => cabe_na_maquina(p3(j, c.n_embd, 4)),
        Hidden::Cabeca => true,
    };
    q.pos < c.ctx && cabe_na_maquina(p2(c.n_embd, 4)) && cabe_na_maquina(p2(c.vocab, 4))
        && cabe_na_maquina(p3(c.ctx, c.kv_dim, 4)) && hidden
}

fn push_cabe(d: &Despacho, c: &Cfg, q: &Passo) -> (r: bool)
    requires
        q.pos < usize::MAX,
    ensures
        r == push_ok(d@, *c, *q),
{
    let total: u32 = (q.pos + 1) as u32;
    match &d.push {
        PushSpec::RopeKv { n_head: _, kv_layer_off } => {
            if d.groups_y > total {
                return false;
            }
            let p0: usize = (total - d.groups_y) as usize;
            let p: u128 = p2(p0, c.kv_dim);
            if !cabe_na_maquina(p) {
                return false;
            }
            proof {
                lemma_cap(p0 as int, c.kv_dim as int);
            }
            let off: u32 = (p0 * c.kv_dim) as u32;
            *kv_layer_off as u64 + off as u64 <= 0xffff_ffff
        },
        PushSpec::Attention { .. } => {
            if c.delta_net.is_some() {
                cabe_na_maquina(p2(c.head_dim, 2))
            } else {
                true
            }
        },
        _ => true,
    }
}

/// Whether every operation of a plan can be recorded in a step.
pub fn plano_cabe(plan: &Vec<PlannedOp>, st: &ResidentState, q: &Passo) -> (r: bool)
    requires
        q.pos < usize::MAX,
    ensures
        r == todos_gravaveis(plano_de(plan@), *st, *q),
{
    let ghost p = plano_de(plan@);
    let n: usize = n_slots(st);
    let mut i: usize = 0;
    while i < plan.len()
        invariant
            i <= plan.len(),
            p == plano_de(plan@),
            n == st.n_slots(),
            q.pos < usize::MAX,
            forall|k: int| 0 <= k < i ==> gravavel(#[trigger] p[k], *st, *q),
        decreases plan.len() - i,
    {
        let op = &plan[i];
        let ok = match op {
            PlannedOp::Dispatch(d) => push_cabe(d, &st.cfg, q),
            PlannedOp::KvAppend { slot, com_k: _ } => *slot < n,
            PlannedOp::Atencao { curto, split, reduce } => push_cabe(curto, &st.cfg, q)
                && push_cabe(split, &st.cfg, q) && push_cabe(reduce, &st.cfg, q),
            _ => true,
        };
        proof {
            assert(p[i as int] == op@);
            assert(ok == gravavel(p[i as int], *st, *q));
        }
        if !ok {
            return false;
        }
        i += 1;
    }
    true
}

} // verus!
