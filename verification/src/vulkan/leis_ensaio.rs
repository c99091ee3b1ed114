//! What single runs and measurements have in common with the steps of a model,
//! and how a sequence grows.

use vstd::prelude::*;

use crate::vulkan::ambiente::valor_decimal;
use crate::vulkan::bancada::{depois, medida, repeticoes, superbloco, superblocos};
use crate::vulkan::contas::{algarismo, decimal, ou, sat};
use crate::vulkan::diagnostico::{buffer_de, FormaAtencao};
use crate::vulkan::estado::{Ativacoes, Cfg, DnBufs, Modo, ResidentState, VERIFY_TOK};
use crate::vulkan::gravacao::{passo_ok, proposta_ok, push_de, CmdM, Hidden, Parte, Passo};
use crate::vulkan::layer_split::rotulo_da_trilha;
use crate::vulkan::ops::{DespachoM, PipeId, PushM};
use crate::vulkan::plano::{delta_ok, planejavel};
use crate::vulkan::sessao::{bloco_ok, Sessao};
use crate::vulkan::shard::Shard;

verus! {

// ---------------------------------------------------------------------------
// Single kernels
// ---------------------------------------------------------------------------

/// An attention that is run on its own is told the same as the one of a step of a
/// dense model with those heads, whose cache is the first slot and holds as many
/// positions.
pub proof fn lei_atencao_sozinha(f: FormaAtencao, c: Cfg, d: DespachoM, q: Passo)
    requires
        d.push == (PushM::Attention { kv_layer_off: 0 }),
        c.delta_net is None,
        c.n_head == f.n_head,
        c.n_head_kv == f.n_head_kv,
        c.head_dim == f.head_dim,
        c.kv_dim == f.n_head_kv * f.head_dim,
        q.pos + 1 == f.total_len,
        f.total_len <= u32::MAX,
    ensures
        f.push() == push_de(d, c, q, 1),
{
    assert(f.push() =~= push_de(d, c, q, 1));
}

/// The output of an attention has an element for each token, head and dimension;
/// the slices have as many each, and two numbers more per head for the
/// reduction.
pub proof fn lei_bytes_da_atencao(f: FormaAtencao, n: int)
    requires
        f.ok(n),
        0 <= n,
    ensures
        f.saida() == 4 * (f.n_tokens * f.n_head * f.head_dim),
        f.parciais(n) == 4 * (f.n_tokens * f.n_head * n * (f.head_dim + 2)),
        f.tamanhos(f.saida()).len() == 4,
        f.tamanhos(f.saida())[0] == 4 * f.q_len,
        f.tamanhos(f.saida())[1] == 4 * f.k_len,
        f.tamanhos(f.saida())[2] == 4 * f.v_len,
        f.tamanhos(f.saida())[3] == f.saida(),
{
    let a = f.n_tokens * f.n_head;
    let h = f.head_dim as int;
    assert(0 <= a) by (nonlinear_arith)
        requires
            a == f.n_tokens * f.n_head,
    ;
    assert(0 <= a * h && 0 <= a * n && 0 <= a * n * (h + 2)) by (nonlinear_arith)
        requires
            a >= 0,
            h >= 0,
            n >= 0,
    ;
}

/// Each name stands for the buffer of that name; without linear attention none
/// does.
pub proof fn lei_buffers_por_nome(a: Ativacoes, b: DnBufs)
    requires
        a.dn == Some(b),
    ensures
        buffer_de(a, "qkv"@) == Some(b.qkv),
        buffer_de(a, "conv"@) == Some(b.conv),
        buffer_de(a, "z"@) == Some(b.z),
        buffer_de(a, "gb"@) == Some(b.gb),
        buffer_de(a, "qn"@) == Some(b.qn),
        buffer_de(a, "kn"@) == Some(b.kn),
        buffer_de(a, "out"@) == Some(b.out),
        buffer_de(a, "normed"@) == Some(b.normed),
        buffer_de(a, "proj"@) == Some(a.b_proj),
        buffer_de(a, "ffn"@) == Some(a.b_ffn),
        buffer_de(a, "x"@) == Some(a.b_x),
        buffer_de(a, "xd"@) == Some(a.b_xd),
        forall|t: Seq<char>| t.len() > 6 ==> #[trigger] buffer_de(a, t) is None,
{
    reveal_strlit("qkv");
    reveal_strlit("conv");
    reveal_strlit("z");
    reveal_strlit("gb");
    reveal_strlit("qn");
    reveal_strlit("kn");
    reveal_strlit("out");
    reveal_strlit("normed");
    reveal_strlit("proj");
    reveal_strlit("ffn");
    reveal_strlit("x");
    reveal_strlit("xd");
    assert("qkv"@[0] == 'q' && "out"@[0] == 'o' && "ffn"@[0] == 'f');
    assert("conv"@[0] == 'c' && "proj"@[0] == 'p');
    assert("gb"@[0] == 'g' && "qn"@[0] == 'q' && "kn"@[0] == 'k' && "xd"@[0] == 'x');
    assert("z"@[0] == 'z' && "x"@[0] == 'x');
    assert("qkv"@.len() == 3 && "out"@.len() == 3 && "ffn"@.len() == 3 && "normed"@.len() == 6);
    assert("conv"@.len() == 4 && "proj"@.len() == 4 && "z"@.len() == 1 && "x"@.len() == 1);
    assert("gb"@.len() == 2 && "qn"@.len() == 2 && "kn"@.len() == 2 && "xd"@.len() == 2);
}

// ---------------------------------------------------------------------------
// Measurements
// ---------------------------------------------------------------------------

proof fn lemma_repeticoes(pipe: PipeId, push: Seq<u8>, grupos: u32, n: int)
    requires
        0 <= n,
    ensures
        repeticoes(pipe, push, grupos, n).len() == 2 * n,
        forall|i: int|
            0 <= i < n ==> #[trigger] repeticoes(pipe, push, grupos, n)[2 * i]
                == (CmdM::Despacha {
                op: 0,
                parte: Parte::Unica,
                pipe,
                push,
                x: grupos,
                y: 1,
                z: 1,
            }),
        forall|i: int|
            0 <= i < n ==> #[trigger] repeticoes(pipe, push, grupos, n)[2 * i + 1]
                == CmdM::Barreira,
    decreases n,
{
    if n > 0 {
        lemma_repeticoes(pipe, push, grupos, n - 1);
        let r = repeticoes(pipe, push, grupos, n);
        let p = repeticoes(pipe, push, grupos, n - 1);
        assert forall|i: int| 0 <= i < n implies #[trigger] r[2 * i] == (CmdM::Despacha {
            op: 0,
            parte: Parte::Unica,
            pipe,
            push,
            x: grupos,
            y: 1,
            z: 1,
        }) by {
            if i < n - 1 {
                assert(r[2 * i] == p[2 * i]);
            }
        }
        assert forall|i: int| 0 <= i < n implies #[trigger] r[2 * i + 1] == CmdM::Barreira by {
            if i < n - 1 {
                assert(r[2 * i + 1] == p[2 * i + 1]);
            }
        }
    }
}

/// A measurement is 200 times the same dispatch, each ended by a barrier, between
/// two timestamps.
pub proof fn lei_medida(pipe: PipeId, push: Seq<u8>, grupos: u32, i: int)
    requires
        0 <= i < 200,
    ensures
        ({
            let m = medida(pipe, push, grupos);
            &&& m.len() == 2 + 400 + 1
            &&& m[0] == (CmdM::ZeraTempos { n: 2 })
            &&& m[1] == (CmdM::Tempo { slot: 0, topo: true })
            &&& m[402] == (CmdM::Tempo { slot: 1, topo: false })
            &&& m[2 + 2 * i] == (CmdM::Despacha {
                op: 0,
                parte: Parte::Unica,
                pipe,
                push,
                x: grupos,
                y: 1,
                z: 1,
            })
            &&& m[3 + 2 * i] == CmdM::Barreira
        }),
{
    lemma_repeticoes(pipe, push, grupos, 200);
    let r = repeticoes(pipe, push, grupos, 200);
    let m = medida(pipe, push, grupos);
    assert(m[2 + 2 * i] == r[2 * i]);
    assert(m[3 + 2 * i] == r[2 * i + 1]);
}

/// Weights to measure with are blocks of 144 bytes with the same finite scales;
/// the other bytes are those of the generator, which goes on from block to block.
pub proof fn lei_pesos_de_medida(x: u64, n: int)
    requires
        0 <= n,
    ensures
        superblocos(x, n).len() == 144 * n,
        superbloco(x).len() == 144,
        superbloco(x).take(4) == seq![0u8, 0x2Cu8, 0u8, 0x24u8],
        forall|i: int| 0 <= i < 140 ==> #[trigger] superbloco(x)[4 + i] == depois(x, i + 1) as u8,
        superblocos(x, n + 1) == superblocos(x, n) + superbloco(depois(x, 140 * n)),
    decreases n,
{
    if n > 0 {
        lei_pesos_de_medida(x, n - 1);
        lei_pesos_de_medida(depois(x, 140 * (n - 1)), 0);
    }
    assert(superbloco(x).take(4) =~= seq![0u8, 0x2Cu8, 0u8, 0x24u8]);
}

// ---------------------------------------------------------------------------
// Sequences
// ---------------------------------------------------------------------------

/// Blocks that follow each other fill the cache without a gap: a block from the
/// end of the sequence on leaves it longer by its tokens, and keeps the snapshot
/// and the proposals.
pub proof fn lei_blocos_seguidos(s: Sessao, n: int)
    requires
        0 < n,
        s.len + n <= usize::MAX,
    ensures
        s.depois_do_passo(s.len + n - 1).len == s.len + n,
        s.depois_do_passo(s.len + n - 1).snap_len == s.snap_len,
        s.depois_do_passo(s.len + n - 1).mtp_len == s.mtp_len,
{
}

/// A block can be run if it is one token or as many as the plan of the prefill
/// takes, and ends in the cache.
pub proof fn lei_bloco_aceito(c: Cfg, n: int, pos0: int)
    requires
        0 <= n,
        0 <= pos0,
    ensures
        bloco_ok(c, n, pos0) <==> (n == 1 || (n > 1 && n == c.n_batch)) && pos0 + n <= c.ctx,
{
}

/// A step can be recorded if it has a token, does not start before the sequence,
/// ends in the cache, and its copies can be measured; a proposal if its position
/// is in the cache of the head.
pub proof fn lei_passo_aceito(st: ResidentState, q: Passo, h: Hidden)
    requires
        st.cfg.n_embd * q.n_tok * 4 <= usize::MAX,
        st.cfg.vocab * VERIFY_TOK * 4 <= usize::MAX,
        st.n_slots() * st.cfg.ctx <= usize::MAX,
        st.n_slots() * st.cfg.ctx * st.cfg.kv_dim * 4 <= usize::MAX,
        st.cfg.kv_dim * q.n_tok * 4 <= usize::MAX,
        st.cfg.ctx * st.cfg.kv_dim * 4 <= usize::MAX,
        st.cfg.n_embd * 4 <= usize::MAX,
        h matches Hidden::Tronco(j) ==> j * st.cfg.n_embd * 4 <= usize::MAX,
    ensures
        passo_ok(st, q) <==> q.n_tok >= 1 && q.pos + 1 - q.n_tok >= 0 && q.pos < st.cfg.ctx,
        proposta_ok(st, q, h) <==> q.pos < st.cfg.ctx,
{
    let v = st.cfg.vocab as int;
    assert(v * 4 <= v * 3 * 4) by (nonlinear_arith)
        requires
            v >= 0,
    ;
}

/// When a plan can be made: each linear-attention layer that runs has its
/// dimensions and buffers, and a window of at most four tokens; for a
/// verification instead a place for the state and the window after each token
/// but the last.
pub proof fn lei_planejavel(st: ResidentState, modo: Modo, n: int, l: int)
    requires
        planejavel(st, modo, n),
        0 <= l < n,
        st.qw@[l].mixer is Delta,
    ensures
        st.cfg.delta_net is Some,
        st.a.dn is Some,
        st.aux@[l].delta is Some,
        modo is Verify ==> st.aux@[l].delta->0.estado_snap@.len() + 1 == VERIFY_TOK
            && st.aux@[l].delta->0.janela_snap@.len() + 1 == VERIFY_TOK,
        !(modo is Verify) ==> st.cfg.delta_net->0.d_conv - 1 <= 4,
{
    assert(delta_ok(st, modo, l));
}

/// A model of attention layers alone can always be planned, and so can one whose
/// linear-attention layers have all they need.
pub proof fn lei_planejavel_se(st: ResidentState, modo: Modo, n: int)
    requires
        forall|l: int|
            0 <= l < n && (#[trigger] st.qw@[l]).mixer is Delta ==> {
                &&& st.cfg.delta_net is Some && st.a.dn is Some && st.aux@[l].delta is Some
                &&& modo is Verify ==> st.aux@[l].delta->0.estado_snap@.len() + 1 == VERIFY_TOK
                    && st.aux@[l].delta->0.janela_snap@.len() + 1 == VERIFY_TOK
                &&& !(modo is Verify) ==> st.cfg.delta_net->0.d_conv - 1 <= 4
            },
    ensures
        planejavel(st, modo, n),
{
}

// ---------------------------------------------------------------------------
// Numbers
// ---------------------------------------------------------------------------

/// A number in decimal has that value.
pub proof fn lei_decimal(n: int)
    requires
        0 <= n,
    ensures
        valor_decimal(decimal(n)) == n,
        decimal(n).len() >= 1,
        n > 0 ==> decimal(n)[0] != '0',
    decreases n,
{
    reveal_with_fuel(valor_decimal, 2);
    assert(0 <= n % 10 < 10);
    if n < 10 {
        assert(seq![algarismo(n)].drop_last() =~= Seq::<char>::empty());
    } else {
        lei_decimal(n / 10);
        let d = decimal(n / 10);
        assert(d.push(algarismo(n % 10)).drop_last() =~= d);
    }
}

/// Numbers that fit in 32 bits stay as they are; larger ones become the greatest
/// such number, or the one that is given for them.
pub proof fn lei_em_32_bits(n: int, padrao: u32)
    requires
        0 <= n,
    ensures
        n <= u32::MAX ==> sat(n) == n && ou(n, padrao) == n,
        n > u32::MAX ==> sat(n) == u32::MAX && ou(n, padrao) == padrao,
{
}

/// The label of a shard names its device and its layers.
pub proof fn lei_rotulo_da_trilha(x: Shard)
    ensures
        ({
            let a = decimal(x.device as int);
            let b = decimal(x.first_layer as int);
            let c = decimal(x.end_layer as int);
            let t = rotulo_da_trilha(x);
            &&& t.len() == a.len() + b.len() + c.len() + 8
            &&& t.subrange(0, 3) == "GPU"@
            &&& t.subrange(3, 3 + a.len() as int) == a
            &&& t.subrange(5 + a.len() as int, 5 + a.len() as int + b.len() as int) == b
            &&& t.subrange(
                7 + a.len() as int + b.len() as int,
                7 + a.len() as int + b.len() as int + c.len() as int,
            ) == c
        }),
{
    reveal_strlit("GPU");
    reveal_strlit(" (");
    reveal_strlit("..");
    reveal_strlit(")");
    let a = decimal(x.device as int);
    let b = decimal(x.first_layer as int);
    let c = decimal(x.end_layer as int);
    let t = rotulo_da_trilha(x);
    assert(t.subrange(0, 3) =~= "GPU"@);
    assert(t.subrange(3, 3 + a.len() as int) =~= a);
    assert(t.subrange(5 + a.len() as int, 5 + a.len() as int + b.len() as int) =~= b);
    assert(t.subrange(
        7 + a.len() as int + b.len() as int,
        7 + a.len() as int + b.len() as int + c.len() as int,
    ) =~= c);
}

} // verus!
