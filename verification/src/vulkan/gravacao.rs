//! Turns a plan into the commands of one step.

use vstd::prelude::*;

use crate::vulkan::contas::{palavras, palavras_em_bytes};
use crate::vulkan::estado::{Cfg, Modo, MtpBufs, ResidentState, VERIFY_TOK};
use crate::vulkan::ops::{plano_de, Despacho, DespachoM, OpM, PipeId, PlannedOp, PushM, PushSpec};
use crate::vulkan::shard::{splits, splits_do_kv, SplitsForcados};

verus! {

/// Which dispatch of an operation.
#[derive(Clone, Copy, Debug, PartialEq, Eq, Structural)]
pub enum Parte {
    Unica,
    Curto,
    Split,
    Reduce,
}

/// A command of the command buffer.
#[derive(Debug)]
pub enum Comando {
    /// Resets the first `n` timestamps.
    ZeraTempos { n: u32 },
    /// Writes a timestamp, at the top of the pipeline or at its bottom.
    Tempo { slot: u32, topo: bool },
    /// A barrier for all memory.
    Barreira,
    /// A dispatch of the operation `op` of the plan.
    Despacha { op: usize, parte: Parte, pipe: PipeId, push: Vec<u8>, x: u32, y: u32, z: u32 },
    Copia { src: u64, dst: u64, src_off: u64, dst_off: u64, size: u64 },
}

#[verifier::ext_equal]
pub enum CmdM {
    ZeraTempos { n: u32 },
    Tempo { slot: u32, topo: bool },
    Barreira,
    Despacha { op: usize, parte: Parte, pipe: PipeId, push: Seq<u8>, x: u32, y: u32, z: u32 },
    Copia { src: u64, dst: u64, src_off: u64, dst_off: u64, size: u64 },
}

impl View for Comando {
    type V = CmdM;

    open spec fn view(&self) -> CmdM {
        match self {
            Comando::ZeraTempos { n } => CmdM::ZeraTempos { n: *n },
            Comando::Tempo { slot, topo } => CmdM::Tempo { slot: *slot, topo: *topo },
            Comando::Barreira => CmdM::Barreira,
            Comando::Despacha { op, parte, pipe, push, x, y, z } => CmdM::Despacha {
                op: *op,
                parte: *parte,
                pipe: *pipe,
                push: push@,
                x: *x,
                y: *y,
                z: *z,
            },
            Comando::Copia { src, dst, src_off, dst_off, size } => CmdM::Copia {
                src: *src,
                dst: *dst,
                src_off: *src_off,
                dst_off: *dst_off,
                size: *size,
            },
        }
    }
}

pub open spec fn comandos(v: Seq<Comando>) -> Seq<CmdM> {
    v.map_values(|x: Comando| x@)
}

/// Where a step stands.
#[derive(Clone, Copy, Debug, PartialEq, Eq, Structural)]
pub struct Passo {
    /// Position of the last token of the block.
    pub pos: usize,
    /// Bits of the same position as a single precision number.
    pub pos_bits: u32,
    /// Tokens in the block.
    pub n_tok: usize,
}

impl Passo {
    /// Positions of the cache after the step.
    pub open spec fn total_len(self) -> u32 {
        (self.pos + 1) as u32
    }
}

/// Which hidden state feeds the prediction head.
#[derive(Clone, Copy, Debug, PartialEq, Eq, Structural)]
pub enum Hidden {
    /// That of a token of the last step.
    Tronco(usize),
    /// The head's own, of its last proposal.
    Cabeca,
}

// ---------------------------------------------------------------------------
// Push constants
// ---------------------------------------------------------------------------

/// The words of the push constants of a dispatch.
pub open spec fn push_de(d: DespachoM, c: Cfg, q: Passo, n_split: u32) -> Seq<u32> {
    match d.push {
        PushM::Static(w) => w,
        PushM::Rope { n_head, stride } => seq![
            n_head,
            c.head_dim as u32,
            c.rope_dim as u32,
            q.pos_bits,
            stride,
        ],
        PushM::RopeKv { n_head, kv_layer_off } => seq![
            n_head,
            c.head_dim as u32,
            c.rope_dim as u32,
            q.pos_bits,
            (kv_layer_off + ((q.total_len() - d.groups_y) * c.kv_dim) as u32) as u32,
        ],
        PushM::Attention { kv_layer_off } => seq![
            c.n_head as u32,
            c.n_head_kv as u32,
            c.head_dim as u32,
            q.total_len(),
            c.kv_dim as u32,
            kv_layer_off,
            c.q_passo() as u32,
        ],
        PushM::AttnReduce => seq![c.n_head as u32, c.head_dim as u32, n_split],
    }
}

/// That the words of the push constants can be computed.
pub open spec fn push_ok(d: DespachoM, c: Cfg, q: Passo) -> bool {
    match d.push {
        PushM::RopeKv { n_head: _, kv_layer_off } => {
            &&& d.groups_y <= q.total_len()
            &&& (q.total_len() - d.groups_y) * c.kv_dim <= usize::MAX
            &&& kv_layer_off + ((q.total_len() - d.groups_y) * c.kv_dim) as u32 <= u32::MAX
        },
        PushM::Attention { .. } => c.q_passo() <= usize::MAX,
        _ => true,
    }
}

pub open spec fn despacha(
    i: int,
    parte: Parte,
    d: DespachoM,
    c: Cfg,
    q: Passo,
    z: u32,
    n_split: u32,
) -> CmdM {
    CmdM::Despacha {
        op: i as usize,
        parte,
        pipe: d.pipe,
        push: palavras(push_de(d, c, q, n_split)),
        x: d.groups,
        y: d.groups_y,
        z,
    }
}

fn gravar_dispatch(
    i: usize,
    parte: Parte,
    d: &Despacho,
    c: &Cfg,
    q: &Passo,
    z: u32,
    n_split: u32,
) -> (r: Comando)
    requires
        q.pos < usize::MAX,
        push_ok(d@, *c, *q),
    ensures
        r@ == despacha(i as int, parte, d@, *c, *q, z, n_split),
{
    let total_len: u32 = (q.pos + 1) as u32;
    let hd: u32 = c.head_dim as u32;
    let ghost w = push_de(d@, *c, *q, n_split);
    let push: Vec<u8> = match &d.push {
        PushSpec::Static(w) => palavras_em_bytes(w),
        PushSpec::Rope { n_head, stride } => {
            let p: Vec<u32> = vec![*n_head, hd, c.rope_dim as u32, q.pos_bits, *stride];
            assert(p@ =~= w);
            palavras_em_bytes(&p)
        },
        PushSpec::RopeKv { n_head, kv_layer_off } => {
            proof {
                assert((total_len - d.groups_y) * c.kv_dim >= 0) by (nonlinear_arith)
                    requires
                        total_len >= d.groups_y,
                ;
            }
            let pos0: usize = (total_len - d.groups_y) as usize;
            let off: u32 = *kv_layer_off + (pos0 * c.kv_dim) as u32;
            let p: Vec<u32> = vec![*n_head, hd, c.rope_dim as u32, q.pos_bits, off];
            assert(p@ =~= w);
            palavras_em_bytes(&p)
        },
        PushSpec::Attention { kv_layer_off } => {
            let passo: usize = if c.delta_net.is_some() {
                c.head_dim * 2
            } else {
                c.head_dim
            };
            let p: Vec<u32> = vec![
                c.n_head as u32,
                c.n_head_kv as u32,
                hd,
                total_len,
                c.kv_dim as u32,
                *kv_layer_off,
                passo as u32,
            ];
            assert(p@ =~= w);
            palavras_em_bytes(&p)
        },
        PushSpec::AttnReduce => {
            let p: Vec<u32> = vec![c.n_head as u32, hd, n_split];
            assert(p@ =~= w);
            palavras_em_bytes(&p)
        },
    };
    Comando::Despacha { op: i, parte, pipe: d.pipe, push, x: d.groups, y: d.groups_y, z }
}

// ---------------------------------------------------------------------------
// Operations
// ---------------------------------------------------------------------------

/// The attention: one dispatch, or the slices and their reduction with a
/// barrier between them.
pub open spec fn cmds_atencao(
    i: int,
    curto: DespachoM,
    split: DespachoM,
    reduce: DespachoM,
    c: Cfg,
    q: Passo,
    forcado: u32,
) -> Seq<CmdM> {
    let n = splits(forcado, q.total_len());
    if n <= 1 {
        seq![despacha(i, Parte::Curto, curto, c, q, 1, 1)]
    } else {
        seq![
            despacha(i, Parte::Split, split, c, q, n, n),
            CmdM::Barreira,
            despacha(i, Parte::Reduce, reduce, c, q, 1, n),
        ]
    }
}

/// Where the block goes in the cache, in bytes.
pub open spec fn byte_no_cache(c: Cfg, slot: int, pos: int) -> int {
    (slot * c.ctx + pos) * c.kv_dim * 4
}

/// The commands of an operation of a block.
pub open spec fn cmds_op(i: int, o: OpM, st: ResidentState, q: Passo, forcado: u32) -> Seq<CmdM> {
    let c = st.cfg;
    let a = st.a;
    match o {
        OpM::Embed => seq![
            CmdM::Copia {
                src: a.embd_stage.buffer,
                dst: a.b_x.buffer,
                src_off: 0,
                dst_off: 0,
                size: (c.n_embd * q.n_tok * 4) as u64,
            },
        ],
        OpM::Copia { src, dst, bytes } => seq![
            CmdM::Copia { src, dst, src_off: 0, dst_off: 0, size: bytes },
        ],
        OpM::KvAppend { slot, com_k } => {
            let dst_off = byte_no_cache(c, slot as int, q.pos + 1 - q.n_tok) as u64;
            let size = (c.kv_dim * q.n_tok * 4) as u64;
            let v = CmdM::Copia {
                src: a.b_v.buffer,
                dst: a.vcache.buffer,
                src_off: 0,
                dst_off,
                size,
            };
            if com_k {
                seq![
                    CmdM::Copia {
                        src: a.b_k.buffer,
                        dst: a.kcache.buffer,
                        src_off: 0,
                        dst_off,
                        size,
                    },
                    v,
                ]
            } else {
                seq![v]
            }
        },
        OpM::KvAppendMtp => Seq::empty(),
        OpM::CopiaHidden => Seq::empty(),
        OpM::Dispatch(d) => seq![despacha(i, Parte::Unica, d, c, q, 1, 1)],
        OpM::Atencao { curto, split, reduce } => cmds_atencao(
            i,
            curto,
            split,
            reduce,
            c,
            q,
            forcado,
        ),
    }
}

/// That an operation can be recorded: its push constants can be computed and its
/// cache slot exists.
pub open spec fn gravavel(o: OpM, st: ResidentState, q: Passo) -> bool {
    match o {
        OpM::Dispatch(d) => push_ok(d, st.cfg, q),
        OpM::KvAppend { slot, com_k: _ } => slot < st.n_slots(),
        OpM::Atencao { curto, split, reduce } => push_ok(curto, st.cfg, q) && push_ok(
            split,
            st.cfg,
            q,
        ) && push_ok(reduce, st.cfg, q),
        _ => true,
    }
}

pub open spec fn todos_gravaveis(p: Seq<OpM>, st: ResidentState, q: Passo) -> bool {
    forall|i: int| 0 <= i < p.len() ==> gravavel(#[trigger] p[i], st, q)
}

/// That the step lies in the cache, and that the cache and the output can be
/// measured in bytes.
pub open spec fn passo_ok(st: ResidentState, q: Passo) -> bool {
    let c = st.cfg;
    &&& 1 <= q.n_tok <= q.pos + 1
    &&& q.pos < c.ctx
    &&& c.n_embd * q.n_tok * 4 <= usize::MAX
    &&& c.vocab * VERIFY_TOK * 4 <= usize::MAX
    &&& st.n_slots() * c.ctx <= usize::MAX
    &&& st.n_slots() * c.ctx * c.kv_dim * 4 <= usize::MAX
    &&& st.n_slots() > 0 ==> c.kv_dim * q.n_tok * 4 <= usize::MAX
}

/// A block appended to a slot stays in the slot.
pub proof fn lei_bloco_no_slot(c: Cfg, q: Passo, slot: int, n_slots: int)
    requires
        0 <= slot < n_slots,
        1 <= q.n_tok <= q.pos + 1,
        q.pos < c.ctx,
    ensures
        byte_no_cache(c, slot, 0) <= byte_no_cache(c, slot, q.pos + 1 - q.n_tok),
        byte_no_cache(c, slot, q.pos + 1 - q.n_tok) + c.kv_dim * q.n_tok * 4 == byte_no_cache(
            c,
            slot,
            q.pos + 1,
        ),
        byte_no_cache(c, slot, q.pos + 1) <= byte_no_cache(c, slot + 1, 0),
        byte_no_cache(c, slot + 1, 0) <= n_slots * c.ctx * c.kv_dim * 4,
        0 <= byte_no_cache(c, slot, 0),
        0 <= slot * c.ctx + q.pos + 1 - q.n_tok <= slot * c.ctx + c.ctx,
        slot * c.ctx + c.ctx <= n_slots * c.ctx,
        slot * c.ctx + q.pos + 1 - q.n_tok <= n_slots * c.ctx,
        0 <= slot * c.ctx <= n_slots * c.ctx,
        0 <= (slot * c.ctx + q.pos + 1 - q.n_tok) * c.kv_dim <= n_slots * c.ctx * c.kv_dim,
{
    let x = c.ctx as int;
    let d = c.kv_dim as int;
    let p0 = q.pos + 1 - q.n_tok;
    let p1 = q.pos + 1;
    let n = q.n_tok as int;
    assert(slot * x >= 0) by (nonlinear_arith)
        requires
            slot >= 0,
            x >= 0,
    ;
    assert((slot + 1) * x == slot * x + x) by (nonlinear_arith);
    assert((slot + 1) * x <= n_slots * x) by (nonlinear_arith)
        requires
            slot + 1 <= n_slots,
            x >= 0,
    ;
    lemma_vezes(slot * x, slot * x + p0, d);
    lemma_vezes(slot * x + p0, n_slots * x, d);
    lemma_vezes(slot * x + p1, (slot + 1) * x, d);
    lemma_vezes((slot + 1) * x, n_slots * x, d);
    assert((slot * x + p1) * d == (slot * x + p0) * d + d * n) by (nonlinear_arith)
        requires
            p1 == p0 + n,
    ;
    assert(slot * x * d >= 0) by (nonlinear_arith)
        requires
            slot * x >= 0,
            d >= 0,
    ;
}

proof fn lemma_vezes(a: int, b: int, d: int)
    requires
        a <= b,
        d >= 0,
    ensures
        a * d <= b * d,
{
    assert(a * d <= b * d) by (nonlinear_arith)
        requires
            a <= b,
            d >= 0,
    ;
}

/// Blocks of different slots, or of one slot at different positions, share no
/// byte of the cache.
pub proof fn lei_blocos_disjuntos(c: Cfg, q: Passo, r: Passo, s: int, t: int)
    requires
        0 <= s,
        0 <= t,
        1 <= q.n_tok <= q.pos + 1,
        1 <= r.n_tok <= r.pos + 1,
        q.pos < c.ctx,
        r.pos < c.ctx,
        s < t || s == t && q.pos + 1 <= r.pos + 1 - r.n_tok,
    ensures
        byte_no_cache(c, s, q.pos + 1 - q.n_tok) + c.kv_dim * q.n_tok * 4 <= byte_no_cache(
            c,
            t,
            r.pos + 1 - r.n_tok,
        ),
{
    let m = if s < t {
        t + 1
    } else {
        s + 1
    };
    lei_bloco_no_slot(c, q, s, m);
    lei_bloco_no_slot(c, r, t, m);
    let x = c.ctx as int;
    let d = c.kv_dim as int;
    if s < t {
        assert((s + 1) * x <= t * x) by (nonlinear_arith)
            requires
                s + 1 <= t,
                x >= 0,
        ;
        lemma_vezes((s + 1) * x, t * x, d);
    } else {
        lemma_vezes(s * x + q.pos + 1, t * x + r.pos + 1 - r.n_tok, d);
    }
}

// ---------------------------------------------------------------------------
// A step
// ---------------------------------------------------------------------------

/// A barrier, if there is to be one.
pub open spec fn se_barreira(b: bool) -> Seq<CmdM> {
    if b {
        seq![CmdM::Barreira]
    } else {
        Seq::empty()
    }
}

/// The commands of the first `n` operations.
pub open spec fn cmds_ate(
    p: Seq<OpM>,
    b: Seq<bool>,
    st: ResidentState,
    q: Passo,
    forcado: u32,
    prof: bool,
    n: int,
) -> Seq<CmdM>
    decreases n,
{
    if n <= 0 {
        Seq::empty()
    } else {
        let i = n - 1;
        cmds_ate(p, b, st, q, forcado, prof, i) + se_barreira(b[i] || prof) + cmds_op(
            i,
            p[i],
            st,
            q,
            forcado,
        ) + if prof {
            seq![CmdM::Tempo { slot: n as u32, topo: false }]
        } else {
            Seq::empty()
        }
    }
}

/// What the shard hands over: logits, or the residual stream.
pub open spec fn cmd_saida(st: ResidentState, q: Passo, modo: Modo) -> CmdM {
    let c = st.cfg;
    let (src, n) = if c.shard.ultimo() {
        (
            st.a.b_logits.buffer,
            if modo is Verify {
                c.vocab * VERIFY_TOK
            } else {
                c.vocab as int
            },
        )
    } else {
        (st.a.b_x.buffer, c.n_embd * q.n_tok)
    };
    CmdM::Copia {
        src,
        dst: st.a.logits_host.buffer,
        src_off: 0,
        dst_off: 0,
        size: (n * 4) as u64,
    }
}

/// The commands of a step.
pub open spec fn passo_gravado(
    p: Seq<OpM>,
    b: Seq<bool>,
    st: ResidentState,
    q: Passo,
    modo: Modo,
    forcado: u32,
    prof: bool,
) -> Seq<CmdM> {
    let inicio = if prof {
        seq![
            CmdM::ZeraTempos { n: (p.len() + 1) as u32 },
            CmdM::Tempo { slot: 0, topo: true },
        ]
    } else {
        Seq::empty()
    };
    inicio + cmds_ate(p, b, st, q, forcado, prof, p.len() as int) + seq![
        CmdM::Barreira,
        cmd_saida(st, q, modo),
    ]
}

pub(crate) fn poe(v: &mut Vec<Comando>, x: Comando)
    ensures
        comandos(final(v)@) == comandos(old(v)@).push(x@),
{
    v.push(x);
    assert(comandos(v@) =~= comandos(old(v)@).push(x@));
}

fn grava_atencao(
    v: &mut Vec<Comando>,
    i: usize,
    curto: &Despacho,
    split: &Despacho,
    reduce: &Despacho,
    c: &Cfg,
    q: &Passo,
    forcado: &SplitsForcados,
)
    requires
        q.pos < usize::MAX,
        push_ok(curto@, *c, *q),
        push_ok(split@, *c, *q),
        push_ok(reduce@, *c, *q),
    ensures
        comandos(final(v)@) == comandos(old(v)@) + cmds_atencao(
            i as int,
            curto@,
            split@,
            reduce@,
            *c,
            *q,
            forcado.n,
        ),
{
    let ghost v0 = comandos(v@);
    let n: u32 = splits_do_kv(forcado, (q.pos + 1) as u32);
    if n <= 1 {
        poe(v, gravar_dispatch(i, Parte::Curto, curto, c, q, 1, 1));
    } else {
        poe(v, gravar_dispatch(i, Parte::Split, split, c, q, n, n));
        poe(v, Comando::Barreira);
        poe(v, gravar_dispatch(i, Parte::Reduce, reduce, c, q, 1, n));
    }
    assert(comandos(v@) =~= v0 + cmds_atencao(
        i as int,
        curto@,
        split@,
        reduce@,
        *c,
        *q,
        forcado.n,
    ));
}

fn grava_op(
    v: &mut Vec<Comando>,
    i: usize,
    o: &PlannedOp,
    st: &ResidentState,
    q: &Passo,
    forcado: &SplitsForcados,
)
    requires
        passo_ok(*st, *q),
        gravavel(o@, *st, *q),
    ensures
        comandos(final(v)@) == comandos(old(v)@) + cmds_op(i as int, o@, *st, *q, forcado.n),
{
    let c = &st.cfg;
    let a = &st.a;
    let ghost v0 = comandos(v@);
    match o {
        PlannedOp::Embed => {
            proof {
                assert(c.n_embd * q.n_tok >= 0) by (nonlinear_arith);
            }
            poe(
                v,
                Comando::Copia {
                    src: a.embd_stage.buffer,
                    dst: a.b_x.buffer,
                    src_off: 0,
                    dst_off: 0,
                    size: (c.n_embd * q.n_tok * 4) as u64,
                },
            );
        },
        PlannedOp::Copia { src, dst, bytes } => {
            poe(
                v,
                Comando::Copia { src: *src, dst: *dst, src_off: 0, dst_off: 0, size: *bytes },
            );
        },
        PlannedOp::KvAppend { slot, com_k } => {
            proof {
                lei_bloco_no_slot(*c, *q, *slot as int, st.n_slots());
                assert(c.kv_dim * q.n_tok >= 0) by (nonlinear_arith);
            }
            let pos0: usize = q.pos + 1 - q.n_tok;
            let dst_off: u64 = ((*slot * c.ctx + pos0) * c.kv_dim * 4) as u64;
            let size: u64 = (c.kv_dim * q.n_tok * 4) as u64;
            if *com_k {
                poe(
                    v,
                    Comando::Copia {
                        src: a.b_k.buffer,
                        dst: a.kcache.buffer,
                        src_off: 0,
                        dst_off,
                        size,
                    },
                );
            }
            poe(
                v,
                Comando::Copia {
                    src: a.b_v.buffer,
                    dst: a.vcache.buffer,
                    src_off: 0,
                    dst_off,
                    size,
                },
            );
        },
        PlannedOp::KvAppendMtp => {},
        PlannedOp::CopiaHidden => {},
        PlannedOp::Dispatch(d) => {
            poe(v, gravar_dispatch(i, Parte::Unica, d, c, q, 1, 1));
        },
        PlannedOp::Atencao { curto, split, reduce } => {
            grava_atencao(v, i, curto, split, reduce, c, q, forcado);
        },
    }
    assert(comandos(v@) =~= v0 + cmds_op(i as int, o@, *st, *q, forcado.n));
}

/// Records a step: the operations of the plan in order, with a barrier before
/// those that are marked, and a copy of the result to the host. With `prof` a
/// timestamp follows each operation, and every one has a barrier before it.
pub fn record_token(
    st: &ResidentState,
    plan: &Vec<PlannedOp>,
    barreiras: &Vec<bool>,
    q: &Passo,
    modo: Modo,
    forcado: &SplitsForcados,
    prof: bool,
) -> (r: Vec<Comando>)
    requires
        plan.len() == barreiras.len(),
        plan.len() < usize::MAX,
        passo_ok(*st, *q),
        todos_gravaveis(plano_de(plan@), *st, *q),
    ensures
        comandos(r@) == passo_gravado(
            plano_de(plan@),
            barreiras@,
            *st,
            *q,
            modo,
            forcado.n,
            prof,
        ),
{
    let c = &st.cfg;
    let ghost p = plano_de(plan@);
    let mut v: Vec<Comando> = Vec::new();
    if prof {
        poe(&mut v, Comando::ZeraTempos { n: (plan.len() + 1) as u32 });
        poe(&mut v, Comando::Tempo { slot: 0, topo: true });
    }
    let ghost v0 = comandos(v@);
    let mut i: usize = 0;
    assert(comandos(v@) =~= v0 + cmds_ate(p, barreiras@, *st, *q, forcado.n, prof, 0));
    while i < plan.len()
        invariant
            i <= plan.len(),
            plan.len() == barreiras.len(),
            plan.len() < usize::MAX,
            p == plano_de(plan@),
            passo_ok(*st, *q),
            todos_gravaveis(p, *st, *q),
            comandos(v@) == v0 + cmds_ate(p, barreiras@, *st, *q, forcado.n, prof, i as int),
        decreases plan.len() - i,
    {
        proof {
            assert(p[i as int] == plan@[i as int]@);
            assert(gravavel(p[i as int], *st, *q));
        }
        if barreiras[i] || prof {
            poe(&mut v, Comando::Barreira);
        }
        grava_op(&mut v, i, &plan[i], st, q, forcado);
        i += 1;
        if prof {
            poe(&mut v, Comando::Tempo { slot: i as u32, topo: false });
        }
        assert(comandos(v@) =~= v0 + cmds_ate(
            p,
            barreiras@,
            *st,
            *q,
            forcado.n,
            prof,
            i as int,
        ));
    }
    poe(&mut v, Comando::Barreira);
    proof {
        assert(c.n_embd * q.n_tok >= 0) by (nonlinear_arith);
    }
    let (src, n): (u64, usize) = if c.shard.is_last() {
        (
            st.a.b_logits.buffer,
            if modo == Modo::Verify {
                c.vocab * VERIFY_TOK
            } else {
                c.vocab
            },
        )
    } else {
        (st.a.b_x.buffer, c.n_embd * q.n_tok)
    };
    poe(
        &mut v,
        Comando::Copia {
            src,
            dst: st.a.logits_host.buffer,
            src_off: 0,
            dst_off: 0,
            size: (n * 4) as u64,
        },
    );
    assert(comandos(v@) =~= passo_gravado(p, barreiras@, *st, *q, modo, forcado.n, prof));
    v
}

// ---------------------------------------------------------------------------
// The prediction head
// ---------------------------------------------------------------------------

/// The commands of an operation of the prediction head.
pub open spec fn cmds_op_mtp(
    i: int,
    o: OpM,
    st: ResidentState,
    m: MtpBufs,
    q: Passo,
    h: Hidden,
    forcado: u32,
) -> Seq<CmdM> {
    let c = st.cfg;
    match o {
        OpM::Dispatch(d) => seq![despacha(i, Parte::Unica, d, c, q, 1, 1)],
        OpM::Copia { src, dst, bytes } => seq![
            CmdM::Copia { src, dst, src_off: 0, dst_off: 0, size: bytes },
        ],
        OpM::CopiaHidden => {
            let (src, src_off) = match h {
                Hidden::Cabeca => (m.b_x.buffer, 0u64),
                Hidden::Tronco(j) => (st.a.b_x.buffer, (j * c.n_embd * 4) as u64),
            };
            seq![
                CmdM::Copia {
                    src,
                    dst: m.b_h.buffer,
                    src_off,
                    dst_off: 0,
                    size: (c.n_embd * 4) as u64,
                },
            ]
        },
        OpM::KvAppendMtp => {
            let dst_off = (q.pos * c.kv_dim * 4) as u64;
            let size = (c.kv_dim * 4) as u64;
            seq![
                CmdM::Copia {
                    src: st.a.b_k.buffer,
                    dst: m.kcache.buffer,
                    src_off: 0,
                    dst_off,
                    size,
                },
                CmdM::Copia {
                    src: st.a.b_v.buffer,
                    dst: m.vcache.buffer,
                    src_off: 0,
                    dst_off,
                    size,
                },
            ]
        },
        OpM::Atencao { curto, split, reduce } => cmds_atencao(
            i,
            curto,
            split,
            reduce,
            c,
            q,
            forcado,
        ),
        OpM::Embed => Seq::empty(),
        OpM::KvAppend { .. } => Seq::empty(),
    }
}

pub open spec fn cmds_mtp_ate(
    p: Seq<OpM>,
    b: Seq<bool>,
    st: ResidentState,
    m: MtpBufs,
    q: Passo,
    h: Hidden,
    forcado: u32,
    n: int,
) -> Seq<CmdM>
    decreases n,
{
    if n <= 0 {
        Seq::empty()
    } else {
        let i = n - 1;
        cmds_mtp_ate(p, b, st, m, q, h, forcado, i) + se_barreira(
            if i < b.len() {
                b[i]
            } else {
                true
            },
        ) + cmds_op_mtp(i, p[i], st, m, q, h, forcado)
    }
}

/// The commands of a proposal; none without a head.
pub open spec fn proposta_gravada(
    p: Seq<OpM>,
    b: Seq<bool>,
    st: ResidentState,
    q: Passo,
    h: Hidden,
    forcado: u32,
) -> Seq<CmdM> {
    match st.mtp {
        None => Seq::empty(),
        Some(m) => cmds_mtp_ate(p, b, st, m, q, h, forcado, p.len() as int) + seq![
            CmdM::Barreira,
            CmdM::Copia {
                src: st.a.b_logits.buffer,
                dst: st.a.logits_host.buffer,
                src_off: 0,
                dst_off: 0,
                size: (st.cfg.vocab * 4) as u64,
            },
        ],
    }
}

/// That a proposal can be recorded.
pub open spec fn proposta_ok(st: ResidentState, q: Passo, h: Hidden) -> bool {
    let c = st.cfg;
    &&& q.pos < c.ctx
    &&& c.n_embd * 4 <= usize::MAX
    &&& c.vocab * 4 <= usize::MAX
    &&& c.ctx * c.kv_dim * 4 <= usize::MAX
    &&& h matches Hidden::Tronco(j) ==> j * c.n_embd * 4 <= usize::MAX
}

fn grava_op_mtp(
    v: &mut Vec<Comando>,
    i: usize,
    o: &PlannedOp,
    st: &ResidentState,
    m: &MtpBufs,
    q: &Passo,
    h: Hidden,
    forcado: &SplitsForcados,
)
    requires
        proposta_ok(*st, *q, h),
        gravavel(o@, *st, *q),
    ensures
        comandos(final(v)@) == comandos(old(v)@) + cmds_op_mtp(
            i as int,
            o@,
            *st,
            *m,
            *q,
            h,
            forcado.n,
        ),
{
    let c = &st.cfg;
    let ghost v0 = comandos(v@);
    match o {
        PlannedOp::Dispatch(d) => {
            poe(v, gravar_dispatch(i, Parte::Unica, d, c, q, 1, 1));
        },
        PlannedOp::Copia { src, dst, bytes } => {
            poe(
                v,
                Comando::Copia { src: *src, dst: *dst, src_off: 0, dst_off: 0, size: *bytes },
            );
        },
        PlannedOp::CopiaHidden => {
            let (src, src_off): (u64, u64) = match h {
                Hidden::Cabeca => (m.b_x.buffer, 0),
                Hidden::Tronco(j) => {
                    proof {
                        assert(j * c.n_embd >= 0) by (nonlinear_arith);
                    }
                    (st.a.b_x.buffer, (j * c.n_embd * 4) as u64)
                },
            };
            poe(
                v,
                Comando::Copia {
                    src,
                    dst: m.b_h.buffer,
                    src_off,
                    dst_off: 0,
                    size: (c.n_embd * 4) as u64,
                },
            );
        },
        PlannedOp::KvAppendMtp => {
            proof {
                lemma_vezes(q.pos as int, c.ctx as int, c.kv_dim as int);
                lemma_vezes(1, c.ctx as int, c.kv_dim as int);
                assert(q.pos * c.kv_dim >= 0) by (nonlinear_arith);
            }
            let dst_off: u64 = (q.pos * c.kv_dim * 4) as u64;
            let size: u64 = (c.kv_dim * 4) as u64;
            poe(
                v,
                Comando::Copia {
                    src: st.a.b_k.buffer,
                    dst: m.kcache.buffer,
                    src_off: 0,
                    dst_off,
                    size,
                },
            );
            poe(
                v,
                Comando::Copia {
                    src: st.a.b_v.buffer,
                    dst: m.vcache.buffer,
                    src_off: 0,
                    dst_off,
                    size,
                },
            );
        },
        PlannedOp::Atencao { curto, split, reduce } => {
            grava_atencao(v, i, curto, split, reduce, c, q, forcado);
        },
        PlannedOp::Embed => {},
        PlannedOp::KvAppend { .. } => {},
    }
    assert(comandos(v@) =~= v0 + cmds_op_mtp(i as int, o@, *st, *m, *q, h, forcado.n));
}

/// Records a proposal of the prediction head at the position `q.pos` of its own
/// cache.
pub fn record_mtp(
    st: &ResidentState,
    plan: &Vec<PlannedOp>,
    barreiras: &Vec<bool>,
    q: &Passo,
    h: Hidden,
    forcado: &SplitsForcados,
) -> (r: Vec<Comando>)
    requires
        proposta_ok(*st, *q, h),
        todos_gravaveis(plano_de(plan@), *st, *q),
    ensures
        comandos(r@) == proposta_gravada(plano_de(plan@), barreiras@, *st, *q, h, forcado.n),
{
    let mut v: Vec<Comando> = Vec::new();
    let ghost p = plano_de(plan@);
    if let Some(m) = &st.mtp {
        let mut i: usize = 0;
        assert(comandos(v@) =~= cmds_mtp_ate(p, barreiras@, *st, *m, *q, h, forcado.n, 0));
        while i < plan.len()
            invariant
                i <= plan.len(),
                p == plano_de(plan@),
                proposta_ok(*st, *q, h),
                todos_gravaveis(p, *st, *q),
                comandos(v@) == cmds_mtp_ate(p, barreiras@, *st, *m, *q, h, forcado.n, i as int),
            decreases plan.len() - i,
        {
            proof {
                assert(p[i as int] == plan@[i as int]@);
                assert(gravavel(p[i as int], *st, *q));
            }
            let barreira = if i < barreiras.len() {
                barreiras[i]
            } else {
                true
            };
            if barreira {
                poe(&mut v, Comando::Barreira);
            }
            grava_op_mtp(&mut v, i, &plan[i], st, m, q, h, forcado);
            i += 1;
            assert(comandos(v@) =~= cmds_mtp_ate(
                p,
                barreiras@,
                *st,
                *m,
                *q,
                h,
                forcado.n,
                i as int,
            ));
        }
        poe(&mut v, Comando::Barreira);
        poe(
            &mut v,
            Comando::Copia {
                src: st.a.b_logits.buffer,
                dst: st.a.logits_host.buffer,
                src_off: 0,
                dst_off: 0,
                size: (st.cfg.vocab * 4) as u64,
            },
        );
    }
    assert(comandos(v@) =~= proposta_gravada(p, barreiras@, *st, *q, h, forcado.n));
    v
}

} // verus!
