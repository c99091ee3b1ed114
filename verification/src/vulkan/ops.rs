//! The operations of a plan: pipelines, the memory they touch, and their push
//! constants.

use vstd::prelude::*;

verus! {

/// The quantized types of the weights.
#[allow(non_camel_case_types)]
#[derive(Clone, Copy, Debug, PartialEq, Eq, Structural)]
pub enum GgmlType {
    F32,
    F16,
    Q8_0,
    Q4_K,
    Q5_K,
    Q6_K,
}

/// Which pipeline a dispatch runs.
#[derive(Clone, Copy, Debug, PartialEq, Eq, Structural)]
pub enum PipeId {
    Matvec,
    MatvecQ5K,
    MatvecQ6K,
    MatvecQ4K,
    /// The same four for a block of the prefill.
    MatvecB,
    MatvecQ5KB,
    MatvecQ6KB,
    MatvecQ4KB,
    /// Tiled product, for the prefill.
    MulMmQ4K,
    /// The same four for the verification of proposed tokens.
    MatvecV,
    MatvecQ5KV,
    MatvecQ6KV,
    MatvecQ4KV,
    QuantizeX,
    /// Residual and partial sums of the norm.
    NormFused,
    /// Scale and quantization, which ends the norm.
    NormP2,
    Rope,
    /// Rotation of K that writes straight to the cache.
    RopeKv,
    Attention,
    AttentionSplit,
    AttnReduce,
    /// `silu(gate) * up`, quantized in the same pass.
    SwigluQuant,
    Add,
    DeltaNet,
    DnConv,
    DnGates,
    DnNorm,
    /// L2 norm of q and k in one dispatch.
    DnL2Qk,
    /// Sigmoid gate, quantized in the same pass.
    GateQuant,
}

pub open spec fn rotulo(p: PipeId) -> Seq<char> {
    match p {
        PipeId::Matvec => "matvec"@,
        PipeId::MatvecQ5K => "matvec_q5k"@,
        PipeId::MatvecQ6K => "matvec_q6k"@,
        PipeId::MatvecQ4K => "matvec_q4k"@,
        PipeId::MatvecB => "matvec_b"@,
        PipeId::MatvecQ5KB => "matvec_q5k_b"@,
        PipeId::MatvecQ6KB => "matvec_q6k_b"@,
        PipeId::MatvecQ4KB => "matvec_q4k_b"@,
        PipeId::MulMmQ4K => "mul_mm_q4k"@,
        PipeId::MatvecV => "matvec_v"@,
        PipeId::MatvecQ5KV => "matvec_q5k_v"@,
        PipeId::MatvecQ6KV => "matvec_q6k_v"@,
        PipeId::MatvecQ4KV => "matvec_q4k_v"@,
        PipeId::QuantizeX => "quantize_x"@,
        PipeId::NormFused => "norm_fused"@,
        PipeId::NormP2 => "norm_p2"@,
        PipeId::Rope => "rope"@,
        PipeId::RopeKv => "rope_kv"@,
        PipeId::Attention => "attention"@,
        PipeId::AttentionSplit => "attention_split"@,
        PipeId::AttnReduce => "attn_reduce"@,
        PipeId::SwigluQuant => "swiglu_quant"@,
        PipeId::Add => "add"@,
        PipeId::DeltaNet => "delta_net"@,
        PipeId::DnConv => "dn_conv"@,
        PipeId::DnGates => "dn_gates"@,
        PipeId::DnNorm => "dn_norm"@,
        PipeId::DnL2Qk => "dn_l2_qk"@,
        PipeId::GateQuant => "gate_quant"@,
    }
}

/// The bindings that a shader reads and those that it writes. One that is both
/// read and written is in both lists.
pub open spec fn acessos_de(p: PipeId) -> (Seq<usize>, Seq<usize>) {
    match p {
        PipeId::Attention | PipeId::AttentionSplit => (seq![0usize, 1, 2], seq![3usize]),
        PipeId::AttnReduce => (seq![0usize], seq![1usize]),
        PipeId::QuantizeX => (seq![0usize], seq![1usize, 2]),
        PipeId::SwigluQuant => (seq![0usize, 1, 2], seq![2usize, 3, 4]),
        PipeId::NormFused => (seq![0usize, 1], seq![0usize, 2]),
        PipeId::NormP2 => (seq![0usize, 1, 2], seq![3usize, 4, 5]),
        PipeId::Rope | PipeId::Add => (seq![0usize, 1], seq![0usize]),
        PipeId::RopeKv => (seq![0usize, 1], seq![2usize]),
        PipeId::DeltaNet => (seq![0usize, 1, 2, 3, 4], seq![0usize, 5]),
        PipeId::DnConv => (seq![0usize, 1, 2], seq![0usize, 3]),
        PipeId::DnGates => (seq![0usize, 1, 2, 3], seq![4usize]),
        PipeId::DnNorm => (seq![0usize, 1, 2], seq![3usize]),
        PipeId::DnL2Qk => (seq![0usize], seq![1usize, 2]),
        PipeId::GateQuant => (seq![0usize, 1], seq![0usize, 2, 3]),
        _ => (seq![0usize, 1, 2, 4], seq![3usize]),
    }
}

impl PipeId {
    pub fn label(self) -> (r: &'static str)
        ensures
            r@ == rotulo(self),
    {
        match self {
            PipeId::Matvec => "matvec",
            PipeId::MatvecQ5K => "matvec_q5k",
            PipeId::MatvecQ6K => "matvec_q6k",
            PipeId::MatvecQ4K => "matvec_q4k",
            PipeId::MatvecB => "matvec_b",
            PipeId::MatvecQ5KB => "matvec_q5k_b",
            PipeId::MatvecQ6KB => "matvec_q6k_b",
            PipeId::MatvecQ4KB => "matvec_q4k_b",
            PipeId::MulMmQ4K => "mul_mm_q4k",
            PipeId::MatvecV => "matvec_v",
            PipeId::MatvecQ5KV => "matvec_q5k_v",
            PipeId::MatvecQ6KV => "matvec_q6k_v",
            PipeId::MatvecQ4KV => "matvec_q4k_v",
            PipeId::QuantizeX => "quantize_x",
            PipeId::NormFused => "norm_fused",
            PipeId::NormP2 => "norm_p2",
            PipeId::Rope => "rope",
            PipeId::RopeKv => "rope_kv",
            PipeId::Attention => "attention",
            PipeId::AttentionSplit => "attention_split",
            PipeId::AttnReduce => "attn_reduce",
            PipeId::SwigluQuant => "swiglu_quant",
            PipeId::Add => "add",
            PipeId::DeltaNet => "delta_net",
            PipeId::DnConv => "dn_conv",
            PipeId::DnGates => "dn_gates",
            PipeId::DnNorm => "dn_norm",
            PipeId::DnL2Qk => "dn_l2_qk",
            PipeId::GateQuant => "gate_quant",
        }
    }

    /// The bindings that the shader reads and those that it writes.
    pub fn acessos(self) -> (r: (Vec<usize>, Vec<usize>))
        ensures
            (r.0@, r.1@) == acessos_de(self),
    {
        let r: (Vec<usize>, Vec<usize>) = match self {
            PipeId::Attention | PipeId::AttentionSplit => (vec![0, 1, 2], vec![3]),
            PipeId::AttnReduce => (vec![0], vec![1]),
            PipeId::QuantizeX => (vec![0], vec![1, 2]),
            PipeId::SwigluQuant => (vec![0, 1, 2], vec![2, 3, 4]),
            PipeId::NormFused => (vec![0, 1], vec![0, 2]),
            PipeId::NormP2 => (vec![0, 1, 2], vec![3, 4, 5]),
            PipeId::Rope | PipeId::Add => (vec![0, 1], vec![0]),
            PipeId::RopeKv => (vec![0, 1], vec![2]),
            PipeId::DeltaNet => (vec![0, 1, 2, 3, 4], vec![0, 5]),
            PipeId::DnConv => (vec![0, 1, 2], vec![0, 3]),
            PipeId::DnGates => (vec![0, 1, 2, 3], vec![4]),
            PipeId::DnNorm => (vec![0, 1, 2], vec![3]),
            PipeId::DnL2Qk => (vec![0], vec![1, 2]),
            PipeId::GateQuant => (vec![0, 1], vec![0, 2, 3]),
            _ => (vec![0, 1, 2, 4], vec![3]),
        };
        proof {
            assert(r.0@ =~= acessos_de(self).0);
            assert(r.1@ =~= acessos_de(self).1);
        }
        r
    }
}

/// A stretch of a buffer.
#[derive(Clone, Copy, Debug, PartialEq, Eq, Structural)]
pub struct Faixa {
    pub buffer: u64,
    pub offset: u64,
    pub bytes: u64,
}

impl Faixa {
    /// Whether the byte at `b` of `buffer` is in the stretch.
    pub open spec fn tem(self, buffer: u64, b: int) -> bool {
        self.buffer == buffer && self.offset <= b < self.offset + self.bytes
    }

    /// The test of two stretches for a common byte.
    pub open spec fn cruza(self, o: Faixa) -> bool {
        self.buffer == o.buffer && self.offset < o.offset + o.bytes && o.offset < self.offset
            + self.bytes
    }
}

/// Two stretches that share a byte cross; and two that cross and are not empty
/// share one.
pub proof fn lei_cruza(a: Faixa, b: Faixa)
    ensures
        forall|buffer: u64, x: int|
            #![trigger a.tem(buffer, x), b.tem(buffer, x)]
            a.tem(buffer, x) && b.tem(buffer, x) ==> a.cruza(b),
        a.cruza(b) && a.bytes > 0 && b.bytes > 0 ==> exists|x: int|
            #![trigger a.tem(a.buffer, x)]
            a.tem(a.buffer, x) && b.tem(a.buffer, x),
        a.cruza(b) == b.cruza(a),
{
    if a.cruza(b) && a.bytes > 0 && b.bytes > 0 {
        let x = if a.offset < b.offset {
            b.offset as int
        } else {
            a.offset as int
        };
        assert(a.tem(a.buffer, x) && b.tem(a.buffer, x));
    }
}

/// Whether two stretches are of one buffer and cross.
pub fn sobrepoe(a: &Faixa, b: &Faixa) -> (r: bool)
    ensures
        r == a.cruza(*b),
{
    a.buffer == b.buffer && (a.offset as u128) < b.offset as u128 + b.bytes as u128 && (
    b.offset as u128) < a.offset as u128 + a.bytes as u128
}

/// How the push constants of a dispatch come about.
#[derive(Debug)]
pub enum PushSpec {
    /// Words that are known when the plan is made.
    Static(Vec<u32>),
    /// Rotation: needs the position.
    Rope { n_head: u32, stride: u32 },
    /// Rotation of K into the cache: needs the position and the slot's offset.
    RopeKv { n_head: u32, kv_layer_off: u32 },
    /// Attention: needs the length of the cache.
    Attention { kv_layer_off: u32 },
    /// Reduction of the slices: needs their number.
    AttnReduce,
}

#[verifier::ext_equal]
pub enum PushM {
    Static(Seq<u32>),
    Rope { n_head: u32, stride: u32 },
    RopeKv { n_head: u32, kv_layer_off: u32 },
    Attention { kv_layer_off: u32 },
    AttnReduce,
}

impl View for PushSpec {
    type V = PushM;

    open spec fn view(&self) -> PushM {
        match self {
            PushSpec::Static(w) => PushM::Static(w@),
            PushSpec::Rope { n_head, stride } => PushM::Rope { n_head: *n_head, stride: *stride },
            PushSpec::RopeKv { n_head, kv_layer_off } => PushM::RopeKv {
                n_head: *n_head,
                kv_layer_off: *kv_layer_off,
            },
            PushSpec::Attention { kv_layer_off } => PushM::Attention {
                kv_layer_off: *kv_layer_off,
            },
            PushSpec::AttnReduce => PushM::AttnReduce,
        }
    }
}

/// A dispatch: a pipeline, what is bound to it, its workgroups and its push
/// constants.
#[derive(Debug)]
pub struct Despacho {
    pub pipe: PipeId,
    pub binds: Vec<Faixa>,
    pub groups: u32,
    /// The token of the block, in the shaders that take it from there.
    pub groups_y: u32,
    pub push: PushSpec,
}

#[verifier::ext_equal]
pub struct DespachoM {
    pub pipe: PipeId,
    pub binds: Seq<Faixa>,
    pub groups: u32,
    pub groups_y: u32,
    pub push: PushM,
}

impl View for Despacho {
    type V = DespachoM;

    open spec fn view(&self) -> DespachoM {
        DespachoM {
            pipe: self.pipe,
            binds: self.binds@,
            groups: self.groups,
            groups_y: self.groups_y,
            push: self.push@,
        }
    }
}

/// The bindings with those numbers; a number that is none is left out.
pub open spec fn escolhidas(binds: Seq<Faixa>, idx: Seq<usize>) -> Seq<Faixa>
    decreases idx.len(),
{
    if idx.len() == 0 {
        Seq::empty()
    } else {
        let r = escolhidas(binds, idx.drop_last());
        if idx.last() < binds.len() {
            r.push(binds[idx.last() as int])
        } else {
            r
        }
    }
}

/// The elements without those that came before.
pub open spec fn sem_repetir(s: Seq<Faixa>) -> Seq<Faixa>
    decreases s.len(),
{
    if s.len() == 0 {
        Seq::empty()
    } else {
        let r = sem_repetir(s.drop_last());
        if r.contains(s.last()) {
            r
        } else {
            r.push(s.last())
        }
    }
}

pub open spec fn soma_bytes(s: Seq<Faixa>) -> int
    decreases s.len(),
{
    if s.len() == 0 {
        0
    } else {
        soma_bytes(s.drop_last()) + s.last().bytes
    }
}

impl DespachoM {
    pub open spec fn le(self) -> Seq<Faixa> {
        escolhidas(self.binds, acessos_de(self.pipe).0)
    }

    pub open spec fn esc(self) -> Seq<Faixa> {
        escolhidas(self.binds, acessos_de(self.pipe).1)
    }

    /// Bytes that the dispatch reads, each stretch counted once. What the
    /// attention reads depends on the length of the cache and is not counted.
    pub open spec fn bytes(self) -> int {
        match self.pipe {
            PipeId::Attention | PipeId::AttentionSplit | PipeId::AttnReduce => 0,
            _ => soma_bytes(sem_repetir(self.le())),
        }
    }
}

fn escolhe(binds: &Vec<Faixa>, idx: &Vec<usize>) -> (r: Vec<Faixa>)
    ensures
        r@ == escolhidas(binds@, idx@),
{
    let mut r: Vec<Faixa> = Vec::new();
    let mut i: usize = 0;
    proof {
        assert(idx@.take(0) =~= Seq::<usize>::empty());
    }
    while i < idx.len()
        invariant
            i <= idx.len(),
            r@ == escolhidas(binds@, idx@.take(i as int)),
        decreases idx.len() - i,
    {
        proof {
            assert(idx@.take(i + 1).drop_last() =~= idx@.take(i as int));
            assert(idx@.take(i + 1).last() == idx@[i as int]);
        }
        let k: usize = idx[i];
        if k < binds.len() {
            r.push(binds[k]);
        }
        i += 1;
    }
    assert(idx@.take(i as int) =~= idx@);
    r
}

fn contem(v: &Vec<Faixa>, f: &Faixa) -> (r: bool)
    ensures
        r == v@.contains(*f),
{
    let mut i: usize = 0;
    while i < v.len()
        invariant
            i <= v.len(),
            forall|k: int| 0 <= k < i ==> v@[k] != *f,
        decreases v.len() - i,
    {
        if v[i] == *f {
            assert(v@[i as int] == *f);
            return true;
        }
        i += 1;
    }
    false
}

impl Despacho {
    /// The stretches that the dispatch reads.
    pub fn le(&self) -> (r: Vec<Faixa>)
        ensures
            r@ == self@.le(),
    {
        let (a, _) = self.pipe.acessos();
        escolhe(&self.binds, &a)
    }

    /// The stretches that the dispatch writes.
    pub fn esc(&self) -> (r: Vec<Faixa>)
        ensures
            r@ == self@.esc(),
    {
        let (_, b) = self.pipe.acessos();
        escolhe(&self.binds, &b)
    }

    /// Bytes that the dispatch reads.
    pub fn bytes(&self) -> (r: u128)
        ensures
            r == self@.bytes(),
    {
        match self.pipe {
            PipeId::Attention | PipeId::AttentionSplit | PipeId::AttnReduce => {
                return 0;
            },
            _ => {},
        }
        let le = self.le();
        let mut vistas: Vec<Faixa> = Vec::new();
        let mut soma: u128 = 0;
        let mut i: usize = 0;
        proof {
            assert(le@.take(0) =~= Seq::<Faixa>::empty());
            assert(vistas@ =~= Seq::<Faixa>::empty());
        }
        while i < le.len()
            invariant
                i <= le.len(),
                vistas@ == sem_repetir(le@.take(i as int)),
                soma == soma_bytes(vistas@),
                soma <= i * 0xffff_ffff_ffff_ffff,
            decreases le.len() - i,
        {
            proof {
                assert(le@.take(i + 1).drop_last() =~= le@.take(i as int));
                assert(le@.take(i + 1).last() == le@[i as int]);
                assert(i * 0xffff_ffff_ffff_ffff <= 0xffff_ffff_ffff_ffff * 0xffff_ffff_ffff_ffff)
                    by (nonlinear_arith)
                    requires
                        i <= 0xffff_ffff_ffff_ffff,
                ;
                assert((i + 1) * 0xffff_ffff_ffff_ffff == i * 0xffff_ffff_ffff_ffff
                    + 0xffff_ffff_ffff_ffff) by (nonlinear_arith);
            }
            if !contem(&vistas, &le[i]) {
                soma = soma + le[i].bytes as u128;
                let ghost v0 = vistas@;
                vistas.push(le[i]);
                assert(vistas@.drop_last() =~= v0);
            }
            i += 1;
        }
        assert(le@.take(i as int) =~= le@);
        soma
    }
}

/// An operation of a token.
#[derive(Debug)]
pub enum PlannedOp {
    Dispatch(Despacho),
    /// Copies the embedding of each token of the block, or the residual stream
    /// of the GPU before, to the residual stream.
    Embed,
    /// Copies the beginning of one buffer to another.
    Copia { src: u64, dst: u64, bytes: u64 },
    /// Appends the block's V, and its K too if `com_k` is set, to a cache slot.
    KvAppend { slot: usize, com_k: bool },
    /// The same for the cache of the prediction head.
    KvAppendMtp,
    /// Copies the hidden state of one of the tokens of the last step to the
    /// prediction head.
    CopiaHidden,
    /// Attention in one go, or in slices with a reduction after them. Which one
    /// is chosen when the token is recorded.
    Atencao { curto: Despacho, split: Despacho, reduce: Despacho },
}

#[verifier::ext_equal]
pub enum OpM {
    Dispatch(DespachoM),
    Embed,
    Copia { src: u64, dst: u64, bytes: u64 },
    KvAppend { slot: usize, com_k: bool },
    KvAppendMtp,
    CopiaHidden,
    Atencao { curto: DespachoM, split: DespachoM, reduce: DespachoM },
}

impl View for PlannedOp {
    type V = OpM;

    open spec fn view(&self) -> OpM {
        match self {
            PlannedOp::Dispatch(d) => OpM::Dispatch(d@),
            PlannedOp::Embed => OpM::Embed,
            PlannedOp::Copia { src, dst, bytes } => OpM::Copia {
                src: *src,
                dst: *dst,
                bytes: *bytes,
            },
            PlannedOp::KvAppend { slot, com_k } => OpM::KvAppend { slot: *slot, com_k: *com_k },
            PlannedOp::KvAppendMtp => OpM::KvAppendMtp,
            PlannedOp::CopiaHidden => OpM::CopiaHidden,
            PlannedOp::Atencao { curto, split, reduce } => OpM::Atencao {
                curto: curto@,
                split: split@,
                reduce: reduce@,
            },
        }
    }
}

/// The plan as plain data.
pub open spec fn plano_de(p: Seq<PlannedOp>) -> Seq<OpM> {
    p.map_values(|o: PlannedOp| o@)
}

pub open spec fn rotulo_op(o: OpM) -> Seq<char> {
    match o {
        OpM::Dispatch(d) => rotulo(d.pipe),
        OpM::Embed => "embed"@,
        OpM::Copia { .. } => "copia"@,
        OpM::CopiaHidden => "copia"@,
        OpM::KvAppend { .. } => "kv_append"@,
        OpM::KvAppendMtp => "kv_append"@,
        OpM::Atencao { .. } => "attention"@,
    }
}

impl PlannedOp {
    pub fn label(&self) -> (r: &'static str)
        ensures
            r@ == rotulo_op(self@),
    {
        match self {
            PlannedOp::Dispatch(d) => d.pipe.label(),
            PlannedOp::Embed => "embed",
            PlannedOp::Copia { .. } => "copia",
            PlannedOp::CopiaHidden => "copia",
            PlannedOp::KvAppend { .. } => "kv_append",
            PlannedOp::KvAppendMtp => "kv_append",
            PlannedOp::Atencao { .. } => "attention",
        }
    }
}

/// Labels of the operations of a plan, in order.
pub fn dbg_plano(plano: &Vec<PlannedOp>) -> (r: Vec<&'static str>)
    ensures
        r.len() == plano.len(),
        forall|i: int| 0 <= i < r.len() ==> (#[trigger] r[i])@ == rotulo_op(plano[i]@),
{
    let mut r: Vec<&'static str> = Vec::new();
    let mut i: usize = 0;
    while i < plano.len()
        invariant
            i <= plano.len(),
            r.len() == i,
            forall|k: int| 0 <= k < i ==> (#[trigger] r[k])@ == rotulo_op(plano[k]@),
        decreases plano.len() - i,
    {
        r.push(plano[i].label());
        i += 1;
    }
    r
}

} // verus!
