//! Single kernels, run on their own.

use vstd::prelude::*;

use crate::tokenizer::texto::mesmo_texto;
use crate::vulkan::contas::{palavras, palavras_em_bytes};
use crate::vulkan::erro::{falta_recurso, sem_recurso, MatmulError};
use crate::vulkan::estado::{Ativacoes, Buf};
use crate::vulkan::layout::MAX_HEAD_DIM;
use crate::vulkan::ops::PipeId;
use crate::vulkan::planejar::groups_for;
use crate::vulkan::plano::grupos;

verus! {

/// A run of a kernel: the bytes of what is bound in order, the push constants
/// and the workgroups.
#[derive(Debug)]
pub struct Ensaio {
    pub tamanhos: Vec<u64>,
    pub push: Vec<u8>,
    pub x: u32,
    pub y: u32,
    pub z: u32,
}

pub struct EnsaioM {
    pub tamanhos: Seq<u64>,
    pub push: Seq<u8>,
    pub x: u32,
    pub y: u32,
    pub z: u32,
}

impl View for Ensaio {
    type V = EnsaioM;

    open spec fn view(&self) -> EnsaioM {
        EnsaioM {
            tamanhos: self.tamanhos@,
            push: self.push@,
            x: self.x,
            y: self.y,
            z: self.z,
        }
    }
}

/// Bytes of `n` numbers.
pub open spec fn floats(n: int) -> u64 {
    (n * 4) as u64
}

pub open spec fn ensaio(t: Seq<u64>, push: Seq<u32>, x: u32, y: u32, z: u32) -> EnsaioM {
    EnsaioM { tamanhos: t, push: palavras(push), x, y, z }
}

fn faz(tamanhos: Vec<u64>, push: Vec<u32>, x: u32, y: u32, z: u32) -> (r: Ensaio)
    ensures
        r@ == ensaio(tamanhos@, push@, x, y, z),
{
    Ensaio { tamanhos, push: palavras_em_bytes(&push), x, y, z }
}

/// The norm of a vector: one workgroup. `eps` is given by its bits.
pub fn dbg_rmsnorm(x_len: usize, w_len: usize, eps: u32) -> (r: Ensaio)
    requires
        x_len * 4 <= usize::MAX,
        w_len * 4 <= usize::MAX,
    ensures
        r@ == ensaio(
            seq![floats(x_len as int), floats(w_len as int), floats(x_len as int)],
            seq![x_len as u32, eps],
            1,
            1,
            1,
        ),
{
    let t: Vec<u64> = vec![(x_len * 4) as u64, (w_len * 4) as u64, (x_len * 4) as u64];
    let p: Vec<u32> = vec![x_len as u32, eps];
    proof {
        assert(t@ =~= seq![floats(x_len as int), floats(w_len as int), floats(x_len as int)]);
        assert(p@ =~= seq![x_len as u32, eps]);
    }
    faz(t, p, 1, 1, 1)
}

/// The rotation of the heads of `n_tok` tokens; `pos` is given by its bits.
pub fn dbg_rope_xy(
    x_len: usize,
    freq_len: usize,
    n_head: usize,
    head_dim: usize,
    rope_dim: usize,
    pos: u32,
    n_tok: u32,
) -> (r: Ensaio)
    requires
        x_len * 4 <= usize::MAX,
        freq_len * 4 <= usize::MAX,
        n_head * (rope_dim as int / 2) <= usize::MAX,
    ensures
        r@ == ensaio(
            seq![floats(x_len as int), floats(freq_len as int)],
            seq![n_head as u32, head_dim as u32, rope_dim as u32, pos, head_dim as u32],
            grupos(n_head * (rope_dim as int / 2)),
            n_tok,
            1,
        ),
{
    proof {
        assert(n_head * (rope_dim as int / 2) >= 0) by (nonlinear_arith)
            requires
                rope_dim as int / 2 >= 0,
        ;
    }
    let t: Vec<u64> = vec![(x_len * 4) as u64, (freq_len * 4) as u64];
    let p: Vec<u32> = vec![n_head as u32, head_dim as u32, rope_dim as u32, pos, head_dim as u32];
    proof {
        assert(t@ =~= seq![floats(x_len as int), floats(freq_len as int)]);
        assert(p@ =~= seq![
            n_head as u32,
            head_dim as u32,
            rope_dim as u32,
            pos,
            head_dim as u32,
        ]);
    }
    faz(t, p, groups_for(n_head * (rope_dim / 2)), n_tok, 1)
}

/// The sum of two vectors.
pub fn dbg_add(dst_len: usize, src_len: usize) -> (r: Ensaio)
    requires
        dst_len * 4 <= usize::MAX,
        src_len * 4 <= usize::MAX,
    ensures
        r@ == ensaio(
            seq![floats(dst_len as int), floats(src_len as int)],
            seq![dst_len as u32],
            grupos(dst_len as int),
            1,
            1,
        ),
{
    let t: Vec<u64> = vec![(dst_len * 4) as u64, (src_len * 4) as u64];
    let p: Vec<u32> = vec![dst_len as u32];
    proof {
        assert(t@ =~= seq![floats(dst_len as int), floats(src_len as int)]);
        assert(p@ =~= seq![dst_len as u32]);
    }
    faz(t, p, groups_for(dst_len), 1, 1)
}

/// The lengths of an attention.
#[derive(Clone, Copy, Debug, PartialEq, Eq, Structural)]
pub struct FormaAtencao {
    pub q_len: usize,
    pub k_len: usize,
    pub v_len: usize,
    pub n_head: usize,
    pub n_head_kv: usize,
    pub head_dim: usize,
    pub total_len: usize,
    pub n_tokens: usize,
}

impl FormaAtencao {
    /// That the sizes can be computed.
    pub open spec fn ok(self, n_split: int) -> bool {
        &&& self.q_len * 4 <= usize::MAX
        &&& self.k_len * 4 <= usize::MAX
        &&& self.v_len * 4 <= usize::MAX
        &&& self.n_head_kv * self.head_dim <= usize::MAX
        &&& self.n_tokens * self.n_head <= usize::MAX
        &&& self.n_tokens * self.n_head * self.head_dim * 4 <= usize::MAX
        &&& self.n_tokens * self.n_head * n_split <= usize::MAX
        &&& self.n_tokens * self.n_head * n_split * (self.head_dim + 2) * 4 <= usize::MAX
    }

    /// The push constants of the attention.
    pub open spec fn push(self) -> Seq<u32> {
        seq![
            self.n_head as u32,
            self.n_head_kv as u32,
            self.head_dim as u32,
            self.total_len as u32,
            (self.n_head_kv * self.head_dim) as u32,
            0u32,
            self.head_dim as u32,
        ]
    }

    /// Bytes of query, caches and of what is written.
    pub open spec fn tamanhos(self, saida: u64) -> Seq<u64> {
        seq![
            floats(self.q_len as int),
            floats(self.k_len as int),
            floats(self.v_len as int),
            saida,
        ]
    }

    /// Bytes of the result.
    pub open spec fn saida(self) -> u64 {
        floats(self.n_tokens * self.n_head * self.head_dim)
    }

    /// Bytes of the partial results of the slices.
    pub open spec fn parciais(self, n_split: int) -> u64 {
        floats(self.n_tokens * self.n_head * n_split * (self.head_dim + 2))
    }

    fn palavras(&self) -> (r: Vec<u32>)
        requires
            self.n_head_kv * self.head_dim <= usize::MAX,
        ensures
            r@ == self.push(),
    {
        let r: Vec<u32> = vec![
            self.n_head as u32,
            self.n_head_kv as u32,
            self.head_dim as u32,
            self.total_len as u32,
            (self.n_head_kv * self.head_dim) as u32,
            0,
            self.head_dim as u32,
        ];
        assert(r@ =~= self.push());
        r
    }

    fn bytes(&self, saida: u64) -> (r: Vec<u64>)
        requires
            self.q_len * 4 <= usize::MAX,
            self.k_len * 4 <= usize::MAX,
            self.v_len * 4 <= usize::MAX,
        ensures
            r@ == self.tamanhos(saida),
    {
        let r: Vec<u64> = vec![
            (self.q_len * 4) as u64,
            (self.k_len * 4) as u64,
            (self.v_len * 4) as u64,
            saida,
        ];
        assert(r@ =~= self.tamanhos(saida));
        r
    }

    fn bytes_da_saida(&self) -> (r: u64)
        requires
            self.n_tokens * self.n_head <= usize::MAX,
            self.n_tokens * self.n_head * self.head_dim * 4 <= usize::MAX,
        ensures
            r == self.saida(),
    {
        proof {
            assert(self.n_tokens * self.n_head >= 0) by (nonlinear_arith);
            assert(self.n_tokens * self.n_head * self.head_dim >= 0) by (nonlinear_arith)
                requires
                    self.n_tokens * self.n_head >= 0,
            ;
        }
        (self.n_tokens * self.n_head * self.head_dim * 4) as u64
    }

    fn bytes_dos_parciais(&self, n_split: usize) -> (r: u64)
        requires
            self.head_dim + 2 <= usize::MAX,
            self.ok(n_split as int),
        ensures
            r == self.parciais(n_split as int),
    {
        proof {
            assert(self.n_tokens * self.n_head >= 0) by (nonlinear_arith);
            let a = self.n_tokens * self.n_head;
            assert(a * n_split >= 0) by (nonlinear_arith)
                requires
                    a >= 0,
            ;
            let b = a * n_split;
            let c = self.head_dim + 2;
            assert(b * c >= 0) by (nonlinear_arith)
                requires
                    b >= 0,
                    c >= 0,
            ;
        }
        (self.n_tokens * self.n_head * n_split * (self.head_dim + 2) * 4) as u64
    }
}

/// The attention in one go. Fails if a head is too wide.
pub fn dbg_attention(f: &FormaAtencao) -> (r: Result<Ensaio, MatmulError>)
    requires
        f.head_dim <= MAX_HEAD_DIM ==> f.ok(0),
    ensures
        r is Ok <==> f.head_dim <= MAX_HEAD_DIM,
        r matches Ok(e) ==> e@ == ensaio(
            f.tamanhos(f.saida()),
            f.push(),
            f.n_head as u32,
            f.n_tokens as u32,
            1,
        ),
        r matches Err(e) ==> e == sem_recurso(),
{
    if f.head_dim > MAX_HEAD_DIM {
        return Err(falta_recurso());
    }
    let saida: u64 = f.bytes_da_saida();
    Ok(faz(f.bytes(saida), f.palavras(), f.n_head as u32, f.n_tokens as u32, 1))
}

/// The attention in slices and their reduction. Fails if a head is too wide or
/// there are no slices.
pub fn dbg_attention_split(f: &FormaAtencao, n_split: usize) -> (r: Result<
    (Ensaio, Ensaio),
    MatmulError,
>)
    requires
        f.head_dim <= MAX_HEAD_DIM ==> f.ok(n_split as int),
    ensures
        r is Ok <==> f.head_dim <= MAX_HEAD_DIM && n_split > 0,
        r matches Ok((a, b)) ==> a@ == ensaio(
            f.tamanhos(f.parciais(n_split as int)),
            f.push(),
            f.n_head as u32,
            f.n_tokens as u32,
            n_split as u32,
        ) && b@ == ensaio(
            seq![f.parciais(n_split as int), f.saida()],
            seq![f.n_head as u32, f.head_dim as u32, n_split as u32],
            f.n_head as u32,
            f.n_tokens as u32,
            1,
        ),
        r matches Err(e) ==> e == sem_recurso(),
{
    if f.head_dim > MAX_HEAD_DIM || n_split == 0 {
        return Err(falta_recurso());
    }
    let parciais: u64 = f.bytes_dos_parciais(n_split);
    let saida: u64 = f.bytes_da_saida();
    let a = faz(
        f.bytes(parciais),
        f.palavras(),
        f.n_head as u32,
        f.n_tokens as u32,
        n_split as u32,
    );
    let t: Vec<u64> = vec![parciais, saida];
    let p: Vec<u32> = vec![f.n_head as u32, f.head_dim as u32, n_split as u32];
    proof {
        assert(t@ =~= seq![f.parciais(n_split as int), f.saida()]);
        assert(p@ =~= seq![f.n_head as u32, f.head_dim as u32, n_split as u32]);
    }
    let b = faz(t, p, f.n_head as u32, f.n_tokens as u32, 1);
    Ok((a, b))
}

/// The kernel and the run with which the attention of one token is measured: in
/// slices if there are several.
pub fn dbg_attention_bench(f: &FormaAtencao, n_split: usize) -> (r: (PipeId, Ensaio))
    requires
        f.n_tokens == 1,
        f.head_dim + 2 <= usize::MAX,
        f.ok(n_split as int),
    ensures
        n_split > 1 ==> r.0 is AttentionSplit && r.1@ == ensaio(
            f.tamanhos(f.parciais(n_split as int)),
            f.push(),
            f.n_head as u32,
            1,
            n_split as u32,
        ),
        n_split <= 1 ==> r.0 is Attention && r.1@ == ensaio(
            f.tamanhos(f.saida()),
            f.push(),
            f.n_head as u32,
            1,
            1,
        ),
{
    if n_split > 1 {
        let parciais: u64 = f.bytes_dos_parciais(n_split);
        (
            PipeId::AttentionSplit,
            faz(f.bytes(parciais), f.palavras(), f.n_head as u32, 1, n_split as u32),
        )
    } else {
        let saida: u64 = f.bytes_da_saida();
        (PipeId::Attention, faz(f.bytes(saida), f.palavras(), f.n_head as u32, 1, 1))
    }
}

/// Bytes of a buffer for `n` numbers; there are no empty buffers.
pub fn bytes_do_ensaio(n: usize) -> (r: u64)
    requires
        n * 4 <= usize::MAX,
    ensures
        r == (if n == 0 {
            4
        } else {
            n * 4
        }),
{
    if n == 0 {
        4
    } else {
        (n * 4) as u64
    }
}

/// The buffer of the linear attention with that name.
pub open spec fn buffer_de(a: Ativacoes, nome: Seq<char>) -> Option<Buf> {
    match a.dn {
        None => None,
        Some(b) => if nome == "qkv"@ {
            Some(b.qkv)
        } else if nome == "conv"@ {
            Some(b.conv)
        } else if nome == "z"@ {
            Some(b.z)
        } else if nome == "gb"@ {
            Some(b.gb)
        } else if nome == "qn"@ {
            Some(b.qn)
        } else if nome == "kn"@ {
            Some(b.kn)
        } else if nome == "out"@ {
            Some(b.out)
        } else if nome == "normed"@ {
            Some(b.normed)
        } else if nome == "proj"@ {
            Some(a.b_proj)
        } else if nome == "ffn"@ {
            Some(a.b_ffn)
        } else if nome == "x"@ {
            Some(a.b_x)
        } else if nome == "xd"@ {
            Some(a.b_xd)
        } else {
            None
        },
    }
}

pub fn dbg_dn_buf(a: &Ativacoes, nome: &str) -> (r: Option<Buf>)
    ensures
        r == buffer_de(*a, nome@),
{
    let b = match &a.dn {
        Some(b) => b,
        None => {
            return None;
        },
    };
    if mesmo_texto(nome, "qkv") {
        Some(b.qkv)
    } else if mesmo_texto(nome, "conv") {
        Some(b.conv)
    } else if mesmo_texto(nome, "z") {
        Some(b.z)
    } else if mesmo_texto(nome, "gb") {
        Some(b.gb)
    } else if mesmo_texto(nome, "qn") {
        Some(b.qn)
    } else if mesmo_texto(nome, "kn") {
        Some(b.kn)
    } else if mesmo_texto(nome, "out") {
        Some(b.out)
    } else if mesmo_texto(nome, "normed") {
        Some(b.normed)
    } else if mesmo_texto(nome, "proj") {
        Some(a.b_proj)
    } else if mesmo_texto(nome, "ffn") {
        Some(a.b_ffn)
    } else if mesmo_texto(nome, "x") {
        Some(a.b_x)
    } else if mesmo_texto(nome, "xd") {
        Some(a.b_xd)
    } else {
        None
    }
}

} // verus!
