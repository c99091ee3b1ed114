//! Device memory in large chunks.
//!
//! The driver limits the size of one allocation, so weights share chunks. Within
//! a chunk memory is handed out in order and never given back before the end.

use vstd::prelude::*;

use crate::vulkan::contas::{lei_teto, maior, menor, teto};
use crate::vulkan::erro::AllocError;

verus! {

/// Largest chunk, below the 2 GB of the driver.
pub const MAX_CHUNK_BYTES: u64 = 1_500_000_000;

/// Every allocation starts at a multiple of this.
pub const ALINHAMENTO: u64 = 256;

/// A place in a chunk.
#[derive(Clone, Copy, Debug, PartialEq, Eq, Structural)]
pub struct Allocation {
    pub chunk_idx: usize,
    pub offset: u64,
    pub size: u64,
}

/// Memory of the device, and where its free part starts.
#[derive(Clone, Copy, Debug, PartialEq, Eq, Structural)]
pub struct Chunk {
    pub memory: u64,
    pub size: u64,
    pub free_start: u64,
}

/// What the allocator has for a request.
#[derive(Clone, Copy, Debug, PartialEq, Eq, Structural)]
pub enum Pedido {
    Pronto(Allocation),
    /// A chunk of so many bytes has to be had first; so many of them are for
    /// the request.
    Falta { chunk_size: u64, size: u64 },
}

/// The least multiple of `align` that is not below `v`.
pub open spec fn alinhado(v: int, align: int) -> int {
    teto(v, align) * align
}

/// The least multiple of `align`, a power of two, that is not below `v`.
pub fn align_up(v: u64, align: u64) -> (r: u64)
    requires
        align > 0,
        align & ((align - 1) as u64) == 0,
        alinhado(v as int, align as int) <= u64::MAX,
    ensures
        r == alinhado(v as int, align as int),
{
    proof {
        lei_teto(v as int, align as int);
    }
    let q: u64 = v / align;
    if v % align == 0 {
        q * align
    } else {
        (q + 1) * align
    }
}

/// An aligned size holds what was asked for, and wastes less than `align`.
pub proof fn lei_alinhado(v: int, align: int)
    requires
        0 <= v,
        0 < align,
    ensures
        v <= alinhado(v, align) < v + align,
        alinhado(v, align) % align == 0,
{
    lei_teto(v, align);
    let t = teto(v, align);
    assert((t - 1) * align == t * align - align) by (nonlinear_arith);
    vstd::arithmetic::div_mod::lemma_mod_multiples_basic(t, align);
    if v == 0 {
        assert(t * align == 0) by (nonlinear_arith)
            requires
                t == 0,
        ;
    }
}

/// The size of a new chunk: the request, or more if more is expected, up to the
/// limit.
pub open spec fn chunk_para(size: int, restante: int) -> int {
    maior(size, menor(MAX_CHUNK_BYTES as int, restante))
}

pub fn tamanho_do_chunk(size: u64, restante: u64) -> (r: u64)
    ensures
        r == chunk_para(size as int, restante as int),
{
    let m: u64 = if MAX_CHUNK_BYTES <= restante {
        MAX_CHUNK_BYTES
    } else {
        restante
    };
    if size >= m {
        size
    } else {
        m
    }
}

/// A chunk is never smaller than the request, and only larger than the limit or
/// than what is expected if the request is.
pub proof fn lei_chunk(size: int, restante: int)
    ensures
        chunk_para(size, restante) >= size,
        chunk_para(size, restante) > size ==> chunk_para(size, restante) <= MAX_CHUNK_BYTES
            && chunk_para(size, restante) <= restante,
{
}

pub struct GpuAllocator {
    chunks: Vec<Chunk>,
    mem_type_idx: u32,
    /// How much is still expected.
    restante: u64,
}

/// What an allocator is.
pub struct AlocadorM {
    pub chunks: Seq<Chunk>,
    pub mem_type_idx: u32,
    pub restante: u64,
}

pub open spec fn chunk_ok(c: Chunk) -> bool {
    c.free_start <= c.size && c.free_start % ALINHAMENTO == 0
}

pub open spec fn cabe_no(c: Chunk, size: int) -> bool {
    c.free_start + size <= c.size
}

/// The first chunk with room from `i` on, or the number of chunks.
pub open spec fn primeiro_livre(c: Seq<Chunk>, size: int, i: int) -> int
    decreases c.len() - i,
{
    if i >= c.len() {
        c.len() as int
    } else if cabe_no(c[i], size) {
        i
    } else {
        primeiro_livre(c, size, i + 1)
    }
}

/// The first memory type that is local to the device.
pub open spec fn primeiro_local(t: Seq<bool>, i: int) -> int
    decreases t.len() - i,
{
    if i >= t.len() || t[i] {
        i
    } else {
        primeiro_local(t, i + 1)
    }
}

impl AlocadorM {
    pub open spec fn ok(self) -> bool {
        forall|i: int| 0 <= i < self.chunks.len() ==> chunk_ok(#[trigger] self.chunks[i])
    }

    /// Whether an allocation is in the part of its chunk that was handed out.
    pub open spec fn tem(self, a: Allocation) -> bool {
        &&& a.chunk_idx < self.chunks.len()
        &&& a.offset + a.size <= self.chunks[a.chunk_idx as int].free_start
    }

    /// After handing out `size` bytes of the chunk `i`.
    pub open spec fn com_uso(self, i: int, size: int) -> Self {
        let c = self.chunks[i];
        AlocadorM {
            chunks: self.chunks.update(
                i,
                Chunk { free_start: (c.free_start + size) as u64, ..c },
            ),
            ..self
        }
    }

    /// What a request gives, and the allocator after it.
    pub open spec fn pede(self, pedido: int) -> (Pedido, Self) {
        let size = alinhado(pedido, ALINHAMENTO as int);
        let i = primeiro_livre(self.chunks, size, 0);
        if i < self.chunks.len() {
            (
                Pedido::Pronto(
                    Allocation {
                        chunk_idx: i as usize,
                        offset: self.chunks[i].free_start,
                        size: size as u64,
                    },
                ),
                self.com_uso(i, size),
            )
        } else {
            let n = chunk_para(size, self.restante as int);
            (
                Pedido::Falta { chunk_size: n as u64, size: size as u64 },
                AlocadorM {
                    restante: (if self.restante >= n {
                        self.restante - n
                    } else {
                        0
                    }) as u64,
                    ..self
                },
            )
        }
    }

    /// After a new chunk, of which `size` bytes are handed out.
    pub open spec fn com_chunk(self, memory: u64, chunk_size: u64, size: u64) -> Self {
        AlocadorM {
            chunks: self.chunks.push(Chunk { memory, size: chunk_size, free_start: size }),
            ..self
        }
    }
}

impl View for GpuAllocator {
    type V = AlocadorM;

    closed spec fn view(&self) -> AlocadorM {
        AlocadorM {
            chunks: self.chunks@,
            mem_type_idx: self.mem_type_idx,
            restante: self.restante,
        }
    }
}

impl GpuAllocator {
    /// An allocator that takes the first memory type that is local to the device
    /// and expects to hand out `total_bytes`.
    pub fn new(device_local: &[bool], total_bytes: u64) -> (r: Result<Self, AllocError>)
        requires
            device_local.len() <= u32::MAX,
        ensures
            r is Ok <==> primeiro_local(device_local@, 0) < device_local.len(),
            r matches Ok(a) ==> a@.ok(),
            r matches Ok(a) ==> a@ == (AlocadorM {
                chunks: Seq::empty(),
                mem_type_idx: primeiro_local(device_local@, 0) as u32,
                restante: total_bytes,
            }),
            r matches Err(e) ==> e == AllocError::NoMemoryType,
    {
        let mut i: usize = 0;
        while i < device_local.len() && !device_local[i]
            invariant
                i <= device_local.len(),
                primeiro_local(device_local@, 0) == primeiro_local(device_local@, i as int),
            decreases device_local.len() - i,
        {
            i += 1;
        }
        if i < device_local.len() {
            let a = GpuAllocator {
                chunks: Vec::new(),
                mem_type_idx: i as u32,
                restante: total_bytes,
            };
            proof {
                assert(a@.chunks =~= Seq::<Chunk>::empty());
            }
            Ok(a)
        } else {
            Err(AllocError::NoMemoryType)
        }
    }

    pub fn mem_type_idx(&self) -> (r: u32)
        ensures
            r == self@.mem_type_idx,
    {
        self.mem_type_idx
    }

    /// The memory of the chunk of an allocation.
    pub fn memoria(&self, a: &Allocation) -> (r: Option<u64>)
        ensures
            r == (if a.chunk_idx < self@.chunks.len() {
                Some(self@.chunks[a.chunk_idx as int].memory)
            } else {
                None
            }),
    {
        if a.chunk_idx < self.chunks.len() {
            Some(self.chunks[a.chunk_idx].memory)
        } else {
            None
        }
    }

    /// Hands out `size` bytes of a chunk that has room, or says how large a new
    /// one should be.
    pub fn alocar(&mut self, size: u64) -> (r: Pedido)
        requires
            old(self)@.ok(),
            alinhado(size as int, ALINHAMENTO as int) <= u64::MAX,
        ensures
            (r, final(self)@) == old(self)@.pede(size as int),
            final(self)@.ok(),
    {
        proof {
            assert(256u64 & (255u64) == 0) by (bit_vector);
            lei_alinhado(size as int, ALINHAMENTO as int);
        }
        let n: u64 = align_up(size, ALINHAMENTO);
        let ghost m = self@;
        let mut i: usize = 0;
        while i < self.chunks.len()
            invariant
                i <= self.chunks.len(),
                self@ == m,
                m.ok(),
                n % ALINHAMENTO == 0,
                n == alinhado(size as int, ALINHAMENTO as int),
                m == old(self)@,
                primeiro_livre(m.chunks, n as int, 0) == primeiro_livre(
                    m.chunks,
                    n as int,
                    i as int,
                ),
            decreases self.chunks.len() - i,
        {
            let c = self.chunks[i];
            assert(chunk_ok(m.chunks[i as int]));
            if n <= c.size - c.free_start {
                let novo = Chunk {
                    memory: c.memory,
                    size: c.size,
                    free_start: c.free_start + n,
                };
                self.chunks.set(i, novo);
                proof {
                    assert(self@.chunks =~= m.com_uso(i as int, n as int).chunks);
                    assert(self@ == m.com_uso(i as int, n as int));
                    assert forall|k: int| 0 <= k < self@.chunks.len() implies chunk_ok(
                        #[trigger] self@.chunks[k],
                    ) by {
                        assert(chunk_ok(m.chunks[k]));
                    }
                }
                return Pedido::Pronto(
                    Allocation { chunk_idx: i, offset: c.free_start, size: n },
                );
            }
            i += 1;
        }
        let chunk_size: u64 = tamanho_do_chunk(n, self.restante);
        self.restante = self.restante.saturating_sub(chunk_size);
        Pedido::Falta { chunk_size, size: n }
    }

    /// Takes a new chunk, of which `size` bytes are handed out at once.
    pub fn novo_chunk(&mut self, memory: u64, chunk_size: u64, size: u64) -> (r: Allocation)
        requires
            old(self)@.ok(),
            size <= chunk_size,
            size % ALINHAMENTO == 0,
        ensures
            final(self)@ == old(self)@.com_chunk(memory, chunk_size, size),
            final(self)@.ok(),
            r == (Allocation { chunk_idx: old(self)@.chunks.len() as usize, offset: 0, size }),
    {
        let idx: usize = self.chunks.len();
        let ghost m = self@;
        self.chunks.push(Chunk { memory, size: chunk_size, free_start: size });
        proof {
            assert forall|k: int| 0 <= k < self@.chunks.len() implies chunk_ok(
                #[trigger] self@.chunks[k],
            ) by {
                if k < m.chunks.len() {
                    assert(chunk_ok(m.chunks[k]));
                }
            }
        }
        Allocation { chunk_idx: idx, offset: 0, size }
    }

    /// Memory is not given back one by one.
    pub fn free(&mut self, _alloc: Allocation)
        ensures
            *final(self) == *old(self),
    {
    }

    /// The memory of all chunks, to be given back; none is left.
    pub fn cleanup(&mut self) -> (r: Vec<u64>)
        ensures
            r@ == old(self)@.chunks.map_values(|c: Chunk| c.memory),
            final(self)@ == (AlocadorM { chunks: Seq::empty(), ..old(self)@ }),
    {
        let mut r: Vec<u64> = Vec::new();
        let ghost m = self@;
        let mut i: usize = 0;
        while i < self.chunks.len()
            invariant
                i <= self.chunks.len(),
                self@ == m,
                r.len() == i,
                forall|k: int| 0 <= k < i ==> #[trigger] r[k] == m.chunks[k].memory,
            decreases self.chunks.len() - i,
        {
            r.push(self.chunks[i].memory);
            i += 1;
        }
        self.chunks = Vec::new();
        proof {
            assert(r@ =~= m.chunks.map_values(|c: Chunk| c.memory));
            assert(self@.chunks =~= Seq::<Chunk>::empty());
        }
        r
    }
}

/// Whether two allocations share a byte of a chunk.
pub open spec fn sobrepostas(a: Allocation, b: Allocation) -> bool {
    a.chunk_idx == b.chunk_idx && a.offset < b.offset + b.size && b.offset < a.offset + a.size
}

/// An allocation is large enough, aligned and in its chunk; it shares no byte
/// with any allocation before, and all of those remain.
pub proof fn lei_alocacoes_disjuntas(m: AlocadorM, pedido: int, antes: Allocation)
    requires
        m.ok(),
        m.tem(antes),
        0 <= pedido,
        alinhado(pedido, ALINHAMENTO as int) <= u64::MAX,
        m.chunks.len() <= usize::MAX,
    ensures
        m.pede(pedido).1.ok(),
        m.pede(pedido).1.tem(antes),
        m.pede(pedido).0 matches Pedido::Pronto(a) ==> {
            &&& m.pede(pedido).1.tem(a)
            &&& a.offset + a.size <= m.chunks[a.chunk_idx as int].size
            &&& a.size >= pedido
            &&& a.offset % ALINHAMENTO == 0
            &&& !sobrepostas(a, antes)
        },
        m.pede(pedido).0 matches Pedido::Falta { chunk_size, size } ==> size >= pedido && chunk_size
            >= size && size % ALINHAMENTO == 0,
{
    lei_alinhado(pedido, ALINHAMENTO as int);
    let size = alinhado(pedido, ALINHAMENTO as int);
    lemma_primeiro_livre(m.chunks, size, 0);
    lei_chunk(size, m.restante as int);
    let i = primeiro_livre(m.chunks, size, 0);
    if i < m.chunks.len() {
        lemma_uso(m, i, size, antes);
    } else {
        assert(m.pede(pedido).1.chunks == m.chunks);
    }
}

proof fn lemma_uso(m: AlocadorM, i: int, size: int, antes: Allocation)
    requires
        m.ok(),
        m.tem(antes),
        0 <= i < m.chunks.len() <= usize::MAX,
        0 <= size <= u64::MAX,
        size % (ALINHAMENTO as int) == 0,
        cabe_no(m.chunks[i], size),
    ensures
        ({
            let n = m.com_uso(i, size);
            let a = Allocation {
                chunk_idx: i as usize,
                offset: m.chunks[i].free_start,
                size: size as u64,
            };
            &&& n.ok()
            &&& n.tem(antes)
            &&& n.tem(a)
            &&& a.offset % ALINHAMENTO == 0
            &&& !sobrepostas(a, antes)
        }),
{
    let n = m.com_uso(i, size);
    assert(chunk_ok(m.chunks[i]));
    assert forall|k: int| 0 <= k < n.chunks.len() implies chunk_ok(#[trigger] n.chunks[k]) by {
        if k != i {
            assert(n.chunks[k] == m.chunks[k]);
            assert(chunk_ok(m.chunks[k]));
        }
    }
}

/// The same for the first allocation of a new chunk.
pub proof fn lei_chunk_novo(
    m: AlocadorM,
    memory: u64,
    chunk_size: u64,
    size: u64,
    antes: Allocation,
)
    requires
        m.ok(),
        m.tem(antes),
        size <= chunk_size,
        size % ALINHAMENTO == 0,
        m.chunks.len() < usize::MAX,
    ensures
        ({
            let n = m.com_chunk(memory, chunk_size, size);
            let a = Allocation { chunk_idx: m.chunks.len() as usize, offset: 0, size };
            n.ok() && n.tem(antes) && n.tem(a) && !sobrepostas(a, antes)
        }),
{
    let n = m.com_chunk(memory, chunk_size, size);
    assert forall|k: int| 0 <= k < n.chunks.len() implies chunk_ok(#[trigger] n.chunks[k]) by {
        if k < m.chunks.len() {
            assert(chunk_ok(m.chunks[k]));
        }
    }
}

proof fn lemma_primeiro_livre(c: Seq<Chunk>, size: int, i: int)
    requires
        0 <= i <= c.len(),
    ensures
        i <= primeiro_livre(c, size, i) <= c.len(),
        primeiro_livre(c, size, i) < c.len() ==> cabe_no(c[primeiro_livre(c, size, i)], size),
    decreases c.len() - i,
{
    if i < c.len() && !cabe_no(c[i], size) {
        lemma_primeiro_livre(c, size, i + 1);
    }
}

} // verus!
