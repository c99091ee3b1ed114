//! Upload of weights through two staging buffers.
//!
//! The host fills one staging buffer while the device copies from the other. The
//! [`Uploader`] decides what is done; each step is an [`Acao`].

use vstd::prelude::*;

use crate::vulkan::contas::menor;
use crate::vulkan::erro::{TensorError, VkResult};
use crate::vulkan::ops::GgmlType;
use crate::vulkan::tensor::{
    layout, layout_de, lei_tamanho_transformado, lei_transformar_por_fatias, na_vram, no_arquivo,
    transformado,
};

verus! {

/// Bytes of each of the two staging buffers.
pub const STAGING_BYTES: u64 = 268_435_456;

/// A step of an upload.
#[derive(Clone, Copy, Debug, PartialEq, Eq, Structural)]
pub enum Acao {
    /// Close the commands of a batch and hand them to the device.
    Submete { lote: usize },
    /// Wait until the device is done with a batch.
    Espera { lote: usize },
    /// Start recording the commands of a batch.
    Abre { lote: usize },
    /// Lay out the bytes `de..ate` of the source in the staging buffer, from
    /// `src_off` on, and record a copy of the `n` bytes there to `dst_off` of
    /// the destination.
    Copia { lote: usize, de: usize, ate: usize, src_off: u64, dst_off: u64, n: u64 },
}

/// What is known of a batch.
#[derive(Clone, Copy, Debug, PartialEq, Eq, Structural)]
pub struct Lote {
    /// Handed to the device and not awaited.
    pub voando: bool,
    /// A copy was recorded since it was last handed over.
    pub sujo: bool,
}

/// Which batch the host fills and how full it is.
#[derive(Clone, Copy, Debug, PartialEq, Eq, Structural)]
pub struct Uploader {
    pub staging_bytes: u64,
    pub usado: u64,
    /// The batch that the host fills, 0 or 1.
    pub atual: usize,
    pub este: Lote,
    pub outro: Lote,
}

/// What is to be uploaded: so many blocks of `src_bl` bytes, each of which
/// becomes `dst_bl` bytes.
#[derive(Clone, Copy, Debug, PartialEq, Eq, Structural)]
pub struct Peca {
    pub ty: GgmlType,
    pub n_blocos: usize,
    pub src_bl: usize,
    pub dst_bl: usize,
}

impl Peca {
    /// A piece of weights, or bytes that go as they are.
    pub open spec fn ok(self) -> bool {
        &&& layout(self.ty) == Some((self.src_bl as int, self.dst_bl as int)) || self.ty is F32
            && self.src_bl == 1 && self.dst_bl == 1
        &&& self.n_blocos * self.src_bl <= usize::MAX
        &&& self.n_blocos * self.dst_bl <= usize::MAX
    }

    /// Bytes of the destination.
    pub open spec fn total(self) -> int {
        self.n_blocos * self.dst_bl
    }
}

/// The weights of a tensor of that many bytes. Fails for a type without a kernel
/// and for what is not made of whole blocks.
pub fn peca_de(ty: GgmlType, len: usize) -> (r: Result<Peca, TensorError>)
    requires
        layout(ty) is Some ==> len as int / no_arquivo(ty) * na_vram(ty) <= usize::MAX,
    ensures
        r is Ok <==> layout(ty) is Some && len > 0 && len as int % no_arquivo(ty) == 0,
        r matches Ok(p) ==> p.ok() && p.ty == ty && p.n_blocos * p.src_bl == len && p.total()
            == len as int / no_arquivo(ty) * na_vram(ty),
        r matches Err(e) ==> e == TensorError::Vulkan(VkResult::ErrorFormatNotSupported),
{
    match layout_de(ty) {
        Some((src_bl, dst_bl)) => {
            if len == 0 || len % src_bl != 0 {
                return Err(TensorError::Vulkan(VkResult::ErrorFormatNotSupported));
            }
            let n_blocos: usize = len / src_bl;
            proof {
                vstd::arithmetic::div_mod::lemma_fundamental_div_mod(len as int, src_bl as int);
                assert(n_blocos * src_bl == src_bl * n_blocos) by (nonlinear_arith);
            }
            Ok(Peca { ty, n_blocos, src_bl, dst_bl })
        },
        None => Err(TensorError::Vulkan(VkResult::ErrorFormatNotSupported)),
    }
}

/// Bytes that go as they are.
pub fn peca_crua(len: usize) -> (r: Peca)
    ensures
        r.ok(),
        r.ty is F32,
        r.n_blocos == len && r.src_bl == 1 && r.dst_bl == 1,
{
    Peca { ty: GgmlType::F32, n_blocos: len, src_bl: 1, dst_bl: 1 }
}

// ---------------------------------------------------------------------------
// The schedule
// ---------------------------------------------------------------------------

pub open spec fn se(c: bool, a: Acao) -> Seq<Acao> {
    if c {
        seq![a]
    } else {
        Seq::empty()
    }
}

impl Uploader {
    pub open spec fn ok(self) -> bool {
        &&& self.usado <= self.staging_bytes
        &&& self.atual < 2
        &&& !self.este.voando
        &&& !self.outro.sujo
        &&& self.usado > 0 ==> self.este.sujo
    }

    /// Blocks that the current batch has room for.
    pub open spec fn cabem(self, dst_bl: int) -> int {
        (self.staging_bytes - self.usado) / dst_bl
    }

    /// Hands the current batch over and goes on with the other one.
    pub open spec fn virada(self) -> (Seq<Acao>, Self) {
        let i = self.atual;
        let j = (1 - self.atual) as usize;
        (
            se(self.este.sujo, Acao::Submete { lote: i }) + se(
                self.outro.voando,
                Acao::Espera { lote: j },
            ) + seq![Acao::Abre { lote: j }],
            Uploader {
                usado: 0,
                atual: j,
                este: Lote { voando: false, sujo: self.outro.sujo },
                outro: Lote { voando: self.este.voando || self.este.sujo, sujo: false },
                ..self
            },
        )
    }

    /// The same, if there is no room for a block.
    pub open spec fn virada_se_cheio(self, dst_bl: int) -> (Seq<Acao>, Self) {
        if self.cabem(dst_bl) == 0 {
            self.virada()
        } else {
            (Seq::empty(), self)
        }
    }

    /// After `n` more bytes in the current batch.
    pub open spec fn com_copia(self, n: int) -> Self {
        Uploader {
            usado: (self.usado + n) as u64,
            este: Lote { sujo: true, ..self.este },
            ..self
        }
    }
}

/// The copy of the blocks `b0..b0 + n`.
pub open spec fn copia(u: Uploader, p: Peca, b0: int, n: int) -> Acao {
    Acao::Copia {
        lote: u.atual,
        de: (b0 * p.src_bl) as usize,
        ate: ((b0 + n) * p.src_bl) as usize,
        src_off: u.usado,
        dst_off: (b0 * p.dst_bl) as u64,
        n: (n * p.dst_bl) as u64,
    }
}

/// Blocks of the next copy: as many as there is room for.
pub open spec fn proximos(u: Uploader, p: Peca, b0: int) -> int {
    menor(u.cabem(p.dst_bl as int), p.n_blocos - b0)
}

/// The steps that upload the blocks from `b0` on, and the uploader after them.
pub open spec fn sobe(u: Uploader, p: Peca, b0: int) -> (Seq<Acao>, Uploader)
    decreases p.n_blocos - b0,
{
    if b0 >= p.n_blocos {
        (Seq::empty(), u)
    } else {
        let v = u.virada_se_cheio(p.dst_bl as int);
        let n = proximos(v.1, p, b0);
        if n <= 0 {
            (v.0, v.1)
        } else {
            let r = sobe(v.1.com_copia(n * p.dst_bl), p, b0 + n);
            (v.0.push(copia(v.1, p, b0, n)) + r.0, r.1)
        }
    }
}

/// The steps that end an upload.
pub open spec fn fim(u: Uploader) -> Seq<Acao> {
    let i = u.atual;
    let v0 = if i == 0 {
        u.este.voando || u.este.sujo
    } else {
        u.outro.voando
    };
    let v1 = if i == 0 {
        u.outro.voando
    } else {
        u.este.voando || u.este.sujo
    };
    se(u.este.sujo, Acao::Submete { lote: i }) + se(v0, Acao::Espera { lote: 0 }) + se(
        v1,
        Acao::Espera { lote: 1 },
    )
}

proof fn lemma_cabem(u: Uploader, p: Peca)
    requires
        u.ok(),
        p.dst_bl > 0,
        p.dst_bl <= u.staging_bytes,
    ensures
        0 <= u.cabem(p.dst_bl as int),
        u.cabem(p.dst_bl as int) * p.dst_bl <= u.staging_bytes - u.usado,
        u.virada_se_cheio(p.dst_bl as int).1.cabem(p.dst_bl as int) >= 1,
        u.virada_se_cheio(p.dst_bl as int).1.ok(),
        u.virada_se_cheio(p.dst_bl as int).1.staging_bytes == u.staging_bytes,
{
    let a = u.staging_bytes - u.usado;
    let d = p.dst_bl as int;
    vstd::arithmetic::div_mod::lemma_fundamental_div_mod(a, d);
    vstd::arithmetic::div_mod::lemma_mod_bound(a, d);
    vstd::arithmetic::div_mod::lemma_div_pos_is_pos(a, d);
    assert(u.cabem(d) * d == d * u.cabem(d)) by (nonlinear_arith);
    let b = u.staging_bytes as int;
    vstd::arithmetic::div_mod::lemma_fundamental_div_mod(b, d);
    vstd::arithmetic::div_mod::lemma_mod_bound(b, d);
    assert(b / d >= 1) by (nonlinear_arith)
        requires
            b == d * (b / d) + b % d,
            b % d < d,
            b >= d,
            d > 0,
    ;
}

impl Uploader {
    /// An uploader with two empty staging buffers; the first batch is open.
    pub fn com_staging(staging_bytes: u64) -> (r: (Self, Acao))
        ensures
            r.0.ok(),
            r.0 == (Uploader {
                staging_bytes,
                usado: 0,
                atual: 0,
                este: Lote { voando: false, sujo: false },
                outro: Lote { voando: false, sujo: false },
            }),
            r.1 == (Acao::Abre { lote: 0 }),
    {
        let l = Lote { voando: false, sujo: false };
        (
            Uploader { staging_bytes, usado: 0, atual: 0, este: l, outro: l },
            Acao::Abre { lote: 0 },
        )
    }

    fn virar(&mut self, v: &mut Vec<Acao>)
        requires
            old(self).ok(),
        ensures
            final(v)@ == old(v)@ + old(self).virada().0,
            *final(self) == old(self).virada().1,
            final(self).ok(),
    {
        let ghost u = *self;
        if self.este.sujo {
            v.push(Acao::Submete { lote: self.atual });
        }
        let deixado = Lote { voando: self.este.voando || self.este.sujo, sujo: false };
        self.atual = 1 - self.atual;
        if self.outro.voando {
            v.push(Acao::Espera { lote: self.atual });
        }
        v.push(Acao::Abre { lote: self.atual });
        self.este = Lote { voando: false, sujo: self.outro.sujo };
        self.outro = deixado;
        self.usado = 0;
        assert(v@ =~= old(v)@ + u.virada().0);
    }

    /// The steps that upload a piece.
    pub fn sobe(&mut self, p: &Peca) -> (r: Vec<Acao>)
        requires
            old(self).ok(),
            p.ok(),
            p.dst_bl <= old(self).staging_bytes,
        ensures
            (r@, *final(self)) == sobe(*old(self), *p, 0),
            final(self).ok(),
    {
        let mut v: Vec<Acao> = Vec::new();
        let mut b0: usize = 0;
        let ghost tudo = sobe(*self, *p, 0);
        proof {
            assert(v@ + tudo.0 =~= tudo.0);
        }
        while b0 < p.n_blocos
            invariant
                b0 <= p.n_blocos,
                p.ok(),
                p.dst_bl > 0,
                p.src_bl > 0,
                p.dst_bl <= self.staging_bytes,
                self.ok(),
                tudo.0 == v@ + sobe(*self, *p, b0 as int).0,
                tudo.1 == sobe(*self, *p, b0 as int).1,
            decreases p.n_blocos - b0,
        {
            let ghost u = *self;
            let ghost v0 = v@;
            proof {
                lemma_cabem(*self, *p);
            }
            if (self.staging_bytes - self.usado) / p.dst_bl as u64 == 0 {
                self.virar(&mut v);
            }
            let ghost w = u.virada_se_cheio(p.dst_bl as int);
            proof {
                assert(v@ =~= v0 + w.0);
                assert(*self == w.1);
                lemma_cabem(w.1, *p);
                lemma_produtos(*p, b0 as int, proximos(w.1, *p, b0 as int));
            }
            let cabem: u64 = (self.staging_bytes - self.usado) / p.dst_bl as u64;
            let resto: usize = p.n_blocos - b0;
            let n: usize = if cabem <= resto as u64 {
                cabem as usize
            } else {
                resto
            };
            proof {
                assert(n == proximos(w.1, *p, b0 as int));
                assert(n * p.dst_bl <= cabem * p.dst_bl) by (nonlinear_arith)
                    requires
                        n <= cabem,
                        p.dst_bl > 0,
                ;
            }
            let bytes: u64 = (n * p.dst_bl) as u64;
            v.push(
                Acao::Copia {
                    lote: self.atual,
                    de: b0 * p.src_bl,
                    ate: (b0 + n) * p.src_bl,
                    src_off: self.usado,
                    dst_off: (b0 * p.dst_bl) as u64,
                    n: bytes,
                },
            );
            self.usado = self.usado + bytes;
            self.este = Lote { voando: self.este.voando, sujo: true };
            proof {
                let r = sobe(*self, *p, b0 + n);
                assert(*self == w.1.com_copia(n * p.dst_bl));
                assert(sobe(u, *p, b0 as int).0 == w.0.push(copia(w.1, *p, b0 as int, n as int))
                    + r.0);
                assert(v0 + sobe(u, *p, b0 as int).0 =~= v@ + r.0);
            }
            b0 = b0 + n;
        }
        proof {
            assert(v@ + sobe(*self, *p, b0 as int).0 =~= v@);
        }
        v
    }

    /// The steps that end an upload: what is left is handed over, and both
    /// batches are awaited.
    pub fn finalizar(self) -> (r: Vec<Acao>)
        requires
            self.ok(),
        ensures
            r@ == fim(self),
    {
        let mut v: Vec<Acao> = Vec::new();
        if self.este.sujo {
            v.push(Acao::Submete { lote: self.atual });
        }
        let este = self.este.voando || self.este.sujo;
        let (v0, v1) = if self.atual == 0 {
            (este, self.outro.voando)
        } else {
            (self.outro.voando, este)
        };
        if v0 {
            v.push(Acao::Espera { lote: 0 });
        }
        if v1 {
            v.push(Acao::Espera { lote: 1 });
        }
        assert(v@ =~= fim(self));
        v
    }
}

proof fn lemma_produtos(p: Peca, b0: int, n: int)
    requires
        p.ok(),
        0 <= b0,
        0 <= n,
        b0 + n <= p.n_blocos,
    ensures
        0 <= b0 * p.src_bl <= (b0 + n) * p.src_bl <= usize::MAX,
        (b0 + n) * p.src_bl == b0 * p.src_bl + n * p.src_bl,
        0 <= b0 * p.dst_bl,
        0 <= n * p.dst_bl,
        0 <= n * p.src_bl,
        b0 * p.dst_bl + n * p.dst_bl == (b0 + n) * p.dst_bl,
        (b0 + n) * p.dst_bl <= p.total() <= usize::MAX,
        (b0 + n) * p.src_bl <= p.n_blocos * p.src_bl,
{
    let s = p.src_bl as int;
    let d = p.dst_bl as int;
    let m = p.n_blocos as int;
    assert(0 <= b0 * s && 0 <= n * s && (b0 + n) * s == b0 * s + n * s) by (nonlinear_arith)
        requires
            0 <= b0,
            0 <= n,
            0 <= s,
    ;
    assert(0 <= b0 * d && 0 <= n * d && (b0 + n) * d == b0 * d + n * d) by (nonlinear_arith)
        requires
            0 <= b0,
            0 <= n,
            0 <= d,
    ;
    assert((b0 + n) * s <= m * s) by (nonlinear_arith)
        requires
            b0 + n <= m,
            0 <= s,
    ;
    assert((b0 + n) * d <= m * d) by (nonlinear_arith)
        requires
            b0 + n <= m,
            0 <= d,
    ;
}

// ---------------------------------------------------------------------------
// What the device receives
// ---------------------------------------------------------------------------

/// The destination after the copies of the steps.
pub open spec fn entrega(ty: GgmlType, src: Seq<u8>, a: Seq<Acao>, dst: Seq<u8>) -> Seq<u8>
    decreases a.len(),
{
    if a.len() == 0 {
        dst
    } else {
        let d = match a[0] {
            Acao::Copia { lote: _, de, ate, src_off: _, dst_off, n } => dst.take(dst_off as int)
                + transformado(ty, src.subrange(de as int, ate as int)) + dst.skip(dst_off + n),
            _ => dst,
        };
        entrega(ty, src, a.skip(1), d)
    }
}

proof fn lemma_entrega_soma(ty: GgmlType, src: Seq<u8>, a: Seq<Acao>, b: Seq<Acao>, dst: Seq<u8>)
    ensures
        entrega(ty, src, a + b, dst) == entrega(ty, src, b, entrega(ty, src, a, dst)),
    decreases a.len(),
{
    if a.len() == 0 {
        assert(a + b =~= b);
    } else {
        assert((a + b)[0] == a[0]);
        assert((a + b).skip(1) =~= a.skip(1) + b);
        let d = match a[0] {
            Acao::Copia { lote: _, de, ate, src_off: _, dst_off, n } => dst.take(dst_off as int)
                + transformado(ty, src.subrange(de as int, ate as int)) + dst.skip(dst_off + n),
            _ => dst,
        };
        lemma_entrega_soma(ty, src, a.skip(1), b, d);
    }
}

proof fn lemma_entrega_sem_copias(ty: GgmlType, src: Seq<u8>, a: Seq<Acao>, dst: Seq<u8>)
    requires
        forall|i: int| 0 <= i < a.len() ==> !(#[trigger] a[i] is Copia),
    ensures
        entrega(ty, src, a, dst) == dst,
    decreases a.len(),
{
    if a.len() > 0 {
        assert(!(a[0] is Copia));
        assert forall|i: int| 0 <= i < a.skip(1).len() implies !(#[trigger] a.skip(1)[i]
            is Copia) by {
            assert(a.skip(1)[i] == a[i + 1]);
        }
        lemma_entrega_sem_copias(ty, src, a.skip(1), dst);
    }
}

/// The layout of a piece, slice by slice.
proof fn lemma_fatias(p: Peca, src: Seq<u8>, b0: int, n: int)
    requires
        p.ok(),
        src.len() == p.n_blocos * p.src_bl,
        0 <= b0,
        0 <= n,
        b0 + n <= p.n_blocos,
    ensures
        ({
            let x = b0 * p.src_bl;
            let y = (b0 + n) * p.src_bl;
            &&& 0 <= x <= y <= src.len()
            &&& transformado(p.ty, src.take(y)) == transformado(p.ty, src.take(x))
                + transformado(p.ty, src.subrange(x, y))
            &&& transformado(p.ty, src.take(x)).len() == b0 * p.dst_bl
            &&& transformado(p.ty, src.take(y)).len() == (b0 + n) * p.dst_bl
            &&& transformado(p.ty, src.subrange(x, y)).len() == n * p.dst_bl
        }),
{
    lemma_produtos(p, b0, n);
    let x = b0 * p.src_bl;
    let y = (b0 + n) * p.src_bl;
    let bl = p.src_bl as int;
    assert(src.take(y) =~= src.take(x) + src.subrange(x, y));
    if !(p.ty is F32) {
        vstd::arithmetic::div_mod::lemma_mod_multiples_basic(b0, bl);
        vstd::arithmetic::div_mod::lemma_mod_multiples_basic(n, bl);
        vstd::arithmetic::div_mod::lemma_mod_multiples_basic(b0 + n, bl);
        vstd::arithmetic::div_mod::lemma_div_multiples_vanish(b0, bl);
        vstd::arithmetic::div_mod::lemma_div_multiples_vanish(n, bl);
        vstd::arithmetic::div_mod::lemma_div_multiples_vanish(b0 + n, bl);
        assert(bl * b0 == x && bl * (b0 + n) == y && bl * n == n * bl) by (nonlinear_arith)
            requires
                x == b0 * bl,
                y == (b0 + n) * bl,
        ;
        lei_transformar_por_fatias(p.ty, src.take(x), src.subrange(x, y));
        lei_tamanho_transformado(p.ty, src.take(x));
        lei_tamanho_transformado(p.ty, src.subrange(x, y));
        lei_tamanho_transformado(p.ty, src.take(y));
    }
}

/// One copy extends what is right of the destination by its blocks.
proof fn lemma_copia_entrega(
    v: Uploader,
    p: Peca,
    b0: int,
    n: int,
    src: Seq<u8>,
    dst: Seq<u8>,
    resto: Seq<Acao>,
)
    requires
        p.ok(),
        0 <= b0,
        0 <= n,
        b0 + n <= p.n_blocos,
        src.len() == p.n_blocos * p.src_bl,
        dst.len() == p.total(),
        dst.take(b0 * p.dst_bl) == transformado(p.ty, src.take(b0 * p.src_bl)),
    ensures
        ({
            let d = depois_da_copia(p, b0, n, src, dst);
            &&& d.len() == p.total()
            &&& d.take((b0 + n) * p.dst_bl) == transformado(p.ty, src.take((b0 + n) * p.src_bl))
            &&& entrega(p.ty, src, seq![copia(v, p, b0, n)] + resto, dst) == entrega(
                p.ty,
                src,
                resto,
                d,
            )
        }),
{
    lemma_produtos(p, b0, n);
    lemma_fatias(p, src, b0, n);
    let c = copia(v, p, b0, n);
    let d = depois_da_copia(p, b0, n, src, dst);
    let y = (b0 + n) * p.src_bl;
    let s = seq![c] + resto;
    assert(s[0] == c);
    assert(s.skip(1) =~= resto);
    assert(d.take((b0 + n) * p.dst_bl) =~= transformado(p.ty, src.take(y)));
}

/// The destination after the copy of the blocks `b0..b0 + n`.
spec fn depois_da_copia(p: Peca, b0: int, n: int, src: Seq<u8>, dst: Seq<u8>) -> Seq<u8> {
    dst.take(b0 * p.dst_bl) + transformado(
        p.ty,
        src.subrange(b0 * p.src_bl, (b0 + n) * p.src_bl),
    ) + dst.skip(b0 * p.dst_bl + n * p.dst_bl)
}

proof fn lemma_virada_sem_copias(u: Uploader, d: int, ty: GgmlType, src: Seq<u8>, dst: Seq<u8>)
    ensures
        entrega(ty, src, u.virada_se_cheio(d).0, dst) == dst,
{
    lemma_entrega_sem_copias(ty, src, u.virada_se_cheio(d).0, dst);
}

proof fn lemma_entrega(u: Uploader, p: Peca, b0: int, src: Seq<u8>, dst: Seq<u8>)
    requires
        u.ok(),
        p.ok(),
        p.dst_bl <= u.staging_bytes,
        0 <= b0 <= p.n_blocos,
        src.len() == p.n_blocos * p.src_bl,
        dst.len() == p.total(),
        dst.take(b0 * p.dst_bl) == transformado(p.ty, src.take(b0 * p.src_bl)),
    ensures
        entrega(p.ty, src, sobe(u, p, b0).0, dst) == transformado(p.ty, src),
    decreases p.n_blocos - b0,
{
    if b0 == p.n_blocos {
        assert(dst.take(b0 * p.dst_bl) =~= dst);
        assert(src.take(b0 * p.src_bl) =~= src);
    } else {
        lemma_cabem(u, p);
        let v = u.virada_se_cheio(p.dst_bl as int);
        lemma_cabem(v.1, p);
        let n = proximos(v.1, p, b0);
        lemma_passo_ok(v.1, p, b0, n);
        let c = copia(v.1, p, b0, n);
        let w = v.1.com_copia(n * p.dst_bl);
        let r = sobe(w, p, b0 + n);
        let d = depois_da_copia(p, b0, n, src, dst);
        lemma_virada_sem_copias(u, p.dst_bl as int, p.ty, src, dst);
        lemma_entrega_soma(p.ty, src, v.0, seq![c] + r.0, dst);
        assert(v.0.push(c) + r.0 =~= v.0 + (seq![c] + r.0));
        lemma_copia_entrega(v.1, p, b0, n, src, dst, r.0);
        lemma_entrega(w, p, b0 + n, src, d);
        assert(sobe(u, p, b0).0 == v.0.push(c) + r.0);
    }
}

/// The uploader stays sound over a copy of as many blocks as there is room for.
proof fn lemma_passo_ok(v: Uploader, p: Peca, b0: int, n: int)
    requires
        v.ok(),
        p.ok(),
        0 <= b0 < p.n_blocos,
        n == proximos(v, p, b0),
        v.cabem(p.dst_bl as int) >= 1,
        v.cabem(p.dst_bl as int) * p.dst_bl <= v.staging_bytes - v.usado,
    ensures
        1 <= n,
        b0 + n <= p.n_blocos,
        0 <= n * p.dst_bl <= v.staging_bytes - v.usado,
        v.com_copia(n * p.dst_bl).ok(),
{
    lemma_produtos(p, b0, n);
    assert(n * p.dst_bl <= v.cabem(p.dst_bl as int) * p.dst_bl) by (nonlinear_arith)
        requires
            n <= v.cabem(p.dst_bl as int),
            p.dst_bl >= 0,
    ;
}

/// The device receives exactly the laid out bytes, however the pieces fall into
/// batches.
pub proof fn lei_entrega_os_mesmos_bytes(u: Uploader, p: Peca, src: Seq<u8>, dst: Seq<u8>)
    requires
        u.ok(),
        p.ok(),
        p.dst_bl <= u.staging_bytes,
        src.len() == p.n_blocos * p.src_bl,
        dst.len() == p.total(),
    ensures
        entrega(p.ty, src, sobe(u, p, 0).0, dst) == transformado(p.ty, src),
{
    lemma_fatias(p, src, 0, 0);
    assert(0 * p.src_bl == 0) by (nonlinear_arith);
    assert(0 * p.dst_bl == 0) by (nonlinear_arith);
    assert(dst.take(0) =~= transformado(p.ty, src.take(0)));
    lemma_entrega(u, p, 0, src, dst);
}

// ---------------------------------------------------------------------------
// No byte is overwritten before it was copied
// ---------------------------------------------------------------------------

/// Where a batch stands: whether its commands are being recorded, whether the
/// device has it, and up to which byte of its staging buffer copies are
/// outstanding.
pub struct EstadoDoLote {
    pub aberto: bool,
    pub voando: bool,
    pub pendente: int,
}

/// Both batches.
pub struct EstadoDosLotes {
    pub l0: EstadoDoLote,
    pub l1: EstadoDoLote,
}

impl EstadoDosLotes {
    pub open spec fn lote(self, i: int) -> EstadoDoLote {
        if i == 0 {
            self.l0
        } else {
            self.l1
        }
    }

    pub open spec fn com(self, i: int, l: EstadoDoLote) -> Self {
        if i == 0 {
            EstadoDosLotes { l0: l, ..self }
        } else {
            EstadoDosLotes { l1: l, ..self }
        }
    }

    /// Whether a step may be taken: commands are recorded only into an open
    /// batch that the device does not have, a copy is staged only where none is
    /// outstanding, and a batch is opened only when nothing of it is.
    pub open spec fn permite(self, a: Acao, staging: int) -> bool {
        match a {
            Acao::Submete { lote } => self.lote(lote as int).aberto && !self.lote(
                lote as int,
            ).voando,
            Acao::Espera { lote } => self.lote(lote as int).voando,
            Acao::Abre { lote } => !self.lote(lote as int).voando && self.lote(
                lote as int,
            ).pendente == 0,
            Acao::Copia { lote, de: _, ate: _, src_off, dst_off: _, n } => {
                let l = self.lote(lote as int);
                l.aberto && !l.voando && src_off >= l.pendente && src_off + n <= staging
            },
        }
    }

    pub open spec fn depois(self, a: Acao) -> Self {
        match a {
            Acao::Submete { lote } => {
                let l = self.lote(lote as int);
                self.com(lote as int, EstadoDoLote { aberto: false, voando: true, ..l })
            },
            Acao::Espera { lote } => {
                let l = self.lote(lote as int);
                self.com(lote as int, EstadoDoLote { voando: false, pendente: 0, ..l })
            },
            Acao::Abre { lote } => {
                let l = self.lote(lote as int);
                self.com(lote as int, EstadoDoLote { aberto: true, ..l })
            },
            Acao::Copia { lote, de: _, ate: _, src_off, dst_off: _, n } => {
                let l = self.lote(lote as int);
                self.com(lote as int, EstadoDoLote { pendente: src_off + n, ..l })
            },
        }
    }
}

/// Whether all steps may be taken one after the other.
pub open spec fn seguras(a: Seq<Acao>, s: EstadoDosLotes, staging: int) -> bool
    decreases a.len(),
{
    a.len() == 0 || s.permite(a[0], staging) && seguras(a.skip(1), s.depois(a[0]), staging)
}

/// Where the batches stand after the steps.
pub open spec fn depois_de(a: Seq<Acao>, s: EstadoDosLotes) -> EstadoDosLotes
    decreases a.len(),
{
    if a.len() == 0 {
        s
    } else {
        depois_de(a.skip(1), s.depois(a[0]))
    }
}

/// That the uploader knows where the batches stand.
pub open spec fn sabe(u: Uploader, s: EstadoDosLotes) -> bool {
    let e = s.lote(u.atual as int);
    let o = s.lote(1 - u.atual as int);
    &&& e.aberto
    &&& !e.voando
    &&& 0 <= e.pendente <= u.usado
    &&& o.voando == u.outro.voando
    &&& !o.voando ==> o.pendente == 0
}

proof fn lemma_seguras_soma(a: Seq<Acao>, b: Seq<Acao>, s: EstadoDosLotes, staging: int)
    ensures
        seguras(a + b, s, staging) == (seguras(a, s, staging) && seguras(
            b,
            depois_de(a, s),
            staging,
        )),
        depois_de(a + b, s) == depois_de(b, depois_de(a, s)),
    decreases a.len(),
{
    if a.len() == 0 {
        assert(a + b =~= b);
    } else {
        assert((a + b)[0] == a[0]);
        assert((a + b).skip(1) =~= a.skip(1) + b);
        lemma_seguras_soma(a.skip(1), b, s.depois(a[0]), staging);
    }
}

proof fn lemma_um(a: Acao, s: EstadoDosLotes, staging: int)
    ensures
        seguras(seq![a], s, staging) == s.permite(a, staging),
        depois_de(seq![a], s) == s.depois(a),
{
    assert(seq![a].skip(1) =~= Seq::<Acao>::empty());
    assert(seguras(Seq::empty(), s.depois(a), staging));
    assert(depois_de(Seq::empty(), s.depois(a)) == s.depois(a));
}

proof fn lemma_se(c: bool, a: Acao, s: EstadoDosLotes, staging: int)
    ensures
        seguras(se(c, a), s, staging) == (c ==> s.permite(a, staging)),
        depois_de(se(c, a), s) == (if c {
            s.depois(a)
        } else {
            s
        }),
{
    lemma_um(a, s, staging);
}

proof fn lemma_virada(u: Uploader, s: EstadoDosLotes)
    requires
        u.ok(),
        sabe(u, s),
    ensures
        seguras(u.virada().0, s, u.staging_bytes as int),
        sabe(u.virada().1, depois_de(u.virada().0, s)),
{
    let g = u.staging_bytes as int;
    let i = u.atual;
    let j = (1 - u.atual) as usize;
    let a1 = se(u.este.sujo, Acao::Submete { lote: i });
    let a2 = se(u.outro.voando, Acao::Espera { lote: j });
    let a3 = seq![Acao::Abre { lote: j }];
    lemma_se(u.este.sujo, Acao::Submete { lote: i }, s, g);
    let s1 = depois_de(a1, s);
    lemma_se(u.outro.voando, Acao::Espera { lote: j }, s1, g);
    let s2 = depois_de(a2, s1);
    lemma_um(Acao::Abre { lote: j }, s2, g);
    lemma_seguras_soma(a1, a2, s, g);
    lemma_seguras_soma(a1 + a2, a3, s, g);
}

proof fn lemma_virada_se_cheio(u: Uploader, d: int, s: EstadoDosLotes)
    requires
        u.ok(),
        sabe(u, s),
    ensures
        seguras(u.virada_se_cheio(d).0, s, u.staging_bytes as int),
        sabe(u.virada_se_cheio(d).1, depois_de(u.virada_se_cheio(d).0, s)),
{
    if u.cabem(d) == 0 {
        lemma_virada(u, s);
    }
}

proof fn lemma_copia_segura(u: Uploader, p: Peca, b0: int, n: int, s: EstadoDosLotes)
    requires
        u.ok(),
        sabe(u, s),
        1 <= n,
        0 <= n * p.dst_bl <= u.staging_bytes - u.usado,
    ensures
        s.permite(copia(u, p, b0, n), u.staging_bytes as int),
        sabe(u.com_copia(n * p.dst_bl), s.depois(copia(u, p, b0, n))),
        u.com_copia(n * p.dst_bl).ok(),
{
}

proof fn lemma_sobe_segura(u: Uploader, p: Peca, b0: int, s: EstadoDosLotes)
    requires
        u.ok(),
        p.ok(),
        p.dst_bl <= u.staging_bytes,
        0 <= b0 <= p.n_blocos,
        sabe(u, s),
    ensures
        seguras(sobe(u, p, b0).0, s, u.staging_bytes as int),
        sabe(sobe(u, p, b0).1, depois_de(sobe(u, p, b0).0, s)),
        sobe(u, p, b0).1.ok(),
    decreases p.n_blocos - b0,
{
    if b0 < p.n_blocos {
        let g = u.staging_bytes as int;
        lemma_cabem(u, p);
        let v = u.virada_se_cheio(p.dst_bl as int);
        lemma_cabem(v.1, p);
        lemma_virada_se_cheio(u, p.dst_bl as int, s);
        let s1 = depois_de(v.0, s);
        let n = proximos(v.1, p, b0);
        lemma_passo_ok(v.1, p, b0, n);
        let c = copia(v.1, p, b0, n);
        let w = v.1.com_copia(n * p.dst_bl);
        lemma_copia_segura(v.1, p, b0, n, s1);
        let s2 = s1.depois(c);
        lemma_sobe_segura(w, p, b0 + n, s2);
        let r = sobe(w, p, b0 + n);
        lemma_um(c, s1, g);
        lemma_seguras_soma(seq![c], r.0, s1, g);
        lemma_seguras_soma(v.0, seq![c] + r.0, s, g);
        assert(v.0.push(c) + r.0 =~= v.0 + (seq![c] + r.0));
        assert(sobe(u, p, b0) == (v.0.push(c) + r.0, r.1));
    }
}

/// No staged byte is overwritten before it was copied, and no command is
/// recorded into a batch that the device has: not within a piece, nor from one
/// piece to the next.
pub proof fn lei_upload_sem_corrida(u: Uploader, p: Peca, s: EstadoDosLotes)
    requires
        u.ok(),
        p.ok(),
        p.dst_bl <= u.staging_bytes,
        sabe(u, s),
    ensures
        seguras(sobe(u, p, 0).0, s, u.staging_bytes as int),
        sabe(sobe(u, p, 0).1, depois_de(sobe(u, p, 0).0, s)),
        sobe(u, p, 0).1.ok(),
{
    lemma_sobe_segura(u, p, 0, s);
}

/// When an upload has ended, the device has no batch and no copy that was
/// recorded is outstanding.
pub proof fn lei_fim_espera_tudo(u: Uploader, s: EstadoDosLotes)
    requires
        u.ok(),
        sabe(u, s),
    ensures
        seguras(fim(u), s, u.staging_bytes as int),
        ({
            let f = depois_de(fim(u), s);
            !f.l0.voando && !f.l1.voando && f.l0.pendente == 0 && f.l1.pendente == 0
        }),
{
    let g = u.staging_bytes as int;
    let i = u.atual;
    let v0 = if i == 0 {
        u.este.voando || u.este.sujo
    } else {
        u.outro.voando
    };
    let v1 = if i == 0 {
        u.outro.voando
    } else {
        u.este.voando || u.este.sujo
    };
    let a1 = se(u.este.sujo, Acao::Submete { lote: i });
    let a2 = se(v0, Acao::Espera { lote: 0 });
    let a3 = se(v1, Acao::Espera { lote: 1 });
    lemma_se(u.este.sujo, Acao::Submete { lote: i }, s, g);
    let s1 = depois_de(a1, s);
    lemma_se(v0, Acao::Espera { lote: 0 }, s1, g);
    let s2 = depois_de(a2, s1);
    lemma_se(v1, Acao::Espera { lote: 1 }, s2, g);
    lemma_seguras_soma(a1, a2, s, g);
    lemma_seguras_soma(a1 + a2, a3, s, g);
}

} // verus!
