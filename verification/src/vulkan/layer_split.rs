//! A model split over several GPUs: each runs a stretch of consecutive layers.

use vstd::prelude::*;
use vstd::string::*;

use crate::vulkan::ambiente::{numero_da_var, usize_da_var};
use crate::vulkan::contas::{decimal, poe_decimal};
use crate::vulkan::erro::{falta_recurso, sem_recurso, MatmulError};
use crate::vulkan::shard::Shard;

verus! {

/// Device memory that is left free on each GPU before the layers are shared out.
pub const MARGEM_VRAM: u64 = 1_610_612_736;

/// The sum of the first `n` numbers.
pub open spec fn soma(free: Seq<u64>, n: int) -> int
    decreases n,
{
    if n <= 0 {
        0
    } else {
        soma(free, n - 1) + free[n - 1]
    }
}

/// Where the layers of the device `i` start: at the share of the memory of the
/// devices before it. The last device ends with the last layer.
pub open spec fn corte(free: Seq<u64>, n_layer: int, i: int) -> int {
    if i >= free.len() {
        n_layer
    } else {
        let total = soma(free, free.len() as int);
        soma(free, i) * n_layer / if total > 0 {
            total
        } else {
            1
        }
    }
}

proof fn lemma_soma(free: Seq<u64>, i: int, j: int)
    requires
        0 <= i <= j <= free.len(),
    ensures
        0 <= soma(free, i) <= soma(free, j),
    decreases j,
{
    if i < j {
        lemma_soma(free, i, j - 1);
    } else if i > 0 {
        lemma_soma(free, i - 1, j - 1);
    }
}

/// The stretches begin at the first layer, follow one another and end with the
/// last one.
pub proof fn lei_cortes_em_ordem(free: Seq<u64>, n_layer: int, i: int)
    requires
        0 <= i < free.len(),
        0 <= n_layer,
    ensures
        corte(free, n_layer, 0) == 0,
        0 <= corte(free, n_layer, i) <= corte(free, n_layer, i + 1) <= n_layer,
        corte(free, n_layer, free.len() as int) == n_layer,
{
    let n = free.len() as int;
    let t = soma(free, n);
    lemma_soma(free, 0, n);
    lemma_soma(free, i, i + 1);
    lemma_soma(free, i, n);
    lemma_soma(free, i + 1, n);
    let total = if t > 0 {
        t
    } else {
        1
    };
    assert(0 * n_layer / total == 0) by {
        assert(0 * n_layer == 0);
        vstd::arithmetic::div_mod::lemma_div_basics(total);
    }
    lemma_fracao(soma(free, i), soma(free, i + 1), t, total, n_layer);
}

proof fn lemma_fracao(a: int, b: int, t: int, total: int, n: int)
    requires
        0 <= a <= b <= t,
        total == t || t == 0 && total == 1,
        total > 0,
        0 <= n,
    ensures
        0 <= a * n / total <= b * n / total <= n,
{
    assert(0 <= a * n <= b * n <= n * total) by (nonlinear_arith)
        requires
            0 <= a <= b <= t,
            t <= total,
            0 <= n,
    ;
    vstd::arithmetic::div_mod::lemma_div_is_ordered(0, a * n, total);
    vstd::arithmetic::div_mod::lemma_div_is_ordered(a * n, b * n, total);
    vstd::arithmetic::div_mod::lemma_div_is_ordered(b * n, n * total, total);
    vstd::arithmetic::div_mod::lemma_div_multiples_vanish(n, total);
    assert(total * n == n * total) by (nonlinear_arith);
    vstd::arithmetic::div_mod::lemma_div_basics(total);
}

/// A device without free memory has no layers, unless it is the last one and no
/// device has any memory.
pub proof fn lei_sem_memoria_sem_camadas(free: Seq<u64>, n_layer: int, i: int)
    requires
        0 <= i < free.len(),
        free[i] == 0,
        i + 1 < free.len() || soma(free, free.len() as int) > 0,
    ensures
        corte(free, n_layer, i) == corte(free, n_layer, i + 1),
{
    if i + 1 == free.len() {
        let t = soma(free, i + 1);
        vstd::arithmetic::div_mod::lemma_div_multiples_vanish(n_layer, t);
    }
}

/// Devices with equal memory have stretches that differ by at most one layer.
pub proof fn lei_memoria_igual_camadas_iguais(free: Seq<u64>, n_layer: int, m: u64, i: int)
    requires
        0 < m,
        0 <= n_layer,
        0 <= i < free.len(),
        forall|k: int| 0 <= k < free.len() ==> #[trigger] free[k] == m,
    ensures
        ({
            let n = free.len() as int;
            let c = corte(free, n_layer, i + 1) - corte(free, n_layer, i);
            n_layer / n <= c <= n_layer / n + 1
        }),
{
    let n = free.len() as int;
    lemma_soma_igual(free, m, i);
    lemma_soma_igual(free, m, i + 1);
    lemma_soma_igual(free, m, n);
    lemma_corte_igual(free, n_layer, m, i);
    lemma_corte_igual(free, n_layer, m, i + 1);
    let q = n_layer / n;
    let r = n_layer % n;
    vstd::arithmetic::div_mod::lemma_fundamental_div_mod(n_layer, n);
    vstd::arithmetic::div_mod::lemma_mod_bound(n_layer, n);
    lemma_parte(q, r, n, i);
    lemma_parte(q, r, n, i + 1);
    assert(n_layer == n * q + r);
    assert(i * n_layer == i * (n * q + r));
    let a = (i * r) / n;
    let b = ((i + 1) * r) / n;
    assert((i + 1) * r == i * r + r) by (nonlinear_arith);
    assert((i + 1) * q == i * q + q) by (nonlinear_arith);
    assert(i * r >= 0) by (nonlinear_arith)
        requires
            i >= 0,
            r >= 0,
    ;
    vstd::arithmetic::div_mod::lemma_div_is_ordered(i * r, i * r + r, n);
    vstd::arithmetic::div_mod::lemma_div_is_ordered(i * r + r, i * r + n, n);
    vstd::arithmetic::div_mod::lemma_div_plus_one(i * r, n);
}

/// `i` times `n * q + r`, divided by `n`.
proof fn lemma_parte(q: int, r: int, n: int, i: int)
    requires
        n > 0,
        i >= 0,
        r >= 0,
    ensures
        i * (n * q + r) / n == i * q + (i * r) / n,
{
    assert(i * (n * q + r) == n * (i * q) + i * r) by (nonlinear_arith);
    vstd::arithmetic::div_mod::lemma_hoist_over_denominator(i * r, i * q, n as nat);
    assert((i * q) * n == n * (i * q)) by (nonlinear_arith);
}

proof fn lemma_soma_igual(free: Seq<u64>, m: u64, n: int)
    requires
        0 <= n <= free.len(),
        forall|k: int| 0 <= k < free.len() ==> #[trigger] free[k] == m,
    ensures
        soma(free, n) == n * m,
    decreases n,
{
    if n > 0 {
        lemma_soma_igual(free, m, n - 1);
        assert((n - 1) * m + m == n * m) by (nonlinear_arith);
    } else {
        assert(n * m == 0) by (nonlinear_arith)
            requires
                n == 0,
        ;
    }
}

proof fn lemma_corte_igual(free: Seq<u64>, n_layer: int, m: u64, i: int)
    requires
        0 < m,
        0 <= n_layer,
        0 < free.len(),
        0 <= i <= free.len(),
        forall|k: int| 0 <= k < free.len() ==> #[trigger] free[k] == m,
    ensures
        corte(free, n_layer, i) == i * n_layer / (free.len() as int),
{
    let n = free.len() as int;
    lemma_soma_igual(free, m, i);
    lemma_soma_igual(free, m, n);
    assert(n * m > 0) by (nonlinear_arith)
        requires
            n > 0,
            m > 0,
    ;
    if i < n {
        assert(i * m * n_layer == m * (i * n_layer)) by (nonlinear_arith);
        assert(n * m == m * n) by (nonlinear_arith);
        assert(i * n_layer >= 0) by (nonlinear_arith)
            requires
                i >= 0,
                n_layer >= 0,
        ;
        vstd::arithmetic::div_mod::lemma_truncate_middle(i * n_layer, n, m as int);
        vstd::arithmetic::div_mod::lemma_div_denominator(m * (i * n_layer), m as int, n);
        vstd::arithmetic::div_mod::lemma_div_multiples_vanish(i * n_layer, m as int);
    } else {
        vstd::arithmetic::div_mod::lemma_div_multiples_vanish(n_layer, n);
    }
}

/// The layers of each device, in proportion to its free memory.
pub fn split_points(free: &[u64], n_layer: usize) -> (r: Vec<(usize, usize)>)
    requires
        soma(free@, free@.len() as int) <= u128::MAX,
        soma(free@, free@.len() - 1) * n_layer <= u128::MAX,
    ensures
        r.len() == free.len(),
        forall|i: int|
            0 <= i < r.len() ==> (#[trigger] r[i]).0 == corte(free@, n_layer as int, i) && r[i].1
                == corte(free@, n_layer as int, i + 1),
{
    let ghost n = free@.len() as int;
    let mut total: u128 = 0;
    let mut k: usize = 0;
    while k < free.len()
        invariant
            k <= free.len(),
            n == free@.len(),
            total == soma(free@, k as int),
            soma(free@, n) <= u128::MAX,
        decreases free.len() - k,
    {
        proof {
            lemma_soma(free@, k + 1, n);
        }
        total = total + free[k] as u128;
        k += 1;
    }
    if total == 0 {
        total = 1;
    }
    let mut out: Vec<(usize, usize)> = Vec::new();
    let mut acc: u128 = 0;
    let mut prev: usize = 0;
    let mut i: usize = 0;
    proof {
        if n > 0 {
            lei_cortes_em_ordem(free@, n_layer as int, 0);
        }
    }
    while i < free.len()
        invariant
            i <= free.len(),
            n == free@.len(),
            acc == soma(free@, i as int),
            soma(free@, n) <= u128::MAX,
            soma(free@, n - 1) * n_layer <= u128::MAX,
            total == (if soma(free@, n) > 0 {
                soma(free@, n)
            } else {
                1
            }),
            n > 0 ==> prev == corte(free@, n_layer as int, i as int),
            prev <= n_layer,
            out.len() == i,
            forall|k: int|
                0 <= k < i ==> (#[trigger] out[k]).0 == corte(free@, n_layer as int, k) && out[k].1
                    == corte(free@, n_layer as int, k + 1),
        decreases free.len() - i,
    {
        proof {
            lemma_soma(free@, i + 1, n);
            lei_cortes_em_ordem(free@, n_layer as int, i as int);
            if i + 1 < n {
                lemma_soma(free@, i + 1, n - 1);
                assert(soma(free@, i + 1) * n_layer <= soma(free@, n - 1) * n_layer)
                    by (nonlinear_arith)
                    requires
                        soma(free@, i + 1) <= soma(free@, n - 1),
                ;
            }
            assert(soma(free@, i + 1) * n_layer >= 0) by (nonlinear_arith)
                requires
                    soma(free@, i + 1) >= 0,
            ;
        }
        acc = acc + free[i] as u128;
        let fim: usize = if i + 1 == free.len() {
            n_layer
        } else {
            (acc * n_layer as u128 / total) as usize
        };
        out.push((prev, fim));
        prev = fim;
        i += 1;
    }
    out
}

/// What of the free memory of a device counts; at least one byte.
pub open spec fn disponivel(livre: Option<u64>) -> u64 {
    let x = match livre {
        Some(n) => n,
        None => 1,
    };
    if x > MARGEM_VRAM + 1 {
        (x - MARGEM_VRAM) as u64
    } else {
        1
    }
}

/// The boundary that `LLAMA_RS_SPLIT` sets between two devices.
pub open spec fn fronteira_fixa(v: Option<&str>, n_dev: int, n_layer: int) -> Option<int> {
    match numero_da_var(v, usize::MAX as int) {
        Some(n) => if 0 < n < n_layer && n_dev == 2 {
            Some(n)
        } else {
            None
        },
        None => None,
    }
}

pub open spec fn disponiveis(livres: Seq<Option<u64>>) -> Seq<u64> {
    livres.map_values(|l: Option<u64>| disponivel(l))
}

/// The layers of each device. There must be two at least; with two, `split` may
/// set the boundary.
pub fn fronteiras(livres: &[Option<u64>], split: Option<&str>, n_layer: usize) -> (r: Result<
    Vec<(usize, usize)>,
    MatmulError,
>)
    requires
        livres.len() >= 2 && fronteira_fixa(split, livres@.len() as int, n_layer as int) is None
            ==> soma(disponiveis(livres@), livres@.len() as int) <= u128::MAX && soma(
            disponiveis(livres@),
            livres@.len() - 1,
        ) * n_layer <= u128::MAX,
    ensures
        r is Ok <==> livres.len() >= 2,
        r matches Err(e) ==> e == sem_recurso(),
        r matches Ok(v) ==> contiguas(v@, v@.len() as int, n_layer as int),
        r matches Ok(v) ==> match fronteira_fixa(split, livres@.len() as int, n_layer as int) {
            Some(n) => v@ == seq![(0usize, n as usize), (n as usize, n_layer)],
            None => v@.len() == livres@.len() && forall|i: int|
                0 <= i < v@.len() ==> (#[trigger] v@[i]).0 == corte(
                    disponiveis(livres@),
                    n_layer as int,
                    i,
                ) && v@[i].1 == corte(disponiveis(livres@), n_layer as int, i + 1),
        },
{
    if livres.len() < 2 {
        return Err(falta_recurso());
    }
    if let Some(n) = usize_da_var(split) {
        if n > 0 && n < n_layer && livres.len() == 2 {
            let v: Vec<(usize, usize)> = vec![(0, n), (n, n_layer)];
            assert(v@ =~= seq![(0usize, n), (n, n_layer)]);
            return Ok(v);
        }
    }
    let mut free: Vec<u64> = Vec::new();
    let mut i: usize = 0;
    while i < livres.len()
        invariant
            i <= livres.len(),
            free.len() == i,
            forall|k: int| 0 <= k < i ==> #[trigger] free[k] == disponivel(livres[k]),
        decreases livres.len() - i,
    {
        let x: u64 = match livres[i] {
            Some(n) => n,
            None => 1,
        };
        let y: u64 = x.saturating_sub(MARGEM_VRAM);
        free.push(
            if y < 1 {
                1
            } else {
                y
            },
        );
        i += 1;
    }
    assert(free@ =~= disponiveis(livres@));
    let v = split_points(free.as_slice(), n_layer);
    proof {
        lei_fronteiras_contiguas(free@, n_layer, v@);
    }
    Ok(v)
}

/// The shards of the first `n` stretches: one for each that has a layer.
pub open spec fn shards_de(f: Seq<(usize, usize)>, n_layer: usize, n: int) -> Seq<Shard>
    decreases n,
{
    if n <= 0 {
        Seq::empty()
    } else {
        let r = shards_de(f, n_layer, n - 1);
        let (a, b) = f[n - 1];
        if a != b {
            r.push(
                Shard {
                    device: (n - 1) as usize,
                    first_layer: a,
                    end_layer: b,
                    n_layer_total: n_layer,
                },
            )
        } else {
            r
        }
    }
}

/// One shard for each stretch that has a layer.
pub fn shards(f: &Vec<(usize, usize)>, n_layer: usize) -> (r: Vec<Shard>)
    ensures
        r@ == shards_de(f@, n_layer, f@.len() as int),
{
    let mut r: Vec<Shard> = Vec::new();
    let mut i: usize = 0;
    while i < f.len()
        invariant
            i <= f.len(),
            r@ == shards_de(f@, n_layer, i as int),
        decreases f.len() - i,
    {
        let (a, b) = f[i];
        if a != b {
            r.push(Shard { device: i, first_layer: a, end_layer: b, n_layer_total: n_layer });
        }
        i += 1;
    }
    r
}

/// That a stretch goes on where the one before ended.
pub open spec fn segue_trecho(f: Seq<(usize, usize)>, i: int) -> bool {
    f[i].0 == f[i - 1].1
}

/// That a shard goes on where the one before ended.
pub open spec fn segue_shard(s: Seq<Shard>, i: int) -> bool {
    s[i].first_layer == s[i - 1].end_layer
}

/// That stretches follow one another from the first layer on, up to `fim`.
pub open spec fn contiguas(f: Seq<(usize, usize)>, n: int, fim: int) -> bool {
    &&& n > 0 ==> f[0].0 == 0 && f[n - 1].1 == fim
    &&& n <= 0 ==> fim == 0
    &&& forall|i: int| 0 <= i < n ==> (#[trigger] f[i]).0 <= f[i].1
    &&& forall|i: int| 0 < i < n ==> #[trigger] segue_trecho(f, i)
}

/// The layers of all shards together.
pub open spec fn camadas_de(s: Seq<Shard>) -> int
    decreases s.len(),
{
    if s.len() == 0 {
        0
    } else {
        camadas_de(s.drop_last()) + (s.last().end_layer - s.last().first_layer)
    }
}

/// The shards cover every layer once and in order: the first one has the
/// embedding, each goes on where the one before ended, the last one has the
/// logits, and their layers add up to those of the model.
pub proof fn lei_shards_cobrem_o_modelo(f: Seq<(usize, usize)>, n_layer: usize)
    requires
        contiguas(f, f.len() as int, n_layer as int),
        n_layer > 0,
    ensures
        ({
            let s = shards_de(f, n_layer, f.len() as int);
            &&& s.len() > 0
            &&& s[0].primeiro()
            &&& s[s.len() - 1].ultimo()
            &&& forall|i: int| 0 <= i < s.len() ==> (#[trigger] s[i]).first_layer < s[i].end_layer
            &&& forall|i: int| 0 < i < s.len() ==> #[trigger] segue_shard(s, i)
            &&& camadas_de(s) == n_layer
        }),
{
    lemma_shards(f, n_layer, f.len() as int);
}

spec fn cobre_ate(s: Seq<Shard>, n_layer: usize, fim: int) -> bool {
    &&& s.len() > 0 ==> s[0].first_layer == 0 && s[s.len() - 1].end_layer == fim
    &&& s.len() == 0 ==> fim == 0
    &&& camadas_de(s) == fim
    &&& forall|i: int|
        0 <= i < s.len() ==> (#[trigger] s[i]).first_layer < s[i].end_layer && s[i].n_layer_total
            == n_layer
    &&& forall|i: int| 0 < i < s.len() ==> #[trigger] segue_shard(s, i)
}

proof fn lemma_shards(f: Seq<(usize, usize)>, n_layer: usize, n: int)
    requires
        0 <= n <= f.len(),
        contiguas(f, f.len() as int, n_layer as int),
    ensures
        cobre_ate(
            shards_de(f, n_layer, n),
            n_layer,
            if n > 0 {
                f[n - 1].1 as int
            } else {
                0
            },
        ),
    decreases n,
{
    if n > 0 {
        lemma_shards(f, n_layer, n - 1);
        assert(f[n - 1].0 <= f[n - 1].1);
        if n > 1 {
            assert(segue_trecho(f, n - 1));
        }
        let a = shards_de(f, n_layer, n - 1);
        let s = shards_de(f, n_layer, n);
        if s.len() > a.len() {
            assert(s.drop_last() =~= a);
        }
        assert forall|i: int| 0 < i < s.len() implies #[trigger] segue_shard(s, i) by {
            if i < a.len() {
                assert(segue_shard(a, i));
            }
        }
    }
}

/// Each shard runs on the device whose free memory gave its stretch, with the
/// layers of that stretch; no two share a device, they come in the order of the
/// devices, and every device whose stretch has a layer has its shard.
pub proof fn lei_shard_no_seu_device(f: Seq<(usize, usize)>, n_layer: usize)
    requires
        f.len() <= usize::MAX,
    ensures
        ({
            let s = shards_de(f, n_layer, f.len() as int);
            &&& forall|i: int|
                0 <= i < s.len() ==> (#[trigger] s[i]).device < f.len() && f[s[i].device as int]
                    == (s[i].first_layer, s[i].end_layer) && s[i].n_layer_total == n_layer
            &&& forall|i: int, j: int|
                0 <= i < j < s.len() ==> (#[trigger] s[i]).device < (#[trigger] s[j]).device
            &&& forall|d: int|
                0 <= d < f.len() && (#[trigger] f[d]).0 != f[d].1 ==> exists|i: int|
                    0 <= i < s.len() && (#[trigger] s[i]).device == d
        }),
{
    lemma_devices(f, n_layer, f.len() as int);
}

proof fn lemma_devices(f: Seq<(usize, usize)>, n_layer: usize, n: int)
    requires
        0 <= n <= f.len() <= usize::MAX,
    ensures
        ({
            let s = shards_de(f, n_layer, n);
            &&& forall|i: int|
                0 <= i < s.len() ==> (#[trigger] s[i]).device < n && f[s[i].device as int] == (
                    s[i].first_layer,
                    s[i].end_layer,
                ) && s[i].n_layer_total == n_layer
            &&& forall|i: int, j: int|
                0 <= i < j < s.len() ==> (#[trigger] s[i]).device < (#[trigger] s[j]).device
            &&& forall|d: int|
                0 <= d < n && (#[trigger] f[d]).0 != f[d].1 ==> exists|i: int|
                    0 <= i < s.len() && (#[trigger] s[i]).device == d
        }),
    decreases n,
{
    if n > 0 {
        lemma_devices(f, n_layer, n - 1);
        let a = shards_de(f, n_layer, n - 1);
        let s = shards_de(f, n_layer, n);
        assert forall|d: int| 0 <= d < n && (#[trigger] f[d]).0 != f[d].1 implies exists|i: int|
            0 <= i < s.len() && (#[trigger] s[i]).device == d by {
            if d < n - 1 {
                let i = choose|i: int| 0 <= i < a.len() && (#[trigger] a[i]).device == d;
                assert(s[i] == a[i]);
            } else {
                assert(s[s.len() - 1].device == d);
            }
        }
    }
}

/// The layers of a device are to all layers as its memory is to all memory, up to
/// less than one layer.
pub proof fn lei_camadas_em_proporcao(free: Seq<u64>, n_layer: int, i: int)
    requires
        0 <= i < free.len(),
        0 <= n_layer,
        soma(free, free.len() as int) > 0,
    ensures
        ({
            let total = soma(free, free.len() as int);
            let n = corte(free, n_layer, i + 1) - corte(free, n_layer, i);
            free[i] * n_layer - total < n * total < free[i] * n_layer + total
        }),
{
    let k = free.len() as int;
    let total = soma(free, k);
    let a = soma(free, i);
    let b = soma(free, i + 1);
    assert(b == a + free[i]);
    lemma_corte_exato(free, n_layer, i);
    lemma_corte_exato(free, n_layer, i + 1);
    assert(b * n_layer == a * n_layer + free[i] * n_layer) by (nonlinear_arith)
        requires
            b == a + free[i],
    ;
    let x = corte(free, n_layer, i);
    let y = corte(free, n_layer, i + 1);
    assert((y - x) * total == y * total - x * total) by (nonlinear_arith);
}

/// A cut is the share of the memory before it, rounded down.
proof fn lemma_corte_exato(free: Seq<u64>, n_layer: int, i: int)
    requires
        0 <= i <= free.len(),
        0 <= n_layer,
        soma(free, free.len() as int) > 0,
    ensures
        ({
            let total = soma(free, free.len() as int);
            corte(free, n_layer, i) * total <= soma(free, i) * n_layer < corte(free, n_layer, i)
                * total + total
        }),
{
    let total = soma(free, free.len() as int);
    let p = soma(free, i) * n_layer;
    if i < free.len() {
        vstd::arithmetic::div_mod::lemma_fundamental_div_mod(p, total);
        vstd::arithmetic::div_mod::lemma_mod_bound(p, total);
        assert((p / total) * total == total * (p / total)) by (nonlinear_arith);
    } else {
        assert(n_layer * total == total * n_layer) by (nonlinear_arith);
    }
}

/// One and a half gibibytes of each device are not counted, but a device always
/// counts for something; and one that tells nothing counts for least.
pub proof fn lei_margem_de_cada_device(x: u64)
    ensures
        x > 3 * 0x2000_0000 ==> disponivel(Some(x)) + 3 * 0x2000_0000 == x,
        x <= 3 * 0x2000_0000 ==> disponivel(Some(x)) == 1,
        1 <= disponivel(None) <= disponivel(Some(x)),
{
}

/// A boundary that is set leaves layers on both sides, and counts with two
/// devices only.
pub proof fn lei_fronteira_fixa(v: Option<&str>, n_dev: int, n_layer: int)
    ensures
        fronteira_fixa(v, n_dev, n_layer) matches Some(n) ==> n_dev == 2 && 0 < n < n_layer
            && numero_da_var(v, usize::MAX as int) == Some(n),
        n_dev == 2 && (numero_da_var(v, usize::MAX as int) matches Some(n) && 0 < n < n_layer)
            ==> fronteira_fixa(v, n_dev, n_layer) is Some,
{
}

/// The stretches of [`split_points`] follow one another.
pub proof fn lei_fronteiras_contiguas(free: Seq<u64>, n_layer: usize, f: Seq<(usize, usize)>)
    requires
        free.len() > 0,
        f.len() == free.len(),
        forall|i: int|
            0 <= i < f.len() ==> (#[trigger] f[i]).0 == corte(free, n_layer as int, i) && f[i].1
                == corte(free, n_layer as int, i + 1),
    ensures
        contiguas(f, f.len() as int, n_layer as int),
{
    lei_cortes_em_ordem(free, n_layer as int, 0);
    assert forall|i: int| 0 <= i < f.len() implies (#[trigger] f[i]).0 <= f[i].1 by {
        lei_cortes_em_ordem(free, n_layer as int, i);
    }
}

/// Device and layers of each shard.
pub fn layout(s: &Vec<Shard>) -> (r: Vec<(usize, usize, usize)>)
    ensures
        r@ == s@.map_values(|x: Shard| (x.device, x.first_layer, x.end_layer)),
{
    let mut r: Vec<(usize, usize, usize)> = Vec::new();
    let mut i: usize = 0;
    while i < s.len()
        invariant
            i <= s.len(),
            r.len() == i,
            forall|k: int|
                0 <= k < i ==> #[trigger] r[k] == (s[k].device, s[k].first_layer, s[k].end_layer),
        decreases s.len() - i,
    {
        r.push((s[i].device, s[i].first_layer, s[i].end_layer));
        i += 1;
    }
    assert(r@ =~= s@.map_values(|x: Shard| (x.device, x.first_layer, x.end_layer)));
    r
}

/// The label of a shard: its device and its layers.
pub open spec fn rotulo_da_trilha(x: Shard) -> Seq<char> {
    "GPU"@ + decimal(x.device as int) + " ("@ + decimal(x.first_layer as int) + ".."@ + decimal(
        x.end_layer as int,
    ) + ")"@
}

pub fn trilha(x: &Shard) -> (r: String)
    ensures
        r@ == rotulo_da_trilha(*x),
{
    let mut s: String = "GPU".to_owned();
    poe_decimal(&mut s, x.device);
    s.append(" (");
    poe_decimal(&mut s, x.first_layer);
    s.append("..");
    poe_decimal(&mut s, x.end_layer);
    s.append(")");
    s
}

/// Whether all shards took part: half a sequence that went back is worse than
/// none.
pub fn todos(r: &[bool]) -> (ok: bool)
    ensures
        ok == forall|i: int| 0 <= i < r.len() ==> #[trigger] r[i],
{
    let mut ok: bool = true;
    let mut i: usize = 0;
    while i < r.len()
        invariant
            i <= r.len(),
            ok == forall|k: int| 0 <= k < i ==> #[trigger] r[k],
        decreases r.len() - i,
    {
        ok = ok && r[i];
        i += 1;
    }
    ok
}

} // verus!
