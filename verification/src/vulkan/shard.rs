//! The stretch of layers that one GPU runs, and the slots of the KV cache.

use vstd::prelude::*;

use crate::vulkan::contas::{entre, menor};

verus! {

/// The layers that a GPU runs, and its place in the pipeline. The first shard
/// looks up the embedding; the last one does the final norm and the logits.
#[derive(Clone, Copy, Debug, PartialEq, Eq, Structural)]
pub struct Shard {
    /// Index of the device.
    pub device: usize,
    /// First layer of the shard, counted over the whole model.
    pub first_layer: usize,
    /// One past its last layer.
    pub end_layer: usize,
    /// Layers of the model.
    pub n_layer_total: usize,
}

impl Shard {
    /// One shard for the whole model.
    pub fn whole(device: usize, n_layer: usize) -> (r: Self)
        ensures
            r == (Shard { device, first_layer: 0, end_layer: n_layer, n_layer_total: n_layer }),
    {
        Shard { device, first_layer: 0, end_layer: n_layer, n_layer_total: n_layer }
    }

    /// Whether this shard looks up the embedding.
    pub fn is_first(&self) -> (r: bool)
        ensures
            r == self.primeiro(),
    {
        self.first_layer == 0
    }

    /// Whether this shard does the final norm and the logits.
    pub fn is_last(&self) -> (r: bool)
        ensures
            r == self.ultimo(),
    {
        self.end_layer == self.n_layer_total
    }

    pub fn n_layers(&self) -> (r: usize)
        requires
            self.first_layer <= self.end_layer,
        ensures
            r == self.end_layer - self.first_layer,
    {
        self.end_layer - self.first_layer
    }

    pub open spec fn primeiro(self) -> bool {
        self.first_layer == 0
    }

    pub open spec fn ultimo(self) -> bool {
        self.end_layer == self.n_layer_total
    }
}

/// The shard of the whole model is both the first and the last one.
pub proof fn lei_shard_inteiro(s: Shard, device: usize, n_layer: usize)
    requires
        s == (Shard { device, first_layer: 0, end_layer: n_layer, n_layer_total: n_layer }),
    ensures
        s.primeiro() && s.ultimo() && s.end_layer - s.first_layer == n_layer,
{
}

// ---------------------------------------------------------------------------
// Slots of the KV cache
// ---------------------------------------------------------------------------

/// How many of the first `n` layers are attention layers.
pub open spec fn atencoes(a: Seq<bool>, n: int) -> nat
    decreases n,
{
    if n <= 0 {
        0
    } else {
        atencoes(a, n - 1) + if a[n - 1] {
            1nat
        } else {
            0
        }
    }
}

/// The slot of a layer: attention layers are numbered in order, the others
/// have none.
pub open spec fn slot_de(a: Seq<bool>, l: int) -> Option<usize> {
    if a[l] {
        Some(atencoes(a, l) as usize)
    } else {
        None
    }
}

pub proof fn lemma_atencoes(a: Seq<bool>, i: int, j: int)
    requires
        0 <= i <= j <= a.len(),
    ensures
        atencoes(a, i) <= atencoes(a, j),
        atencoes(a, j) - atencoes(a, i) <= j - i,
    decreases j,
{
    if i < j {
        lemma_atencoes(a, i, j - 1);
    }
}

/// The slot of each layer and their number. Only attention layers have a cache;
/// a layer with a recurrent state takes no slot.
pub fn slots_kv(eh_atencao: &[bool]) -> (r: (Vec<Option<usize>>, usize))
    ensures
        r.0.len() == eh_atencao.len(),
        forall|l: int| 0 <= l < r.0.len() ==> #[trigger] r.0[l] == slot_de(eh_atencao@, l),
        r.1 == atencoes(eh_atencao@, eh_atencao@.len() as int),
{
    let mut total: usize = 0;
    let mut slots: Vec<Option<usize>> = Vec::new();
    let mut i: usize = 0;
    while i < eh_atencao.len()
        invariant
            i <= eh_atencao.len(),
            slots.len() == i,
            total == atencoes(eh_atencao@, i as int),
            total <= i,
            forall|l: int| 0 <= l < i ==> #[trigger] slots[l] == slot_de(eh_atencao@, l),
        decreases eh_atencao.len() - i,
    {
        if eh_atencao[i] {
            slots.push(Some(total));
            total += 1;
        } else {
            slots.push(None);
        }
        i += 1;
    }
    (slots, total)
}

/// Every slot below the total belongs to one attention layer, and no two layers
/// share one.
pub proof fn lei_slots_distintos(a: Seq<bool>, i: int, j: int)
    requires
        0 <= i < j < a.len(),
        a[i],
        a[j],
    ensures
        atencoes(a, i) < atencoes(a, j) < atencoes(a, a.len() as int),
{
    lemma_atencoes(a, i + 1, j);
    lemma_atencoes(a, j + 1, a.len() as int);
}

/// In a model of attention layers alone the slot is the layer.
pub proof fn lei_slots_no_modelo_denso(a: Seq<bool>, n: int)
    requires
        0 <= n <= a.len(),
        forall|i: int| 0 <= i < a.len() ==> #[trigger] a[i],
    ensures
        atencoes(a, n) == n,
    decreases n,
{
    if n > 0 {
        lei_slots_no_modelo_denso(a, n - 1);
    }
}

// ---------------------------------------------------------------------------
// Slices of the KV cache
// ---------------------------------------------------------------------------

/// Most slices that the attention cuts the cache in.
pub const MAX_SPLITS: u32 = 16;

/// Positions per slice.
pub const POR_FATIA: u32 = 512;

/// Number of slices that is forced; zero leaves the choice to the length.
#[derive(Clone, Copy, Debug, PartialEq, Eq, Structural)]
pub struct SplitsForcados {
    pub n: u32,
}

pub open spec fn splits(forcado: u32, total_len: u32) -> u32 {
    if forcado > 0 {
        menor(forcado as int, MAX_SPLITS as int) as u32
    } else {
        entre(total_len as int / POR_FATIA as int, 1, MAX_SPLITS as int) as u32
    }
}

/// In how many slices to cut the cache; with one slice there is one workgroup
/// per head and nothing to reduce.
pub fn splits_do_kv(s: &SplitsForcados, total_len: u32) -> (r: u32)
    ensures
        r == splits(s.n, total_len),
        1 <= r <= MAX_SPLITS,
{
    if s.n > 0 {
        if s.n < MAX_SPLITS {
            s.n
        } else {
            MAX_SPLITS
        }
    } else {
        let n: u32 = total_len / POR_FATIA;
        if n < 1 {
            1
        } else if n > MAX_SPLITS {
            MAX_SPLITS
        } else {
            n
        }
    }
}

/// Forces the number of slices; zero takes it back.
pub fn forcar_splits(s: &mut SplitsForcados, n: u32)
    ensures
        final(s).n == n,
{
    s.n = n;
}

/// Sets what `LLAMA_RS_ATTN_SPLIT` asks for, if it is a number.
pub fn splits_do_ambiente(s: &mut SplitsForcados, n: Option<u32>)
    ensures
        final(s).n == match n {
            Some(x) => x,
            None => old(s).n,
        },
{
    if let Some(x) = n {
        forcar_splits(s, x);
    }
}

/// A longer cache is never cut in fewer slices.
pub proof fn lei_splits_monotono(a: u32, b: u32)
    requires
        a <= b,
    ensures
        splits(0, a) <= splits(0, b),
{
}

} // verus!
