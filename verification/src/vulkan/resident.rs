//! A single GPU that keeps weights and activation buffers between calls.

use vstd::prelude::*;

use std::collections::HashMap;

use crate::vulkan::contas::{palavras, palavras_em_bytes};

verus! {

broadcast use vstd::std_specs::hash::group_hash_axioms;

/// How large the buffers of the input and of the output are, and how often one
/// of them grew.
#[derive(Clone, Copy, Debug, PartialEq, Eq, Structural)]
pub struct Buffers {
    pub x_cap: u64,
    pub y_cap: u64,
    pub grows: usize,
}

impl Buffers {
    /// No buffers.
    pub fn empty() -> (r: Self)
        ensures
            r == (Buffers { x_cap: 0, y_cap: 0, grows: 0 }),
    {
        Buffers { x_cap: 0, y_cap: 0, grows: 0 }
    }

    /// After the input was given room for `n` bytes.
    pub open spec fn com_x(self, n: u64) -> Self {
        if n > self.x_cap {
            Buffers { x_cap: n, grows: (self.grows + 1) as usize, ..self }
        } else {
            self
        }
    }

    /// Without the buffers of the input.
    pub open spec fn sem_x(self) -> Self {
        Buffers { x_cap: 0, ..self }
    }

    /// Without the buffers of the output.
    pub open spec fn sem_y(self) -> Self {
        Buffers { y_cap: 0, ..self }
    }

    /// After the output was given room for `n` bytes.
    pub open spec fn com_y(self, n: u64) -> Self {
        if n > self.y_cap {
            Buffers { y_cap: n, grows: (self.grows + 1) as usize, ..self }
        } else {
            self
        }
    }

    /// Whether the buffers of the input have to be made anew.
    pub fn falta_x(&self, n: u64) -> (r: bool)
        ensures
            r == (n > self.x_cap),
    {
        n > self.x_cap
    }

    /// Whether those of the output have to.
    pub fn falta_y(&self, n: u64) -> (r: bool)
        ensures
            r == (n > self.y_cap),
    {
        n > self.y_cap
    }

    /// The buffers of the input are gone. Whoever makes larger ones says so as
    /// soon as the old ones are freed: the new ones may not come.
    pub fn largou_x(&mut self)
        ensures
            *final(self) == old(self).sem_x(),
    {
        self.x_cap = 0;
    }

    /// Those of the output are gone.
    pub fn largou_y(&mut self)
        ensures
            *final(self) == old(self).sem_y(),
    {
        self.y_cap = 0;
    }

    /// The input has room for `n` bytes now.
    pub fn garantiu_x(&mut self, n: u64)
        requires
            old(self).grows < usize::MAX,
        ensures
            *final(self) == old(self).com_x(n),
    {
        if n > self.x_cap {
            self.x_cap = n;
            self.grows = self.grows + 1;
        }
    }

    /// The output has room for `n` bytes now.
    pub fn garantiu_y(&mut self, n: u64)
        requires
            old(self).grows < usize::MAX,
        ensures
            *final(self) == old(self).com_y(n),
    {
        if n > self.y_cap {
            self.y_cap = n;
            self.grows = self.grows + 1;
        }
    }
}

/// As long as every growth succeeds, buffers never shrink, have room for what
/// was asked for, and asking for no more a second time changes nothing. That the
/// old buffers are freed before the new ones are made makes no difference.
pub proof fn lei_buffers_so_crescem(b: Buffers, x: u64, y: u64)
    ensures
        ({
            let c = b.com_x(x).com_y(y);
            &&& c.x_cap >= b.x_cap && c.y_cap >= b.y_cap
            &&& c.x_cap >= x && c.y_cap >= y
            &&& c.com_x(x).com_y(y) == c
        }),
        x > b.x_cap ==> b.sem_x().com_x(x) == b.com_x(x),
        y > b.y_cap ==> b.sem_y().com_y(y) == b.com_y(y),
{
}

/// After a growth that failed, no request finds room on that side without new
/// buffers, and one that succeeds has the room that it asked for. The other side
/// is as it was.
pub proof fn lei_falha_nao_deixa_capacidade(b: Buffers, n: u64)
    requires
        n > 0,
    ensures
        n > b.sem_x().x_cap && b.sem_x().y_cap == b.y_cap,
        b.sem_x().com_x(n).x_cap == n,
        n > b.sem_y().y_cap && b.sem_y().x_cap == b.x_cap,
        b.sem_y().com_y(n).y_cap == n,
{
}

/// The weights on the GPU, by the address of their bytes.
pub struct Pesos {
    pub buffers: HashMap<u64, u64>,
}

impl Pesos {
    pub fn novo() -> (r: Self)
        ensures
            r.buffers@ == Map::<u64, u64>::empty(),
    {
        Pesos { buffers: HashMap::new() }
    }

    /// Weights that are on the GPU.
    pub fn resident_count(&self) -> (r: usize)
        ensures
            r == self.buffers@.len(),
    {
        self.buffers.len()
    }

    /// The buffer of weights that are on the GPU already.
    pub fn tem(&self, chave: u64) -> (r: Option<u64>)
        ensures
            r == (if self.buffers@.contains_key(chave) {
                Some(self.buffers@[chave])
            } else {
                None
            }),
    {
        match self.buffers.get(&chave) {
            Some(b) => Some(*b),
            None => None,
        }
    }

    /// Weights have been uploaded.
    pub fn subiu(&mut self, chave: u64, buffer: u64)
        ensures
            final(self).buffers@ == old(self).buffers@.insert(chave, buffer),
    {
        self.buffers.insert(chave, buffer);
    }
}

/// Sizes, push constants and workgroups of a product: weights, input and output
/// are bound, and a workgroup takes a row.
pub struct Chamada {
    pub x_size: u64,
    pub y_size: u64,
    pub push: Vec<u8>,
    pub grupos: u32,
}

pub fn chamada(x_len: usize, n_in: usize, n_out: usize) -> (r: Chamada)
    requires
        x_len * 4 <= usize::MAX,
        n_out * 4 <= usize::MAX,
    ensures
        r.x_size == x_len * 4,
        r.y_size == n_out * 4,
        r.push@ == palavras(seq![n_in as u32, n_out as u32, 0u32]),
        r.grupos == n_out as u32,
{
    let p: Vec<u32> = vec![n_in as u32, n_out as u32, 0];
    assert(p@ =~= seq![n_in as u32, n_out as u32, 0u32]);
    Chamada {
        x_size: (x_len * 4) as u64,
        y_size: (n_out * 4) as u64,
        push: palavras_em_bytes(&p),
        grupos: n_out as u32,
    }
}

} // verus!
