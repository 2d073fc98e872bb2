//! The lattice simulator: two equally sized energy buffers used in turn as
//! input and output, a step counter whose parity names the active one, and
//! the operations that inject, propagate and read back energy.
use vstd::prelude::*;
use crate::field::{field_sum, is_vacuum, lemma_elem_le_sum, lemma_sum_update, sum_of};
use crate::geometry::{site_index, Params};
use crate::rule::{lemma_transfers, propagate_step, step_field};

verus! {

/// Largest size in bytes of one energy buffer.
pub const MAX_BUFFER_BYTES: u64 = 2147483647;

/// Bytes taken by one site in an energy buffer.
pub const BYTES_PER_SITE: u64 = 4;

/// Largest number of quanta a site can be given by injection.
pub const SITE_CAP: u32 = 3;

#[derive(Clone, Copy, Debug, PartialEq, Eq, Structural)]
pub enum LatticeError {
    /// An energy buffer of the requested dimensions would exceed the buffer limit.
    DimensionOversize,
    /// The injection site lies outside the lattice.
    OutOfBounds,
    /// The injection would take the total past what a `u32` holds.
    EnergyOverflow,
}

/// The new value of a site holding `cell` that is given `quanta` more:
/// injection saturates at three.
pub open spec fn saturated(cell: u32, quanta: u32) -> int {
    if cell as int + quanta as int <= 3 {
        cell as int + quanta as int
    } else {
        3
    }
}

pub struct DiscreteLatticeGPU {
    energy_buffer_a: Vec<u32>,
    energy_buffer_b: Vec<u32>,
    width: u32,
    height: u32,
    depth: u32,
    total_sites: usize,
    step_count: u32,
}

/// A buffer of `n` empty sites.
fn vacuum_buffer(n: usize) -> (r: Vec<u32>)
    ensures
        r.len() == n,
        is_vacuum(r@),
{
    let mut v: Vec<u32> = Vec::new();
    while v.len() < n
        invariant
            v.len() <= n,
            is_vacuum(v@),
        decreases n - v.len(),
    {
        v.push(0);
    }
    v
}

/// Empties every site of a buffer.
fn clear_buffer(v: &mut Vec<u32>)
    ensures
        final(v).len() == old(v).len(),
        is_vacuum(final(v)@),
{
    let n = v.len();
    let mut i: usize = 0;
    while i < n
        invariant
            v.len() == n,
            i <= n,
            forall|j: int| 0 <= j < i ==> #[trigger] v@[j] == 0,
        decreases n - i,
    {
        v.set(i, 0);
        i = i + 1;
    }
}

impl DiscreteLatticeGPU {
    /// Dimensions and step counter, as handed to both passes.
    pub closed spec fn params(&self) -> Params {
        Params {
            width: self.width,
            height: self.height,
            depth: self.depth,
            step_count: self.step_count,
        }
    }

    /// The active buffer: the current field, input of the next step
    /// (buffer A after an even number of steps, buffer B after an odd one).
    pub closed spec fn energy(&self) -> Seq<u32> {
        if self.step_count % 2 == 0 {
            self.energy_buffer_a@
        } else {
            self.energy_buffer_b@
        }
    }

    /// The other buffer, output of the next step.
    pub closed spec fn standby(&self) -> Seq<u32> {
        if self.step_count % 2 == 0 {
            self.energy_buffer_b@
        } else {
            self.energy_buffer_a@
        }
    }

    pub closed spec fn wf(&self) -> bool {
        &&& self.total_sites == self.params().sites()
        &&& self.total_sites * BYTES_PER_SITE <= MAX_BUFFER_BYTES
        &&& self.energy_buffer_a.len() == self.total_sites
        &&& self.energy_buffer_b.len() == self.total_sites
        &&& field_sum(self.energy()) <= u32::MAX
    }

    /// Both buffers of a well-formed lattice hold one value per site.
    pub proof fn lemma_wf_lengths(&self)
        requires
            self.wf(),
        ensures
            self.energy().len() == self.params().sites(),
            self.standby().len() == self.params().sites(),
            field_sum(self.energy()) <= u32::MAX,
            self.params().sites() * BYTES_PER_SITE <= MAX_BUFFER_BYTES,
    {
    }

    /// A lattice of `width × height × depth` empty sites at step zero; fails
    /// where one energy buffer would exceed `MAX_BUFFER_BYTES`.
    pub fn new(width: u32, height: u32, depth: u32) -> (r: Result<Self, LatticeError>)
        ensures
            r is Ok <==> width as int * height as int * depth as int * BYTES_PER_SITE
                <= MAX_BUFFER_BYTES,
            r is Err ==> r == Err::<Self, LatticeError>(LatticeError::DimensionOversize),
            r matches Ok(l) ==> {
                &&& l.wf()
                &&& l.params() == (Params { width, height, depth, step_count: 0 })
                &&& is_vacuum(l.energy())
                &&& is_vacuum(l.standby())
            },
    {
        assert(width as int * height as int <= u64::MAX) by (nonlinear_arith)
            requires
                width <= u32::MAX,
                height <= u32::MAX,
        ;
        let layer: u64 = width as u64 * height as u64;
        match layer.checked_mul(depth as u64) {
            None => {
                assert(width as int * height as int * depth as int * BYTES_PER_SITE > MAX_BUFFER_BYTES);
                Err(LatticeError::DimensionOversize)
            },
            Some(n) => {
                if n > MAX_BUFFER_BYTES / BYTES_PER_SITE {
                    Err(LatticeError::DimensionOversize)
                } else {
                    let total_sites = n as usize;
                    let energy_buffer_a = vacuum_buffer(total_sites);
                    let energy_buffer_b = vacuum_buffer(total_sites);
                    let l = DiscreteLatticeGPU {
                        energy_buffer_a,
                        energy_buffer_b,
                        width,
                        height,
                        depth,
                        total_sites,
                        step_count: 0,
                    };
                    proof {
                        crate::laws::lemma_vacuum_sum(l.energy());
                    }
                    Ok(l)
                }
            },
        }
    }

    /// Empties both buffers; dimensions and step counter are kept.
    pub fn initialize_vacuum(&mut self)
        requires
            old(self).wf(),
        ensures
            final(self).wf(),
            final(self).params() == old(self).params(),
            is_vacuum(final(self).energy()),
            is_vacuum(final(self).standby()),
    {
        clear_buffer(&mut self.energy_buffer_a);
        clear_buffer(&mut self.energy_buffer_b);
        proof {
            crate::laws::lemma_vacuum_sum(self.energy());
        }
    }

    /// Adds `quanta` to site `(x, y, z)` of the active buffer, saturating the
    /// site at three. A site outside the lattice is refused, and so is an
    /// injection that would take the total past `u32::MAX`; a refused call
    /// changes nothing.
    pub fn add_energy_quantum(&mut self, x: u32, y: u32, z: u32, quanta: u32) -> (r: Result<
        (),
        LatticeError,
    >)
        requires
            old(self).wf(),
        ensures
            final(self).wf(),
            ({
                let p = old(self).params();
                let inside = x < p.width && y < p.height && z < p.depth;
                let idx = site_index(p.width as int, p.height as int, x as int, y as int, z as int);
                let cells = old(self).energy();
                let new_value = saturated(cells[idx], quanta);
                &&& !inside <==> r == Err::<(), LatticeError>(LatticeError::OutOfBounds)
                &&& inside ==> (r is Ok <==> field_sum(cells) - cells[idx] + new_value
                    <= u32::MAX)
                &&& r is Err ==> r == Err::<(), LatticeError>(LatticeError::OutOfBounds) || r
                    == Err::<(), LatticeError>(LatticeError::EnergyOverflow)
                &&& r is Ok ==> {
                    &&& final(self).energy() == cells.update(idx, new_value as u32)
                    &&& field_sum(final(self).energy()) == field_sum(cells) + (new_value
                        - cells[idx])
                    &&& final(self).standby() == old(self).standby()
                    &&& final(self).params() == p
                }
                &&& r is Err ==> *final(self) == *old(self)
            }),
    {
        if x >= self.width || y >= self.height || z >= self.depth {
            return Err(LatticeError::OutOfBounds);
        }
        let ghost w = self.width as int;
        let ghost h = self.height as int;
        let ghost d = self.depth as int;
        assert(h * z + y < h * d && 0 <= h * z) by (nonlinear_arith)
            requires
                0 <= y < h,
                0 <= z < d,
        ;
        assert(w * (y + h * z) + x < w * h * d && 0 <= w * (y + h * z)) by (nonlinear_arith)
            requires
                0 <= x < w,
                0 <= y + h * z < h * d,
        ;
        assert(w * (h * d) == w * h * d) by (nonlinear_arith);
        assert(h * d <= w * h * d) by (nonlinear_arith)
            requires
                w >= 1,
                h * d >= 0,
        ;
        proof {
            self.lemma_wf_lengths();
        }
        let idx: usize = x as usize + (self.width as usize) * (y as usize + (self.height as usize)
            * (z as usize));
        let total = if self.step_count % 2 == 0 {
            sum_of(&self.energy_buffer_a)
        } else {
            sum_of(&self.energy_buffer_b)
        };
        let cell = if self.step_count % 2 == 0 {
            self.energy_buffer_a[idx]
        } else {
            self.energy_buffer_b[idx]
        };
        proof {
            lemma_elem_le_sum(self.energy(), idx as int);
        }
        let new_value: u32 = if cell >= SITE_CAP || quanta >= SITE_CAP - cell {
            SITE_CAP
        } else {
            cell + quanta
        };
        if (total - cell) as u64 + new_value as u64 > u32::MAX as u64 {
            return Err(LatticeError::EnergyOverflow);
        }
        proof {
            lemma_sum_update(self.energy(), idx as int, new_value);
        }
        if self.step_count % 2 == 0 {
            self.energy_buffer_a.set(idx, new_value);
        } else {
            self.energy_buffer_b.set(idx, new_value);
        }
        Ok(())
    }

    /// One propagation step: the active buffer is the input, the other buffer
    /// receives the new field, and the step counter advances, which makes the
    /// output the active buffer.
    pub fn propagate_energy(&mut self)
        requires
            old(self).wf(),
        ensures
            final(self).wf(),
            final(self).params() == old(self).params().next(),
            final(self).energy() == step_field(old(self).energy(), old(self).params()),
            final(self).standby() == old(self).energy(),
            field_sum(final(self).energy()) == field_sum(old(self).energy()),
    {
        let p = Params {
            width: self.width,
            height: self.height,
            depth: self.depth,
            step_count: self.step_count,
        };
        proof {
            lemma_transfers(self.energy(), p, self.energy().len());
        }
        if self.step_count % 2 == 0 {
            propagate_step(&self.energy_buffer_a, &mut self.energy_buffer_b, p);
        } else {
            propagate_step(&self.energy_buffer_b, &mut self.energy_buffer_a, p);
        }
        self.step_count = if self.step_count == u32::MAX {
            0
        } else {
            self.step_count + 1
        };
    }

    /// The active buffer, holding the current field. Injection never sets a
    /// site above three, but propagation can (see `laws::lemma_cap`).
    pub fn get_energy_buffer(&self) -> (r: &Vec<u32>)
        ensures
            r@ == self.energy(),
    {
        if self.step_count % 2 == 0 {
            &self.energy_buffer_a
        } else {
            &self.energy_buffer_b
        }
    }

    /// Total number of quanta in the current field.
    pub fn get_total_energy(&self) -> (r: u32)
        requires
            self.wf(),
        ensures
            r == field_sum(self.energy()),
    {
        if self.step_count % 2 == 0 {
            sum_of(&self.energy_buffer_a)
        } else {
            sum_of(&self.energy_buffer_b)
        }
    }
}

} // verus!
