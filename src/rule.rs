//! The propagation rule. Each site emits at most one quantum per step. It
//! chooses the first strictly lower face neighbour in its step-dependent
//! direction order, and emits to it only if that neighbour held fewer than
//! three quanta before the step; otherwise it emits nothing that step.
//! Pass 1 primes the output buffer with the input; pass 2 applies every
//! emission to it as a paired -1/+1. Since all pairs commute, applying them
//! site by site gives the same buffer as applying them all at once.
//!
//! The rule does not by itself keep every site at three or less: a site may
//! receive one quantum from each of up to six higher neighbours in one step
//! (a site at 0 surrounded by six 3s ends at 6). Fields with sites above three
//! are therefore reachable, and the active buffer can hold such values.
use vstd::prelude::*;
use crate::field::{field_sum, lemma_sum_update, lemma_two_le_sum};
use crate::geometry::{
    coord_x, coord_y, coord_z, direction, lemma_coords_of_index, lemma_neighbor_coords, neighbor,
    rotation, rotation_of, site_index, Params,
};

verus! {

/// The first direction, from the `k`-th on in rotation `rot`, whose neighbour
/// holds strictly less than site `i`; the result is that neighbour.
pub open spec fn first_lower(cells: Seq<u32>, p: Params, i: int, rot: int, k: int) -> Option<int>
    decreases 6 - k,
{
    if k >= 6 {
        None
    } else {
        match neighbor(p, i, direction(rot, k)) {
            Some(n) => if cells[n] < cells[i] {
                Some(n)
            } else {
                first_lower(cells, p, i, rot, k + 1)
            },
            None => first_lower(cells, p, i, rot, k + 1),
        }
    }
}

/// The direction order of site `i` at the step of `p`.
pub open spec fn site_rotation(p: Params, i: int) -> int {
    let w = p.width as int;
    let h = p.height as int;
    rotation(coord_x(w, h, i), coord_y(w, h, i), coord_z(w, h, i), p.step_count as int)
}

/// The neighbour that site `i` chooses: the first strictly lower one in its
/// direction order.
pub open spec fn chosen_neighbor(cells: Seq<u32>, p: Params, i: int) -> Option<int> {
    first_lower(cells, p, i, site_rotation(p, i), 0)
}

/// The site that site `i` hands one quantum to during the step, if any: the
/// chosen neighbour, provided it held fewer than three quanta before the step.
pub open spec fn emission_target(cells: Seq<u32>, p: Params, i: int) -> Option<int> {
    match chosen_neighbor(cells, p, i) {
        Some(t) => if cells[t] < 3 {
            Some(t)
        } else {
            None
        },
        None => None,
    }
}

/// The output buffer after pass 1 and the emissions of the first `count`
/// sites of pass 2.
pub open spec fn transfers(cells: Seq<u32>, p: Params, count: nat) -> Seq<u32>
    decreases count,
{
    if count == 0 {
        cells
    } else {
        let prev = transfers(cells, p, (count - 1) as nat);
        let i = count - 1;
        match emission_target(cells, p, i) {
            Some(t) => {
                let taken = prev.update(i, (prev[i] - 1) as u32);
                taken.update(t, (taken[t] + 1) as u32)
            },
            None => prev,
        }
    }
}

/// The field after one propagation step.
pub open spec fn step_field(cells: Seq<u32>, p: Params) -> Seq<u32> {
    transfers(cells, p, cells.len())
}

/// An emission goes to a face neighbour that holds strictly less.
pub proof fn lemma_first_lower(cells: Seq<u32>, p: Params, i: int, rot: int, k: int)
    requires
        0 <= i,
        0 <= rot < 6,
        0 <= k,
        first_lower(cells, p, i, rot, k) is Some,
    ensures
        ({
            let t = first_lower(cells, p, i, rot, k)->0;
            &&& cells[t] < cells[i]
            &&& exists|dir: int| 0 <= dir < 6 && #[trigger] neighbor(p, i, dir) == Some(t)
        }),
    decreases 6 - k,
{
    if k < 6 {
        let dir = direction(rot, k);
        match neighbor(p, i, dir) {
            Some(n) => {
                if cells[n] < cells[i] {
                    assert(neighbor(p, i, dir) == Some(n));
                } else {
                    lemma_first_lower(cells, p, i, rot, k + 1);
                }
            },
            None => {
                lemma_first_lower(cells, p, i, rot, k + 1);
            },
        }
    }
}

/// The facts about an emission that the proofs use: it goes to another site
/// of the lattice, adjacent along one axis, that holds strictly less than the
/// emitter and less than three.
pub proof fn lemma_emission(cells: Seq<u32>, p: Params, i: int)
    requires
        0 <= i,
        emission_target(cells, p, i) is Some,
    ensures
        ({
            let t = emission_target(cells, p, i)->0;
            &&& cells[t] < cells[i]
            &&& cells[t] < 3
            &&& 0 <= t < p.sites()
            &&& t != i
            &&& exists|dir: int| 0 <= dir < 6 && #[trigger] neighbor(p, i, dir) == Some(t)
        }),
{
    let rot = site_rotation(p, i);
    lemma_first_lower(cells, p, i, rot, 0);
    let t = emission_target(cells, p, i)->0;
    let dir = choose|dir: int| 0 <= dir < 6 && #[trigger] neighbor(p, i, dir) == Some(t);
    lemma_neighbor_coords(p, i, dir);
}

/// Pass 2 never drives a site below zero or above what a `u32` holds: the
/// total stays the same and unvisited sites have only gained.
pub proof fn lemma_transfers(cells: Seq<u32>, p: Params, count: nat)
    requires
        cells.len() == p.sites(),
        field_sum(cells) <= u32::MAX,
        count <= cells.len(),
    ensures
        transfers(cells, p, count).len() == cells.len(),
        field_sum(transfers(cells, p, count)) == field_sum(cells),
        forall|j: int|
            count <= j < cells.len() ==> #[trigger] transfers(cells, p, count)[j] >= cells[j],
    decreases count,
{
    if count > 0 {
        let c = (count - 1) as nat;
        lemma_transfers(cells, p, c);
        let prev = transfers(cells, p, c);
        let i = c as int;
        match emission_target(cells, p, i) {
            Some(t) => {
                lemma_emission(cells, p, i);
                assert(prev[i] >= cells[i]);
                lemma_two_le_sum(prev, i, t);
                let taken = prev.update(i, (prev[i] - 1) as u32);
                lemma_sum_update(prev, i, (prev[i] - 1) as u32);
                lemma_sum_update(taken, t, (taken[t] + 1) as u32);
            },
            None => {},
        }
    }
}

/// Exec form of `neighbor` for a site whose coordinates are known.
fn neighbor_of(p: Params, layer: usize, i: usize, x: u32, y: u32, z: u32, dir: u64) -> (r: Option<
    usize,
>)
    requires
        i == site_index(p.width as int, p.height as int, x as int, y as int, z as int),
        x < p.width,
        y < p.height,
        z < p.depth,
        layer == p.width * p.height,
        p.sites() <= usize::MAX,
        dir < 6,
    ensures
        match r {
            Some(n) => neighbor(p, i as int, dir as int) == Some(n as int),
            None => neighbor(p, i as int, dir as int) is None,
        },
{
    let ghost w = p.width as int;
    let ghost h = p.height as int;
    proof {
        lemma_coords_of_index(w, h, x as int, y as int, z as int);
        if neighbor(p, i as int, dir as int) is Some {
            lemma_neighbor_coords(p, i as int, dir as int);
        }
        assert(site_index(w, h, x as int, y as int + 1, z as int) == i + w) by (nonlinear_arith)
            requires
                i == x + w * (y + h * z),
        ;
        assert(site_index(w, h, x as int, y as int - 1, z as int) == i - w) by (nonlinear_arith)
            requires
                i == x + w * (y + h * z),
        ;
        assert(site_index(w, h, x as int, y as int, z as int + 1) == i + w * h) by (nonlinear_arith)
            requires
                i == x + w * (y + h * z),
        ;
        assert(site_index(w, h, x as int, y as int, z as int - 1) == i - w * h) by (nonlinear_arith)
            requires
                i == x + w * (y + h * z),
        ;
    }
    let row = p.width as usize;
    if dir == 0 {
        if x + 1 < p.width {
            Some(i + 1)
        } else {
            None
        }
    } else if dir == 1 {
        if x > 0 {
            Some(i - 1)
        } else {
            None
        }
    } else if dir == 2 {
        if y + 1 < p.height {
            Some(i + row)
        } else {
            None
        }
    } else if dir == 3 {
        if y > 0 {
            Some(i - row)
        } else {
            None
        }
    } else if dir == 4 {
        if z + 1 < p.depth {
            Some(i + layer)
        } else {
            None
        }
    } else {
        if z > 0 {
            Some(i - layer)
        } else {
            None
        }
    }
}

/// Exec form of `emission_target` for a site whose coordinates are known.
fn emission_target_of(
    input: &Vec<u32>,
    p: Params,
    layer: usize,
    i: usize,
    x: u32,
    y: u32,
    z: u32,
) -> (r: Option<usize>)
    requires
        input.len() == p.sites(),
        i < input.len(),
        i == site_index(p.width as int, p.height as int, x as int, y as int, z as int),
        x < p.width,
        y < p.height,
        z < p.depth,
        layer == p.width * p.height,
    ensures
        match r {
            Some(t) => emission_target(input@, p, i as int) == Some(t as int),
            None => emission_target(input@, p, i as int) is None,
        },
{
    let ghost w = p.width as int;
    let ghost h = p.height as int;
    proof {
        lemma_coords_of_index(w, h, x as int, y as int, z as int);
    }
    let rot = rotation_of(x, y, z, p.step_count);
    assert(rot == site_rotation(p, i as int));
    let mut k: u64 = 0;
    while k < 6
        invariant
            k <= 6,
            rot < 6,
            input.len() == p.sites(),
            i < input.len(),
            i == site_index(w, h, x as int, y as int, z as int),
            w == p.width,
            h == p.height,
            x < p.width,
            y < p.height,
            z < p.depth,
            layer == p.width * p.height,
            rot == site_rotation(p, i as int),
            first_lower(input@, p, i as int, rot as int, 0) == first_lower(
                input@,
                p,
                i as int,
                rot as int,
                k as int,
            ),
        decreases 6 - k,
    {
        let dir = (rot + k) % 6;
        match neighbor_of(p, layer, i, x, y, z, dir) {
            Some(n) => {
                proof {
                    lemma_neighbor_coords(p, i as int, dir as int);
                    lemma_coords_of_index(w, h, x as int, y as int, z as int);
                }
                if input[n] < input[i] {
                    if input[n] < 3 {
                        return Some(n);
                    } else {
                        return None;
                    }
                }
            },
            None => {},
        }
        k = k + 1;
    }
    None
}

/// Pass 1: every site writes its own value into the output buffer.
pub fn copy_pass(input: &Vec<u32>, output: &mut Vec<u32>)
    requires
        old(output).len() == input.len(),
    ensures
        final(output)@ == input@,
{
    let n = input.len();
    let mut i: usize = 0;
    while i < n
        invariant
            n == input.len(),
            output.len() == n,
            i <= n,
            forall|j: int| 0 <= j < i ==> #[trigger] output@[j] == input@[j],
        decreases n - i,
    {
        output.set(i, input[i]);
        i = i + 1;
    }
    assert(output@ =~= input@);
}

/// Pass 2: every site that has a strictly lower neighbour hands one quantum
/// to the first such neighbour in its direction order.
pub fn transfer_pass(input: &Vec<u32>, output: &mut Vec<u32>, p: Params)
    requires
        input.len() == p.sites(),
        old(output)@ == input@,
        field_sum(input@) <= u32::MAX,
    ensures
        final(output)@ == step_field(input@, p),
{
    let n = input.len();
    if n == 0 {
        return;
    }
    let ghost w = p.width as int;
    let ghost h = p.height as int;
    let ghost d = p.depth as int;
    assert(w * h <= n) by (nonlinear_arith)
        requires
            n == w * h * d,
            n > 0,
            w >= 0,
            h >= 0,
            d >= 0,
    ;
    let layer: usize = p.width as usize * p.height as usize;
    let mut i: usize = 0;
    let mut x: u32 = 0;
    let mut y: u32 = 0;
    let mut z: u32 = 0;
    assert(site_index(w, h, 0, 0, 0) == 0) by (nonlinear_arith);
    assert(w > 0 && h > 0 && d > 0) by (nonlinear_arith)
        requires
            n == w * h * d,
            n > 0,
            w >= 0,
            h >= 0,
            d >= 0,
    ;
    while i < n
        invariant
            n == input.len(),
            n == p.sites(),
            w == p.width,
            h == p.height,
            d == p.depth,
            layer == w * h,
            field_sum(input@) <= u32::MAX,
            i <= n,
            x < p.width,
            y < p.height,
            i < n ==> z < p.depth,
            z <= p.depth,
            i == site_index(w, h, x as int, y as int, z as int),
            output@ == transfers(input@, p, i as nat),
        decreases n - i,
    {
        proof {
            lemma_transfers(input@, p, i as nat);
            lemma_transfers(input@, p, (i + 1) as nat);
            match emission_target(input@, p, i as int) {
                Some(t) => {
                    lemma_emission(input@, p, i as int);
                    lemma_two_le_sum(transfers(input@, p, i as nat), i as int, t);
                },
                None => {},
            }
        }
        match emission_target_of(input, p, layer, i, x, y, z) {
            Some(t) => {
                let vi = output[i];
                output.set(i, vi - 1);
                let vt = output[t];
                output.set(t, vt + 1);
            },
            None => {},
        }
        let ghost (ox, oy, oz) = (x as int, y as int, z as int);
        i = i + 1;
        x = x + 1;
        if x == p.width {
            x = 0;
            y = y + 1;
            if y == p.height {
                y = 0;
                z = z + 1;
            }
        }
        assert(i == site_index(w, h, x as int, y as int, z as int)) by (nonlinear_arith)
            requires
                i == 1 + ox + w * (oy + h * oz),
                (x == ox + 1 && y == oy && z == oz) || (x == 0 && ox == w - 1 && y == oy + 1 && z
                    == oz) || (x == 0 && ox == w - 1 && y == 0 && oy == h - 1 && z == oz + 1),
        ;
        assert(i < n ==> z < d) by (nonlinear_arith)
            requires
                i == x + w * (y + h * z),
                n == w * h * d,
                0 <= x,
                0 <= y,
                w > 0,
                h > 0,
        ;
    }
}

/// One propagation step from `input` into `output`: pass 1, then pass 2.
pub fn propagate_step(input: &Vec<u32>, output: &mut Vec<u32>, p: Params)
    requires
        input.len() == p.sites(),
        old(output).len() == p.sites(),
        field_sum(input@) <= u32::MAX,
    ensures
        final(output)@ == step_field(input@, p),
{
    copy_pass(input, output);
    transfer_pass(input, output, p);
}

} // verus!
