//! Properties of propagation over any number of steps.
use vstd::prelude::*;
use crate::field::{field_sum, is_uniform, is_vacuum, lemma_sum_update, within_cap};
use crate::lattice::saturated;
use crate::geometry::{adjacent_or_same, face_adjacent, lemma_neighbor_coords, neighbor, Params};
use crate::rule::{emission_target, lemma_emission, lemma_transfers, step_field, transfers};

verus! {

/// The field after `k` propagation steps from `cells`, the first one taken
/// with the parameters `p`.
pub open spec fn evolve(cells: Seq<u32>, p: Params, k: nat) -> Seq<u32>
    decreases k,
{
    if k == 0 {
        cells
    } else {
        evolve(step_field(cells, p), p.next(), (k - 1) as nat)
    }
}

/// No site emits during the step.
pub open spec fn quiescent(cells: Seq<u32>, p: Params) -> bool {
    forall|i: int| 0 <= i < cells.len() ==> #[trigger] emission_target(cells, p, i) is None
}

/// Site `j` changes site `i` during the step: it emits, and is `i` itself or
/// hands its quantum to `i`.
pub open spec fn touches(cells: Seq<u32>, p: Params, j: int, i: int) -> bool {
    &&& emission_target(cells, p, j) is Some
    &&& (j == i || emission_target(cells, p, j) == Some(i))
}

/// How many of the first `count` sites hand a quantum to site `i`.
pub open spec fn arrivals(cells: Seq<u32>, p: Params, i: int, count: nat) -> int
    decreases count,
{
    if count == 0 {
        0
    } else {
        arrivals(cells, p, i, (count - 1) as nat) + if emission_target(cells, p, count - 1) == Some(
            i,
        ) {
            1int
        } else {
            0int
        }
    }
}

/// How many of the first `count` sites are face neighbours of site `i`
/// holding strictly more than it.
pub open spec fn higher_neighbors(cells: Seq<u32>, p: Params, i: int, count: nat) -> int
    decreases count,
{
    if count == 0 {
        0
    } else {
        higher_neighbors(cells, p, i, (count - 1) as nat) + if face_adjacent(p, i, count - 1)
            && cells[count - 1] > cells[i] {
            1int
        } else {
            0int
        }
    }
}

/// An empty field holds no energy.
pub proof fn lemma_vacuum_sum(s: Seq<u32>)
    requires
        is_vacuum(s),
    ensures
        field_sum(s) == 0,
    decreases s.len(),
{
    if s.len() > 0 {
        assert(is_vacuum(s.drop_last()));
        lemma_vacuum_sum(s.drop_last());
    }
}

/// A step in which no site emits leaves the field as it was.
pub proof fn lemma_quiescent_step(cells: Seq<u32>, p: Params)
    requires
        quiescent(cells, p),
    ensures
        step_field(cells, p) == cells,
{
    lemma_quiescent_transfers(cells, p, cells.len());
}

proof fn lemma_quiescent_transfers(cells: Seq<u32>, p: Params, count: nat)
    requires
        quiescent(cells, p),
        count <= cells.len(),
    ensures
        transfers(cells, p, count) == cells,
    decreases count,
{
    if count > 0 {
        lemma_quiescent_transfers(cells, p, (count - 1) as nat);
        assert(emission_target(cells, p, count - 1) is None);
    }
}

/// Conservation: propagation keeps the total energy of a field, over any
/// number of steps.
pub proof fn lemma_conservation(cells: Seq<u32>, p: Params, k: nat)
    requires
        cells.len() == p.sites(),
        field_sum(cells) <= u32::MAX,
    ensures
        evolve(cells, p, k).len() == cells.len(),
        field_sum(evolve(cells, p, k)) == field_sum(cells),
    decreases k,
{
    if k > 0 {
        lemma_transfers(cells, p, cells.len());
        lemma_conservation(step_field(cells, p), p.next(), (k - 1) as nat);
    }
}

/// Vacuum stability: an empty field stays empty, over any number of steps.
pub proof fn lemma_vacuum_stable(cells: Seq<u32>, p: Params, k: nat)
    requires
        cells.len() == p.sites(),
        is_vacuum(cells),
    ensures
        evolve(cells, p, k) == cells,
    decreases k,
{
    if k > 0 {
        assert forall|i: int| 0 <= i < cells.len() implies #[trigger] emission_target(
            cells,
            p,
            i,
        ) is None by {
            if emission_target(cells, p, i) is Some {
                lemma_emission(cells, p, i);
            }
        }
        lemma_quiescent_step(cells, p);
        lemma_vacuum_stable(cells, p.next(), (k - 1) as nat);
    }
}

/// Uniform fields are fixed points: a field whose sites all hold the same
/// value is left unchanged by any number of steps.
pub proof fn lemma_uniform_fixed_point(cells: Seq<u32>, p: Params, k: nat)
    requires
        cells.len() == p.sites(),
        is_uniform(cells),
    ensures
        evolve(cells, p, k) == cells,
    decreases k,
{
    if k > 0 {
        assert forall|i: int| 0 <= i < cells.len() implies #[trigger] emission_target(
            cells,
            p,
            i,
        ) is None by {
            if emission_target(cells, p, i) is Some {
                lemma_emission(cells, p, i);
                let t = emission_target(cells, p, i)->0;
                assert(cells[i] == cells[t]);
            }
        }
        lemma_quiescent_step(cells, p);
        lemma_uniform_fixed_point(cells, p.next(), (k - 1) as nat);
    }
}

/// Determinism: the field after `k` steps is fixed by the starting field and
/// parameters, so two runs from equal fields and parameters end equal.
pub proof fn lemma_determinism(a: Seq<u32>, b: Seq<u32>, p: Params, q: Params, k: nat)
    requires
        a == b,
        p == q,
    ensures
        evolve(a, p, k) == evolve(b, q, k),
    decreases k,
{
    if k > 0 {
        lemma_determinism(step_field(a, p), step_field(b, q), p.next(), q.next(), (k - 1) as nat);
    }
}

proof fn lemma_changes_are_touched(cells: Seq<u32>, p: Params, count: nat)
    requires
        cells.len() == p.sites(),
        field_sum(cells) <= u32::MAX,
        count <= cells.len(),
    ensures
        forall|i: int|
            0 <= i < cells.len() && #[trigger] transfers(cells, p, count)[i] != cells[i] ==> exists|
                j: int,
            |
                0 <= j < count && #[trigger] touches(cells, p, j, i),
    decreases count,
{
    if count > 0 {
        let c = (count - 1) as nat;
        lemma_changes_are_touched(cells, p, c);
        lemma_transfers(cells, p, c);
        lemma_transfers(cells, p, count);
        let prev = transfers(cells, p, c);
        assert forall|i: int|
            0 <= i < cells.len() && #[trigger] transfers(cells, p, count)[i]
                != cells[i] implies exists|j: int|
            0 <= j < count && #[trigger] touches(cells, p, j, i) by {
            match emission_target(cells, p, c as int) {
                Some(t) => {
                    lemma_emission(cells, p, c as int);
                    if i == c || i == t {
                        assert(touches(cells, p, c as int, i));
                    } else {
                        assert(transfers(cells, p, count)[i] == prev[i]);
                        let j = choose|j: int| 0 <= j < c && #[trigger] touches(cells, p, j, i);
                        assert(touches(cells, p, j, i));
                    }
                },
                None => {
                    let j = choose|j: int| 0 <= j < c && #[trigger] touches(cells, p, j, i);
                    assert(touches(cells, p, j, i));
                },
            }
        }
    }
}

/// Locality: a site that one step changes lies within Chebyshev distance one
/// of a site that held energy before the step.
pub proof fn lemma_locality(cells: Seq<u32>, p: Params, i: int)
    requires
        cells.len() == p.sites(),
        field_sum(cells) <= u32::MAX,
        0 <= i < cells.len(),
        step_field(cells, p)[i] != cells[i],
    ensures
        exists|j: int| 0 <= j < cells.len() && cells[j] != 0 && #[trigger] adjacent_or_same(p, i, j),
{
    lemma_changes_are_touched(cells, p, cells.len());
    let j = choose|j: int| 0 <= j < cells.len() && #[trigger] touches(cells, p, j, i);
    lemma_emission(cells, p, j);
    if j != i {
        let dir = choose|dir: int| 0 <= dir < 6 && #[trigger] neighbor(p, j, dir) == Some(i);
        lemma_neighbor_coords(p, j, dir);
    }
    assert(adjacent_or_same(p, i, j));
}

/// The value of a site after pass 2 has visited the first `count` sites: its
/// own value, minus one if it has been visited and emits, plus the quanta
/// handed to it by the visited sites; those are at most its higher face
/// neighbours among them. With `count` the number of sites this is the value
/// after the step.
pub proof fn lemma_transfers_value(cells: Seq<u32>, p: Params, i: int, count: nat)
    requires
        cells.len() == p.sites(),
        field_sum(cells) <= u32::MAX,
        count <= cells.len(),
        0 <= i < cells.len(),
    ensures
        transfers(cells, p, count)[i] == cells[i] - (if i < count && emission_target(
            cells,
            p,
            i,
        ) is Some {
            1int
        } else {
            0int
        }) + arrivals(cells, p, i, count),
        arrivals(cells, p, i, count) <= higher_neighbors(cells, p, i, count),
    decreases count,
{
    if count > 0 {
        let c = (count - 1) as nat;
        lemma_transfers_value(cells, p, i, c);
        lemma_transfers(cells, p, c);
        let prev = transfers(cells, p, c);
        match emission_target(cells, p, c as int) {
            Some(t) => {
                lemma_emission(cells, p, c as int);
                crate::field::lemma_two_le_sum(prev, c as int, t);
                if t == i {
                    let dir = choose|dir: int|
                        0 <= dir < 6 && #[trigger] neighbor(p, c as int, dir) == Some(i);
                    lemma_neighbor_coords(p, c as int, dir);
                    assert(face_adjacent(p, i, c as int));
                }
            },
            None => {},
        }
    }
}

/// Cap, for one step. A site ends the step with at most its own value plus
/// the number of its face neighbours that held strictly more, since only
/// those can hand it a quantum and each hands at most one. So a site stays
/// within three quanta wherever that sum is at most three, and a site holding
/// three or more receives nothing and does not grow.
///
/// The cap does not hold of every field: a site at 0 whose six neighbours all
/// hold 3 receives six quanta and ends at 6. Steps can therefore leave sites
/// above three, and `get_energy_buffer` can hand out such values.
pub proof fn lemma_cap(cells: Seq<u32>, p: Params, i: int)
    requires
        cells.len() == p.sites(),
        field_sum(cells) <= u32::MAX,
        0 <= i < cells.len(),
    ensures
        step_field(cells, p)[i] <= cells[i] + higher_neighbors(cells, p, i, cells.len()),
        cells[i] + higher_neighbors(cells, p, i, cells.len()) <= 3 ==> step_field(cells, p)[i]
            <= 3,
        within_cap(cells) && cells[i] == 3 ==> step_field(cells, p)[i] <= 3,
        cells[i] >= 3 ==> step_field(cells, p)[i] <= cells[i],
{
    lemma_transfers_value(cells, p, i, cells.len());
    if within_cap(cells) && cells[i] == 3 {
        lemma_none_higher_than_cap(cells, p, i, cells.len());
    }
    if cells[i] >= 3 {
        lemma_no_arrivals_at_three(cells, p, i, cells.len());
    }
}

/// A site holding three or more quanta receives none during a step.
pub proof fn lemma_no_arrivals_at_three(cells: Seq<u32>, p: Params, i: int, count: nat)
    requires
        0 <= i < cells.len(),
        cells[i] >= 3,
        count <= cells.len(),
    ensures
        arrivals(cells, p, i, count) == 0,
    decreases count,
{
    if count > 0 {
        lemma_no_arrivals_at_three(cells, p, i, (count - 1) as nat);
        if emission_target(cells, p, count - 1) == Some(i) {
            lemma_emission(cells, p, count - 1);
        }
    }
}

/// In a field within the cap, a site holding three has no higher neighbour.
pub proof fn lemma_none_higher_than_cap(cells: Seq<u32>, p: Params, i: int, count: nat)
    requires
        within_cap(cells),
        0 <= i < cells.len(),
        cells[i] == 3,
        count <= cells.len(),
    ensures
        higher_neighbors(cells, p, i, count) == 0,
    decreases count,
{
    if count > 0 {
        lemma_none_higher_than_cap(cells, p, i, (count - 1) as nat);
        assert(cells[count - 1] <= 3);
    }
}

/// Saturating injection into an empty field: giving `quanta` to one site of a
/// vacuum leaves `min(quanta, 3)` quanta there, none elsewhere, and that many
/// in total; the rest is discarded.
pub proof fn lemma_injection_into_vacuum(cells: Seq<u32>, idx: int, quanta: u32)
    requires
        is_vacuum(cells),
        0 <= idx < cells.len(),
    ensures
        ({
            let after = cells.update(idx, saturated(cells[idx], quanta) as u32);
            &&& after[idx] == if quanta <= 3 {
                quanta
            } else {
                3
            }
            &&& forall|j: int| 0 <= j < cells.len() && j != idx ==> #[trigger] after[j] == 0
            &&& field_sum(after) == after[idx]
        }),
{
    lemma_vacuum_sum(cells);
    lemma_sum_update(cells, idx, saturated(cells[idx], quanta) as u32);
}

} // verus!
