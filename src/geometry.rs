//! Lattice geometry: the parameter block, linear site indices, the six
//! face neighbours under absorbing walls, and the step-dependent order in
//! which a site considers its six directions.
use vstd::prelude::*;
use vstd::arithmetic::div_mod::lemma_fundamental_div_mod_converse;

verus! {

/// Per-step constants shared by both passes: the lattice dimensions and the
/// index of the step being computed.
#[derive(Clone, Copy, Debug, PartialEq, Eq, Structural)]
pub struct Params {
    pub width: u32,
    pub height: u32,
    pub depth: u32,
    pub step_count: u32,
}

/// Number of directions a site can emit into: +x, -x, +y, -y, +z, -z.
pub const NUM_DIRECTIONS: u64 = 6;

impl Params {
    /// Number of sites of the lattice.
    pub open spec fn sites(self) -> int {
        self.width as int * self.height as int * self.depth as int
    }

    /// The same lattice at the following step (the counter wraps, which keeps
    /// its parity alternating).
    pub open spec fn next(self) -> Params {
        Params { step_count: ((self.step_count as int + 1) % 0x1_0000_0000) as u32, ..self }
    }
}

/// Linear index of site `(x, y, z)`: x fastest, z slowest.
pub open spec fn site_index(w: int, h: int, x: int, y: int, z: int) -> int {
    x + w * (y + h * z)
}

pub open spec fn coord_x(w: int, h: int, i: int) -> int {
    i % w
}

pub open spec fn coord_y(w: int, h: int, i: int) -> int {
    (i / w) % h
}

pub open spec fn coord_z(w: int, h: int, i: int) -> int {
    (i / w) / h
}

/// Unit offset of direction `dir` (0: +x, 1: -x, 2: +y, 3: -y, 4: +z, 5: -z).
pub open spec fn dir_dx(dir: int) -> int {
    if dir == 0 { 1 } else if dir == 1 { -1 } else { 0 }
}

pub open spec fn dir_dy(dir: int) -> int {
    if dir == 2 { 1 } else if dir == 3 { -1 } else { 0 }
}

pub open spec fn dir_dz(dir: int) -> int {
    if dir == 4 { 1 } else if dir == 5 { -1 } else { 0 }
}

pub open spec fn in_lattice(p: Params, x: int, y: int, z: int) -> bool {
    0 <= x < p.width && 0 <= y < p.height && 0 <= z < p.depth
}

/// The site next to site `i` in direction `dir`, or `None` where that
/// position lies outside the lattice (absorbing walls: no wrap-around).
pub open spec fn neighbor(p: Params, i: int, dir: int) -> Option<int> {
    let w = p.width as int;
    let h = p.height as int;
    let nx = coord_x(w, h, i) + dir_dx(dir);
    let ny = coord_y(w, h, i) + dir_dy(dir);
    let nz = coord_z(w, h, i) + dir_dz(dir);
    if in_lattice(p, nx, ny, nz) {
        Some(site_index(w, h, nx, ny, nz))
    } else {
        None
    }
}

/// Whether sites `i` and `j` lie within Chebyshev distance one.
pub open spec fn adjacent_or_same(p: Params, i: int, j: int) -> bool {
    let w = p.width as int;
    let h = p.height as int;
    -1 <= coord_x(w, h, i) - coord_x(w, h, j) <= 1
        && -1 <= coord_y(w, h, i) - coord_y(w, h, j) <= 1
        && -1 <= coord_z(w, h, i) - coord_z(w, h, j) <= 1
}

/// Whether site `j` is one of the six face neighbours of site `i`: their
/// coordinates differ by one along exactly one axis.
pub open spec fn face_adjacent(p: Params, i: int, j: int) -> bool {
    let w = p.width as int;
    let h = p.height as int;
    let dx = coord_x(w, h, j) - coord_x(w, h, i);
    let dy = coord_y(w, h, j) - coord_y(w, h, i);
    let dz = coord_z(w, h, j) - coord_z(w, h, i);
    ||| (dx == 1 || dx == -1) && dy == 0 && dz == 0
    ||| dx == 0 && (dy == 1 || dy == -1) && dz == 0
    ||| dx == 0 && dy == 0 && (dz == 1 || dz == -1)
}

/// Hash of a site's coordinates and the step index.
pub open spec fn site_hash(x: int, y: int, z: int, step: int) -> u64 {
    ((x * 73856093) as u64) ^ ((y * 19349663) as u64) ^ ((z * 83492791) as u64) ^ ((step
        * 2654435761) as u64)
}

/// The first direction a site tries: its directions are tried in the cyclic
/// order starting here, which varies over space and time.
pub open spec fn rotation(x: int, y: int, z: int, step: int) -> int {
    (site_hash(x, y, z, step) % 6) as int
}

/// The `k`-th direction tried by a site whose rotation is `rot`.
pub open spec fn direction(rot: int, k: int) -> int {
    (rot + k) % 6
}

/// The coordinates of a linear index are the ones it was built from.
pub proof fn lemma_coords_of_index(w: int, h: int, x: int, y: int, z: int)
    requires
        0 <= x < w,
        0 <= y < h,
        0 <= z,
    ensures
        coord_x(w, h, site_index(w, h, x, y, z)) == x,
        coord_y(w, h, site_index(w, h, x, y, z)) == y,
        coord_z(w, h, site_index(w, h, x, y, z)) == z,
{
    let i = site_index(w, h, x, y, z);
    let q = y + h * z;
    assert(i == q * w + x) by (nonlinear_arith)
        requires
            i == x + w * q,
    ;
    lemma_fundamental_div_mod_converse(i, w, q, x);
    assert(q == z * h + y) by (nonlinear_arith)
        requires
            q == y + h * z,
    ;
    lemma_fundamental_div_mod_converse(q, h, z, y);
}

/// A neighbour sits one step away along exactly the axis of its direction.
pub proof fn lemma_neighbor_coords(p: Params, i: int, dir: int)
    requires
        0 <= i,
        0 <= dir < 6,
        neighbor(p, i, dir) is Some,
    ensures
        ({
            let w = p.width as int;
            let h = p.height as int;
            let j = neighbor(p, i, dir)->0;
            &&& coord_x(w, h, j) == coord_x(w, h, i) + dir_dx(dir)
            &&& coord_y(w, h, j) == coord_y(w, h, i) + dir_dy(dir)
            &&& coord_z(w, h, j) == coord_z(w, h, i) + dir_dz(dir)
            &&& 0 <= j < p.sites()
            &&& j != i
        }),
{
    let w = p.width as int;
    let h = p.height as int;
    let d = p.depth as int;
    let nx = coord_x(w, h, i) + dir_dx(dir);
    let ny = coord_y(w, h, i) + dir_dy(dir);
    let nz = coord_z(w, h, i) + dir_dz(dir);
    lemma_coords_of_index(w, h, nx, ny, nz);
    let j = site_index(w, h, nx, ny, nz);
    assert(0 <= j < w * h * d) by (nonlinear_arith)
        requires
            j == nx + w * (ny + h * nz),
            0 <= nx < w,
            0 <= ny < h,
            0 <= nz < d,
    ;
    assert(w > 0 && h > 0);
    assert(0 <= i / w) by (nonlinear_arith)
        requires
            0 <= i,
            w > 0,
    ;
    assert(0 <= coord_z(w, h, i)) by (nonlinear_arith)
        requires
            0 <= i / w,
            h > 0,
            coord_z(w, h, i) == (i / w) / h,
    ;
}

/// Exec form of the direction hash.
pub fn rotation_of(x: u32, y: u32, z: u32, step: u32) -> (r: u64)
    ensures
        r == rotation(x as int, y as int, z as int, step as int),
        r < 6,
{
    assert(x as int * 73856093 <= u64::MAX) by (nonlinear_arith)
        requires
            x <= u32::MAX,
    ;
    assert(y as int * 19349663 <= u64::MAX) by (nonlinear_arith)
        requires
            y <= u32::MAX,
    ;
    assert(z as int * 83492791 <= u64::MAX) by (nonlinear_arith)
        requires
            z <= u32::MAX,
    ;
    assert(step as int * 2654435761 <= u64::MAX) by (nonlinear_arith)
        requires
            step <= u32::MAX,
    ;
    let a: u64 = x as u64 * 73856093;
    let b: u64 = y as u64 * 19349663;
    let c: u64 = z as u64 * 83492791;
    let s: u64 = step as u64 * 2654435761;
    (a ^ b ^ c ^ s) % NUM_DIRECTIONS
}

} // verus!
