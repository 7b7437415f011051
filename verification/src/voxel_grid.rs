//! The voxel grid's shape and flat indexing, and the corners of its bounding
//! cuboid.

use vstd::prelude::*;

verus! {

/// A point in pixels on the screen plane: right, then up.
pub type P2i = [i32; 2];

/// Extents of the voxel grid along its three axes.
#[derive(Clone, Copy, Debug, PartialEq, Eq, Structural)]
pub struct VoxelDims {
    pub i: u32,
    pub j: u32,
    pub k: u32,
}

impl VoxelDims {
    /// Every extent is at least one voxel.
    pub open spec fn positive(self) -> bool {
        self.i > 0 && self.j > 0 && self.k > 0
    }

    /// Number of voxels in the grid.
    pub open spec fn count(self) -> nat {
        (self.i as nat) * (self.j as nat) * (self.k as nat)
    }

    /// Flat index of voxel `(x, y, z)`: x runs fastest, then y, then z.
    pub open spec fn flat(self, x: int, y: int, z: int) -> int {
        x + self.i * (y + self.j * z)
    }

    /// Whether `(x, y, z)` names a voxel of the grid.
    pub open spec fn contains(self, x: int, y: int, z: int) -> bool {
        0 <= x < self.i && 0 <= y < self.j && 0 <= z < self.k
    }

    /// Whether every extent is at least one voxel.
    pub fn is_positive(&self) -> (r: bool)
        ensures
            r == self.positive(),
    {
        self.i > 0 && self.j > 0 && self.k > 0
    }

    /// Flat index of voxel `(x, y, z)`, or nothing if it lies outside the
    /// grid or its index is not addressable on this machine.
    pub fn flat_index(&self, x: u32, y: u32, z: u32) -> (index: Option<usize>)
        ensures
            match index {
                Some(n) => {
                    &&& self.contains(x as int, y as int, z as int)
                    &&& n == self.flat(x as int, y as int, z as int)
                },
                None => {
                    ||| !self.contains(x as int, y as int, z as int)
                    ||| self.flat(x as int, y as int, z as int) > usize::MAX
                },
            },
    {
        if x >= self.i || y >= self.j || z >= self.k {
            return None;
        }
        proof {
            lemma_flat_in_range(*self, x as int, y as int, z as int);
            assert({
                &&& self.j * z <= 0xffff_ffff * 0xffff_ffff
                &&& self.i * (y + self.j * z) <= 0xffff_ffff * (0xffff_ffff + 0xffff_ffff
                    * 0xffff_ffff)
            }) by (nonlinear_arith)
                requires
                    0 <= self.i <= 0xffff_ffff,
                    0 <= self.j <= 0xffff_ffff,
                    0 <= z <= 0xffff_ffff,
                    0 <= y <= 0xffff_ffff,
            ;
        }
        let row: u128 = y as u128 + self.j as u128 * z as u128;
        let flat: u128 = x as u128 + self.i as u128 * row;
        if flat > usize::MAX as u128 {
            None
        } else {
            Some(flat as usize)
        }
    }
}

/// The flat index of a voxel lies below the grid's voxel count, and the
/// voxel's position can be read back from it.
pub proof fn lemma_flat_in_range(dims: VoxelDims, x: int, y: int, z: int)
    requires
        dims.contains(x, y, z),
    ensures
        0 <= dims.flat(x, y, z) < dims.count(),
        dims.flat(x, y, z) % (dims.i as int) == x,
        (dims.flat(x, y, z) / (dims.i as int)) % (dims.j as int) == y,
        dims.flat(x, y, z) / (dims.i * dims.j) == z,
{
    let nx = dims.i as int;
    let ny = dims.j as int;
    let nz = dims.k as int;
    let row = y + ny * z;
    let flat = dims.flat(x, y, z);
    assert(0 <= row < ny * nz && 0 <= ny * z) by (nonlinear_arith)
        requires
            0 <= y < ny,
            0 <= z < nz,
            row == y + ny * z,
    ;
    assert(0 <= flat < nx * (ny * nz) && nx * (ny * nz) == nx * ny * nz) by (nonlinear_arith)
        requires
            0 <= x < nx,
            0 <= row < ny * nz,
            flat == x + nx * row,
    ;
    assert(dims.count() == nx * ny * nz) by (nonlinear_arith)
        requires
            dims.count() == (dims.i as nat) * (dims.j as nat) * (dims.k as nat),
            nx == dims.i,
            ny == dims.j,
            nz == dims.k,
    ;
    assert(flat == row * nx + x) by (nonlinear_arith)
        requires
            flat == x + nx * row,
    ;
    vstd::arithmetic::div_mod::lemma_fundamental_div_mod_converse(flat, nx, row, x);
    assert(row == z * ny + y) by (nonlinear_arith)
        requires
            row == y + ny * z,
    ;
    vstd::arithmetic::div_mod::lemma_fundamental_div_mod_converse(row, ny, z, y);
    assert(flat == z * (nx * ny) + (x + nx * y) && 0 <= x + nx * y < nx * ny) by (nonlinear_arith)
        requires
            flat == x + nx * (y + ny * z),
            0 <= x < nx,
            0 <= y < ny,
    ;
    vstd::arithmetic::div_mod::lemma_fundamental_div_mod_converse(flat, nx * ny, z, x + nx * y);
}

/// The eight corners of the grid's bounding cuboid in three coordinate
/// systems, stored flat: three scalars per corner in world and camera space,
/// two on the screen plane. The scalar type is left to the caller.
pub struct VoxelVertices<T> {
    pub world_vertices: [T; 24],
    pub ruf_vertices: [T; 24],
    pub onto_plane: [T; 16],
}

/// One corner in a named coordinate system.
pub enum SystemSet<T> {
    WORLD([T; 3]),
    RUF([T; 3]),
    PLANE([T; 2]),
}

impl<T: Copy> Clone for SystemSet<T> {
    fn clone(&self) -> (copy: Self)
        ensures
            copy == *self,
    {
        *self
    }
}

impl<T: Copy> Copy for SystemSet<T> {

}

/// Names the coordinate system to read a corner from.
#[derive(Copy, Clone)]
pub enum SystemGet {
    WORLD,
    RUF,
    PLANE,
}

/// The world-space corners of a cuboid centred on the origin whose positive
/// half-extents are `half` and whose negative ones are `neg_half`: the face
/// at negative k first, each face counter-clockwise from its low corner.
pub open spec fn corners_of<T>(half: Seq<T>, neg_half: Seq<T>) -> Seq<T> {
    seq![
        neg_half[0], neg_half[1], neg_half[2],
        neg_half[0], half[1], neg_half[2],
        half[0], half[1], neg_half[2],
        half[0], neg_half[1], neg_half[2],
        neg_half[0], neg_half[1], half[2],
        neg_half[0], half[1], half[2],
        half[0], half[1], half[2],
        half[0], neg_half[1], half[2],
    ]
}

/// `flat` with the entries from `start` on replaced by those of `corner`.
pub open spec fn written<T>(flat: Seq<T>, start: int, corner: Seq<T>) -> Seq<T> {
    Seq::new(
        flat.len(),
        |n: int|
            if start <= n < start + corner.len() {
                corner[n - start]
            } else {
                flat[n]
            },
    )
}

impl<T: Copy> VoxelVertices<T> {
    /// Lays out the eight corners of a cuboid centred on the origin, given
    /// its half-extents along i, j and k and their negations. The camera-space
    /// and screen-plane slots start out as `zero`.
    pub fn centre_at_origin(half: [T; 3], neg_half: [T; 3], zero: T) -> (vertices: Self)
        ensures
            vertices.world_vertices@ == corners_of(half@, neg_half@),
            forall|n: int| 0 <= n < 24 ==> vertices.ruf_vertices@[n] == zero,
            forall|n: int| 0 <= n < 16 ==> vertices.onto_plane@[n] == zero,
    {
        let i = half[0];
        let j = half[1];
        let k = half[2];
        let ni = neg_half[0];
        let nj = neg_half[1];
        let nk = neg_half[2];
        VoxelVertices {
            world_vertices: [
                ni, nj, nk,
                ni, j, nk,
                i, j, nk,
                i, nj, nk,
                ni, nj, k,
                ni, j, k,
                i, j, k,
                i, nj, k,
            ],
            ruf_vertices: [zero; 24],
            onto_plane: [zero; 16],
        }
    }

    /// Reads corner `point`, numbered from 0 to 7, in the system named by
    /// `specifier`.
    pub fn get_point(&self, point: usize, specifier: SystemGet) -> (corner: SystemSet<T>)
        requires
            point <= 7,
        ensures
            match specifier {
                SystemGet::WORLD => corner matches SystemSet::WORLD(c) && c@
                    == self.world_vertices@.subrange(3 * point, 3 * point + 3),
                SystemGet::RUF => corner matches SystemSet::RUF(c) && c@
                    == self.ruf_vertices@.subrange(3 * point, 3 * point + 3),
                SystemGet::PLANE => corner matches SystemSet::PLANE(c) && c@
                    == self.onto_plane@.subrange(2 * point, 2 * point + 2),
            },
    {
        match specifier {
            SystemGet::WORLD => {
                SystemSet::WORLD(
                    [
                        self.world_vertices[point * 3],
                        self.world_vertices[point * 3 + 1],
                        self.world_vertices[point * 3 + 2],
                    ],
                )
            },
            SystemGet::RUF => {
                SystemSet::RUF(
                    [
                        self.ruf_vertices[point * 3],
                        self.ruf_vertices[point * 3 + 1],
                        self.ruf_vertices[point * 3 + 2],
                    ],
                )
            },
            SystemGet::PLANE => {
                SystemSet::PLANE([self.onto_plane[point * 2], self.onto_plane[point * 2 + 1]])
            },
        }
    }

    /// Overwrites corner `point`, numbered from 0 to 7, in the system that
    /// `specifier` carries; the other two systems are left as they were.
    pub fn set_point(&mut self, point: usize, specifier: SystemSet<T>)
        requires
            point <= 7,
        ensures
            match specifier {
                SystemSet::WORLD(c) => {
                    &&& final(self).world_vertices@ == written(
                        old(self).world_vertices@,
                        3 * point,
                        c@,
                    )
                    &&& final(self).ruf_vertices == old(self).ruf_vertices
                    &&& final(self).onto_plane == old(self).onto_plane
                },
                SystemSet::RUF(c) => {
                    &&& final(self).ruf_vertices@ == written(
                        old(self).ruf_vertices@,
                        3 * point,
                        c@,
                    )
                    &&& final(self).world_vertices == old(self).world_vertices
                    &&& final(self).onto_plane == old(self).onto_plane
                },
                SystemSet::PLANE(c) => {
                    &&& final(self).onto_plane@ == written(
                        old(self).onto_plane@,
                        2 * point,
                        c@,
                    )
                    &&& final(self).world_vertices == old(self).world_vertices
                    &&& final(self).ruf_vertices == old(self).ruf_vertices
                },
            },
    {
        match specifier {
            SystemSet::WORLD(slice) => {
                self.world_vertices[point * 3] = slice[0];
                self.world_vertices[point * 3 + 1] = slice[1];
                self.world_vertices[point * 3 + 2] = slice[2];
            },
            SystemSet::RUF(slice) => {
                self.ruf_vertices[point * 3] = slice[0];
                self.ruf_vertices[point * 3 + 1] = slice[1];
                self.ruf_vertices[point * 3 + 2] = slice[2];
            },
            SystemSet::PLANE(slice) => {
                self.onto_plane[point * 2] = slice[0];
                self.onto_plane[point * 2 + 1] = slice[1];
            },
        }
    }
}

} // verus!
