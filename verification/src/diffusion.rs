//! The double-buffered diffusion field.

use vstd::prelude::*;

use crate::conservation::{as_ints, lemma_total_never_grows, total, uniform};
use crate::frame::{clamp_timestep, clamped_timestep, STABILITY_CAP_NANOS};
use crate::stencil::{
    bounded_by, coefficients_valid, diffused, diffused_value, fits, lemma_diffused_in_range,
    lemma_diffused_is_bounded, lemma_neighbours_in_range, lemma_rate_is_stable, neighbour_sum,
    MAX_COEFFICIENT, RATE_DENOMINATOR,
};
use crate::voxel_grid::VoxelDims;

verus! {

/// Why a field operation was refused.
#[derive(Clone, Copy, Debug, PartialEq, Eq, Structural)]
pub enum FieldError {
    /// An extent of the grid, or the number of species, is zero.
    EmptyGrid,
    /// The buffers would not fit in memory on this machine.
    TooLarge,
    /// A coefficient above `MAX_COEFFICIENT`.
    CoefficientTooLarge,
    /// The field was seeded before.
    AlreadyInitialized,
    /// The field has not been seeded yet.
    NotInitialized,
    /// The number of samples differs from the number of cells.
    SampleCount,
    /// The position lies outside the grid.
    OutOfRange,
}

/// State tag of a voxel.
#[derive(Clone, Copy, Debug, PartialEq, Eq, Structural)]
pub enum VoxelTag {
    Outside,
    Inside,
}

/// Largest number of cells a field may hold: a buffer of 32-bit cells of
/// that length is the largest that can be allocated.
pub open spec fn max_cells() -> int {
    (usize::MAX / 8) as int
}

/// Number of cells of a field over `dims` for `species` species.
pub open spec fn cells_of(dims: VoxelDims, species: u32) -> nat {
    (species as nat) * dims.count()
}

/// A sample as it is stored: negative draws are raised to zero.
pub open spec fn seeded_value(sample: i32) -> u32 {
    if sample < 0 {
        0u32
    } else {
        sample as u32
    }
}

/// The product of two 32-bit numbers fits in 64 bits.
proof fn lemma_product_fits(a: u32, b: u32)
    ensures
        0 <= a * b <= 0xffff_ffff * 0xffff_ffff,
{
    assert(0 <= a * b <= 0xffff_ffff * 0xffff_ffff) by (nonlinear_arith)
        requires
            0 <= a <= 0xffff_ffff,
            0 <= b <= 0xffff_ffff,
    ;
}

/// A scalar field per species on a voxel grid, held in two buffers of which
/// one is read and the other written. Cells are unsigned fixed-point quanta;
/// species follow one another, each laid out x first, then y, then z.
pub struct DiffusionField {
    dims: VoxelDims,
    species: u32,
    count: usize,
    ping: Vec<u32>,
    pong: Vec<u32>,
    coefficients: Vec<u32>,
    tags: Vec<VoxelTag>,
    read_ping: bool,
    initialized: bool,
}

impl DiffusionField {
    #[verifier::type_invariant]
    spec fn well_formed(self) -> bool {
        &&& self.dims.positive()
        &&& self.species >= 1
        &&& self.count == self.dims.count()
        &&& self.ping.len() == cells_of(self.dims, self.species)
        &&& self.pong.len() == self.ping.len()
        &&& self.ping.len() <= max_cells()
        &&& coefficients_valid(self.dims, self.coefficients@)
        &&& self.tags.len() == self.count
    }

    /// Shape of the grid.
    pub closed spec fn dims(self) -> VoxelDims {
        self.dims
    }

    /// Number of species.
    pub closed spec fn species(self) -> u32 {
        self.species
    }

    /// The current field: the buffer that the next step reads.
    pub closed spec fn values(self) -> Seq<u32> {
        if self.read_ping {
            self.ping@
        } else {
            self.pong@
        }
    }

    /// Diffusion coefficient of each voxel, in parts per million per second.
    pub closed spec fn coefficients(self) -> Seq<u32> {
        self.coefficients@
    }

    /// State tag of each voxel.
    pub closed spec fn tags(self) -> Seq<VoxelTag> {
        self.tags@
    }

    /// Whether the ping buffer is the one read.
    pub closed spec fn read_ping(self) -> bool {
        self.read_ping
    }

    /// Whether the field has been seeded.
    pub closed spec fn initialized(self) -> bool {
        self.initialized
    }

    /// Whether `(x, y, z)` names a voxel of the grid.
    pub open spec fn holds(self, x: u32, y: u32, z: u32) -> bool {
        self.dims().contains(x as int, y as int, z as int)
    }

    /// Index of voxel `(x, y, z)` in the per-voxel tables.
    pub open spec fn voxel(self, x: u32, y: u32, z: u32) -> int {
        self.dims().flat(x as int, y as int, z as int)
    }

    /// Index of cell `(x, y, z)` of `species` in the field.
    pub open spec fn cell(self, species: u32, x: u32, y: u32, z: u32) -> int {
        species * self.dims().count() + self.voxel(x, y, z)
    }

    /// An all-zero, unseeded field over `dims` for `species` species with one
    /// diffusion coefficient throughout.
    pub fn new(
        dims: VoxelDims,
        species: u32,
        coefficient: u32,
    ) -> (made: Result<DiffusionField, FieldError>)
        ensures
            match made {
                Ok(field) => {
                    &&& dims.positive()
                    &&& species >= 1
                    &&& coefficient <= MAX_COEFFICIENT
                    &&& cells_of(dims, species) <= max_cells()
                    &&& field.dims() == dims
                    &&& field.species() == species
                    &&& field.values() == Seq::new(cells_of(dims, species), |i: int| 0u32)
                    &&& field.coefficients() == Seq::new(dims.count(), |i: int| coefficient)
                    &&& field.tags() == Seq::new(dims.count(), |i: int| VoxelTag::Outside)
                    &&& field.read_ping()
                    &&& !field.initialized()
                },
                Err(FieldError::EmptyGrid) => !dims.positive() || species == 0,
                Err(FieldError::CoefficientTooLarge) => {
                    &&& dims.positive()
                    &&& species >= 1
                    &&& coefficient > MAX_COEFFICIENT
                },
                Err(FieldError::TooLarge) => {
                    &&& dims.positive()
                    &&& species >= 1
                    &&& coefficient <= MAX_COEFFICIENT
                    &&& cells_of(dims, species) > max_cells()
                },
                Err(_) => false,
            },
    {
        if !dims.is_positive() || species == 0 {
            return Err(FieldError::EmptyGrid);
        }
        if coefficient > MAX_COEFFICIENT {
            return Err(FieldError::CoefficientTooLarge);
        }
        proof {
            lemma_product_fits(dims.i, dims.j);
            lemma_product_fits(dims.k, species);
        }
        let plane: u64 = dims.i as u64 * dims.j as u64;
        let column: u64 = dims.k as u64 * species as u64;
        assert({
            &&& plane * column <= 0xffff_ffff * 0xffff_ffff * (0xffff_ffff * 0xffff_ffff)
            &&& plane * column == cells_of(dims, species)
            &&& 1 <= dims.count() <= cells_of(dims, species)
        }) by (nonlinear_arith)
            requires
                plane == dims.i * dims.j,
                column == dims.k * species,
                0 < dims.i <= 0xffff_ffff,
                0 < dims.j <= 0xffff_ffff,
                0 < dims.k <= 0xffff_ffff,
                0 < species <= 0xffff_ffff,
                dims.count() == (dims.i as nat) * (dims.j as nat) * (dims.k as nat),
                cells_of(dims, species) == (species as nat) * dims.count(),
        ;
        let cells: u128 = plane as u128 * column as u128;
        if cells > (usize::MAX / 8) as u128 {
            return Err(FieldError::TooLarge);
        }
        let len: usize = cells as usize;
        let count: usize = len / (species as usize);
        assert(count == dims.count()) by (nonlinear_arith)
            requires
                len == species * dims.count(),
                count == (len as int) / (species as int),
                species >= 1,
        ;
        let ping: Vec<u32> = vec![0u32; len];
        let pong: Vec<u32> = vec![0u32; len];
        let coefficients: Vec<u32> = vec![coefficient; count];
        let tags: Vec<VoxelTag> = vec![VoxelTag::Outside; count];
        assert(ping@ =~= Seq::new(cells_of(dims, species), |i: int| 0u32));
        assert(coefficients@ =~= Seq::new(dims.count(), |i: int| coefficient));
        assert(tags@ =~= Seq::new(dims.count(), |i: int| VoxelTag::Outside));
        Ok(
            DiffusionField {
                dims,
                species,
                count,
                ping,
                pong,
                coefficients,
                tags,
                read_ping: true,
                initialized: false,
            },
        )
    }

    /// Shape of the grid.
    pub fn grid(&self) -> (dims: VoxelDims)
        ensures
            dims == self.dims(),
            dims.positive(),
    {
        proof {
            use_type_invariant(self);
        }
        self.dims
    }

    /// Number of species.
    pub fn species_count(&self) -> (species: u32)
        ensures
            species == self.species(),
            species >= 1,
    {
        proof {
            use_type_invariant(self);
        }
        self.species
    }

    /// Number of cells: one per voxel and species.
    pub fn len(&self) -> (len: usize)
        ensures
            len == self.values().len(),
            len == cells_of(self.dims(), self.species()),
            len <= max_cells(),
            fits(self.dims(), self.values()),
            coefficients_valid(self.dims(), self.coefficients()),
            self.tags().len() == self.dims().count(),
    {
        proof {
            use_type_invariant(self);
            lemma_whole_grids(self.dims, self.species);
        }
        self.ping.len()
    }

    /// Whether the ping buffer is the one read.
    pub fn reads_ping(&self) -> (flag: bool)
        ensures
            flag == self.read_ping(),
    {
        self.read_ping
    }

    /// Whether the field has been seeded.
    pub fn is_initialized(&self) -> (flag: bool)
        ensures
            flag == self.initialized(),
    {
        self.initialized
    }

    /// Position of cell `(x, y, z)` of `species` in the buffers, and of voxel
    /// `(x, y, z)` in the per-voxel tables, if there is such a cell.
    fn locate(&self, species: u32, x: u32, y: u32, z: u32) -> (index: Option<(usize, usize)>)
        ensures
            match index {
                Some((cell, voxel)) => {
                    &&& species < self.species()
                    &&& self.holds(x, y, z)
                    &&& voxel == self.voxel(x, y, z)
                    &&& voxel < self.dims().count()
                    &&& cell == self.cell(species, x, y, z)
                    &&& cell < self.values().len()
                },
                None => species >= self.species() || !self.holds(x, y, z),
            },
    {
        proof {
            use_type_invariant(self);
        }
        if species >= self.species {
            return None;
        }
        if x >= self.dims.i || y >= self.dims.j || z >= self.dims.k {
            return None;
        }
        proof {
            crate::voxel_grid::lemma_flat_in_range(self.dims, x as int, y as int, z as int);
            let count = self.count as int;
            let flat = self.dims.flat(x as int, y as int, z as int);
            assert(species * count + flat < self.species * count && 0 <= species * count)
                by (nonlinear_arith)
                requires
                    0 <= species < self.species,
                    0 <= flat < count,
            ;
        }
        match self.dims.flat_index(x, y, z) {
            Some(flat) => Some((species as usize * self.count + flat, flat)),
            None => None,
        }
    }

    /// The value at `(x, y, z)` for `species`, or nothing if the species or
    /// the position is out of range.
    pub fn get(&self, species: u32, x: u32, y: u32, z: u32) -> (value: Option<u32>)
        ensures
            value == (if species < self.species() && self.holds(x, y, z) {
                Some(self.values()[self.cell(species, x, y, z)])
            } else {
                None
            }),
    {
        match self.locate(species, x, y, z) {
            Some((n, _)) => {
                proof {
                    use_type_invariant(self);
                }
                if self.read_ping {
                    Some(self.ping[n])
                } else {
                    Some(self.pong[n])
                }
            },
            None => None,
        }
    }

    /// The diffusion coefficient at `(x, y, z)`, or nothing if the position
    /// is out of range.
    pub fn coefficient(&self, x: u32, y: u32, z: u32) -> (value: Option<u32>)
        ensures
            value == (if self.holds(x, y, z) {
                Some(self.coefficients()[self.voxel(x, y, z)])
            } else {
                None
            }),
    {
        proof {
            use_type_invariant(self);
        }
        match self.locate(0, x, y, z) {
            Some((_, n)) => Some(self.coefficients[n]),
            None => None,
        }
    }

    /// Sets the diffusion coefficient at `(x, y, z)`.
    pub fn set_coefficient(
        &mut self,
        x: u32,
        y: u32,
        z: u32,
        coefficient: u32,
    ) -> (done: Result<(), FieldError>)
        ensures
            final(self).dims() == old(self).dims(),
            final(self).species() == old(self).species(),
            final(self).values() == old(self).values(),
            final(self).tags() == old(self).tags(),
            final(self).read_ping() == old(self).read_ping(),
            final(self).initialized() == old(self).initialized(),
            match done {
                Ok(()) => {
                    &&& old(self).holds(x, y, z)
                    &&& coefficient <= MAX_COEFFICIENT
                    &&& final(self).coefficients() == old(self).coefficients().update(
                        old(self).voxel(x, y, z),
                        coefficient,
                    )
                },
                Err(FieldError::OutOfRange) => {
                    &&& !old(self).holds(x, y, z)
                    &&& final(self).coefficients() == old(self).coefficients()
                },
                Err(FieldError::CoefficientTooLarge) => {
                    &&& old(self).holds(x, y, z)
                    &&& coefficient > MAX_COEFFICIENT
                    &&& final(self).coefficients() == old(self).coefficients()
                },
                Err(_) => false,
            },
    {
        proof {
            use_type_invariant(&*self);
        }
        match self.locate(0, x, y, z) {
            None => Err(FieldError::OutOfRange),
            Some((_, n)) => {
                if coefficient > MAX_COEFFICIENT {
                    Err(FieldError::CoefficientTooLarge)
                } else {
                    store(&mut self.coefficients, n, coefficient);
                    Ok(())
                }
            },
        }
    }

    /// The state tag at `(x, y, z)`, or nothing if the position is out of
    /// range.
    pub fn tag(&self, x: u32, y: u32, z: u32) -> (value: Option<VoxelTag>)
        ensures
            value == (if self.holds(x, y, z) {
                Some(self.tags()[self.voxel(x, y, z)])
            } else {
                None
            }),
    {
        proof {
            use_type_invariant(self);
        }
        match self.locate(0, x, y, z) {
            Some((_, n)) => Some(self.tags[n]),
            None => None,
        }
    }

    /// Sets the state tag at `(x, y, z)`.
    pub fn set_tag(
        &mut self,
        x: u32,
        y: u32,
        z: u32,
        tag: VoxelTag,
    ) -> (done: Result<(), FieldError>)
        ensures
            final(self).dims() == old(self).dims(),
            final(self).species() == old(self).species(),
            final(self).values() == old(self).values(),
            final(self).coefficients() == old(self).coefficients(),
            final(self).read_ping() == old(self).read_ping(),
            final(self).initialized() == old(self).initialized(),
            match done {
                Ok(()) => {
                    &&& old(self).holds(x, y, z)
                    &&& final(self).tags() == old(self).tags().update(
                        old(self).voxel(x, y, z),
                        tag,
                    )
                },
                Err(FieldError::OutOfRange) => {
                    &&& !old(self).holds(x, y, z)
                    &&& final(self).tags() == old(self).tags()
                },
                Err(_) => false,
            },
    {
        proof {
            use_type_invariant(&*self);
        }
        match self.locate(0, x, y, z) {
            None => Err(FieldError::OutOfRange),
            Some((_, n)) => {
                store(&mut self.tags, n, tag);
                Ok(())
            },
        }
    }

    /// Seeds the field, once: the current buffer takes the samples, negative
    /// ones raised to zero, and every voxel's tag returns to `Outside`. The
    /// buffer roles stay as they are.
    pub fn initialize(&mut self, samples: &Vec<i32>) -> (done: Result<(), FieldError>)
        ensures
            final(self).dims() == old(self).dims(),
            final(self).species() == old(self).species(),
            final(self).coefficients() == old(self).coefficients(),
            final(self).read_ping() == old(self).read_ping(),
            match done {
                Ok(()) => {
                    &&& !old(self).initialized()
                    &&& samples.len() == old(self).values().len()
                    &&& final(self).initialized()
                    &&& final(self).values() == Seq::new(
                        samples.len() as nat,
                        |i: int| seeded_value(samples[i]),
                    )
                    &&& final(self).tags() == Seq::new(
                        old(self).tags().len(),
                        |i: int| VoxelTag::Outside,
                    )
                },
                Err(FieldError::AlreadyInitialized) => {
                    &&& old(self).initialized()
                    &&& *final(self) == *old(self)
                },
                Err(FieldError::SampleCount) => {
                    &&& !old(self).initialized()
                    &&& samples.len() != old(self).values().len()
                    &&& *final(self) == *old(self)
                },
                Err(_) => false,
            },
    {
        proof {
            use_type_invariant(&*self);
        }
        if self.initialized {
            return Err(FieldError::AlreadyInitialized);
        }
        if samples.len() != self.ping.len() {
            return Err(FieldError::SampleCount);
        }
        if self.read_ping {
            seed_into(samples, &mut self.ping);
        } else {
            seed_into(samples, &mut self.pong);
        }
        fill(&mut self.tags, VoxelTag::Outside);
        self.initialized = true;
        Ok(())
    }

    /// Advances the field by one explicit Euler step. The time step is
    /// `elapsed_nanos`, cut to the stability cap. Every cell of the buffer
    /// that is read is updated into the other buffer, which then becomes the
    /// one read. No cell rises above what bounded the field before, and with
    /// one coefficient throughout the field's total does not grow.
    pub fn step(&mut self, elapsed_nanos: u64) -> (done: Result<(), FieldError>)
        ensures
            final(self).dims() == old(self).dims(),
            final(self).species() == old(self).species(),
            final(self).coefficients() == old(self).coefficients(),
            final(self).tags() == old(self).tags(),
            final(self).initialized() == old(self).initialized(),
            match done {
                Ok(()) => {
                    &&& old(self).initialized()
                    &&& as_ints(final(self).values()) == diffused(
                        old(self).dims(),
                        old(self).values(),
                        old(self).coefficients(),
                        clamped_timestep(elapsed_nanos as int),
                    )
                    &&& final(self).read_ping() == !old(self).read_ping()
                    &&& forall|bound: int|
                        bounded_by(old(self).values(), bound) ==> #[trigger] bounded_by(
                            final(self).values(),
                            bound,
                        )
                    &&& uniform(old(self).coefficients()) ==> total(as_ints(final(self).values()))
                        <= total(as_ints(old(self).values()))
                },
                Err(FieldError::NotInitialized) => {
                    &&& !old(self).initialized()
                    &&& *final(self) == *old(self)
                },
                Err(_) => false,
            },
    {
        proof {
            use_type_invariant(&*self);
            lemma_whole_grids(self.dims, self.species);
        }
        if !self.initialized {
            return Err(FieldError::NotInitialized);
        }
        let dt = clamp_timestep(elapsed_nanos);
        let ghost before = self.values();
        proof {
            lemma_total_never_grows_if_uniform(self.dims, before, self.coefficients@, dt as int);
            lemma_bound_is_kept(self.dims, before, self.coefficients@, dt as int);
        }
        if self.read_ping {
            diffuse_into(&self.dims, &self.ping, &self.coefficients, dt, &mut self.pong);
        } else {
            diffuse_into(&self.dims, &self.pong, &self.coefficients, dt, &mut self.ping);
        }
        self.read_ping = !self.read_ping;
        Ok(())
    }

    /// Sum of the current field over all cells.
    pub fn total(&self) -> (sum: u128)
        ensures
            sum == total(as_ints(self.values())),
    {
        if self.read_ping {
            sum_of(&self.ping)
        } else {
            sum_of(&self.pong)
        }
    }
}

/// Overwrites entry `i` of `v`.
fn store<T>(v: &mut Vec<T>, i: usize, value: T)
    requires
        i < old(v).len(),
    ensures
        final(v)@ == old(v)@.update(i as int, value),
    no_unwind
{
    v[i] = value;
}

/// Overwrites every entry of `v` with `value`.
fn fill<T: Copy>(v: &mut Vec<T>, value: T)
    ensures
        final(v)@ == Seq::new(old(v)@.len(), |i: int| value),
    no_unwind
{
    let len = v.len();
    let mut n: usize = 0;
    while n < len
        invariant
            n <= len,
            v.len() == len,
            forall|i: int| 0 <= i < n ==> v@[i] == value,
        decreases len - n,
    {
        store(v, n, value);
        n = n + 1;
    }
    assert(v@ =~= Seq::new(len as nat, |i: int| value));
}

/// Writes the samples into `target`, negative ones raised to zero.
fn seed_into(samples: &Vec<i32>, target: &mut Vec<u32>)
    requires
        old(target).len() == samples.len(),
    ensures
        final(target)@ == Seq::new(samples.len() as nat, |i: int| seeded_value(samples[i])),
    no_unwind
{
    let len = samples.len();
    let mut n: usize = 0;
    while n < len
        invariant
            n <= len,
            samples.len() == len,
            target.len() == len,
            forall|i: int| 0 <= i < n ==> target@[i] == seeded_value(samples[i]),
        decreases len - n,
    {
        let sample = samples[n];
        let value: u32 = if sample < 0 {
            0
        } else {
            sample as u32
        };
        store(target, n, value);
        n = n + 1;
    }
    assert(target@ =~= Seq::new(samples.len() as nat, |i: int| seeded_value(samples[i])));
}

/// Sum of all entries of `values`.
fn sum_of(values: &Vec<u32>) -> (sum: u128)
    ensures
        sum == total(as_ints(values@)),
{
    let len = values.len();
    let ghost ints = as_ints(values@);
    let mut sum: u128 = 0;
    let mut n: usize = 0;
    assert(ints.take(0) =~= Seq::<int>::empty());
    while n < len
        invariant
            n <= len,
            values.len() == len,
            ints == as_ints(values@),
            sum == total(ints.take(n as int)),
            sum <= n * 0xffff_ffff,
        decreases len - n,
    {
        proof {
            crate::conservation::lemma_total_step(ints, n as int);
            assert((n + 1) * 0xffff_ffff <= 0xffff_ffff_ffff_ffff * 0xffff_ffff)
                by (nonlinear_arith)
                requires
                    n + 1 <= 0xffff_ffff_ffff_ffff,
            ;
        }
        sum = sum + values[n] as u128;
        n = n + 1;
    }
    assert(ints.take(len as int) =~= ints);
    sum
}

/// The law of conservation, phrased for use inside a step: it asks for
/// nothing where the coefficients differ.
proof fn lemma_total_never_grows_if_uniform(
    dims: VoxelDims,
    f: Seq<u32>,
    coefficients: Seq<u32>,
    dt: int,
)
    requires
        fits(dims, f),
        coefficients_valid(dims, coefficients),
        0 <= dt <= STABILITY_CAP_NANOS,
    ensures
        uniform(coefficients) ==> total(diffused(dims, f, coefficients, dt)) <= total(as_ints(f)),
{
    if uniform(coefficients) {
        lemma_total_never_grows(dims, f, coefficients, dt);
    }
}

/// Sum of the neighbours of cell `idx` that lie inside the grid.
fn neighbours(dims: &VoxelDims, source: &Vec<u32>, idx: usize) -> (around: u64)
    requires
        fits(*dims, source@),
        idx < source.len(),
    ensures
        around == neighbour_sum(*dims, source@, idx as int),
        around <= 6 * 0xffff_ffff,
    no_unwind
{
    let nx = dims.i as usize;
    let ny = dims.j as usize;
    let nz = dims.k as usize;
    proof {
        lemma_neighbours_in_range(*dims, source.len() as int, idx as int);
    }
    let plane = nx * ny;
    let x = idx % nx;
    let y = (idx / nx) % ny;
    let z = (idx / plane) % nz;
    let mut around: u64 = 0;
    if x > 0 {
        around = around + source[idx - 1] as u64;
    }
    if x + 1 < nx {
        around = around + source[idx + 1] as u64;
    }
    if y > 0 {
        around = around + source[idx - nx] as u64;
    }
    if y + 1 < ny {
        around = around + source[idx + nx] as u64;
    }
    if z > 0 {
        around = around + source[idx - plane] as u64;
    }
    if z + 1 < nz {
        around = around + source[idx + plane] as u64;
    }
    around
}

/// The value of cell `idx` after one step.
fn updated_cell(
    dims: &VoxelDims,
    source: &Vec<u32>,
    coefficients: &Vec<u32>,
    dt: u32,
    idx: usize,
) -> (value: u32)
    requires
        fits(*dims, source@),
        coefficients_valid(*dims, coefficients@),
        dt <= STABILITY_CAP_NANOS,
        idx < source.len(),
    ensures
        value == diffused_value(*dims, source@, coefficients@, dt as int, idx as int),
    no_unwind
{
    let count = coefficients.len();
    proof {
        lemma_neighbours_in_range(*dims, source.len() as int, idx as int);
        lemma_diffused_in_range(*dims, source@, coefficients@, dt as int, idx as int);
        lemma_rate_is_stable(coefficients@[(idx % count) as int], dt as int);
    }
    let around: u64 = neighbours(dims, source, idx);
    let here: u64 = source[idx] as u64;
    let coefficient: u64 = coefficients[idx % count] as u64;
    let rate: u64 = coefficient * dt as u64;
    let keep: u64 = RATE_DENOMINATOR - 6 * rate;
    assert(here * keep <= 0xffff_ffff * 1_000_000_000_000_000 && rate * around
        <= 1_000_000_000_000_000 * (6 * 0xffff_ffff)) by (nonlinear_arith)
        requires
            0 <= here <= 0xffff_ffff,
            0 <= keep <= 1_000_000_000_000_000,
            0 <= rate <= 1_000_000_000_000_000,
            0 <= around <= 6 * 0xffff_ffff,
    ;
    let numerator: u128 = here as u128 * keep as u128 + rate as u128 * around as u128;
    let value: u128 = numerator / RATE_DENOMINATOR as u128;
    value as u32
}

/// What bounds the field before a step bounds it after.
proof fn lemma_bound_is_kept(dims: VoxelDims, f: Seq<u32>, coefficients: Seq<u32>, dt: int)
    requires
        fits(dims, f),
        coefficients_valid(dims, coefficients),
        0 <= dt <= STABILITY_CAP_NANOS,
    ensures
        forall|after: Seq<u32>, bound: int|
            as_ints(after) == diffused(dims, f, coefficients, dt) && bounded_by(f, bound)
                ==> #[trigger] bounded_by(after, bound),
{
    assert forall|after: Seq<u32>, bound: int|
        as_ints(after) == diffused(dims, f, coefficients, dt) && bounded_by(
            f,
            bound,
        ) implies #[trigger] bounded_by(after, bound) by {
        assert(as_ints(after).len() == f.len());
        assert forall|j: int| 0 <= j < after.len() implies #[trigger] after[j] <= bound by {
            lemma_diffused_is_bounded(dims, f, coefficients, dt, j, bound);
            assert(as_ints(after)[j] == diffused_value(dims, f, coefficients, dt, j));
        }
    }
}

/// One diffusion step from `source` into `target`.
fn diffuse_into(
    dims: &VoxelDims,
    source: &Vec<u32>,
    coefficients: &Vec<u32>,
    dt: u32,
    target: &mut Vec<u32>,
)
    requires
        fits(*dims, source@),
        coefficients_valid(*dims, coefficients@),
        dt <= STABILITY_CAP_NANOS,
        old(target).len() == source.len(),
    ensures
        final(target).len() == source.len(),
        as_ints(final(target)@) == diffused(*dims, source@, coefficients@, dt as int),
    no_unwind
{
    let len = source.len();
    let mut idx: usize = 0;
    while idx < len
        invariant
            idx <= len,
            len == source.len(),
            target.len() == len,
            fits(*dims, source@),
            coefficients_valid(*dims, coefficients@),
            dt <= STABILITY_CAP_NANOS,
            forall|i: int|
                0 <= i < idx ==> #[trigger] target@[i] == diffused_value(
                    *dims,
                    source@,
                    coefficients@,
                    dt as int,
                    i,
                ),
        decreases len - idx,
    {
        let value = updated_cell(dims, source, coefficients, dt, idx);
        store(target, idx, value);
        idx = idx + 1;
    }
    assert(as_ints(target@) =~= diffused(*dims, source@, coefficients@, dt as int));
}

/// A field of `species` grids holds a whole number of grids.
proof fn lemma_whole_grids(dims: VoxelDims, species: u32)
    requires
        dims.positive(),
    ensures
        dims.count() > 0,
        cells_of(dims, species) % dims.count() == 0,
{
    assert(dims.count() > 0) by (nonlinear_arith)
        requires
            dims.positive(),
            dims.count() == (dims.i as nat) * (dims.j as nat) * (dims.k as nat),
    ;
    vstd::arithmetic::div_mod::lemma_mod_multiples_basic(species as int, dims.count() as int);
}

} // verus!
