//! The parameter record of the compute kernels and its byte layout.

use vstd::prelude::*;

use crate::voxel_grid::VoxelDims;

verus! {

/// The four bytes of a 32-bit word, least significant first.
pub open spec fn le_bytes(word: int) -> Seq<u8> {
    seq![
        (word % 0x100) as u8,
        ((word / 0x100) % 0x100) as u8,
        ((word / 0x1_0000) % 0x100) as u8,
        ((word / 0x100_0000) % 0x100) as u8,
    ]
}

/// The 32-bit pattern of a signed word in two's complement.
pub open spec fn twos_complement(v: int) -> int {
    if v < 0 {
        v + 0x1_0000_0000
    } else {
        v
    }
}

/// The sixteen bytes of a block of four words.
pub open spec fn block_bytes(block: Seq<u32>) -> Seq<u8> {
    let low = le_bytes(block[0] as int) + le_bytes(block[1] as int);
    let high = le_bytes(block[2] as int) + le_bytes(block[3] as int);
    low + high
}

/// The sixteen bytes of a block of four signed words.
pub open spec fn signed_block_bytes(block: Seq<i32>) -> Seq<u8> {
    let low = le_bytes(twos_complement(block[0] as int)) + le_bytes(
        twos_complement(block[1] as int),
    );
    let high = le_bytes(twos_complement(block[2] as int)) + le_bytes(
        twos_complement(block[3] as int),
    );
    low + high
}

/// The camera as the kernels read it. Every component is the bit pattern of
/// a 32-bit IEEE 754 number.
#[derive(Clone, Copy, Debug)]
pub struct CameraBlock {
    pub cam_pos: [u32; 3],
    pub forward: [u32; 3],
    pub centre: [u32; 3],
    pub up: [u32; 3],
    pub right: [u32; 3],
    /// Horizontal scale of the projection: half the width over half the
    /// height.
    pub right_scale: u32,
}

/// Parameter record handed to the compute kernels each frame: eleven blocks
/// of four 32-bit words, 176 bytes in all. Words that hold real numbers carry
/// their 32-bit IEEE 754 bit pattern.
#[derive(Clone, Copy, Debug)]
pub struct Uniforms {
    /// Half the surface width, half its height, then padding.
    pub window_dims: [u32; 4],
    /// Grid extents i, j, k, then the stride `i * j` of one k-plane.
    pub dims: [u32; 4],
    /// `[min_x, min_y, max_x, max_y]` of the region to raymarch.
    pub bounding_box: [i32; 4],
    pub cam_pos: [u32; 4],
    pub forward: [u32; 4],
    pub centre: [u32; 4],
    pub up: [u32; 4],
    /// The right vector, then the horizontal scale of the projection.
    pub right: [u32; 4],
    /// The time step in seconds, then padding.
    pub timestep: [u32; 4],
    /// The seed of the initialisation pass, then padding.
    pub seed: [u32; 4],
    /// 1 if the ping buffer is the one read, else 0, then padding.
    pub flags: [u32; 4],
}

/// Appends the four bytes of `word`, least significant first.
fn push_word(out: &mut Vec<u8>, word: u32)
    ensures
        final(out)@ == old(out)@ + le_bytes(word as int),
        final(out)@.len() == old(out)@.len() + 4,
{
    let ghost before = out@;
    out.push((word % 0x100) as u8);
    out.push(((word / 0x100) % 0x100) as u8);
    out.push(((word / 0x1_0000) % 0x100) as u8);
    out.push(((word / 0x100_0000) % 0x100) as u8);
    assert(out@ =~= before + le_bytes(word as int));
}

/// Appends the sixteen bytes of `block`.
fn push_block(out: &mut Vec<u8>, block: &[u32; 4])
    ensures
        final(out)@ == old(out)@ + block_bytes(block@),
        final(out)@.len() == old(out)@.len() + 16,
{
    let ghost before = out@;
    push_word(out, block[0]);
    push_word(out, block[1]);
    push_word(out, block[2]);
    push_word(out, block[3]);
    assert(out@ =~= before + block_bytes(block@));
}

/// The bit pattern of `v` in two's complement.
fn to_bits(v: i32) -> (bits: u32)
    ensures
        bits == twos_complement(v as int),
{
    if v < 0 {
        (v as i64 + 0x1_0000_0000) as u32
    } else {
        v as u32
    }
}

/// Appends the sixteen bytes of the signed `block`.
fn push_signed_block(out: &mut Vec<u8>, block: &[i32; 4])
    ensures
        final(out)@ == old(out)@ + signed_block_bytes(block@),
        final(out)@.len() == old(out)@.len() + 16,
{
    let ghost before = out@;
    push_word(out, to_bits(block[0]));
    push_word(out, to_bits(block[1]));
    push_word(out, to_bits(block[2]));
    push_word(out, to_bits(block[3]));
    assert(out@ =~= before + signed_block_bytes(block@));
}

impl Uniforms {
    /// The record's byte layout: its blocks in declaration order, each word
    /// little-endian, with no gaps.
    pub open spec fn bytes(self) -> Seq<u8> {
        block_bytes(self.window_dims@)
            + block_bytes(self.dims@)
            + signed_block_bytes(self.bounding_box@)
            + block_bytes(self.cam_pos@)
            + block_bytes(self.forward@)
            + block_bytes(self.centre@)
            + block_bytes(self.up@)
            + block_bytes(self.right@)
            + block_bytes(self.timestep@)
            + block_bytes(self.seed@)
            + block_bytes(self.flags@)
    }

    /// The record for a frame, from plain values.
    pub open spec fn assembled(
        width: u32,
        height: u32,
        dims: VoxelDims,
        bounding_box: Seq<i32>,
        camera: CameraBlock,
        timestep: u32,
        seed: u32,
        read_ping: bool,
        u: Uniforms,
    ) -> bool {
        &&& u.window_dims@ == seq![width / 2, height / 2, 0u32, 0u32]
        &&& u.dims@ == seq![dims.i, dims.j, dims.k, (dims.i * dims.j) as u32]
        &&& u.bounding_box@ == bounding_box
        &&& u.cam_pos@ == camera.cam_pos@.push(0u32)
        &&& u.forward@ == camera.forward@.push(0u32)
        &&& u.centre@ == camera.centre@.push(0u32)
        &&& u.up@ == camera.up@.push(0u32)
        &&& u.right@ == camera.right@.push(camera.right_scale)
        &&& u.timestep@ == seq![timestep, 0u32, 0u32, 0u32]
        &&& u.seed@ == seq![seed, 0u32, 0u32, 0u32]
        &&& u.flags@ == seq![if read_ping { 1u32 } else { 0u32 }, 0u32, 0u32, 0u32]
    }

    /// Fills in the record for a frame drawn on a `width` x `height` surface.
    /// `timestep` and `seed` are bit patterns of 32-bit IEEE 754 numbers, as
    /// are the components of `camera`.
    pub fn assemble(
        width: u32,
        height: u32,
        dims: &VoxelDims,
        bounding_box: [i32; 4],
        camera: &CameraBlock,
        timestep: u32,
        seed: u32,
        read_ping: bool,
    ) -> (uniforms: Uniforms)
        requires
            dims.i * dims.j <= u32::MAX,
        ensures
            Uniforms::assembled(
                width,
                height,
                *dims,
                bounding_box@,
                *camera,
                timestep,
                seed,
                read_ping,
                uniforms,
            ),
    {
        let stride: u32 = (dims.i as u64 * dims.j as u64) as u32;
        let flag: u32 = if read_ping {
            1
        } else {
            0
        };
        let uniforms = Uniforms {
            window_dims: [width / 2, height / 2, 0, 0],
            dims: [dims.i, dims.j, dims.k, stride],
            bounding_box,
            cam_pos: [camera.cam_pos[0], camera.cam_pos[1], camera.cam_pos[2], 0],
            forward: [camera.forward[0], camera.forward[1], camera.forward[2], 0],
            centre: [camera.centre[0], camera.centre[1], camera.centre[2], 0],
            up: [camera.up[0], camera.up[1], camera.up[2], 0],
            right: [camera.right[0], camera.right[1], camera.right[2], camera.right_scale],
            timestep: [timestep, 0, 0, 0],
            seed: [seed, 0, 0, 0],
            flags: [flag, 0, 0, 0],
        };
        assert(uniforms.cam_pos@ =~= camera.cam_pos@.push(0u32));
        assert(uniforms.forward@ =~= camera.forward@.push(0u32));
        assert(uniforms.centre@ =~= camera.centre@.push(0u32));
        assert(uniforms.up@ =~= camera.up@.push(0u32));
        assert(uniforms.right@ =~= camera.right@.push(camera.right_scale));
        uniforms
    }

    /// Serialises the record to the 176 bytes uploaded to the uniform buffer.
    pub fn flatten_u8(&self) -> (bytes: Vec<u8>)
        ensures
            bytes@ == self.bytes(),
            bytes@.len() == 176,
    {
        let mut out: Vec<u8> = Vec::new();
        push_block(&mut out, &self.window_dims);
        assert(out@ =~= block_bytes(self.window_dims@));
        push_block(&mut out, &self.dims);
        push_signed_block(&mut out, &self.bounding_box);
        push_block(&mut out, &self.cam_pos);
        push_block(&mut out, &self.forward);
        push_block(&mut out, &self.centre);
        push_block(&mut out, &self.up);
        push_block(&mut out, &self.right);
        push_block(&mut out, &self.timestep);
        push_block(&mut out, &self.seed);
        push_block(&mut out, &self.flags);
        out
    }
}

} // verus!
