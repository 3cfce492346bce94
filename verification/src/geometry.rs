//! Sizes of pixel buffers and the limits that the shared-memory protocol puts on them.

use vstd::prelude::*;

verus! {

/// Bytes taken by one pixel: a packed 32-bit word.
pub const BYTES_PER_PIXEL: usize = 4;

/// Largest byte count that the shared-memory protocol can name. Its sizes,
/// offsets and strides travel as signed 32-bit integers.
pub const MAX_POOL_SIZE: usize = 0x7fff_ffff;

/// Bytes taken by one buffer of `width` x `height` pixels.
pub open spec fn buffer_bytes(width: u32, height: u32) -> nat {
    (width as nat) * (height as nat) * (BYTES_PER_PIXEL as nat)
}

/// Bytes taken by one row of `width` pixels. Rows are packed: no padding follows them.
pub open spec fn row_bytes(width: u32) -> nat {
    (width as nat) * (BYTES_PER_PIXEL as nat)
}

/// A geometry that a pool can serve: its buffers are not empty and one buffer
/// alone does not exceed what the protocol can name.
pub open spec fn valid_geometry(width: u32, height: u32) -> bool {
    0 < buffer_bytes(width, height) <= MAX_POOL_SIZE
}

/// A valid geometry has at least one pixel each way, and neither a side nor a
/// row exceeds the size of a whole buffer.
pub proof fn lemma_valid_geometry_bounds(width: u32, height: u32)
    requires
        valid_geometry(width, height),
    ensures
        0 < width,
        0 < height,
        (width as nat) * (height as nat) * 4 == buffer_bytes(width, height),
        (width as nat) * (height as nat) <= MAX_POOL_SIZE / 4,
        row_bytes(width) <= buffer_bytes(width, height),
        width <= MAX_POOL_SIZE / 4,
        height <= MAX_POOL_SIZE / 4,
{
    let w = width as nat;
    let h = height as nat;
    assert(w * h * 4 == buffer_bytes(width, height));
    assert(w > 0 && h > 0) by (nonlinear_arith)
        requires
            0 < w * h * 4,
    ;
    assert(w * 4 <= w * h * 4 && w <= w * h && h <= w * h) by (nonlinear_arith)
        requires
            w > 0,
            h > 0,
    ;
}

/// The size in bytes of one buffer of `width` x `height` pixels.
pub fn buffer_size(width: u32, height: u32) -> (size: usize)
    requires
        buffer_bytes(width, height) <= usize::MAX,
    ensures
        size == buffer_bytes(width, height),
{
    let w: usize = width as usize;
    let h: usize = height as usize;
    assert(w * h <= w * h * 4) by (nonlinear_arith);
    w * h * BYTES_PER_PIXEL
}

/// The size in bytes of one buffer of `width` x `height` pixels, if the
/// protocol can name it.
pub fn checked_buffer_size(width: u32, height: u32) -> (size: Option<usize>)
    ensures
        match size {
            Some(size) => size == buffer_bytes(width, height) && size <= MAX_POOL_SIZE,
            None => buffer_bytes(width, height) > MAX_POOL_SIZE,
        },
{
    let w: u64 = width as u64;
    let h: u64 = height as u64;
    assert(w * h <= 0xffff_ffff * 0xffff_ffff) by (nonlinear_arith)
        requires
            w <= 0xffff_ffff,
            h <= 0xffff_ffff,
    ;
    let pixels: u64 = w * h;
    if pixels > (MAX_POOL_SIZE as u64) / (BYTES_PER_PIXEL as u64) {
        None
    } else {
        Some((pixels * (BYTES_PER_PIXEL as u64)) as usize)
    }
}

} // verus!
