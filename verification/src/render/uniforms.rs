//! Uniform buffer sizing and growth of per-draw uniform storage.

use vstd::prelude::*;
use vstd::arithmetic::power2::pow2;

verus! {

/// `size` rounded up to the next multiple of 256, the uniform offset alignment.
pub open spec fn uniform_align(size: int) -> int {
    (size + 255) / 256 * 256
}

/// The aligned size is the least multiple of 256 that is not below `size`.
pub proof fn lemma_uniform_align_is_least_multiple(size: int)
    requires
        size >= 0,
    ensures
        uniform_align(size) % 256 == 0,
        size <= uniform_align(size) < size + 256,
{
}

/// Rounds a uniform size up to a multiple of 256 bytes.
pub fn align_uniform_size(size: u64) -> (r: u64)
    requires
        size <= u64::MAX - 255,
    ensures
        r == uniform_align(size as int),
{
    let padded = size + 255;
    let r = padded & !255u64;
    assert(padded & !255u64 == padded / 256 * 256) by (bit_vector);
    r
}

/// The size of `T` rounded up to a multiple of 256 bytes.
pub fn aligned_uniform_size<T>() -> (r: u64)
    requires
        vstd::layout::size_of::<T>() <= u64::MAX - 255,
    ensures
        r == uniform_align(vstd::layout::size_of::<T>() as int),
{
    let size = core::mem::size_of::<T>() as u64;
    align_uniform_size(size)
}

/// Whether `n` is a power of two.
pub open spec fn is_power_of_two(n: int) -> bool {
    exists|e: nat| n == pow2(e)
}

/// The smallest power of two that is at least `n` (1 for 0).
pub open spec fn is_next_pow2(r: int, n: int) -> bool {
    &&& is_power_of_two(r)
    &&& r >= n
    &&& (r == 1 || r / 2 < n)
}

/// The smallest power of two not below `n`. Values above the largest power
/// of two of `usize` are left out: there it would overflow.
pub fn next_power_of_two(n: usize) -> (r: usize)
    requires
        n <= usize::MAX / 2 + 1,
    ensures
        is_next_pow2(r as int, n as int),
{
    let mut p: usize = 1;
    let ghost mut e: nat = 0;
    proof {
        vstd::arithmetic::power2::lemma2_to64();
    }
    while p < n
        invariant
            n <= usize::MAX / 2 + 1,
            p == pow2(e),
            p >= 1,
            p == 1 || p / 2 < n,
        decreases usize::MAX - p,
    {
        assert(p <= usize::MAX / 2);
        proof {
            vstd::arithmetic::power2::lemma_pow2_unfold(e + 1);
        }
        p = p * 2;
        proof {
            e = e + 1;
        }
    }
    p
}

/// Sizes of the per-draw uniform storage: the strides of object and material
/// entries and how many draws the buffers hold.
#[derive(Clone, Copy, Debug, PartialEq, Eq, Structural)]
pub struct UniformBudget {
    /// Bytes per object uniform entry.
    pub object_stride: u64,
    /// Bytes per material uniform entry.
    pub material_stride: u64,
    /// Draws the buffers currently hold.
    pub draw_capacity: usize,
}

impl UniformBudget {
    /// Grows the draw capacity to the next power of two when `needed` draws
    /// do not fit, and returns whether it grew (the buffers must then be
    /// recreated).
    pub fn ensure_draw_capacity(&mut self, needed: usize) -> (grown: bool)
        requires
            needed <= usize::MAX / 2 + 1,
        ensures
            grown == (needed > old(self).draw_capacity),
            final(self).object_stride == old(self).object_stride,
            final(self).material_stride == old(self).material_stride,
            grown ==> is_next_pow2(final(self).draw_capacity as int, needed as int),
            !grown ==> final(self).draw_capacity == old(self).draw_capacity,
    {
        if needed <= self.draw_capacity {
            return false;
        }
        self.draw_capacity = next_power_of_two(needed);
        true
    }

    /// Bytes of uniform storage: object and material entries for every draw,
    /// plus one frame and one light uniform.
    pub fn uniform_memory_bytes(&self, frame_uniform: u64, light_uniform: u64) -> (r: u64)
        requires
            self.object_stride * self.draw_capacity + self.material_stride * self.draw_capacity
                + frame_uniform + light_uniform <= u64::MAX,
        ensures
            r == self.object_stride * self.draw_capacity + self.material_stride * self.draw_capacity
                + frame_uniform + light_uniform,
    {
        let capacity = self.draw_capacity as u64;
        assert(self.object_stride * capacity >= 0 && self.material_stride * capacity >= 0) by (nonlinear_arith);
        self.object_stride * capacity + self.material_stride * capacity + frame_uniform + light_uniform
    }
}

} // verus!
