//! Index buffer packing: 16-bit indices when every index fits, 32-bit
//! otherwise, laid out as raw bytes for upload.

use vstd::prelude::*;

verus! {

/// Index type chosen for a packed index buffer.
#[derive(Clone, Copy, Debug, PartialEq, Eq, Structural, Hash)]
pub enum GpuIndexFormat {
    /// 16-bit indices.
    Uint16,
    /// 32-bit indices.
    Uint32,
}

/// An index buffer ready for upload.
#[derive(Clone, Debug, PartialEq, Eq)]
pub struct PackedIndices {
    /// Raw index bytes in `index_format`, in the machine's byte order.
    pub index_bytes: Vec<u8>,
    /// Number of indices, truncated to `u32` as the renderer stores it.
    pub index_count: u32,
    /// Storage format of the indices.
    pub index_format: GpuIndexFormat,
}

/// Whether `bytes` holds the words `words`, `width` bytes each, all in one
/// byte order: least or most significant byte first, as the machine stores them.
pub open spec fn holds_words(bytes: Seq<u8>, width: int, words: Seq<int>) -> bool {
    &&& bytes.len() == width * words.len()
    &&& {
        ||| forall|k: int| 0 <= k < words.len() ==> #[trigger] words[k] == word_le_at(bytes, width, k)
        ||| forall|k: int| 0 <= k < words.len() ==> #[trigger] words[k] == word_be_at(bytes, width, k)
    }
}

/// The `k`-th `width`-byte word of `bytes`, least significant byte first.
pub open spec fn word_le_at(bytes: Seq<u8>, width: int, k: int) -> int {
    le_value(bytes.subrange(k * width, k * width + width))
}

/// The `k`-th `width`-byte word of `bytes`, most significant byte first.
pub open spec fn word_be_at(bytes: Seq<u8>, width: int, k: int) -> int {
    be_value(bytes.subrange(k * width, k * width + width))
}

/// The number whose bytes, least significant first, are `b`.
pub open spec fn le_value(b: Seq<u8>) -> int
    decreases b.len(),
{
    if b.len() == 0 {
        0
    } else {
        b[0] + 256 * le_value(b.subrange(1, b.len() as int))
    }
}

/// The number whose bytes, most significant first, are `b`.
pub open spec fn be_value(b: Seq<u8>) -> int
    decreases b.len(),
{
    if b.len() == 0 {
        0
    } else {
        be_value(b.drop_last()) * 256 + b.last()
    }
}

/// `bytemuck::cast_slice` from `u16` to bytes, copied into a vector: the
/// indices' memory, two bytes each in the machine's byte order. Which order
/// that is depends on the machine, so the contract allows either.
#[verifier::external_body]
fn u16_bytes(values: &[u16]) -> (bytes: Vec<u8>)
    ensures
        holds_words(bytes@, 2, values@.map_values(|v: u16| v as int)),
{
    bytemuck::cast_slice::<u16, u8>(values).to_vec()
}

/// `bytemuck::cast_slice` from `u32` to bytes, copied into a vector: the
/// indices' memory, four bytes each in the machine's byte order. Which order
/// that is depends on the machine, so the contract allows either.
#[verifier::external_body]
fn u32_bytes(values: &[u32]) -> (bytes: Vec<u8>)
    ensures
        holds_words(bytes@, 4, values@.map_values(|v: u32| v as int)),
{
    bytemuck::cast_slice::<u32, u8>(values).to_vec()
}

/// The indices a mesh draws: its own, or `0..vertex_count` (as `u32`,
/// truncated) when it has none.
pub open spec fn source_indices(vertex_count: usize, indices: Seq<u32>) -> Seq<u32> {
    if indices.len() == 0 {
        Seq::new((vertex_count as u32) as nat, |i: int| i as u32)
    } else {
        indices
    }
}

/// Whether 16-bit indices suffice.
pub open spec fn fits_u16(vertex_count: usize, source: Seq<u32>) -> bool {
    vertex_count <= u16::MAX && forall|i: int| 0 <= i < source.len() ==> source[i] <= u16::MAX
}

/// 16-bit indices are chosen exactly when the vertex count and every index
/// are at most 65535; a mesh without indices draws its vertices in order.
pub proof fn lemma_index_width_choice(vertex_count: usize, indices: Seq<u32>)
    ensures
        fits_u16(vertex_count, source_indices(vertex_count, indices)) <==> (vertex_count <= 65535 && forall|i: int|
            0 <= i < source_indices(vertex_count, indices).len() ==> #[trigger] source_indices(
                vertex_count,
                indices,
            )[i] <= 65535),
        indices.len() > 0 ==> source_indices(vertex_count, indices) == indices,
        indices.len() == 0 && vertex_count <= u32::MAX ==> ({
            let s = source_indices(vertex_count, indices);
            &&& s.len() == vertex_count
            &&& forall|i: int| 0 <= i < s.len() ==> s[i] == i
        }),
{
}

/// Packs the indices of a mesh with `vertex_count` vertices: its own
/// indices, or `0..vertex_count` when it has none, as 16-bit values when the
/// vertex count and every index fit, else as 32-bit values.
pub fn pack_indices(vertex_count: usize, indices: &Vec<u32>) -> (p: PackedIndices)
    ensures
        ({
            let source = source_indices(vertex_count, indices@);
            &&& p.index_count == source.len() as u32
            &&& p.index_format == if fits_u16(vertex_count, source) {
                GpuIndexFormat::Uint16
            } else {
                GpuIndexFormat::Uint32
            }
            &&& holds_words(
                p.index_bytes@,
                if fits_u16(vertex_count, source) {
                    2
                } else {
                    4
                },
                source.map_values(|v: u32| v as int),
            )
        }),
{
    let ghost expected = source_indices(vertex_count, indices@);
    let mut source: Vec<u32> = Vec::new();
    if indices.len() == 0 {
        #[verifier::truncate]
        let count = vertex_count as u32;
        let mut i: u32 = 0;
        while i < count
            invariant
                i <= count,
                count == vertex_count as u32,
                source@ == Seq::new(i as nat, |k: int| k as u32),
            decreases count - i,
        {
            source.push(i);
            i = i + 1;
            proof {
                assert(source@ =~= Seq::new(i as nat, |k: int| k as u32));
            }
        }
    } else {
        let mut i: usize = 0;
        while i < indices.len()
            invariant
                i <= indices@.len(),
                source@ == indices@.take(i as int),
            decreases indices@.len() - i,
        {
            source.push(indices[i]);
            i = i + 1;
            proof {
                assert(source@ =~= indices@.take(i as int));
            }
        }
        assert(indices@.take(indices@.len() as int) =~= indices@);
    }
    assert(source@ =~= expected);
    let mut small = vertex_count <= 65535;
    let mut i: usize = 0;
    while i < source.len()
        invariant
            i <= source@.len(),
            small == (vertex_count <= u16::MAX && forall|k: int| 0 <= k < i ==> source@[k] <= u16::MAX),
        decreases source@.len() - i,
    {
        if source[i] > 65535 {
            small = false;
        }
        i = i + 1;
    }
    #[verifier::truncate]
    let index_count = source.len() as u32;
    if small {
        let mut narrow: Vec<u16> = Vec::new();
        let mut k: usize = 0;
        while k < source.len()
            invariant
                k <= source@.len(),
                forall|j: int| 0 <= j < source@.len() ==> source@[j] <= u16::MAX,
                narrow@.len() == k,
                forall|j: int| 0 <= j < k ==> narrow@[j] as int == source@[j] as int,
            decreases source@.len() - k,
        {
            narrow.push(source[k] as u16);
            k = k + 1;
        }
        let bytes = u16_bytes(narrow.as_slice());
        proof {
            assert(narrow@.map_values(|v: u16| v as int) =~= source@.map_values(|v: u32| v as int));
        }
        PackedIndices { index_bytes: bytes, index_count, index_format: GpuIndexFormat::Uint16 }
    } else {
        let bytes = u32_bytes(source.as_slice());
        PackedIndices { index_bytes: bytes, index_count, index_format: GpuIndexFormat::Uint32 }
    }
}

} // verus!
