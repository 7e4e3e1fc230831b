//! One row of the adjacency matrix: a fixed set of 256 bits kept in a
//! `bitvec` bit-array. Everything in this file is trusted: the contracts
//! restate what the `bitvec` sources do and are not proved here.

use bitvec::array::BitArray;
use bitvec::order::Lsb0;
use vstd::prelude::*;

verus! {

/// Number of bits in a row, one per node of the network.
pub const ROW_BITS: usize = 256;

/// A `bitvec::array::BitArray` over 32 bytes. The array is hidden from the
/// verifier; its contents are spoken of through [`row_bits`].
#[verifier::external_body]
pub struct BitRow {
    bits: BitArray<[u8; 32], Lsb0>,
}

/// The bits that a row holds, by index.
pub uninterp spec fn row_bits(row: BitRow) -> Seq<bool>;

/// `BitArray::new` on an all-zero buffer: 256 bits, all clear.
#[verifier::external_body]
pub(crate) fn row_new() -> (row: BitRow)
    ensures
        row_bits(row).len() == ROW_BITS,
        forall|i: int| 0 <= i < ROW_BITS ==> !#[trigger] row_bits(row)[i],
{
    BitRow { bits: BitArray::new([0u8; 32]) }
}

/// `BitSlice::set` through the array: writes one bit and leaves the others.
/// The outside function panics on an index past the end, which `requires`
/// leaves out.
#[verifier::external_body]
pub(crate) fn row_set(row: &mut BitRow, index: usize, value: bool)
    requires
        index < row_bits(*old(row)).len(),
    ensures
        row_bits(*final(row)) == row_bits(*old(row)).update(index as int, value),
{
    row.bits.set(index, value);
}

/// Indexing a `BitSlice` through the array: reads one bit. The outside
/// function panics on an index past the end, which `requires` leaves out.
#[verifier::external_body]
pub(crate) fn row_get(row: &BitRow, index: usize) -> (bit: bool)
    requires
        index < row_bits(*row).len(),
    ensures
        bit == row_bits(*row)[index as int],
{
    row.bits[index]
}

/// `BitSlice::iter_ones` through the array, collected: the indices of the set
/// bits, each once, in increasing order.
#[verifier::external_body]
pub(crate) fn row_ones(row: &BitRow) -> (ones: Vec<usize>)
    ensures
        forall|k: int| 0 <= k < ones@.len() ==> (#[trigger] ones@[k]) < row_bits(*row).len()
            && row_bits(*row)[ones@[k] as int],
        forall|j: int, k: int| 0 <= j < k < ones@.len() ==> ones@[j] < ones@[k],
        forall|i: int| 0 <= i < row_bits(*row).len() && #[trigger] row_bits(*row)[i]
            ==> ones@.contains(i as usize),
{
    row.bits.iter_ones().collect()
}

} // verus!
