//! Words of memory that the driver shares with the device.
//!
//! A word is a `volatile::Volatile`. The descriptor table and the available ring are written by
//! the driver alone, so a read of one of their words gives what the driver wrote last. The used
//! ring is written by the device: of a read there it is known which word was read, not what it
//! gives.
use core::sync::atomic::Ordering;
use vstd::prelude::*;
use volatile::Volatile;

verus! {

/// A volatile word of the `volatile` crate. Nothing inside it is visible here.
#[verifier::external_type_specification]
#[verifier::external_body]
#[verifier::reject_recursive_types(T)]
pub struct ExVolatile<T: Copy>(volatile::Volatile<T>);

/// The value that a 16-bit word contains.
pub uninterp spec fn word16(cell: Volatile<u16>) -> u16;

/// The value that a 32-bit word contains.
pub uninterp spec fn word32(cell: Volatile<u32>) -> u32;

/// The value that a 64-bit word contains.
pub uninterp spec fn word64(cell: Volatile<u64>) -> u64;

/// A read of a 16-bit word that the device writes gave this value. Two reads of one word may give
/// different values, and nothing is said of which.
pub uninterp spec fn gave16(cell: Volatile<u16>, value: u16) -> bool;

/// A read of a 32-bit word that the device writes gave this value. Two reads of one word may give
/// different values, and nothing is said of which.
pub uninterp spec fn gave32(cell: Volatile<u32>, value: u32) -> bool;

/// `Volatile::new` for 16 bits: the word contains the given value.
#[verifier::external_body]
pub(crate) fn new_u16(value: u16) -> (cell: Volatile<u16>)
    ensures
        word16(cell) == value,
{
    Volatile::new(value)
}

/// `Volatile::new` for 32 bits: the word contains the given value.
#[verifier::external_body]
pub(crate) fn new_u32(value: u32) -> (cell: Volatile<u32>)
    ensures
        word32(cell) == value,
{
    Volatile::new(value)
}

/// `Volatile::new` for 64 bits: the word contains the given value.
#[verifier::external_body]
pub(crate) fn new_u64(value: u64) -> (cell: Volatile<u64>)
    ensures
        word64(cell) == value,
{
    Volatile::new(value)
}

/// `Volatile::read` of a 16-bit word that only the driver writes: a copy of the contained value.
#[verifier::external_body]
pub(crate) fn read_u16(cell: &Volatile<u16>) -> (value: u16)
    ensures
        value == word16(*cell),
{
    cell.read()
}

/// `Volatile::read` of a 32-bit word that only the driver writes: a copy of the contained value.
#[verifier::external_body]
pub(crate) fn read_u32(cell: &Volatile<u32>) -> (value: u32)
    ensures
        value == word32(*cell),
{
    cell.read()
}

/// `Volatile::read` of a 64-bit word that only the driver writes: a copy of the contained value.
#[verifier::external_body]
pub(crate) fn read_u64(cell: &Volatile<u64>) -> (value: u64)
    ensures
        value == word64(*cell),
{
    cell.read()
}

/// `Volatile::write` of a 16-bit word: afterwards the word contains the given value.
#[verifier::external_body]
pub(crate) fn write_u16(cell: &mut Volatile<u16>, value: u16)
    ensures
        word16(*final(cell)) == value,
{
    cell.write(value)
}

/// `Volatile::write` of a 32-bit word: afterwards the word contains the given value.
#[verifier::external_body]
pub(crate) fn write_u32(cell: &mut Volatile<u32>, value: u32)
    ensures
        word32(*final(cell)) == value,
{
    cell.write(value)
}

/// `Volatile::write` of a 64-bit word: afterwards the word contains the given value.
#[verifier::external_body]
pub(crate) fn write_u64(cell: &mut Volatile<u64>, value: u64)
    ensures
        word64(*final(cell)) == value,
{
    cell.write(value)
}

/// `Volatile::read` of a 16-bit word that the device writes. The device may change the word at
/// any time, so all that is claimed of the value is that it was read from this word.
#[verifier::external_body]
pub(crate) fn sample_u16(cell: &Volatile<u16>) -> (value: u16)
    ensures
        gave16(*cell, value),
{
    cell.read()
}

/// `Volatile::read` of a 32-bit word that the device writes. The device may change the word at
/// any time, so all that is claimed of the value is that it was read from this word.
#[verifier::external_body]
pub(crate) fn sample_u32(cell: &Volatile<u32>) -> (value: u32)
    ensures
        gave32(*cell, value),
{
    cell.read()
}

/// `core::sync::atomic::fence` with sequential consistency: keeps the accesses before it and
/// after it in order. It computes nothing, so nothing is claimed of it. Which accesses come first
/// is stated where the others are made.
#[verifier::external_body]
pub(crate) fn memory_barrier() {
    core::sync::atomic::fence(Ordering::SeqCst)
}

} // verus!
