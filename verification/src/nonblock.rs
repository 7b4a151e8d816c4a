//! The errors of operations that do not block.
use crate::error::Error;
use nb::Error as NbError;
use vstd::prelude::*;

verus! {

/// The non-blocking error of the `nb` crate. Nothing inside it is visible here.
#[verifier::external_type_specification]
#[verifier::external_body]
#[verifier::reject_recursive_types(E)]
pub struct ExNbError<E>(NbError<E>);

/// The error that a non-blocking error holds, or none where the operation would block.
pub uninterp spec fn cause(error: NbError<Error>) -> Option<Error>;

/// `nb::Error::from`: the variant `Other`, which holds the given error.
#[verifier::external_body]
pub(crate) fn other(error: Error) -> (e: NbError<Error>)
    ensures
        cause(e) == Some(error),
{
    NbError::from(error)
}

/// The variant `nb::Error::WouldBlock`, which holds no error.
#[verifier::external_body]
pub(crate) fn would_block() -> (e: NbError<Error>)
    ensures
        cause(e) is None,
{
    NbError::WouldBlock
}

} // verus!
