//! Failure kinds surfaced by the store and by configuration parsing.

use vstd::prelude::*;

verus! {

/// Outcome of a store operation that did not complete as a plain success.
///
/// `AlreadyExists` is the distinguished duplicate-key outcome of
/// `insert_msg`; callers replaying history treat it as success.
/// `NotFound` is the routine miss of a point lookup.
/// `Malformed` reports an edit record whose stored sequences could not be
/// decoded; such a record is abandoned rather than corrupted further.
#[derive(Clone, Copy, Debug, PartialEq, Eq, Structural)]
pub enum StoreError {
    AlreadyExists,
    NotFound,
    Malformed,
}

/// Rejections raised while parsing a tracked-channel specifier.
#[derive(Clone, Copy, Debug, PartialEq, Eq, Structural)]
pub enum ConfigError {
    InvalidGuildFormat,
    InvalidChannelFormat,
}

} // verus!
