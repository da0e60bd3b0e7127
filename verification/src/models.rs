//! Small shared record-keeping types.

use vstd::prelude::*;

verus! {

/// The result of a find-or-create operation: the record, and whether this
/// call created it.
pub struct UpsertResult<T> {
    pub record: T,
    pub created: bool,
}

} // verus!
