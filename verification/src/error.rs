//! The closed set of error kinds surfaced to the caller.

use vstd::prelude::*;

verus! {

/// Everything an execute or query call can fail with.
#[derive(Clone, Copy, PartialEq, Eq, Structural, Debug)]
pub enum ContractError {
    /// A mutator was called by a sender other than the admin.
    NotAdmin {},
    /// AddBalance for an (account, asset) pair already in the registry.
    BalanceInfoExists {},
    /// UpdateBalance for an asset absent from an existing mapping.
    BalanceInfoNotExist {},
    /// UpdateBalance for an account with no mapping at all.
    BalanceMappingNotExist {},
    /// QueryBalanceMapping for an account with no mapping.
    NotFound {},
    /// UpdateBalance with none of the optional fields supplied.
    NothingToUpdate {},
    /// A balance probe against the oracle snapshot failed; the whole
    /// query is rejected.
    BalanceQueryFailed {},
}

} // verus!
