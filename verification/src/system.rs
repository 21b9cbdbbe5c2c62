//! Call provenance and the shared dispatch result type.
//!
//! The authorization gate in front of the core turns an inbound request into
//! an [`Origin`]; [`ensure_signed`] is the check every dispatchable applies
//! before touching state.

use crate::claims;
use crate::ledger;
use vstd::prelude::*;

verus! {

/// An account identity: an opaque comparable key.
pub type AccountId = u64;

/// The execution environment's monotonic height counter.
pub type BlockNumber = u64;

/// The provenance of a call, as established before the core runs.
#[derive(Clone, Copy, PartialEq, Eq, Structural, Debug)]
pub enum Origin {
    /// A call signed by the given account.
    Signed(AccountId),
    /// A call made with the runtime's root authority.
    Root,
    /// A call with no authenticated sender.
    Unsigned,
}

/// Why a dispatched call failed.
#[derive(Clone, Copy, PartialEq, Eq, Structural, Debug)]
pub enum DispatchError {
    /// The call required a signed origin and had none.
    BadOrigin,
    /// A failure of the account ledger.
    Ledger(ledger::Error),
    /// A failure of the claim registry.
    Claims(claims::Error),
}

/// What a dispatched call returns: success, or a typed, recoverable error.
pub type DispatchResult = Result<(), DispatchError>;

/// The caller's identity when `origin` is signed; any other origin is rejected.
pub fn ensure_signed(origin: Origin) -> (r: Result<AccountId, DispatchError>)
    ensures
        match origin {
            Origin::Signed(who) => r == Ok::<AccountId, DispatchError>(who),
            _ => r == Err::<AccountId, DispatchError>(DispatchError::BadOrigin),
        },
{
    match origin {
        Origin::Signed(who) => Ok(who),
        _ => Err(DispatchError::BadOrigin),
    }
}

} // verus!
