//! The claim registry: ownership registration over content identifiers.
//!
//! `create_claim` binds a free identifier to the caller at the current
//! height; `revoke_claim` deletes it, and only for the recorded owner.
//! A claim is never mutated in place and there is no transfer of ownership.

use crate::claim_map::ClaimId;
use crate::runtime::{Runtime, RuntimeEvent};
use crate::system::{ensure_signed, AccountId, BlockNumber, DispatchError, DispatchResult, Origin};
use vstd::prelude::*;

verus! {

/// Why a registry call failed.
#[derive(Clone, Copy, PartialEq, Eq, Structural, Debug)]
pub enum Error {
    /// The claim already exists.
    AlreadyClaimed,
    /// The claim does not exist, so it cannot be revoked.
    NoSuchClaim,
    /// The claim is owned by another account, so the caller cannot revoke it.
    NotClaimOwner,
}

/// A registry event, deposited only after a successful mutation.
#[derive(Clone, Copy, PartialEq, Eq, Structural, Debug)]
pub enum Event {
    /// A claim has been created.
    ClaimCreated { who: AccountId, claim: ClaimId },
    /// A claim was revoked by its owner.
    ClaimRevoked { who: AccountId, claim: ClaimId },
}

/// Whether a claim on `claim` can be registered: the identifier must be free.
pub open spec fn create_allowed(registered: Map<ClaimId, (u64, u64)>, claim: ClaimId) -> bool {
    !registered.dom().contains(claim)
}

/// The dispatchable operations of the claim registry.
pub struct Pallet;

impl Pallet {
    /// Register `claim` for the signed caller at the current height.
    ///
    /// An identifier that is already registered — by anyone, the caller
    /// included — is refused with `AlreadyClaimed` and nothing changes.
    pub fn create_claim(rt: &mut Runtime, origin: Origin, claim: ClaimId) -> (r: DispatchResult)
        requires
            old(rt).claims.wf(),
        ensures
            final(rt).claims.wf(),
            r is Err ==> *final(rt) == *old(rt),
            final(rt).balances == old(rt).balances,
            final(rt).total_issuance == old(rt).total_issuance,
            final(rt).block_number == old(rt).block_number,
            old(rt).inv() ==> final(rt).inv(),
            match origin {
                Origin::Signed(who) => {
                    &&& (!create_allowed(old(rt).claims@, claim) ==> r == Err::<(), DispatchError>(
                        DispatchError::Claims(Error::AlreadyClaimed),
                    ))
                    &&& (create_allowed(old(rt).claims@, claim) ==> {
                        &&& r == Ok::<(), DispatchError>(())
                        &&& final(rt).claims@ == old(rt).claims@.insert(
                            claim,
                            (who, old(rt).block_number),
                        )
                        &&& final(rt).events@ == old(rt).events@.push(
                            RuntimeEvent::Claims(Event::ClaimCreated { who, claim }),
                        )
                    })
                },
                _ => r == Err::<(), DispatchError>(DispatchError::BadOrigin),
            },
    {
        let sender = match ensure_signed(origin) {
            Ok(who) => who,
            Err(e) => {
                return Err(e);
            },
        };
        if rt.claims.contains_key(claim) {
            return Err(DispatchError::Claims(Error::AlreadyClaimed));
        }
        let current_block = rt.block_number;
        rt.claims.insert(claim, (sender, current_block));
        rt.events.push(RuntimeEvent::Claims(Event::ClaimCreated { who: sender, claim }));
        Ok(())
    }

    /// Remove `claim` from the registry, for its recorded owner only.
    ///
    /// An unregistered identifier fails with `NoSuchClaim`; a caller other
    /// than the recorded owner fails with `NotClaimOwner`; either way the
    /// registry keeps the claim exactly as it was.
    pub fn revoke_claim(rt: &mut Runtime, origin: Origin, claim: ClaimId) -> (r: DispatchResult)
        requires
            old(rt).claims.wf(),
        ensures
            final(rt).claims.wf(),
            r is Err ==> *final(rt) == *old(rt),
            final(rt).balances == old(rt).balances,
            final(rt).total_issuance == old(rt).total_issuance,
            final(rt).block_number == old(rt).block_number,
            old(rt).inv() ==> final(rt).inv(),
            match origin {
                Origin::Signed(who) => {
                    let cm = old(rt).claims@;
                    &&& (!cm.dom().contains(claim) ==> r == Err::<(), DispatchError>(
                        DispatchError::Claims(Error::NoSuchClaim),
                    ))
                    &&& (cm.dom().contains(claim) && cm[claim].0 != who ==> r == Err::<
                        (),
                        DispatchError,
                    >(DispatchError::Claims(Error::NotClaimOwner)))
                    &&& (cm.dom().contains(claim) && cm[claim].0 == who ==> {
                        &&& r == Ok::<(), DispatchError>(())
                        &&& final(rt).claims@ == cm.remove(claim)
                        &&& final(rt).events@ == old(rt).events@.push(
                            RuntimeEvent::Claims(Event::ClaimRevoked { who, claim }),
                        )
                    })
                },
                _ => r == Err::<(), DispatchError>(DispatchError::BadOrigin),
            },
    {
        let sender = match ensure_signed(origin) {
            Ok(who) => who,
            Err(e) => {
                return Err(e);
            },
        };
        let owner = match rt.claims.get(claim) {
            Some(entry) => entry.0,
            None => {
                return Err(DispatchError::Claims(Error::NoSuchClaim));
            },
        };
        if sender != owner {
            return Err(DispatchError::Claims(Error::NotClaimOwner));
        }
        rt.claims.remove(claim);
        rt.events.push(RuntimeEvent::Claims(Event::ClaimRevoked { who: sender, claim }));
        Ok(())
    }
}

/// Claim uniqueness: once `claim` is registered, registering it again is
/// refused — whoever asks — until a successful revocation frees the
/// identifier, after which it can be claimed once more.
pub proof fn lemma_claim_uniqueness(
    registered: Map<ClaimId, (u64, u64)>,
    claim: ClaimId,
    owner: AccountId,
    height: BlockNumber,
)
    ensures
        !create_allowed(registered.insert(claim, (owner, height)), claim),
        create_allowed(registered.insert(claim, (owner, height)).remove(claim), claim),
{
}

} // verus!
