//! The account ledger: balances and the conserved total issuance.
//!
//! `mint_unsafe` credits an account and raises the issuance by the same
//! amount; `transfer` moves a balance between accounts with checked
//! subtraction and leaves the issuance alone. Every reachable state keeps
//! the sum of all balances equal to the recorded issuance
//! ([`crate::runtime::Runtime::inv`]).

use crate::balance_map::val_or_zero;
use crate::runtime::{Runtime, RuntimeEvent};
use crate::system::{ensure_signed, AccountId, DispatchError, DispatchResult, Origin};
use vstd::prelude::*;

verus! {

/// The unit of account: an unsigned fixed-width amount.
pub type Balance = u128;

/// Why a ledger call failed.
#[derive(Clone, Copy, PartialEq, Eq, Structural, Debug)]
pub enum Error {
    /// The transfer source has no balance entry.
    NonExistentAccount,
    /// Checked subtraction of the amount would underflow.
    InsufficientBalance,
}

/// A ledger event, deposited only after a successful mutation.
#[derive(Clone, Copy, PartialEq, Eq, Structural, Debug)]
pub enum Event {
    /// A transfer succeeded.
    Transferred { from: AccountId, to: AccountId, amount: Balance },
}

/// The dispatchable operations of the account ledger.
pub struct Pallet;

impl Pallet {
    /// An unsafe mint that any signed caller may invoke: credit `dest` by
    /// `amount` and raise the total issuance by the same amount.
    ///
    /// The permissive access — "caller is signed" and nothing more — is the
    /// operation's documented, intentional behaviour; it is kept separate
    /// from `transfer` so it can be gated independently.
    pub fn mint_unsafe(rt: &mut Runtime, origin: Origin, dest: AccountId, amount: Balance) -> (r:
        DispatchResult)
        requires
            old(rt).inv(),
            origin is Signed ==> old(rt).issuance_or_zero() + amount <= u128::MAX,
        ensures
            final(rt).inv(),
            r is Err ==> *final(rt) == *old(rt),
            match origin {
                Origin::Signed(_) => {
                    &&& r == Ok::<(), DispatchError>(())
                    &&& final(rt).balances@ == old(rt).balances@.insert(
                        dest,
                        (val_or_zero(old(rt).balances@, dest) + amount) as u128,
                    )
                    &&& final(rt).total_issuance == Some(
                        (old(rt).issuance_or_zero() + amount) as u128,
                    )
                    &&& final(rt).events == old(rt).events
                    &&& final(rt).claims == old(rt).claims
                    &&& final(rt).block_number == old(rt).block_number
                },
                _ => r == Err::<(), DispatchError>(DispatchError::BadOrigin),
            },
    {
        let _anyone = match ensure_signed(origin) {
            Ok(who) => who,
            Err(e) => {
                return Err(e);
            },
        };
        let prior = match rt.balances.get(dest) {
            Some(b) => b,
            None => 0,
        };
        proof {
            if old(rt).balances@.dom().contains(dest) {
                old(rt).balances.lemma_value_le_sum(dest);
            }
        }
        rt.balances.insert(dest, prior + amount);
        let issued = match rt.total_issuance {
            Some(t) => t,
            None => 0,
        };
        rt.total_issuance = Some(issued + amount);
        Ok(())
    }

    /// Transfer `amount` from the signed sender to `dest`.
    ///
    /// The sender must have a balance entry; the debit uses checked
    /// subtraction, so any amount above the sender's balance is rejected as
    /// `InsufficientBalance` with no mutation at all. On success the sender
    /// is debited first and `dest` credited second (a self-transfer thus
    /// leaves the balance as it was), an entry is created for `dest` if it
    /// had none, the total issuance is unchanged, and a `Transferred` event
    /// is deposited.
    pub fn transfer(rt: &mut Runtime, origin: Origin, dest: AccountId, amount: Balance) -> (r:
        DispatchResult)
        requires
            old(rt).inv(),
        ensures
            final(rt).inv(),
            r is Err ==> *final(rt) == *old(rt),
            match origin {
                Origin::Signed(sender) => {
                    let m = old(rt).balances@;
                    &&& (!m.dom().contains(sender) ==> r == Err::<(), DispatchError>(
                        DispatchError::Ledger(Error::NonExistentAccount),
                    ))
                    &&& (m.dom().contains(sender) && amount > m[sender] ==> r == Err::<
                        (),
                        DispatchError,
                    >(DispatchError::Ledger(Error::InsufficientBalance)))
                    &&& (m.dom().contains(sender) && amount <= m[sender] ==> {
                        let debited = m.insert(sender, (m[sender] - amount) as u128);
                        &&& r == Ok::<(), DispatchError>(())
                        &&& val_or_zero(debited, dest) + amount <= u128::MAX
                        &&& final(rt).balances@ == debited.insert(
                            dest,
                            (val_or_zero(debited, dest) + amount) as u128,
                        )
                        &&& final(rt).total_issuance == old(rt).total_issuance
                        &&& final(rt).events@ == old(rt).events@.push(
                            RuntimeEvent::Ledger(
                                Event::Transferred { from: sender, to: dest, amount },
                            ),
                        )
                        &&& final(rt).claims == old(rt).claims
                        &&& final(rt).block_number == old(rt).block_number
                    })
                },
                _ => r == Err::<(), DispatchError>(DispatchError::BadOrigin),
            },
    {
        let sender = match ensure_signed(origin) {
            Ok(who) => who,
            Err(e) => {
                return Err(e);
            },
        };
        let sender_balance = match rt.balances.get(sender) {
            Some(b) => b,
            None => {
                return Err(DispatchError::Ledger(Error::NonExistentAccount));
            },
        };
        let remainder = match sender_balance.checked_sub(amount) {
            Some(rem) => rem,
            None => {
                return Err(DispatchError::Ledger(Error::InsufficientBalance));
            },
        };
        proof {
            old(rt).balances.lemma_value_le_sum(sender);
        }
        rt.balances.insert(sender, remainder);
        let prior = match rt.balances.get(dest) {
            Some(b) => b,
            None => 0,
        };
        proof {
            if rt.balances@.dom().contains(dest) {
                rt.balances.lemma_value_le_sum(dest);
            }
        }
        rt.balances.insert(dest, prior + amount);
        rt.events.push(RuntimeEvent::Ledger(Event::Transferred { from: sender, to: dest, amount }));
        Ok(())
    }
}

} // verus!
