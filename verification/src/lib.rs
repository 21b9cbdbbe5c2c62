//! A minimal chain core: an account ledger with a conserved total issuance,
//! and a claim registry with owner-only revocation.
//!
//! The state-transition functions (`mint_unsafe`, `transfer`, `create_claim`,
//! `revoke_claim`) are dispatched against an in-memory key-value store held in
//! [`runtime::Runtime`]; every operation either commits its whole effect or
//! fails with a typed error and leaves the state untouched.

pub mod balance_map;
pub mod claim_map;
pub mod claims;
pub mod ledger;
pub mod runtime;
pub mod system;
