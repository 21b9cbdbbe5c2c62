use minimal_template::balance_map::BalanceMap;
use minimal_template::claim_map::{ClaimId, ClaimMap};
use minimal_template::claims;
use minimal_template::ledger::{Error, Event, Pallet};
use minimal_template::runtime::{native_version, Runtime, RuntimeEvent};
use minimal_template::system::{ensure_signed, DispatchError, Origin};

const ALICE: u64 = 1;
const BOB: u64 = 2;
const CHARLIE: u64 = 3;

#[test]
fn mint_and_transfer_scenario() {
    let mut rt = Runtime::new_empty();

    assert!(Pallet::mint_unsafe(&mut rt, Origin::Signed(ALICE), ALICE, 100).is_ok());
    assert_eq!(rt.balances.get(ALICE), Some(100));
    assert_eq!(rt.total_issuance, Some(100));

    assert!(Pallet::transfer(&mut rt, Origin::Signed(ALICE), BOB, 50).is_ok());
    assert_eq!(rt.balances.get(ALICE), Some(50));
    assert_eq!(rt.balances.get(BOB), Some(50));
    assert_eq!(rt.total_issuance, Some(100));

    assert_eq!(
        Pallet::transfer(&mut rt, Origin::Signed(BOB), ALICE, 51),
        Err(DispatchError::Ledger(Error::InsufficientBalance))
    );
    assert_eq!(rt.balances.get(ALICE), Some(50));
    assert_eq!(rt.balances.get(BOB), Some(50));
    assert_eq!(rt.total_issuance, Some(100));

    assert_eq!(
        Pallet::transfer(&mut rt, Origin::Signed(CHARLIE), ALICE, 10),
        Err(DispatchError::Ledger(Error::NonExistentAccount))
    );
    assert_eq!(rt.sum_of_balances(), 100);
}

#[test]
fn new_empty_state_has_nothing() {
    let mut rt = Runtime::new_empty();
    assert_eq!(rt.block_number, 0);
    assert_eq!(rt.events, vec![]);
    assert_eq!(rt.total_issuance, None);
    assert_eq!(rt.balances.get(ALICE), None);
    assert_eq!(rt.sum_of_balances(), 0);
    assert_eq!(rt.claims.get(ClaimId::from_u64(1)), None);
}

#[test]
fn set_block_number_changes_only_the_height() {
    let mut rt = Runtime::new_empty();
    assert!(Pallet::mint_unsafe(&mut rt, Origin::Signed(ALICE), ALICE, 10).is_ok());
    rt.set_block_number(7);
    assert_eq!(rt.block_number, 7);
    assert_eq!(rt.balances.get(ALICE), Some(10));
    assert_eq!(rt.total_issuance, Some(10));
}

#[test]
fn transfer_boundary_is_exact() {
    // amount == balance succeeds, with remainder 0.
    let mut rt = Runtime::new_empty();
    assert!(Pallet::mint_unsafe(&mut rt, Origin::Signed(ALICE), ALICE, 100).is_ok());
    assert!(Pallet::transfer(&mut rt, Origin::Signed(ALICE), BOB, 100).is_ok());
    assert_eq!(rt.balances.get(ALICE), Some(0));
    assert_eq!(rt.balances.get(BOB), Some(100));
    assert_eq!(rt.total_issuance, Some(100));

    // amount == balance + 1 fails, and nothing changes.
    let mut rt2 = Runtime::new_empty();
    assert!(Pallet::mint_unsafe(&mut rt2, Origin::Signed(ALICE), ALICE, 100).is_ok());
    assert_eq!(
        Pallet::transfer(&mut rt2, Origin::Signed(ALICE), BOB, 101),
        Err(DispatchError::Ledger(Error::InsufficientBalance))
    );
    assert_eq!(rt2.balances.get(ALICE), Some(100));
    assert_eq!(rt2.balances.get(BOB), None);
    assert_eq!(rt2.total_issuance, Some(100));
    assert_eq!(rt2.events, vec![]);
}

#[test]
fn transfer_to_self_conserves_the_balance() {
    let mut rt = Runtime::new_empty();
    assert!(Pallet::mint_unsafe(&mut rt, Origin::Signed(ALICE), ALICE, 100).is_ok());
    assert!(Pallet::transfer(&mut rt, Origin::Signed(ALICE), ALICE, 30).is_ok());
    assert_eq!(rt.balances.get(ALICE), Some(100));
    assert_eq!(rt.total_issuance, Some(100));
    assert_eq!(rt.sum_of_balances(), 100);
}

#[test]
fn ledger_calls_require_a_signed_origin() {
    let mut rt = Runtime::new_empty();
    assert_eq!(
        Pallet::mint_unsafe(&mut rt, Origin::Root, ALICE, 10),
        Err(DispatchError::BadOrigin)
    );
    assert_eq!(
        Pallet::mint_unsafe(&mut rt, Origin::Unsigned, ALICE, 10),
        Err(DispatchError::BadOrigin)
    );
    assert_eq!(
        Pallet::transfer(&mut rt, Origin::Root, ALICE, 10),
        Err(DispatchError::BadOrigin)
    );
    assert_eq!(rt.total_issuance, None);
    assert_eq!(rt.balances.get(ALICE), None);

    assert_eq!(ensure_signed(Origin::Signed(BOB)), Ok(BOB));
    assert_eq!(
        ensure_signed(Origin::Unsigned),
        Err(DispatchError::BadOrigin)
    );
}

#[test]
fn ledger_events_filters_the_log() {
    let mut rt = Runtime::new_empty();
    assert!(Pallet::mint_unsafe(&mut rt, Origin::Signed(ALICE), ALICE, 100).is_ok());
    assert!(claims::Pallet::create_claim(&mut rt, Origin::Signed(ALICE), ClaimId::from_u64(3)).is_ok());
    assert!(Pallet::transfer(&mut rt, Origin::Signed(ALICE), BOB, 40).is_ok());

    // The full log holds the claim event and the transfer; the mint
    // deposited nothing.
    assert_eq!(rt.events.len(), 2);
    assert_eq!(
        rt.events[0],
        RuntimeEvent::Claims(claims::Event::ClaimCreated {
            who: ALICE,
            claim: ClaimId::from_u64(3)
        })
    );
    assert_eq!(
        rt.ledger_events(),
        vec![Event::Transferred {
            from: ALICE,
            to: BOB,
            amount: 40
        }]
    );
}

#[test]
fn balance_map_insert_overwrites() {
    let mut m = BalanceMap::new();
    assert!(!m.contains_key(ALICE));
    m.insert(ALICE, 5);
    m.insert(ALICE, 7);
    m.insert(BOB, 1);
    assert_eq!(m.get(ALICE), Some(7));
    assert_eq!(m.get(BOB), Some(1));
    assert!(m.contains_key(ALICE));
    assert_eq!(m.sum_values(), 8);
}

#[test]
fn claim_map_remove_is_exact() {
    let mut m = ClaimMap::new();
    let a = ClaimId::from_u64(1);
    let b = ClaimId::from_u64(2);
    let c = ClaimId::from_u64(3);
    m.insert(a, (ALICE, 1));
    m.insert(b, (BOB, 2));
    m.insert(c, (ALICE, 3));

    // removing a missing key changes nothing
    m.remove(ClaimId::from_u64(9));
    assert_eq!(m.get(a), Some((ALICE, 1)));

    // removing a middle entry keeps the others
    m.remove(a);
    assert_eq!(m.get(a), None);
    assert_eq!(m.get(b), Some((BOB, 2)));
    assert_eq!(m.get(c), Some((ALICE, 3)));
    assert!(!m.contains_key(a));
}

#[test]
fn native_version_is_pinned() {
    let v = native_version();
    assert_eq!(v.runtime_version.authoring_version, 1);
    assert_eq!(v.runtime_version.spec_version, 2);
    assert_eq!(v.runtime_version.impl_version, 1);
    assert_eq!(v.runtime_version.transaction_version, 1);
    assert_eq!(v.runtime_version.state_version, 1);
}
