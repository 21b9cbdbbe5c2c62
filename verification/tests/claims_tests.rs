use minimal_template::claim_map::ClaimId;
use minimal_template::claims::{Error, Event, Pallet};
use minimal_template::runtime::{Runtime, RuntimeEvent};
use minimal_template::system::{DispatchError, Origin};

const ALICE: u64 = 1;
const BOB: u64 = 2;

#[test]
fn claim_lifecycle() {
    let mut rt = Runtime::new_empty();
    rt.set_block_number(1);
    let hash = ClaimId::from_u64(0xc0ffee);

    // create_claim(H) by A succeeds.
    assert!(Pallet::create_claim(&mut rt, Origin::Signed(ALICE), hash).is_ok());
    assert_eq!(rt.claims.get(hash), Some((ALICE, 1)));

    // revoke_claim(H) by B fails NotClaimOwner and leaves the claim intact.
    assert_eq!(
        Pallet::revoke_claim(&mut rt, Origin::Signed(BOB), hash),
        Err(DispatchError::Claims(Error::NotClaimOwner))
    );
    assert_eq!(rt.claims.get(hash), Some((ALICE, 1)));

    // revoke_claim(H) by A succeeds; the claim is absent.
    assert!(Pallet::revoke_claim(&mut rt, Origin::Signed(ALICE), hash).is_ok());
    assert_eq!(rt.claims.get(hash), None);

    // revoke_claim(H) by A again fails NoSuchClaim.
    assert_eq!(
        Pallet::revoke_claim(&mut rt, Origin::Signed(ALICE), hash),
        Err(DispatchError::Claims(Error::NoSuchClaim))
    );
}

#[test]
fn create_claim_rejects_duplicates() {
    let mut rt = Runtime::new_empty();
    let hash = ClaimId::from_u64(42);

    assert!(Pallet::create_claim(&mut rt, Origin::Signed(ALICE), hash).is_ok());

    // A second registration fails with AlreadyClaimed, whoever asks.
    assert_eq!(
        Pallet::create_claim(&mut rt, Origin::Signed(BOB), hash),
        Err(DispatchError::Claims(Error::AlreadyClaimed))
    );
    assert_eq!(
        Pallet::create_claim(&mut rt, Origin::Signed(ALICE), hash),
        Err(DispatchError::Claims(Error::AlreadyClaimed))
    );
    // The first registration is untouched.
    assert_eq!(rt.claims.get(hash), Some((ALICE, 0)));

    // Once revoked, the identifier can be claimed again.
    assert!(Pallet::revoke_claim(&mut rt, Origin::Signed(ALICE), hash).is_ok());
    assert!(Pallet::create_claim(&mut rt, Origin::Signed(BOB), hash).is_ok());
    assert_eq!(rt.claims.get(hash), Some((BOB, 0)));
}

#[test]
fn create_claim_records_current_height() {
    let mut rt = Runtime::new_empty();
    rt.set_block_number(9);
    let hash = ClaimId {
        w0: 1,
        w1: 2,
        w2: 3,
        w3: 4,
    };

    assert!(Pallet::create_claim(&mut rt, Origin::Signed(BOB), hash).is_ok());
    assert_eq!(rt.claims.get(hash), Some((BOB, 9)));
}

#[test]
fn claim_events_are_deposited_in_order() {
    let mut rt = Runtime::new_empty();
    let hash = ClaimId::from_u64(7);

    assert!(Pallet::create_claim(&mut rt, Origin::Signed(ALICE), hash).is_ok());
    assert!(Pallet::revoke_claim(&mut rt, Origin::Signed(ALICE), hash).is_ok());

    assert_eq!(
        rt.events,
        vec![
            RuntimeEvent::Claims(Event::ClaimCreated {
                who: ALICE,
                claim: hash
            }),
            RuntimeEvent::Claims(Event::ClaimRevoked {
                who: ALICE,
                claim: hash
            }),
        ]
    );
}

#[test]
fn failing_claim_calls_deposit_no_events() {
    let mut rt = Runtime::new_empty();
    let hash = ClaimId::from_u64(5);

    assert!(Pallet::create_claim(&mut rt, Origin::Signed(ALICE), hash).is_ok());
    let deposited = rt.events.clone();

    assert!(Pallet::create_claim(&mut rt, Origin::Signed(BOB), hash).is_err());
    assert!(Pallet::revoke_claim(&mut rt, Origin::Signed(BOB), hash).is_err());
    assert!(Pallet::revoke_claim(&mut rt, Origin::Signed(BOB), ClaimId::from_u64(6)).is_err());

    assert_eq!(rt.events, deposited);
    assert_eq!(rt.claims.get(hash), Some((ALICE, 0)));
}

#[test]
fn claim_calls_require_a_signed_origin() {
    let mut rt = Runtime::new_empty();
    let hash = ClaimId::from_u64(11);

    assert_eq!(
        Pallet::create_claim(&mut rt, Origin::Root, hash),
        Err(DispatchError::BadOrigin)
    );
    assert_eq!(
        Pallet::create_claim(&mut rt, Origin::Unsigned, hash),
        Err(DispatchError::BadOrigin)
    );
    assert_eq!(rt.claims.get(hash), None);

    assert!(Pallet::create_claim(&mut rt, Origin::Signed(ALICE), hash).is_ok());
    assert_eq!(
        Pallet::revoke_claim(&mut rt, Origin::Root, hash),
        Err(DispatchError::BadOrigin)
    );
    assert_eq!(rt.claims.get(hash), Some((ALICE, 0)));
}
