use tenk::error::MintError;
use tenk::pending::PendingClaims;
use tenk::whitelist::Whitelist;

#[test]
fn list_holds_each_account_once() {
    let mut list = Whitelist::new();
    let alice = "alice".to_string();
    let bob = "bob".to_string();
    assert!(!list.contains_key(&alice));
    assert_eq!(list.get(&alice), None);
    assert_eq!(list.insert(alice.clone(), false), None);
    assert!(list.contains_key(&alice));
    assert!(!list.contains_key(&bob));
    assert_eq!(list.get(&alice), Some(false));
    assert_eq!(list.insert(bob.clone(), true), None);
    assert_eq!(list.insert(alice.clone(), true), Some(false));
    assert_eq!(list.get(&alice), Some(true));
    assert_eq!(list.get(&bob), Some(true));
    assert_eq!(list.insert(alice.clone(), true), Some(true));
    assert_eq!(list.get(&alice), Some(true));
    assert_eq!(list.insert(bob.clone(), false), Some(true));
    assert_eq!(list.get(&bob), Some(false));
    assert_eq!(list.get(&alice), Some(true));
    assert!(!list.contains_key(&"".to_string()));
    assert!(!list.contains_key(&"alic".to_string()));
}

#[test]
fn handles_count_up_and_close_once() {
    let mut claims = PendingClaims::new();
    assert_eq!(claims.len(), 0);
    assert!(claims.can_reserve());
    assert_eq!(claims.reserve(), 0);
    assert_eq!(claims.reserve(), 1);
    assert_eq!(claims.reserve(), 2);
    assert_eq!(claims.len(), 3);
    assert!(claims.is_open(1));
    assert!(!claims.is_open(3));
    assert_eq!(claims.release(0), Ok(()));
    assert_eq!(claims.len(), 2);
    assert!(!claims.is_open(0));
    assert!(claims.is_open(1));
    assert!(claims.is_open(2));
    assert_eq!(claims.release(0), Err(MintError::UnknownReservation));
    assert_eq!(claims.release(9), Err(MintError::UnknownReservation));
    assert_eq!(claims.len(), 2);
    assert_eq!(claims.reserve(), 3);
    assert_eq!(claims.release(2), Ok(()));
    assert_eq!(claims.release(3), Ok(()));
    assert_eq!(claims.release(1), Ok(()));
    assert_eq!(claims.len(), 0);
    assert_eq!(claims.reserve(), 4);
}

#[test]
fn every_kind_has_its_reason() {
    let all = [
        (MintError::PoolExhausted, "Nothing left to draw"),
        (
            MintError::InvalidResize,
            "New size is below what is already taken",
        ),
        (MintError::NotAllowListed, "Account is not in whitelist"),
        (
            MintError::PerAccountLimitExceeded,
            "cant mint more than 2 nfts",
        ),
        (
            MintError::RestrictedCapExceeded,
            "cant mint more than 1500 nfts during premint",
        ),
        (MintError::SaleNotOpen, "Premint period must be over"),
        (MintError::SaleUnavailable, "Minting is not available"),
        (
            MintError::InsufficientFunds,
            "Not enough attached deposit to buy",
        ),
        (MintError::InsufficientSupply, "No NFTs left to mint"),
        (
            MintError::AlreadyInitialized,
            "The contract has already been initialized",
        ),
        (MintError::AlreadyStarted, "premint has already started"),
        (MintError::AlreadyFinished, "premint has already been done"),
        (
            MintError::UnknownReservation,
            "Promise before Linkdrop callback failed",
        ),
        (MintError::NotOwner, "Method is private to owner"),
    ];
    for (kind, text) in all {
        assert_eq!(kind.reason(), text);
    }
}
