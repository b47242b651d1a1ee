use tenk::contract::Contract;
use tenk::error::MintError;
use tenk::model::Context;
use tenk::model::LinkdropRequest;
use tenk::model::Refund;
use tenk::model::Token;
use tenk::model::GAS_REQUIRED_FOR_LINKDROP;
use tenk::model::GAS_REQUIRED_TO_CREATE_LINKDROP;

fn ctx(signer: &str, attached_deposit: u128) -> Context {
    Context {
        signer: signer.to_string(),
        attached_deposit,
        random: 0,
        tokens_held: 0,
        total_supply: 0,
    }
}

fn sale(size: u32, sale_enabled: bool) -> Contract {
    Contract::new(
        "root".to_string(),
        size,
        10,
        1,
        4,
        0,
        2,
        100,
        sale_enabled,
        false,
        true,
    )
}

#[test]
fn gas_budgets_are_forty_and_twenty_tgas() {
    assert_eq!(GAS_REQUIRED_FOR_LINKDROP, 40_000_000_000_000);
    assert_eq!(GAS_REQUIRED_TO_CREATE_LINKDROP, 20_000_000_000_000);
}

#[test]
fn claim_holds_a_token_back_at_once() {
    let mut c = sale(3, true);
    assert_eq!(c.cost_of_linkdrop(), 112);
    let request = c.create_linkdrop(&ctx("alice", 112), vec![7, 8, 9]).unwrap();
    assert_eq!(
        request,
        LinkdropRequest {
            handle: 0,
            public_key: vec![7, 8, 9],
            deposit: 112,
            gas: 40_000_000_000_000,
            callback_gas: 20_000_000_000_000,
        }
    );
    assert_eq!(c.tokens_left(), 2);
    assert_eq!(c.pool_len(), 3);
    assert_eq!(c.pending_tokens(), 1);
    assert!(c.is_pending(0));
    assert!(!c.is_pending(1));
    assert!(c.can_create_linkdrop());
}

#[test]
fn failed_registration_gives_the_token_and_the_funds_back() {
    let mut c = sale(3, true);
    let request = c.create_linkdrop(&ctx("alice", 150), vec![1]).unwrap();
    assert_eq!(c.tokens_left(), 2);
    let answer = ctx("alice", 150);
    assert_eq!(
        c.on_send_with_callback(&answer, request.handle, false),
        Ok(Some(Refund {
            account: "alice".to_string(),
            amount: 150
        }))
    );
    assert_eq!(c.tokens_left(), 3);
    assert_eq!(c.pool_len(), 3);
    assert_eq!(c.drawn_count(), 0);
    assert_eq!(c.pending_tokens(), 0);
    assert!(!c.is_pending(request.handle));
}

#[test]
fn failed_registration_with_nothing_attached_sends_nothing() {
    let mut c = sale(3, true);
    let request = c.create_linkdrop(&ctx("root", 0), vec![1]).unwrap();
    assert_eq!(
        c.on_send_with_callback(&ctx("root", 0), request.handle, false),
        Ok(None)
    );
    assert_eq!(c.tokens_left(), 3);
}

#[test]
fn successful_registration_keeps_the_claim_open() {
    let mut c = sale(3, true);
    let request = c.create_linkdrop(&ctx("alice", 150), vec![1]).unwrap();
    assert_eq!(
        c.on_send_with_callback(&ctx("alice", 150), request.handle, true),
        Ok(None)
    );
    assert_eq!(c.tokens_left(), 2);
    assert!(c.is_pending(request.handle));
    // A success is taken as it comes, whatever the handle.
    assert_eq!(c.on_send_with_callback(&ctx("alice", 0), 77, true), Ok(None));
    assert_eq!(c.pending_tokens(), 1);
}

#[test]
fn used_key_issues_exactly_one_token() {
    let mut c = sale(3, true);
    let request = c.create_linkdrop(&ctx("alice", 150), vec![1]).unwrap();
    assert_eq!(c.tokens_left(), 2);
    let answer = Context {
        random: 4,
        ..ctx("bob", 0)
    };
    assert_eq!(
        c.link_callback(&answer, request.handle, true, "bob".to_string()),
        Ok(Token {
            token_id: 1,
            owner_id: "bob".to_string(),
            refund_to: Some("root".to_string()),
        })
    );
    assert_eq!(c.tokens_left(), 2);
    assert_eq!(c.pool_len(), 2);
    assert_eq!(c.drawn_count(), 1);
    assert_eq!(c.pending_tokens(), 0);
    // The claim is closed: nothing answers it a second time.
    assert_eq!(
        c.link_callback(&answer, request.handle, true, "bob".to_string()),
        Err(MintError::UnknownReservation)
    );
    assert_eq!(
        c.on_send_with_callback(&answer, request.handle, false),
        Err(MintError::UnknownReservation)
    );
    assert_eq!(c.tokens_left(), 2);
    assert_eq!(c.drawn_count(), 1);
}

#[test]
fn used_key_names_no_refund_account_while_the_sale_is_off() {
    let mut c = sale(3, false);
    let request = c.create_linkdrop(&ctx("root", 0), vec![1]).unwrap();
    assert_eq!(
        c.link_callback(&ctx("bob", 0), request.handle, true, "bob".to_string()),
        Ok(Token {
            token_id: 0,
            owner_id: "bob".to_string(),
            refund_to: None,
        })
    );
}

#[test]
fn answer_without_a_claim_is_refused() {
    let mut c = sale(3, true);
    assert_eq!(
        c.link_callback(&ctx("bob", 0), 0, true, "bob".to_string()),
        Err(MintError::UnknownReservation)
    );
    assert_eq!(
        c.on_send_with_callback(&ctx("bob", 5), 0, false),
        Err(MintError::UnknownReservation)
    );
    assert_eq!(c.tokens_left(), 3);
    assert_eq!(c.pending_tokens(), 0);
}

#[test]
fn use_of_a_key_after_a_failure_is_refused() {
    let mut c = sale(3, true);
    let request = c.create_linkdrop(&ctx("alice", 150), vec![1]).unwrap();
    assert_eq!(
        c.link_callback(&ctx("bob", 0), request.handle, false, "bob".to_string()),
        Err(MintError::UnknownReservation)
    );
    // The claim stays open.
    assert!(c.is_pending(request.handle));
    assert_eq!(c.tokens_left(), 2);
    assert_eq!(c.drawn_count(), 0);
}

#[test]
fn claim_needs_the_price_of_the_token_and_of_the_key() {
    let mut c = sale(3, true);
    assert_eq!(
        c.create_linkdrop(&ctx("alice", 111), vec![1]),
        Err(MintError::InsufficientFunds)
    );
    assert_eq!(
        c.create_linkdrop(&ctx("alice", 11), vec![1]),
        Err(MintError::InsufficientFunds)
    );
    assert_eq!(c.tokens_left(), 3);
    assert_eq!(c.pending_tokens(), 0);
    assert!(c.create_linkdrop(&ctx("alice", 112), vec![1]).is_ok());
    assert!(c.create_linkdrop(&ctx("root", 0), vec![1]).is_ok());
    assert_eq!(c.tokens_left(), 1);
}

#[test]
fn claim_is_refused_for_the_reasons_of_a_mint() {
    let mut off = sale(3, false);
    assert_eq!(
        off.create_linkdrop(&ctx("alice", 1_000), vec![1]),
        Err(MintError::SaleUnavailable)
    );
    let mut early = Contract::new(
        "root".to_string(),
        3,
        10,
        1,
        4,
        0,
        2,
        100,
        true,
        false,
        false,
    );
    assert_eq!(
        early.create_linkdrop(&ctx("alice", 1_000), vec![1]),
        Err(MintError::SaleNotOpen)
    );
    let mut premint = Contract::new(
        "root".to_string(),
        3,
        10,
        1,
        4,
        0,
        2,
        100,
        true,
        true,
        false,
    );
    let holder = Context {
        tokens_held: 2,
        ..ctx("alice", 1_000)
    };
    assert_eq!(
        premint.create_linkdrop(&holder, vec![1]),
        Err(MintError::PerAccountLimitExceeded)
    );
}

#[test]
fn claims_use_up_the_supply() {
    let mut c = sale(2, true);
    let owner = ctx("root", 0);
    let a = c.create_linkdrop(&owner, vec![1]).unwrap();
    let b = c.create_linkdrop(&owner, vec![2]).unwrap();
    assert_eq!(a.handle, 0);
    assert_eq!(b.handle, 1);
    assert_eq!(c.tokens_left(), 0);
    assert_eq!(
        c.create_linkdrop(&owner, vec![3]),
        Err(MintError::InsufficientSupply)
    );
    assert_eq!(
        c.nft_mint_many(&owner, 1),
        Err(MintError::InsufficientSupply)
    );
    // Open claims stand in the way of a smaller pool.
    assert_eq!(c.update_size(&owner, 1), Err(MintError::InvalidResize));
    assert_eq!(c.update_size(&owner, 2), Ok(()));
    assert_eq!(c.tokens_left(), 0);
    assert_eq!(c.on_send_with_callback(&owner, a.handle, false), Ok(None));
    assert_eq!(c.tokens_left(), 1);
    // A handle is never given out again.
    let d = c.create_linkdrop(&owner, vec![4]).unwrap();
    assert_eq!(d.handle, 2);
    assert!(!c.is_pending(a.handle));
    assert!(c.is_pending(b.handle));
    assert!(c.is_pending(d.handle));
}
