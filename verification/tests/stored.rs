use tenk::contract::Contract;
use tenk::contract::ContractParts;
use tenk::model::Context;
use tenk::model::Phase;
use tenk::model::GAS_REQUIRED_FOR_LINKDROP;
use tenk::model::GAS_REQUIRED_TO_CREATE_LINKDROP;
use tenk::pending::PendingClaims;
use tenk::pricing::Pricing;
use tenk::pricing::ONE_NEAR;
use tenk::raffle::Raffle;
use tenk::whitelist::Entry;
use tenk::whitelist::Whitelist;

fn ctx(signer: &str, attached_deposit: u128, random: u64) -> Context {
    Context {
        signer: signer.to_string(),
        attached_deposit,
        random,
        tokens_held: 0,
        total_supply: 0,
    }
}

fn pricing() -> Pricing {
    Pricing {
        base_cost: 10,
        min_cost: 1,
        after_sale_cost: 4,
        percent_off: 0,
        storage_cost: 2,
        link_price: 100,
    }
}

fn parts(slots: Vec<u32>, len: u32, open_claims: Vec<u64>, next_handle: u64) -> ContractParts {
    ContractParts {
        owner_id: "root".to_string(),
        slots,
        len,
        open_claims,
        next_handle,
        pricing: pricing(),
        whitelist: vec![],
        phase: Phase::Open,
        sale_enabled: true,
    }
}

#[test]
fn gas_constants_are_what_the_unit_names_say() {
    assert_eq!(
        near_units::gas::parse("40 Tgas").unwrap(),
        GAS_REQUIRED_FOR_LINKDROP as u128
    );
    assert_eq!(
        near_units::gas::parse("20 Tgas").unwrap(),
        GAS_REQUIRED_TO_CREATE_LINKDROP as u128
    );
    assert_eq!(near_units::near::parse("1 N").unwrap(), ONE_NEAR);
}

#[test]
fn pool_comes_back_as_it_was_stored() {
    let mut pool = Raffle::new(5);
    assert_eq!(pool.draw(7), Ok(2));
    assert_eq!(pool.draw(6), Ok(4));
    let (slots, len) = pool.into_parts();
    // Number 2 went to the end first, then number 4 in front of it.
    assert_eq!(slots, vec![0, 1, 3, 4, 2]);
    assert_eq!(len, 3);
    let mut again = Raffle::from_parts(slots, len).unwrap();
    assert_eq!(again.len(), 3);
    assert_eq!(again.drawn_count(), 2);
    assert_eq!(again.draw(3), Ok(0));
    assert_eq!(again.draw(0), Ok(3));
    assert_eq!(again.draw(0), Ok(1));
}

#[test]
fn slots_that_are_no_pool_are_refused() {
    assert!(Raffle::from_parts(vec![0, 1, 2], 3).is_some());
    assert!(Raffle::from_parts(vec![2, 0, 1], 0).is_some());
    assert!(Raffle::from_parts(vec![], 0).is_some());
    // A number stands twice.
    assert!(Raffle::from_parts(vec![0, 1, 1], 3).is_none());
    assert!(Raffle::from_parts(vec![1, 0, 1], 1).is_none());
    // A number is not below the count of slots.
    assert!(Raffle::from_parts(vec![0, 1, 3], 3).is_none());
    assert!(Raffle::from_parts(vec![u32::MAX], 1).is_none());
    // More numbers are said to be left than there are slots.
    assert!(Raffle::from_parts(vec![0, 1, 2], 4).is_none());
    assert!(Raffle::from_parts(vec![], 1).is_none());
}

#[test]
fn open_claims_come_back_as_they_were_stored() {
    let mut claims = PendingClaims::new();
    claims.reserve();
    claims.reserve();
    claims.reserve();
    assert_eq!(claims.release(1), Ok(()));
    let (open, next) = claims.into_parts();
    assert_eq!(next, 3);
    let mut sorted = open.clone();
    sorted.sort();
    assert_eq!(sorted, vec![0, 2]);
    let mut again = PendingClaims::from_parts(open, next).unwrap();
    assert_eq!(again.len(), 2);
    assert!(again.is_open(0));
    assert!(!again.is_open(1));
    assert!(again.is_open(2));
    assert_eq!(again.reserve(), 3);
}

#[test]
fn handles_that_are_no_open_claims_are_refused() {
    assert!(PendingClaims::from_parts(vec![], 0).is_some());
    assert!(PendingClaims::from_parts(vec![4, 0, 2], 5).is_some());
    assert!(PendingClaims::from_parts(vec![u64::MAX - 1], u64::MAX).is_some());
    // A handle stands twice.
    assert!(PendingClaims::from_parts(vec![4, 0, 4], 5).is_none());
    // A handle was not given out yet.
    assert!(PendingClaims::from_parts(vec![4, 0, 5], 5).is_none());
    assert!(PendingClaims::from_parts(vec![0], 0).is_none());
    assert!(!PendingClaims::from_parts(vec![], u64::MAX).unwrap().can_reserve());
}

#[test]
fn list_comes_back_with_one_entry_for_each_account() {
    let list = Whitelist::from_entries(vec![
        Entry {
            account: "alice".to_string(),
            claimed: false,
        },
        Entry {
            account: "bob".to_string(),
            claimed: true,
        },
        Entry {
            account: "alice".to_string(),
            claimed: true,
        },
    ]);
    assert_eq!(list.get(&"alice".to_string()), Some(true));
    assert_eq!(list.get(&"bob".to_string()), Some(true));
    assert_eq!(list.get(&"carol".to_string()), None);
    let entries = list.entries();
    assert_eq!(entries.len(), 2);
    let again = Whitelist::from_entries(entries);
    assert_eq!(again.get(&"alice".to_string()), Some(true));
    assert_eq!(again.get(&"bob".to_string()), Some(true));
    assert!(Whitelist::from_entries(vec![]).entries().is_empty());
}

#[test]
fn sale_comes_back_as_it_was_stored() {
    let mut sale = Contract::new(
        "root".to_string(),
        6,
        10,
        1,
        4,
        0,
        2,
        100,
        true,
        true,
        false,
    );
    let owner = ctx("root", 0, 0);
    assert!(sale.nft_mint_many(&ctx("alice", 100, 9), 2).is_ok());
    let first = sale.create_linkdrop(&owner, vec![1]).unwrap();
    let second = sale.create_linkdrop(&owner, vec![2]).unwrap();
    assert_eq!(sale.on_send_with_callback(&owner, first.handle, false), Ok(None));
    let stored = sale.into_parts();
    assert_eq!(stored.owner_id, "root");
    assert_eq!(stored.len, 4);
    assert_eq!(stored.slots.len(), 6);
    assert_eq!(stored.open_claims, vec![second.handle]);
    assert_eq!(stored.next_handle, 2);
    assert_eq!(stored.pricing, pricing());
    assert_eq!(stored.phase, Phase::Restricted);
    assert!(stored.sale_enabled);
    assert_eq!(stored.whitelist.len(), 1);
    assert_eq!(stored.whitelist[0].account, "alice");
    assert!(stored.whitelist[0].claimed);

    let mut again = Contract::from_parts(stored).unwrap();
    assert_eq!(again.tokens_left(), 3);
    assert_eq!(again.pool_len(), 4);
    assert_eq!(again.drawn_count(), 2);
    assert_eq!(again.pending_tokens(), 1);
    assert!(again.is_pending(second.handle));
    assert_eq!(again.phase(), Phase::Restricted);
    assert_eq!(again.owner_id(), "root");
    assert_eq!(again.whitelist_mark(&"alice".to_string()), Some(true));
    assert_eq!(again.cost_of_linkdrop(), 112);
    assert_eq!(again.create_linkdrop(&owner, vec![3]).map(|r| r.handle), Ok(2));
}

#[test]
fn parts_that_make_no_sale_are_refused() {
    assert!(Contract::from_parts(parts(vec![0, 1, 2], 2, vec![0, 1], 2)).is_some());
    // A number stands twice in the pool.
    assert!(Contract::from_parts(parts(vec![0, 0, 2], 2, vec![], 0)).is_none());
    // More claims are open than tokens are left.
    assert!(Contract::from_parts(parts(vec![0, 1, 2], 1, vec![0, 1], 2)).is_none());
    // An open handle was never given out.
    assert!(Contract::from_parts(parts(vec![0, 1, 2], 3, vec![2], 2)).is_none());
    // A handle stands twice.
    assert!(Contract::from_parts(parts(vec![0, 1, 2], 3, vec![1, 1], 2)).is_none());
    // An amount is too large.
    let mut costly = parts(vec![0], 1, vec![], 0);
    costly.pricing.after_sale_cost = u128::MAX;
    assert!(Contract::from_parts(costly).is_none());
}
