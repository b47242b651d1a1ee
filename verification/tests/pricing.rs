use tenk::contract::Contract;
use tenk::pricing::to_near;
use tenk::pricing::Pricing;
use tenk::pricing::ONE_NEAR;

const STORAGE: u128 = 3_700_000_000_000_000_000_000;

fn new_contract() -> Contract {
    Contract::new_default_meta(
        "root".to_string(),
        10_000,
        to_near(10),
        to_near(1),
        to_near(1),
        None,
        STORAGE,
        0,
        true,
        None,
        None,
    )
}

fn pricing(base_cost: u128, min_cost: u128, percent_off: u8, storage_cost: u128) -> Pricing {
    Pricing {
        base_cost,
        min_cost,
        after_sale_cost: min_cost,
        percent_off,
        storage_cost,
        link_price: 0,
    }
}

#[test]
fn check_price() {
    let ten: u128 = to_near(10);
    let contract = new_contract();
    assert_eq!(
        contract.cost_per_token(1),
        ten + contract.token_storage_cost()
    );
    assert_eq!(
        contract.cost_per_token(2),
        ten + contract.token_storage_cost() - contract.discount(2)
    );
    println!(
        "{}, {}, {}",
        contract.discount(1),
        contract.discount(2),
        contract.discount(10)
    );
    println!(
        "{}",
        (contract.base_cost() - contract.discount(10)).max(contract.min_cost())
    );
    println!(
        "{}, {}",
        contract.cost_per_token(24),
        contract.cost_per_token(10)
    );
}

#[test]
fn to_near_is_ten_to_the_twenty_four() {
    assert_eq!(ONE_NEAR, 1_000_000_000_000_000_000_000_000);
    assert_eq!(to_near(0), 0);
    assert_eq!(to_near(1), 1_000_000_000_000_000_000_000_000);
    assert_eq!(to_near(10), 10_000_000_000_000_000_000_000_000);
    assert_eq!(
        to_near(u32::MAX),
        4_294_967_295_000_000_000_000_000_000_000_000
    );
}

#[test]
fn discount_grows_by_a_hundredth_per_percent_and_token() {
    let p = pricing(to_near(100), to_near(10), 50, 0);
    assert_eq!(p.discount(0), 0);
    assert_eq!(p.discount(1), 0);
    assert_eq!(p.discount(2), 500_000_000_000_000_000_000_000);
    assert_eq!(p.discount(3), 1_000_000_000_000_000_000_000_000);
    assert_eq!(p.discount(11), 5_000_000_000_000_000_000_000_000);
    let one_percent = pricing(to_near(100), 0, 1, 0);
    assert_eq!(one_percent.discount(2), 10_000_000_000_000_000_000_000);
}

#[test]
fn discount_is_capped_by_the_base_cost() {
    let p = pricing(100, 10, 50, 0);
    assert_eq!(p.discount(2), 100);
    assert_eq!(p.discount(u32::MAX), 100);
    let wide = pricing(1_000_000_000_000_000_000_000_000_000_000, 0, 255, 0);
    assert_eq!(
        wide.discount(u32::MAX),
        1_000_000_000_000_000_000_000_000_000_000
    );
    let wider = pricing(u128::MAX, 0, 255, 0);
    assert_eq!(
        wider.discount(u32::MAX),
        10_952_166_599_700_000_000_000_000_000_000_000
    );
}

#[test]
fn unit_price_follows_the_formula_for_three_volumes() {
    // Half a unit off per further token; base 100 units, floor 10 units.
    let p = pricing(to_near(100), to_near(10), 50, 0);
    assert_eq!(p.cost_per_token(1), 100_000_000_000_000_000_000_000_000);
    assert_eq!(p.cost_per_token(3), 99_000_000_000_000_000_000_000_000);
    assert_eq!(p.cost_per_token(181), 10_000_000_000_000_000_000_000_000);
    assert_eq!(p.cost_per_token(182), 10_000_000_000_000_000_000_000_000);
    assert_eq!(p.cost_per_token(1_000), 10_000_000_000_000_000_000_000_000);
    assert_eq!(p.total_cost(3), 297_000_000_000_000_000_000_000_000);
}

#[test]
fn small_base_cost_falls_to_the_floor_at_once() {
    // Base 100 and floor 10 of the smallest parts: one further token takes
    // more than the whole base cost off.
    let p = pricing(100, 10, 50, 0);
    assert_eq!(p.cost_per_token(1), 100);
    assert_eq!(p.cost_per_token(2), 10);
    assert_eq!(p.cost_per_token(3), 10);
    assert_eq!(p.total_cost(1), 100);
    assert_eq!(p.total_cost(3), 30);
}

#[test]
fn storage_charge_is_added_after_the_floor() {
    let p = pricing(100, 10, 50, 7);
    assert_eq!(p.cost_per_token(1), 107);
    assert_eq!(p.cost_per_token(5), 17);
    assert_eq!(p.total_cost(5), 85);
}

#[test]
fn floor_above_base_wins() {
    let p = pricing(5, 8, 0, 1);
    assert_eq!(p.cost_per_token(1), 9);
    assert_eq!(p.cost_per_token(4), 9);
}

#[test]
fn total_of_no_tokens_is_nothing() {
    let p = pricing(to_near(100), to_near(10), 50, 5);
    assert_eq!(p.total_cost(0), 0);
    assert_eq!(p.cost_per_token(0), to_near(100) + 5);
}

#[test]
fn unit_price_never_below_floor_and_storage() {
    let p = pricing(to_near(3), to_near(1), 37, 11);
    let mut volume: u32 = 1;
    while volume < 400 {
        assert!(p.cost_per_token(volume) >= to_near(1) + 11);
        volume += 1;
    }
    assert!(p.cost_per_token(u32::MAX) >= to_near(1) + 11);
}

#[test]
fn unit_price_never_rises_with_volume() {
    let p = pricing(to_near(3), to_near(1), 37, 11);
    let mut volume: u32 = 1;
    while volume < 400 {
        assert!(p.cost_per_token(volume + 1) <= p.cost_per_token(volume));
        volume += 1;
    }
}

#[test]
fn total_never_falls_without_a_discount() {
    let p = pricing(to_near(3), to_near(1), 0, 11);
    let mut volume: u32 = 0;
    while volume < 400 {
        assert!(p.total_cost(volume) <= p.total_cost(volume + 1));
        volume += 1;
    }
}

#[test]
fn total_never_falls_while_the_discount_is_covered() {
    // The step is half a unit: up to eleven tokens twice the discount is
    // covered by the base cost of ten units.
    let p = pricing(to_near(10), to_near(1), 50, 0);
    let mut volume: u32 = 0;
    while volume < 11 {
        assert!(p.total_cost(volume) <= p.total_cost(volume + 1));
        volume += 1;
    }
    assert_eq!(p.total_cost(10), 55_000_000_000_000_000_000_000_000);
    assert_eq!(p.total_cost(11), 55_000_000_000_000_000_000_000_000);
}

#[test]
fn total_can_fall_where_the_discount_is_steep() {
    let p = pricing(to_near(10), to_near(1), 50, 0);
    assert_eq!(p.total_cost(12), 54_000_000_000_000_000_000_000_000);
    assert!(p.total_cost(12) < p.total_cost(11));
}

#[test]
fn total_never_falls_at_the_floor() {
    let p = pricing(to_near(10), to_near(1), 50, 0);
    let mut volume: u32 = 19;
    while volume < 200 {
        assert_eq!(p.cost_per_token(volume), to_near(1));
        assert!(p.total_cost(volume) <= p.total_cost(volume + 1));
        volume += 1;
    }
}

#[test]
fn largest_amounts_fit() {
    // The largest price of one token for which any number of tokens can be
    // paid for: u128::MAX / u32::MAX.
    let highest: u128 = 79_228_162_532_711_081_671_548_469_249;
    assert_eq!(highest, u128::MAX / (u32::MAX as u128));
    let p = Pricing {
        base_cost: highest - 5,
        min_cost: 0,
        after_sale_cost: highest - 5,
        percent_off: 255,
        storage_cost: 5,
        link_price: u128::MAX - highest,
    };
    assert!(p.is_valid());
    assert_eq!(p.cost_per_token(1), highest);
    assert_eq!(p.total_cost(1), highest);
    assert_eq!(p.cost_of_linkdrop(), u128::MAX);
    let flat = Pricing {
        percent_off: 0,
        ..p
    };
    assert_eq!(flat.total_cost(u32::MAX), u128::MAX);
    assert!(!Pricing {
        base_cost: highest - 4,
        ..p
    }
    .is_valid());
    assert!(!Pricing {
        min_cost: highest - 4,
        ..p
    }
    .is_valid());
    assert!(!Pricing {
        after_sale_cost: highest - 4,
        ..p
    }
    .is_valid());
    assert!(!Pricing {
        storage_cost: 6,
        ..p
    }
    .is_valid());
    assert!(!Pricing {
        link_price: u128::MAX - highest + 1,
        ..p
    }
    .is_valid());
    assert!(!Pricing {
        storage_cost: u128::MAX,
        ..p
    }
    .is_valid());
}

#[test]
fn linkdrop_costs_one_token_and_the_key() {
    let p = Pricing {
        base_cost: 100,
        min_cost: 10,
        after_sale_cost: 10,
        percent_off: 50,
        storage_cost: 7,
        link_price: 1_000,
    };
    assert_eq!(p.cost_of_linkdrop(), 1_107);
    let contract = Contract::new(
        "root".to_string(),
        5,
        100,
        10,
        10,
        50,
        7,
        1_000,
        true,
        false,
        true,
    );
    assert_eq!(contract.cost_of_linkdrop(), 1_107);
    assert_eq!(contract.total_cost(2), 34);
    assert_eq!(contract.token_storage_cost(), 7);
}
