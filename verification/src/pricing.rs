//! What a token costs.
//!
//! The price of one token falls with the number bought in one call, never
//! below a floor, and carries a fixed charge for the storage a token takes.
use vstd::prelude::*;

verus! {

/// One whole unit of the currency, in its smallest parts.
pub const ONE_NEAR: u128 = 1_000_000_000_000_000_000_000_000;

/// The discount is given in hundredths.
pub const PERCENT_DENOMINATOR: u128 = 100;

/// `num` whole units of the currency.
pub open spec fn spec_to_near(num: nat) -> nat {
    num * (ONE_NEAR as nat)
}

/// `num` whole units of the currency, in its smallest parts.
pub fn to_near(num: u32) -> (amount: u128)
    ensures
        amount == spec_to_near(num as nat),
{
    assert((num as nat) * (ONE_NEAR as nat) <= 0xffff_ffff * (ONE_NEAR as nat)) by (nonlinear_arith)
        requires
            num <= 0xffff_ffff,
    ;
    (num as u128) * ONE_NEAR
}

/// The parameters of the price.
#[derive(Clone, Copy, Debug, PartialEq, Eq, Structural)]
pub struct Pricing {
    /// The price of a token bought alone, before storage.
    pub base_cost: u128,
    /// The floor under the discounted price, before storage.
    pub min_cost: u128,
    /// What both `base_cost` and `min_cost` become when the premint ends.
    pub after_sale_cost: u128,
    /// Hundredths of a whole unit taken off per further token in one call.
    pub percent_off: u8,
    /// The charge for the storage one token takes.
    pub storage_cost: u128,
    /// What redeeming a key costs, on top of the token.
    pub link_price: u128,
}

impl Pricing {
    /// The most that one token can cost, now or once the premint has ended:
    /// the largest of the three costs, and the storage charge.
    pub open spec fn spec_highest_cost(&self) -> nat {
        let top = if self.base_cost >= self.min_cost {
            self.base_cost
        } else {
            self.min_cost
        };
        let highest = if top >= self.after_sale_cost {
            top
        } else {
            self.after_sale_cost
        };
        (highest + self.storage_cost) as nat
    }

    /// The amounts fit the machine: the total for any `u32` number of
    /// tokens fits in `u128`, and so does the price of a claim.
    pub open spec fn wf(&self) -> bool {
        &&& self.spec_highest_cost() * (u32::MAX as nat) <= u128::MAX
        &&& self.link_price + self.spec_highest_cost() <= u128::MAX
    }

    /// What is taken off the base cost of each of `num` tokens: a hundredth
    /// of a whole unit times `percent_off` for every token after the first,
    /// and never more than the base cost.
    pub open spec fn spec_discount(&self, num: nat) -> nat {
        let further: nat = if num > 0 { (num - 1) as nat } else { 0 };
        let raw = (spec_to_near(further) * (self.percent_off as nat)) / (PERCENT_DENOMINATOR as nat);
        if raw <= self.base_cost { raw } else { self.base_cost as nat }
    }

    /// The price of each of `num` tokens: the discounted base cost or the
    /// floor, whichever is more, and the storage charge.
    pub open spec fn spec_cost_per_token(&self, num: nat) -> nat {
        let discounted = (self.base_cost - self.spec_discount(num)) as nat;
        let before_storage = if discounted >= self.min_cost { discounted } else { self.min_cost as nat };
        before_storage + (self.storage_cost as nat)
    }

    /// The price of `num` tokens together.
    pub open spec fn spec_total_cost(&self, num: nat) -> nat {
        num * self.spec_cost_per_token(num)
    }

    /// The price of a token that is claimed with a key.
    pub open spec fn spec_cost_of_linkdrop(&self) -> nat {
        (self.link_price as nat) + self.spec_total_cost(1)
    }

    /// Whether the amounts fit the machine.
    pub fn is_valid(&self) -> (ok: bool)
        ensures
            ok == self.wf(),
    {
        let top: u128 = if self.base_cost >= self.min_cost { self.base_cost } else { self.min_cost };
        let top: u128 = if top >= self.after_sale_cost { top } else { self.after_sale_cost };
        match top.checked_add(self.storage_cost) {
            None => {
                assert(self.spec_highest_cost() * (u32::MAX as nat) > u128::MAX) by (nonlinear_arith)
                    requires
                        self.spec_highest_cost() > u128::MAX,
                ;
                false
            },
            Some(highest) => match highest.checked_mul(0xffff_ffff) {
                None => false,
                Some(_) => self.link_price.checked_add(highest).is_some(),
            },
        }
    }

    /// The discount on each of `num` tokens.
    pub fn discount(&self, num: u32) -> (amount: u128)
        ensures
            amount == self.spec_discount(num as nat),
            amount <= self.base_cost,
    {
        let further: u32 = if num > 0 { num - 1 } else { 0 };
        let whole: u128 = to_near(further);
        assert(whole * (self.percent_off as nat) <= 0xffff_ffff * (ONE_NEAR as nat) * 255)
            by (nonlinear_arith)
            requires
                whole == (further as nat) * (ONE_NEAR as nat),
                further <= 0xffff_ffff,
                self.percent_off <= 255,
        ;
        let raw: u128 = (whole * (self.percent_off as u128)) / PERCENT_DENOMINATOR;
        if raw <= self.base_cost { raw } else { self.base_cost }
    }

    /// The price of each of `num` tokens.
    pub fn cost_per_token(&self, num: u32) -> (amount: u128)
        requires
            self.wf(),
        ensures
            amount == self.spec_cost_per_token(num as nat),
            amount >= self.min_cost + self.storage_cost,
            amount <= self.spec_highest_cost(),
    {
        let discounted: u128 = self.base_cost - self.discount(num);
        let before_storage: u128 = if discounted >= self.min_cost { discounted } else { self.min_cost };
        assert(before_storage + self.storage_cost <= self.spec_highest_cost());
        before_storage + self.storage_cost
    }

    /// The price of `num` tokens together.
    pub fn total_cost(&self, num: u32) -> (amount: u128)
        requires
            self.wf(),
        ensures
            amount == self.spec_total_cost(num as nat),
    {
        let each: u128 = self.cost_per_token(num);
        assert((num as nat) * (each as nat) <= self.spec_highest_cost() * (u32::MAX as nat))
            by (nonlinear_arith)
            requires
                num <= u32::MAX,
                each <= self.spec_highest_cost(),
        ;
        (num as u128) * each
    }

    /// The price of a token that is claimed with a key.
    pub fn cost_of_linkdrop(&self) -> (amount: u128)
        requires
            self.wf(),
        ensures
            amount == self.spec_cost_of_linkdrop(),
    {
        self.link_price + self.total_cost(1)
    }
}

/// What one further token in a call takes off the price of each: a
/// hundredth of a whole unit times `percent_off`.
pub open spec fn spec_discount_step(percent_off: u8) -> nat {
    (percent_off as nat) * ((ONE_NEAR / PERCENT_DENOMINATOR) as nat)
}

/// Before the cap at the base cost, the discount is the step times the
/// number of tokens after the first.
proof fn lemma_discount_is_linear(p: Pricing, num: nat)
    requires
        num >= 1,
    ensures
        p.spec_discount(num) == if (num - 1) * spec_discount_step(p.percent_off) <= p.base_cost {
            (num - 1) * spec_discount_step(p.percent_off)
        } else {
            p.base_cost as int
        },
{
    let further = (num - 1) as nat;
    let k = further * (p.percent_off as nat);
    assert(spec_to_near(further) * (p.percent_off as nat) == k * (ONE_NEAR as nat))
        by (nonlinear_arith)
        requires
            k == further * (p.percent_off as nat),
            spec_to_near(further) == further * (ONE_NEAR as nat),
    ;
    let hundredth = ((ONE_NEAR / PERCENT_DENOMINATOR) as nat);
    assert(hundredth * 100 == ONE_NEAR);
    assert(k * (ONE_NEAR as nat) == (k * hundredth) * 100) by (nonlinear_arith)
        requires
            hundredth * 100 == ONE_NEAR,
    ;
    assert((k * (ONE_NEAR as nat)) / (PERCENT_DENOMINATOR as nat) == k * hundredth);
    assert(k * ((ONE_NEAR / PERCENT_DENOMINATOR) as nat) == (num - 1) * spec_discount_step(
        p.percent_off,
    )) by (nonlinear_arith)
        requires
            k == further * (p.percent_off as nat),
            further == num - 1,
            spec_discount_step(p.percent_off) == (p.percent_off as nat) * ((ONE_NEAR
                / PERCENT_DENOMINATOR) as nat),
    ;
}

/// The discount never shrinks when more tokens are bought.
pub proof fn law_discount_non_decreasing(p: Pricing, fewer: nat, more: nat)
    requires
        fewer <= more,
    ensures
        p.spec_discount(fewer) <= p.spec_discount(more),
{
    if fewer >= 1 {
        lemma_discount_is_linear(p, fewer);
        lemma_discount_is_linear(p, more);
        assert((fewer - 1) * spec_discount_step(p.percent_off) <= (more - 1) * spec_discount_step(
            p.percent_off,
        )) by (nonlinear_arith)
            requires
                1 <= fewer <= more,
        ;
    } else if more >= 1 {
        lemma_discount_is_linear(p, more);
        assert(0 <= (more - 1) * spec_discount_step(p.percent_off)) by (nonlinear_arith)
            requires
                1 <= more,
        ;
        assert(spec_to_near(0) * (p.percent_off as nat) == 0) by (nonlinear_arith)
            requires
                spec_to_near(0) == 0 * (ONE_NEAR as nat),
        ;
        assert(p.spec_discount(0) == 0);
    }
}

/// The price of a token is never below the floor and the storage charge.
pub proof fn law_cost_per_token_at_least_floor(p: Pricing, num: nat)
    ensures
        p.spec_cost_per_token(num) >= p.min_cost + p.storage_cost,
{
}

/// The price of a token is never above the base cost or the floor, whichever
/// is more, and the storage charge.
pub proof fn law_cost_per_token_at_most_base(p: Pricing, num: nat)
    ensures
        p.spec_cost_per_token(num) <= (if p.base_cost >= p.min_cost {
            p.base_cost
        } else {
            p.min_cost
        }) + p.storage_cost,
{
}

/// The price of a token never rises when more tokens are bought in one call.
pub proof fn law_cost_per_token_non_increasing(p: Pricing, fewer: nat, more: nat)
    requires
        fewer <= more,
    ensures
        p.spec_cost_per_token(more) <= p.spec_cost_per_token(fewer),
{
    law_discount_non_decreasing(p, fewer, more);
}

/// One further token: the total does not fall as long as twice the discount
/// that the larger call earns is covered by the base cost and the storage
/// charge.
proof fn lemma_total_cost_one_more(p: Pricing, num: nat)
    requires
        2 * num * spec_discount_step(p.percent_off) <= p.base_cost + p.storage_cost,
    ensures
        p.spec_total_cost(num) <= p.spec_total_cost(num + 1),
{
    let step = spec_discount_step(p.percent_off) as int;
    let here = p.spec_cost_per_token(num) as int;
    let next = p.spec_cost_per_token(num + 1) as int;
    let n = num as int;
    if num == 0 {
        assert(0 * p.spec_cost_per_token(0) == 0) by (nonlinear_arith);
    } else {
        lemma_discount_is_linear(p, num);
        lemma_discount_is_linear(p, num + 1);
        assert((n - 1) * step + step == n * step) by (nonlinear_arith);
        assert(0 <= (n - 1) * step) by (nonlinear_arith)
            requires
                n >= 1,
                step >= 0,
        ;
        assert(2 * n * step == n * step + n * step) by (nonlinear_arith);
        // The price falls by at most one step, and what is left of it covers
        // the whole discount.
        assert(here - next <= step);
        assert(next >= n * step);
        assert(next <= here) by {
            law_cost_per_token_non_increasing(p, num, num + 1);
        }
        assert(n * here <= (n + 1) * next) by (nonlinear_arith)
            requires
                n >= 1,
                0 <= here - next <= step,
                next >= n * step,
                step >= 0,
        ;
    }
}

/// The total never falls when more tokens are bought in one call, as long as
/// the price is not driven down too fast: twice the discount just before
/// `more` tokens must be covered by the base cost and the storage charge.
/// Without a discount that is always so.
pub proof fn law_total_cost_non_decreasing(p: Pricing, fewer: nat, more: nat)
    requires
        fewer <= more,
        more >= 1 ==> 2 * (more - 1) * spec_discount_step(p.percent_off) <= p.base_cost
            + p.storage_cost,
    ensures
        p.spec_total_cost(fewer) <= p.spec_total_cost(more),
    decreases more - fewer,
{
    if fewer < more {
        let before = (more - 1) as nat;
        if before >= 1 {
            assert(2 * (before - 1) * spec_discount_step(p.percent_off) <= 2 * (more - 1)
                * spec_discount_step(p.percent_off)) by (nonlinear_arith)
                requires
                    before == more - 1,
                    before >= 1,
            ;
        }
        law_total_cost_non_decreasing(p, fewer, before);
        lemma_total_cost_one_more(p, before);
    }
}

/// One further token, while the discounted price stays at or above the
/// floor: the total does not fall exactly where twice the discount that the
/// larger call earns is covered by the base cost and the storage charge.
pub proof fn law_total_cost_one_more_above_floor(p: Pricing, num: nat)
    requires
        num >= 1,
        p.base_cost - num * spec_discount_step(p.percent_off) >= p.min_cost,
    ensures
        p.spec_total_cost(num) <= p.spec_total_cost(num + 1) <==> 2 * num * spec_discount_step(
            p.percent_off,
        ) <= p.base_cost + p.storage_cost,
{
    let step = spec_discount_step(p.percent_off) as int;
    let n = num as int;
    let full = p.base_cost + p.storage_cost;
    lemma_discount_is_linear(p, num);
    lemma_discount_is_linear(p, num + 1);
    assert((n - 1) * step + step == n * step) by (nonlinear_arith);
    assert(0 <= (n - 1) * step) by (nonlinear_arith)
        requires
            n >= 1,
            step >= 0,
    ;
    let here = p.spec_cost_per_token(num) as int;
    let next = p.spec_cost_per_token(num + 1) as int;
    assert(here == full - (n - 1) * step);
    assert(next == full - n * step);
    assert((n + 1) * next - n * here == full - 2 * n * step) by (nonlinear_arith)
        requires
            here == full - (n - 1) * step,
            next == full - n * step,
    ;
}

/// Once the discounted price has reached the floor, the total never falls
/// when more tokens are bought.
pub proof fn law_total_cost_non_decreasing_at_floor(p: Pricing, fewer: nat, more: nat)
    requires
        fewer <= more,
        p.base_cost - p.spec_discount(fewer) <= p.min_cost,
    ensures
        p.spec_total_cost(fewer) <= p.spec_total_cost(more),
{
    law_discount_non_decreasing(p, fewer, more);
    let each = p.spec_cost_per_token(fewer);
    assert(p.spec_cost_per_token(more) == each);
    assert(fewer * each <= more * each) by (nonlinear_arith)
        requires
            fewer <= more,
            0 <= each,
    ;
}

} // verus!
