//! The sale and its operations.
use vstd::prelude::*;
use crate::error::MintError;
use crate::model::Context;
use crate::model::ContractView;
use crate::model::LinkdropRequest;
use crate::model::Operation;
use crate::model::Phase;
use crate::model::Refund;
use crate::model::Settlement;
use crate::model::Token;
use crate::model::account_view;
use crate::model::same_random;
use crate::model::spec_storage_cost;
use crate::model::GAS_REQUIRED_FOR_LINKDROP;
use crate::model::GAS_REQUIRED_TO_CREATE_LINKDROP;
use crate::model::PREMINT_LIMIT_PER_ACCOUNT;
use crate::model::PREMINT_SUPPLY_CAP;
use crate::pending::PendingClaims;
use crate::pending::handles_describe_claims;
use crate::pricing::Pricing;
use crate::raffle::Raffle;
use crate::raffle::pool_of_slots;
use crate::raffle::slots_describe_pool;
use crate::whitelist::Entry;
use crate::whitelist::Whitelist;
use crate::whitelist::entries_map;

verus! {

/// The sale of one collection.
pub struct Contract {
    owner_id: String,
    raffle: Raffle,
    pending: PendingClaims,
    pricing: Pricing,
    whitelist: Whitelist,
    phase: Phase,
    sale_enabled: bool,
}

impl View for Contract {
    type V = ContractView;

    closed spec fn view(&self) -> ContractView {
        ContractView {
            owner_id: self.owner_id@,
            raffle: self.raffle@,
            pending: self.pending.handles(),
            next_handle: self.pending.next_handle(),
            pricing: self.pricing,
            whitelist: self.whitelist@,
            phase: self.phase,
            sale_enabled: self.sale_enabled,
        }
    }
}

/// The sale taken apart, for a host that stores it between calls.
#[derive(Clone, Debug, PartialEq, Eq)]
pub struct ContractParts {
    /// The owner.
    pub owner_id: String,
    /// The slots of the pool: the numbers still to be had, then the numbers
    /// given out, last drawn first.
    pub slots: Vec<u32>,
    /// How many numbers are still to be had.
    pub len: u32,
    /// The handles of the open claims.
    pub open_claims: Vec<u64>,
    /// The handle that the next claim gets.
    pub next_handle: u64,
    /// The price.
    pub pricing: Pricing,
    /// The list of the premint; where an account has two entries, the later
    /// one counts.
    pub whitelist: Vec<Entry>,
    /// Where the sale stands.
    pub phase: Phase,
    /// Whether others than the owner may mint at all.
    pub sale_enabled: bool,
}

impl View for ContractParts {
    type V = ContractView;

    open spec fn view(&self) -> ContractView {
        ContractView {
            owner_id: self.owner_id@,
            raffle: pool_of_slots(self.slots@, self.len),
            pending: self.open_claims@.to_set(),
            next_handle: self.next_handle,
            pricing: self.pricing,
            whitelist: entries_map(self.whitelist@),
            phase: self.phase,
            sale_enabled: self.sale_enabled,
        }
    }
}

impl ContractParts {
    /// Whether the parts make a sale that is in order: the slots describe a
    /// pool, the handles describe open claims, a token is left for every
    /// open claim, and the prices fit.
    pub open spec fn valid(&self) -> bool {
        &&& slots_describe_pool(self.slots@, self.len)
        &&& handles_describe_claims(self.open_claims@, self.next_handle)
        &&& self.open_claims@.len() <= self.len
        &&& self.pricing.wf()
    }
}

/// Whether others than the owner may mint.
pub fn on_sale(contract: &Contract) -> (enabled: bool)
    ensures
        enabled == contract@.sale_enabled,
{
    contract.sale_enabled
}

/// Puts `fresh` in place where no sale exists yet. Fails, and changes
/// nothing, where one exists.
pub fn initialize(state: &mut Option<Contract>, fresh: Contract) -> (r: Result<(), MintError>)
    ensures
        match r {
            Ok(()) => *old(state) is None && *final(state) == Some(fresh),
            Err(e) => *old(state) is Some && e == MintError::AlreadyInitialized && *final(state)
                == *old(state),
        },
{
    if state.is_some() {
        return Err(MintError::AlreadyInitialized);
    }
    *state = Some(fresh);
    Ok(())
}

impl Contract {
    /// The state is in order: its parts are, and so is its view.
    pub closed spec fn wf(&self) -> bool {
        &&& self.raffle.wf()
        &&& self.pending.wf()
        &&& self.whitelist.wf()
        &&& self@.wf()
    }

    /// A state that is in order has a view that is.
    pub proof fn lemma_wf_view(&self)
        requires
            self.wf(),
        ensures
            self@.wf(),
    {
    }

    /// A new sale of `size` tokens. The amounts must fit the machine: see
    /// `Pricing::wf`.
    pub fn new(
        owner_id: String,
        size: u32,
        base_cost: u128,
        min_cost: u128,
        after_sale_cost: u128,
        percent_off: u8,
        storage_cost: u128,
        link_price: u128,
        sale_enabled: bool,
        is_premint: bool,
        is_premint_over: bool,
    ) -> (contract: Contract)
        requires
            (Pricing {
                base_cost,
                min_cost,
                after_sale_cost,
                percent_off,
                storage_cost,
                link_price,
            }).wf(),
        ensures
            contract.wf(),
            contract@ == ContractView::initial(
                owner_id@,
                size,
                (Pricing {
                    base_cost,
                    min_cost,
                    after_sale_cost,
                    percent_off,
                    storage_cost,
                    link_price,
                }),
                sale_enabled,
                is_premint,
                is_premint_over,
            ),
    {
        let phase = if is_premint {
            Phase::Restricted
        } else if is_premint_over {
            Phase::Open
        } else {
            Phase::NotStarted
        };
        let contract = Contract {
            owner_id,
            raffle: Raffle::new(size),
            pending: PendingClaims::new(),
            pricing: Pricing {
                base_cost,
                min_cost,
                after_sale_cost,
                percent_off,
                storage_cost,
                link_price,
            },
            whitelist: Whitelist::new(),
            phase,
            sale_enabled,
        };
        proof {
            contract.raffle.lemma_wf_view();
            contract.pending.lemma_handles();
        }
        contract
    }

    /// A new sale, with what is left out set to its usual value: no
    /// discount, no premint running, none finished.
    pub fn new_default_meta(
        owner_id: String,
        size: u32,
        base_cost: u128,
        min_cost: u128,
        after_sale_cost: u128,
        percent_off: Option<u8>,
        storage_cost: u128,
        link_price: u128,
        sale_enabled: bool,
        is_premint: Option<bool>,
        is_premint_over: Option<bool>,
    ) -> (contract: Contract)
        requires
            (Pricing {
                base_cost,
                min_cost,
                after_sale_cost,
                percent_off: 0,
                storage_cost,
                link_price,
            }).wf(),
        ensures
            contract.wf(),
            contract@ == ContractView::initial(
                owner_id@,
                size,
                (Pricing {
                    base_cost,
                    min_cost,
                    after_sale_cost,
                    percent_off: percent_off.unwrap_or(0),
                    storage_cost,
                    link_price,
                }),
                sale_enabled,
                is_premint.unwrap_or(false),
                is_premint_over.unwrap_or(false),
            ),
    {
        let percent_off: u8 = match percent_off {
            Some(percent) => percent,
            None => 0,
        };
        let is_premint = match is_premint {
            Some(mark) => mark,
            None => false,
        };
        let is_premint_over = match is_premint_over {
            Some(mark) => mark,
            None => false,
        };
        Contract::new(
            owner_id,
            size,
            base_cost,
            min_cost,
            after_sale_cost,
            percent_off,
            storage_cost,
            link_price,
            sale_enabled,
            is_premint,
            is_premint_over,
        )
    }

    /// Whether the call comes from the owner.
    pub fn is_owner(&self, ctx: &Context) -> (owner: bool)
        ensures
            owner == self@.is_owner(*ctx),
    {
        ctx.signer == self.owner_id
    }

    /// Turns down a call that does not come from the owner.
    fn assert_owner(&self, ctx: &Context) -> (r: Result<(), MintError>)
        ensures
            match r {
                Ok(()) => self@.owner_error(*ctx) is None,
                Err(e) => self@.owner_error(*ctx) == Some(e),
            },
    {
        if self.is_owner(ctx) {
            Ok(())
        } else {
            Err(MintError::NotOwner)
        }
    }

    /// The tokens that can still be asked for.
    pub fn tokens_left(&self) -> (left: u32)
        requires
            self.wf(),
        ensures
            left == self@.tokens_left(),
            left == self@.raffle.pool.len() - self@.pending.len(),
    {
        proof {
            self.raffle.lemma_wf_view();
        }
        let open: usize = self.pending.len();
        self.raffle.len() - (open as u32)
    }

    /// The discount on each of `num` tokens.
    pub fn discount(&self, num: u32) -> (amount: u128)
        ensures
            amount == self@.pricing.spec_discount(num as nat),
    {
        self.pricing.discount(num)
    }

    /// The charge for the storage that one token takes.
    pub fn token_storage_cost(&self) -> (amount: u128)
        ensures
            amount == self@.pricing.storage_cost,
    {
        self.pricing.storage_cost
    }

    /// The price of each of `num` tokens.
    pub fn cost_per_token(&self, num: u32) -> (amount: u128)
        requires
            self.wf(),
        ensures
            amount == self@.pricing.spec_cost_per_token(num as nat),
            amount >= self@.pricing.min_cost + self@.pricing.storage_cost,
    {
        self.pricing.cost_per_token(num)
    }

    /// The price of `num` tokens together.
    pub fn total_cost(&self, num: u32) -> (amount: u128)
        requires
            self.wf(),
        ensures
            amount == self@.pricing.spec_total_cost(num as nat),
    {
        self.pricing.total_cost(num)
    }

    /// The price of a token that is claimed with a key.
    pub fn cost_of_linkdrop(&self) -> (amount: u128)
        requires
            self.wf(),
        ensures
            amount == self@.pricing.spec_cost_of_linkdrop(),
    {
        self.pricing.cost_of_linkdrop()
    }

    /// Puts `account` on the list of the premint, not marked. Only the
    /// owner may.
    pub fn add_whitelist_account(&mut self, ctx: &Context, account: String) -> (r: Result<
        (),
        MintError,
    >)
        requires
            old(self).wf(),
        ensures
            final(self).wf(),
            final(self)@ == old(self)@.step((Operation::AddWhitelistAccount { ctx: *ctx, account: account@ })),
            match r {
                Ok(()) => old(self)@.owner_error(*ctx) is None && final(self)@ == old(self)@.after_add_whitelist_account(account@),
                Err(e) => old(self)@.owner_error(*ctx) == Some(e) && final(self)@ == old(self)@,
            },
    {
        self.assert_owner(ctx)?;
        self.whitelist.insert(account, false);
        assert(final(self)@ =~= old(self)@.after_add_whitelist_account(account@));
        Ok(())
    }

    /// Replaces the pool by a new one of `new_size` tokens. Only the owner
    /// may, and the new pool must not be smaller than the count of tokens
    /// given out, nor than the count of open claims.
    pub fn update_size(&mut self, ctx: &Context, new_size: u32) -> (r: Result<(), MintError>)
        requires
            old(self).wf(),
        ensures
            final(self).wf(),
            final(self)@ == old(self)@.step((Operation::UpdateSize { ctx: *ctx, new_size })),
            match r {
                Ok(()) => old(self)@.update_size_error(*ctx, new_size) is None && final(self)@
                    == old(self)@.after_update_size(new_size),
                Err(e) => old(self)@.update_size_error(*ctx, new_size) == Some(e) && final(self)@
                    == old(self)@,
            },
    {
        self.assert_owner(ctx)?;
        proof {
            self.raffle.lemma_wf_view();
        }
        let open: usize = self.pending.len();
        if new_size < self.raffle.drawn_count() || new_size < (open as u32) {
            return Err(MintError::InvalidResize);
        }
        let done = self.raffle.resize(new_size);
        assert(done is Ok);
        assert(final(self)@ =~= old(self)@.after_update_size(new_size));
        Ok(())
    }

    /// Starts the premint. Only the owner may, and only before any premint.
    pub fn start_premint(&mut self, ctx: &Context) -> (r: Result<(), MintError>)
        requires
            old(self).wf(),
        ensures
            final(self).wf(),
            final(self)@ == old(self)@.step((Operation::StartPremint { ctx: *ctx })),
            match r {
                Ok(()) => old(self)@.start_premint_error(*ctx) is None && final(self)@ == old(self)@.after_start_premint(),
                Err(e) => old(self)@.start_premint_error(*ctx) == Some(e) && final(self)@ == old(self)@,
            },
    {
        self.assert_owner(ctx)?;
        match self.phase {
            Phase::Restricted => Err(MintError::AlreadyStarted),
            Phase::Open => Err(MintError::AlreadyFinished),
            Phase::NotStarted => {
                self.phase = Phase::Restricted;
                assert(final(self)@ =~= old(self)@.after_start_premint());
                Ok(())
            },
        }
    }

    /// Ends the premint: the discount goes, and the price after the premint
    /// becomes both base and floor. Only the owner may, and only while the
    /// premint runs.
    pub fn end_premint(&mut self, ctx: &Context) -> (r: Result<(), MintError>)
        requires
            old(self).wf(),
        ensures
            final(self).wf(),
            final(self)@ == old(self)@.step((Operation::EndPremint { ctx: *ctx })),
            match r {
                Ok(()) => old(self)@.end_premint_error(*ctx) is None && final(self)@ == old(self)@.after_end_premint(),
                Err(e) => old(self)@.end_premint_error(*ctx) == Some(e) && final(self)@ == old(self)@,
            },
    {
        self.assert_owner(ctx)?;
        match self.phase {
            Phase::NotStarted => Err(MintError::SaleNotOpen),
            Phase::Open => Err(MintError::AlreadyFinished),
            Phase::Restricted => {
                self.phase = Phase::Open;
                self.pricing.percent_off = 0;
                self.pricing.base_cost = self.pricing.after_sale_cost;
                self.pricing.min_cost = self.pricing.after_sale_cost;
                assert(final(self)@ =~= old(self)@.after_end_premint());
                Ok(())
            },
        }
    }

    /// Sets new prices. Only the owner may. The amounts must fit the
    /// machine: see `Pricing::wf`.
    pub fn update_pricing(
        &mut self,
        ctx: &Context,
        base_cost: u128,
        min_cost: u128,
        after_sale_cost: u128,
        percent_off: u8,
    ) -> (r: Result<(), MintError>)
        requires
            old(self).wf(),
            old(self)@.after_update_pricing(
                base_cost,
                min_cost,
                after_sale_cost,
                percent_off,
            ).pricing.wf(),
        ensures
            final(self).wf(),
            final(self)@ == old(self)@.step((Operation::UpdatePricing {
                ctx: *ctx,
                base_cost,
                min_cost,
                after_sale_cost,
                percent_off,
            })),
            match r {
                Ok(()) => old(self)@.owner_error(*ctx) is None && final(self)@ == old(
                    self,
                )@.after_update_pricing(base_cost, min_cost, after_sale_cost, percent_off),
                Err(e) => old(self)@.owner_error(*ctx) == Some(e) && final(self)@ == old(self)@,
            },
    {
        self.assert_owner(ctx)?;
        self.pricing.base_cost = base_cost;
        self.pricing.min_cost = min_cost;
        self.pricing.after_sale_cost = after_sale_cost;
        self.pricing.percent_off = percent_off;
        assert(final(self)@ =~= old(self)@.after_update_pricing(
            base_cost,
            min_cost,
            after_sale_cost,
            percent_off,
        ));
        Ok(())
    }

    /// Hands the sale to `new_owner`. Only the owner may.
    pub fn transfer_ownership(&mut self, ctx: &Context, new_owner: String) -> (r: Result<
        (),
        MintError,
    >)
        requires
            old(self).wf(),
        ensures
            final(self).wf(),
            final(self)@ == old(self)@.step((Operation::TransferOwnership { ctx: *ctx, new_owner: new_owner@ })),
            match r {
                Ok(()) => old(self)@.owner_error(*ctx) is None && final(self)@ == old(self)@.after_transfer_ownership(new_owner@),
                Err(e) => old(self)@.owner_error(*ctx) == Some(e) && final(self)@ == old(self)@,
            },
    {
        self.assert_owner(ctx)?;
        self.owner_id = new_owner;
        assert(final(self)@ =~= old(self)@.after_transfer_ownership(new_owner@));
        Ok(())
    }

    /// Turns down a deposit that does not cover `num` tokens.
    fn assert_deposit(&self, ctx: &Context, num: u32) -> (r: Result<(), MintError>)
        requires
            self.wf(),
        ensures
            match r {
                Ok(()) => ctx.attached_deposit >= self@.pricing.spec_total_cost(num as nat),
                Err(e) => ctx.attached_deposit < self@.pricing.spec_total_cost(num as nat) && e
                    == MintError::InsufficientFunds,
            },
    {
        if ctx.attached_deposit >= self.total_cost(num) {
            Ok(())
        } else {
            Err(MintError::InsufficientFunds)
        }
    }

    /// Says whether the signer may mint `num` tokens now, and if not, why
    /// not.
    pub fn assert_can_mint(&self, ctx: &Context, num: u32) -> (r: Result<(), MintError>)
        requires
            self.wf(),
        ensures
            match r {
                Ok(()) => self@.mint_error(*ctx, num) is None,
                Err(e) => self@.mint_error(*ctx, num) == Some(e),
            },
    {
        let owner = self.is_owner(ctx);
        match self.phase {
            Phase::Restricted => {
                if ctx.tokens_held > PREMINT_LIMIT_PER_ACCOUNT || (num as u64)
                    > PREMINT_LIMIT_PER_ACCOUNT - ctx.tokens_held {
                    return Err(MintError::PerAccountLimitExceeded);
                }
                if ctx.tokens_held != 0 && !self.whitelist.contains_key(&ctx.signer) {
                    return Err(MintError::NotAllowListed);
                }
                if ctx.total_supply >= PREMINT_SUPPLY_CAP {
                    return Err(MintError::RestrictedCapExceeded);
                }
            },
            Phase::NotStarted => {
                if !owner {
                    return Err(MintError::SaleNotOpen);
                }
            },
            Phase::Open => {},
        }
        if self.tokens_left() < num {
            return Err(MintError::InsufficientSupply);
        }
        if owner {
            return Ok(());
        }
        if !self.sale_enabled {
            return Err(MintError::SaleUnavailable);
        }
        self.assert_deposit(ctx, num)
    }

    /// Draws a number and makes the token for it. A token must be left
    /// that no open claim is waiting for.
    fn draw_and_mint(&mut self, token_owner_id: String, refund: Option<String>, random: u64) -> (token:
        Token)
        requires
            old(self).wf(),
            old(self)@.tokens_left() >= 1,
        ensures
            final(self).wf(),
            final(self)@ == (ContractView { raffle: old(self)@.raffle.draw(random), ..old(self)@ }),
            final(self)@.raffle.pool.len() == old(self)@.raffle.pool.len() - 1,
            final(self)@.raffle.drawn == old(self)@.raffle.drawn.push(token.token_id),
            token.is_for(old(self)@.raffle.drawn_id(random), token_owner_id@, account_view(refund)),
    {
        proof {
            self.raffle.lemma_wf_view();
        }
        let drawn = self.raffle.draw(random);
        let token_id: u32 = match drawn {
            Ok(id) => id,
            Err(_) => 0,
        };
        proof {
            final(self).raffle.lemma_wf_view();
            assert(final(self)@ =~= (ContractView {
                raffle: old(self)@.raffle.draw(random),
                ..old(self)@
            }));
        }
        Token { token_id, owner_id: token_owner_id, refund_to: refund }
    }

    /// Mints `num` tokens for the signer, one draw each, all with the random
    /// number of the call. During the premint the signer goes on the list,
    /// marked. A mint that is turned down changes nothing.
    pub fn nft_mint_many(&mut self, ctx: &Context, num: u32) -> (r: Result<Vec<Token>, MintError>)
        requires
            old(self).wf(),
        ensures
            final(self).wf(),
            final(self)@ == old(self)@.step((Operation::Mint { ctx: *ctx, num })),
            match r {
                Ok(tokens) => {
                    &&& old(self)@.mint_error(*ctx, num) is None
                    &&& final(self)@ == old(self)@.after_mint(*ctx, num)
                    &&& tokens@.len() == num
                    &&& forall|k: int|
                        0 <= k < num ==> (#[trigger] tokens@[k]).is_for(
                            old(self)@.minted_ids(*ctx, num)[k],
                            ctx.signer@,
                            None,
                        )
                },
                Err(e) => old(self)@.mint_error(*ctx, num) == Some(e) && final(self)@ == old(self)@,
            },
    {
        self.assert_can_mint(ctx, num)?;
        let ghost before = self@;
        let ghost base = before.raffle.drawn.len() as int;
        let mut tokens: Vec<Token> = Vec::new();
        let mut made: u32 = 0;
        proof {
            assert(before.raffle.draw_each(same_random(ctx.random, 0)) == before.raffle);
        }
        while made < num
            invariant
                self.wf(),
                made <= num,
                before.tokens_left() >= num,
                base == before.raffle.drawn.len(),
                self@ == (ContractView {
                    raffle: before.raffle.draw_each(same_random(ctx.random, made as nat)),
                    ..before
                }),
                self@.raffle.pool.len() == before.raffle.pool.len() - made,
                self@.raffle.drawn.len() == base + made,
                tokens@.len() == made,
                forall|k: int|
                    0 <= k < made ==> (#[trigger] tokens@[k]).is_for(
                        self@.raffle.drawn[base + k],
                        ctx.signer@,
                        None,
                    ),
            decreases num - made,
        {
            let ghost here = self@;
            let token = self.draw_and_mint(ctx.signer.clone(), None, ctx.random);
            tokens.push(token);
            proof {
                let longer = same_random(ctx.random, (made + 1) as nat);
                assert(longer.drop_last() =~= same_random(ctx.random, made as nat));
                assert(longer.last() == ctx.random);
                assert(before.raffle.draw_each(longer) == here.raffle.draw(ctx.random));
                assert forall|k: int| 0 <= k < made + 1 implies (#[trigger] tokens@[k]).is_for(
                    self@.raffle.drawn[base + k],
                    ctx.signer@,
                    None,
                ) by {
                    if k < made {
                        assert(self@.raffle.drawn[base + k] == here.raffle.drawn[base + k]);
                    }
                }
            }
            made = made + 1;
        }
        if let Phase::Restricted = self.phase {
            self.whitelist.insert(ctx.signer.clone(), true);
        }
        proof {
            assert(final(self)@ =~= before.after_mint(*ctx, num));
            let ids = before.minted_ids(*ctx, num);
            assert forall|k: int| 0 <= k < num implies (#[trigger] tokens@[k]).is_for(
                ids[k],
                ctx.signer@,
                None,
            ) by {
                assert(ids[k] == final(self)@.raffle.drawn[base + k]);
            }
        }
        Ok(tokens)
    }

    /// Mints one token for the signer.
    pub fn nft_mint_one(&mut self, ctx: &Context) -> (r: Result<Token, MintError>)
        requires
            old(self).wf(),
        ensures
            final(self).wf(),
            final(self)@ == old(self)@.step((Operation::Mint { ctx: *ctx, num: 1 })),
            match r {
                Ok(token) => {
                    &&& old(self)@.mint_error(*ctx, 1) is None
                    &&& final(self)@ == old(self)@.after_mint(*ctx, 1)
                    &&& token.is_for(old(self)@.minted_ids(*ctx, 1)[0], ctx.signer@, None)
                },
                Err(e) => old(self)@.mint_error(*ctx, 1) == Some(e) && final(self)@ == old(self)@,
            },
    {
        let mut tokens = self.nft_mint_many(ctx, 1)?;
        match tokens.pop() {
            Some(token) => Ok(token),
            None => Err(MintError::PoolExhausted),
        }
    }

    /// Mints one token for the signer. The number and the holder that the
    /// caller names are not looked at: the number is drawn, the holder is
    /// the signer.
    pub fn nft_mint(&mut self, ctx: &Context, _token_id: String, _token_owner_id: String) -> (r:
        Result<Token, MintError>)
        requires
            old(self).wf(),
        ensures
            final(self).wf(),
            final(self)@ == old(self)@.step((Operation::Mint { ctx: *ctx, num: 1 })),
            match r {
                Ok(token) => {
                    &&& old(self)@.mint_error(*ctx, 1) is None
                    &&& final(self)@ == old(self)@.after_mint(*ctx, 1)
                    &&& token.is_for(old(self)@.minted_ids(*ctx, 1)[0], ctx.signer@, None)
                },
                Err(e) => old(self)@.mint_error(*ctx, 1) == Some(e) && final(self)@ == old(self)@,
            },
    {
        self.nft_mint_one(ctx)
    }

    /// Says what becomes of the deposit of a mint that took `storage_used`
    /// bytes: what the storage costs stays, the rest goes to those with a
    /// share in first sales if there are any, else to the owner. Fails where
    /// the deposit does not cover the storage.
    pub fn settle_deposit(
        &self,
        ctx: &Context,
        storage_used: u64,
        storage_byte_cost: u128,
        has_initial_royalties: bool,
    ) -> (r: Result<Settlement, MintError>)
        ensures
            match r {
                Ok(settlement) => {
                    &&& spec_storage_cost(storage_byte_cost, storage_used) <= ctx.attached_deposit
                    &&& settlement.storage_cost == spec_storage_cost(
                        storage_byte_cost,
                        storage_used,
                    )
                    &&& settlement.amount == ctx.attached_deposit - spec_storage_cost(
                        storage_byte_cost,
                        storage_used,
                    )
                    &&& settlement.to_royalties == has_initial_royalties
                    &&& settlement.owner_id@ == self@.owner_id
                },
                Err(e) => spec_storage_cost(storage_byte_cost, storage_used) > ctx.attached_deposit
                    && e == MintError::InsufficientFunds,
            },
    {
        match storage_byte_cost.checked_mul(storage_used as u128) {
            Some(storage_cost) => {
                if storage_cost > ctx.attached_deposit {
                    Err(MintError::InsufficientFunds)
                } else {
                    Ok(
                        Settlement {
                            storage_cost,
                            amount: ctx.attached_deposit - storage_cost,
                            to_royalties: has_initial_royalties,
                            owner_id: self.owner_id.clone(),
                        },
                    )
                }
            },
            None => Err(MintError::InsufficientFunds),
        }
    }

    /// Sends off a claim: holds a token back for it and says which key is
    /// to be registered, with what funds. The signer pays for the token and
    /// for the key; the owner pays nothing. A claim that is turned down
    /// changes nothing.
    pub fn create_linkdrop(&mut self, ctx: &Context, public_key: Vec<u8>) -> (r: Result<
        LinkdropRequest,
        MintError,
    >)
        requires
            old(self).wf(),
            old(self)@.next_handle < u64::MAX,
        ensures
            final(self).wf(),
            final(self)@ == old(self)@.step((Operation::CreateLinkdrop { ctx: *ctx })),
            match r {
                Ok(request) => {
                    &&& old(self)@.linkdrop_error(*ctx) is None
                    &&& final(self)@ == old(self)@.after_create_linkdrop()
                    &&& request.handle == old(self)@.next_handle
                    &&& request.public_key@ == public_key@
                    &&& request.deposit == ctx.attached_deposit
                    &&& request.gas == GAS_REQUIRED_FOR_LINKDROP
                    &&& request.callback_gas == GAS_REQUIRED_TO_CREATE_LINKDROP
                },
                Err(e) => old(self)@.linkdrop_error(*ctx) == Some(e) && final(self)@ == old(self)@,
            },
    {
        self.assert_can_mint(ctx, 1)?;
        if !self.is_owner(ctx) {
            if self.cost_of_linkdrop() > ctx.attached_deposit {
                return Err(MintError::InsufficientFunds);
            }
        }
        let handle = self.pending.reserve();
        proof {
            final(self).pending.lemma_handles();
            assert(final(self)@ =~= old(self)@.after_create_linkdrop());
        }
        Ok(
            LinkdropRequest {
                handle,
                public_key,
                deposit: ctx.attached_deposit,
                gas: GAS_REQUIRED_FOR_LINKDROP,
                callback_gas: GAS_REQUIRED_TO_CREATE_LINKDROP,
            },
        )
    }

    /// Takes the answer to the registration of a key. A failure closes the
    /// claim and sends what was attached back to the signer; a success
    /// leaves the claim open. A failure for a claim that is not open is
    /// turned down and changes nothing.
    pub fn on_send_with_callback(&mut self, ctx: &Context, handle: u64, succeeded: bool) -> (r:
        Result<Option<Refund>, MintError>)
        requires
            old(self).wf(),
        ensures
            final(self).wf(),
            final(self)@ == old(self)@.step((Operation::OnSendWithCallback { handle, succeeded })),
            match r {
                Ok(refund) => {
                    &&& old(self)@.send_callback_error(handle, succeeded) is None
                    &&& final(self)@ == old(self)@.after_send_callback(handle, succeeded)
                    &&& match refund {
                        Some(back) => !succeeded && ctx.attached_deposit > 0 && back.account@
                            == ctx.signer@ && back.amount == ctx.attached_deposit,
                        None => succeeded || ctx.attached_deposit == 0,
                    }
                },
                Err(e) => old(self)@.send_callback_error(handle, succeeded) == Some(e) && final(self)@ == old(self)@,
            },
    {
        if succeeded {
            return Ok(None);
        }
        self.pending.release(handle)?;
        proof {
            final(self).pending.lemma_handles();
            assert(final(self)@ =~= old(self)@.after_send_callback(handle, succeeded));
        }
        if ctx.attached_deposit > 0 {
            Ok(Some(Refund { account: ctx.signer.clone(), amount: ctx.attached_deposit }))
        } else {
            Ok(None)
        }
    }

    /// Takes the use of a key: closes the claim, draws a number with the
    /// random number of the call and makes the token for `account_id`.
    /// Turned down, with nothing changed, where what went before failed or
    /// no claim is open under the handle.
    pub fn link_callback(
        &mut self,
        ctx: &Context,
        handle: u64,
        succeeded: bool,
        account_id: String,
    ) -> (r: Result<Token, MintError>)
        requires
            old(self).wf(),
        ensures
            final(self).wf(),
            final(self)@ == old(self)@.step((Operation::LinkCallback { ctx: *ctx, handle, succeeded })),
            match r {
                Ok(token) => {
                    &&& old(self)@.link_callback_error(handle, succeeded) is None
                    &&& final(self)@ == old(self)@.after_link_callback(*ctx, handle)
                    &&& token.is_for(
                        old(self)@.raffle.drawn_id(ctx.random),
                        account_id@,
                        old(self)@.link_refund_account(),
                    )
                },
                Err(e) => old(self)@.link_callback_error(handle, succeeded) == Some(e) && final(self)@ == old(self)@,
            },
    {
        if !succeeded {
            return Err(MintError::UnknownReservation);
        }
        self.pending.release(handle)?;
        proof {
            self.pending.lemma_handles();
        }
        let refund_account = if self.sale_enabled {
            Some(self.owner_id.clone())
        } else {
            None
        };
        let token = self.draw_and_mint(account_id, refund_account, ctx.random);
        proof {
            assert(final(self)@ =~= old(self)@.after_link_callback(*ctx, handle));
        }
        Ok(token)
    }

    /// Where the sale stands.
    pub fn phase(&self) -> (phase: Phase)
        ensures
            phase == self@.phase,
    {
        self.phase
    }

    /// Whether the premint is running.
    pub fn is_premint(&self) -> (running: bool)
        ensures
            running == (self@.phase == Phase::Restricted),
    {
        match self.phase {
            Phase::Restricted => true,
            _ => false,
        }
    }

    /// Whether the premint is over.
    pub fn is_premint_over(&self) -> (over: bool)
        ensures
            over == (self@.phase == Phase::Open),
    {
        match self.phase {
            Phase::Open => true,
            _ => false,
        }
    }

    /// The owner.
    pub fn owner_id(&self) -> (owner: String)
        ensures
            owner@ == self@.owner_id,
    {
        self.owner_id.clone()
    }

    /// The parameters of the price.
    pub fn pricing(&self) -> (pricing: Pricing)
        ensures
            pricing == self@.pricing,
    {
        self.pricing
    }

    /// The price of a token bought alone, before storage.
    pub fn base_cost(&self) -> (amount: u128)
        ensures
            amount == self@.pricing.base_cost,
    {
        self.pricing.base_cost
    }

    /// The floor under the discounted price, before storage.
    pub fn min_cost(&self) -> (amount: u128)
        ensures
            amount == self@.pricing.min_cost,
    {
        self.pricing.min_cost
    }

    /// What base and floor become when the premint ends.
    pub fn after_sale_cost(&self) -> (amount: u128)
        ensures
            amount == self@.pricing.after_sale_cost,
    {
        self.pricing.after_sale_cost
    }

    /// Hundredths of a whole unit taken off per further token in one call.
    pub fn percent_off(&self) -> (percent: u8)
        ensures
            percent == self@.pricing.percent_off,
    {
        self.pricing.percent_off
    }

    /// How many tokens are in the pool, open claims not taken off.
    pub fn pool_len(&self) -> (n: u32)
        requires
            self.wf(),
        ensures
            n == self@.raffle.pool.len(),
    {
        self.raffle.len()
    }

    /// How many tokens the pool has given out.
    pub fn drawn_count(&self) -> (n: u32)
        requires
            self.wf(),
        ensures
            n == self@.raffle.drawn.len(),
    {
        self.raffle.drawn_count()
    }

    /// How many claims are open.
    pub fn pending_tokens(&self) -> (n: u32)
        requires
            self.wf(),
        ensures
            n == self@.pending.len(),
    {
        proof {
            self.raffle.lemma_wf_view();
        }
        let open: usize = self.pending.len();
        open as u32
    }

    /// Whether a claim is open under `handle`.
    pub fn is_pending(&self, handle: u64) -> (open: bool)
        requires
            self.wf(),
        ensures
            open == self@.pending.contains(handle),
    {
        self.pending.is_open(handle)
    }

    /// Whether a further claim can get a handle: the counter of handles has
    /// not reached the end of `u64`.
    pub fn can_create_linkdrop(&self) -> (ok: bool)
        ensures
            ok == (self@.next_handle < u64::MAX),
    {
        self.pending.can_reserve()
    }

    /// Whether `account` is on the list of the premint.
    pub fn is_whitelisted(&self, account: &String) -> (listed: bool)
        requires
            self.wf(),
        ensures
            listed == self@.whitelist.contains_key(account@),
    {
        self.whitelist.contains_key(account)
    }

    /// The mark of `account` on the list of the premint: whether it has
    /// minted in the premint. `None` where it is not on the list.
    pub fn whitelist_mark(&self, account: &String) -> (mark: Option<bool>)
        requires
            self.wf(),
        ensures
            mark == (if self@.whitelist.contains_key(account@) {
                Some(self@.whitelist[account@])
            } else {
                None
            }),
    {
        self.whitelist.get(account)
    }

    /// Takes the sale apart, for a host that stores it between calls.
    pub fn into_parts(self) -> (parts: ContractParts)
        requires
            self.wf(),
        ensures
            parts.valid(),
            parts@ == self@,
    {
        proof {
            self.raffle.lemma_wf_view();
        }
        let ghost before = self@;
        let whitelist = self.whitelist.entries();
        let (open_claims, next_handle) = self.pending.into_parts();
        let (slots, len) = self.raffle.into_parts();
        let parts = ContractParts {
            owner_id: self.owner_id,
            slots,
            len,
            open_claims,
            next_handle,
            pricing: self.pricing,
            whitelist,
            phase: self.phase,
            sale_enabled: self.sale_enabled,
        };
        proof {
            parts.open_claims@.unique_seq_to_set();
            assert(parts@ =~= before);
        }
        parts
    }

    /// Puts a sale together from its parts. Gives nothing where the parts
    /// do not make a sale that is in order.
    pub fn from_parts(parts: ContractParts) -> (r: Option<Contract>)
        ensures
            match r {
                Some(contract) => parts.valid() && contract.wf() && contract@ == parts@,
                None => !parts.valid(),
            },
    {
        let ghost view = parts@;
        if !parts.pricing.is_valid() {
            return None;
        }
        let claims: usize = parts.open_claims.len();
        if claims > 0xffff_ffff || (claims as u32) > parts.len {
            return None;
        }
        let ghost handles = parts.open_claims@;
        let raffle = match Raffle::from_parts(parts.slots, parts.len) {
            Some(raffle) => raffle,
            None => {
                return None;
            },
        };
        let pending = match PendingClaims::from_parts(parts.open_claims, parts.next_handle) {
            Some(pending) => pending,
            None => {
                return None;
            },
        };
        let contract = Contract {
            owner_id: parts.owner_id,
            raffle,
            pending,
            pricing: parts.pricing,
            whitelist: Whitelist::from_entries(parts.whitelist),
            phase: parts.phase,
            sale_enabled: parts.sale_enabled,
        };
        proof {
            handles.unique_seq_to_set();
            contract.raffle.lemma_wf_view();
            contract.pending.lemma_handles();
            assert(contract@ =~= view);
        }
        Some(contract)
    }
}

} // verus!
