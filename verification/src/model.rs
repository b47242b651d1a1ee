//! The sale as mathematics sees it: the state, what one call brings with it,
//! and for each operation when it is turned down and what it leaves behind.
//!
//! The operations of `Contract` are stated against the functions of this
//! module, and the laws of the sale are proved of them here.
use vstd::prelude::*;
use crate::error::MintError;
use crate::pricing::Pricing;
use crate::raffle::RaffleView;
use crate::raffle::law_draw_keeps_numbers_apart;
use crate::raffle::law_draws_never_repeat;

verus! {

/// How many tokens one account may hold while the premint runs.
pub const PREMINT_LIMIT_PER_ACCOUNT: u64 = 2;

/// The premint admits no mint once this many tokens exist.
pub const PREMINT_SUPPLY_CAP: u128 = 1500;

/// The gas handed to the registration of a key.
pub const GAS_REQUIRED_FOR_LINKDROP: u64 = 40_000_000_000_000;

/// The gas handed to the answer that follows the registration.
pub const GAS_REQUIRED_TO_CREATE_LINKDROP: u64 = 20_000_000_000_000;

/// Where the sale stands. It moves forward only: from `NotStarted` to
/// `Restricted` (the premint), from there to `Open`.
#[derive(Clone, Copy, Debug, PartialEq, Eq, Structural)]
pub enum Phase {
    NotStarted,
    Restricted,
    Open,
}

impl Phase {
    /// The place of a phase in the order of the sale.
    pub open spec fn rank(self) -> nat {
        match self {
            Phase::NotStarted => 0,
            Phase::Restricted => 1,
            Phase::Open => 2,
        }
    }

    /// The phase that the two marks of a new sale stand for: a running
    /// premint wins over a finished one.
    pub open spec fn from_marks(is_premint: bool, is_premint_over: bool) -> Phase {
        if is_premint {
            Phase::Restricted
        } else if is_premint_over {
            Phase::Open
        } else {
            Phase::NotStarted
        }
    }
}

/// What the host reports about one call.
#[derive(Clone, Debug, PartialEq, Eq)]
pub struct Context {
    /// Who signed the call.
    pub signer: String,
    /// What was attached to it.
    pub attached_deposit: u128,
    /// The random number of the block.
    pub random: u64,
    /// How many tokens the signer holds already.
    pub tokens_held: u64,
    /// How many tokens exist already.
    pub total_supply: u128,
}

/// A token to be issued.
#[derive(Clone, Debug, PartialEq, Eq)]
pub struct Token {
    /// Its number.
    pub token_id: u32,
    /// Who gets it.
    pub owner_id: String,
    /// Who gets back what the storage deposit leaves over, if anybody.
    pub refund_to: Option<String>,
}

impl Token {
    /// The token has this number, this holder and this account for refunds.
    pub open spec fn is_for(&self, id: u32, owner: Seq<char>, refund: Option<Seq<char>>) -> bool {
        &&& self.token_id == id
        &&& self.owner_id@ == owner
        &&& account_view(self.refund_to) == refund
    }
}

/// What becomes of the deposit of a mint once the storage is paid for.
#[derive(Clone, Debug, PartialEq, Eq)]
pub struct Settlement {
    /// What the storage taken by the mint costs; it stays with the sale.
    pub storage_cost: u128,
    /// What is left of the deposit.
    pub amount: u128,
    /// Whether `amount` is split among those with a share in first sales;
    /// otherwise it goes to the owner.
    pub to_royalties: bool,
    /// The owner of the sale.
    pub owner_id: String,
}

/// A key to be registered for a claim.
#[derive(Clone, Debug, PartialEq, Eq)]
pub struct LinkdropRequest {
    /// The handle under which the answer will come.
    pub handle: u64,
    /// The key.
    pub public_key: Vec<u8>,
    /// The funds that go with the registration and with its answer.
    pub deposit: u128,
    /// The gas for the registration.
    pub gas: u64,
    /// The gas for its answer.
    pub callback_gas: u64,
}

/// Funds to be sent back.
#[derive(Clone, Debug, PartialEq, Eq)]
pub struct Refund {
    /// Who gets them.
    pub account: String,
    /// How much.
    pub amount: u128,
}

/// `count` draws with one and the same random number.
pub open spec fn same_random(random: u64, count: nat) -> Seq<u64> {
    Seq::new(count, |i: int| random)
}

/// An account that may be missing, as mathematics sees it.
pub open spec fn account_view(account: Option<String>) -> Option<Seq<char>> {
    match account {
        Some(name) => Some(name@),
        None => None,
    }
}

/// What `storage_used` bytes cost at `storage_byte_cost` each.
pub open spec fn spec_storage_cost(storage_byte_cost: u128, storage_used: u64) -> nat {
    (storage_byte_cost as nat) * (storage_used as nat)
}

/// The state of the sale.
#[verifier::ext_equal]
pub struct ContractView {
    /// The owner.
    pub owner_id: Seq<char>,
    /// The pool of token numbers.
    pub raffle: RaffleView,
    /// The handles of the claims that are open.
    pub pending: Set<u64>,
    /// The handle that the next claim gets.
    pub next_handle: u64,
    /// The price.
    pub pricing: Pricing,
    /// The accounts on the list of the premint, each with its mark.
    pub whitelist: Map<Seq<char>, bool>,
    /// Where the sale stands.
    pub phase: Phase,
    /// Whether others than the owner may mint at all.
    pub sale_enabled: bool,
}

impl ContractView {
    /// What every operation keeps: the pool is in order, a token is left for
    /// every open claim, every open handle has been given out, and the
    /// prices fit.
    pub open spec fn wf(self) -> bool {
        &&& self.raffle.wf()
        &&& self.pending.finite()
        &&& self.pending.len() <= self.raffle.pool.len()
        &&& forall|handle: u64| #[trigger] self.pending.contains(handle) ==> handle < self.next_handle
        &&& self.pricing.wf()
    }

    /// A sale on which nothing has happened yet.
    pub open spec fn initial(
        owner_id: Seq<char>,
        size: u32,
        pricing: Pricing,
        sale_enabled: bool,
        is_premint: bool,
        is_premint_over: bool,
    ) -> ContractView {
        ContractView {
            owner_id,
            raffle: RaffleView::fresh(size as nat),
            pending: Set::empty(),
            next_handle: 0,
            pricing,
            whitelist: Map::empty(),
            phase: Phase::from_marks(is_premint, is_premint_over),
            sale_enabled,
        }
    }

    /// The tokens that can still be asked for: those in the pool that no
    /// open claim is waiting for.
    pub open spec fn tokens_left(self) -> int {
        self.raffle.pool.len() - self.pending.len()
    }

    /// Whether the call comes from the owner.
    pub open spec fn is_owner(self, ctx: Context) -> bool {
        ctx.signer@ == self.owner_id
    }

    /// Why a call that only the owner may make is turned down, if it is.
    pub open spec fn owner_error(self, ctx: Context) -> Option<MintError> {
        if self.is_owner(ctx) {
            None
        } else {
            Some(MintError::NotOwner)
        }
    }

    /// Why the premint cannot start, if it cannot.
    pub open spec fn start_premint_error(self, ctx: Context) -> Option<MintError> {
        if !self.is_owner(ctx) {
            Some(MintError::NotOwner)
        } else {
            match self.phase {
                Phase::NotStarted => None,
                Phase::Restricted => Some(MintError::AlreadyStarted),
                Phase::Open => Some(MintError::AlreadyFinished),
            }
        }
    }

    /// The sale once the premint has started.
    pub open spec fn after_start_premint(self) -> ContractView {
        ContractView { phase: Phase::Restricted, ..self }
    }

    /// Why the premint cannot end, if it cannot.
    pub open spec fn end_premint_error(self, ctx: Context) -> Option<MintError> {
        if !self.is_owner(ctx) {
            Some(MintError::NotOwner)
        } else {
            match self.phase {
                Phase::NotStarted => Some(MintError::SaleNotOpen),
                Phase::Restricted => None,
                Phase::Open => Some(MintError::AlreadyFinished),
            }
        }
    }

    /// The sale once the premint has ended: no discount any more, and one
    /// price for base and floor.
    pub open spec fn after_end_premint(self) -> ContractView {
        ContractView {
            phase: Phase::Open,
            pricing: Pricing {
                percent_off: 0,
                base_cost: self.pricing.after_sale_cost,
                min_cost: self.pricing.after_sale_cost,
                ..self.pricing
            },
            ..self
        }
    }

    /// Why the pool cannot be replaced by one of `new_size`, if it cannot.
    pub open spec fn update_size_error(self, ctx: Context, new_size: u32) -> Option<MintError> {
        if !self.is_owner(ctx) {
            Some(MintError::NotOwner)
        } else if new_size < self.raffle.drawn.len() || new_size < self.pending.len() {
            Some(MintError::InvalidResize)
        } else {
            None
        }
    }

    /// The sale with a new pool of `new_size`.
    pub open spec fn after_update_size(self, new_size: u32) -> ContractView {
        ContractView { raffle: RaffleView::fresh(new_size as nat), ..self }
    }

    /// The sale with `account` on the list, not marked.
    pub open spec fn after_add_whitelist_account(self, account: Seq<char>) -> ContractView {
        ContractView { whitelist: self.whitelist.insert(account, false), ..self }
    }

    /// The sale with new prices; the charge for storage and the price of a
    /// key stay.
    pub open spec fn after_update_pricing(
        self,
        base_cost: u128,
        min_cost: u128,
        after_sale_cost: u128,
        percent_off: u8,
    ) -> ContractView {
        ContractView {
            pricing: Pricing { base_cost, min_cost, after_sale_cost, percent_off, ..self.pricing },
            ..self
        }
    }

    /// The sale in the hands of `new_owner`.
    pub open spec fn after_transfer_ownership(self, new_owner: Seq<char>) -> ContractView {
        ContractView { owner_id: new_owner, ..self }
    }

    /// Why a mint of `num` tokens is turned down, if it is. The first reason
    /// in this order counts:
    /// while the premint runs, the signer would hold more than two tokens,
    /// or holds some and is not on the list, or the premint's share exists
    /// already; before the premint, the signer is not the owner; fewer than
    /// `num` tokens are left; and for others than the owner, the sale is
    /// switched off, or the deposit is below the total.
    pub open spec fn mint_error(self, ctx: Context, num: u32) -> Option<MintError> {
        if self.phase == Phase::Restricted && ctx.tokens_held + num > PREMINT_LIMIT_PER_ACCOUNT {
            Some(MintError::PerAccountLimitExceeded)
        } else if self.phase == Phase::Restricted && !self.whitelist.contains_key(ctx.signer@)
            && ctx.tokens_held != 0 {
            Some(MintError::NotAllowListed)
        } else if self.phase == Phase::Restricted && ctx.total_supply >= PREMINT_SUPPLY_CAP {
            Some(MintError::RestrictedCapExceeded)
        } else if self.phase == Phase::NotStarted && !self.is_owner(ctx) {
            Some(MintError::SaleNotOpen)
        } else if self.tokens_left() < num {
            Some(MintError::InsufficientSupply)
        } else if self.is_owner(ctx) {
            None
        } else if !self.sale_enabled {
            Some(MintError::SaleUnavailable)
        } else if ctx.attached_deposit < self.pricing.spec_total_cost(num as nat) {
            Some(MintError::InsufficientFunds)
        } else {
            None
        }
    }

    /// The sale after a mint of `num` tokens: one draw for each, all with the
    /// random number of the call, and during the premint the signer on the
    /// list, marked.
    pub open spec fn after_mint(self, ctx: Context, num: u32) -> ContractView {
        ContractView {
            raffle: self.raffle.draw_each(same_random(ctx.random, num as nat)),
            whitelist: if self.phase == Phase::Restricted {
                self.whitelist.insert(ctx.signer@, true)
            } else {
                self.whitelist
            },
            ..self
        }
    }

    /// The numbers that a mint of `num` tokens gives out, in the order of
    /// the draws.
    pub open spec fn minted_ids(self, ctx: Context, num: u32) -> Seq<u32> {
        self.after_mint(ctx, num).raffle.drawn.subrange(
            self.raffle.drawn.len() as int,
            self.raffle.drawn.len() + num,
        )
    }

    /// Why a claim cannot be sent off, if it cannot: for the reasons of a
    /// mint of one token, or because the deposit of another than the owner
    /// is below the price of a claim.
    pub open spec fn linkdrop_error(self, ctx: Context) -> Option<MintError> {
        match self.mint_error(ctx, 1) {
            Some(e) => Some(e),
            None => if !self.is_owner(ctx) && ctx.attached_deposit
                < self.pricing.spec_cost_of_linkdrop() {
                Some(MintError::InsufficientFunds)
            } else {
                None
            },
        }
    }

    /// The sale with one more open claim, under the next handle.
    pub open spec fn after_create_linkdrop(self) -> ContractView {
        ContractView {
            pending: self.pending.insert(self.next_handle),
            next_handle: (self.next_handle + 1) as u64,
            ..self
        }
    }

    /// Why the answer to a registration is turned down, if it is: it reports
    /// a failure for a claim that is not open.
    pub open spec fn send_callback_error(self, handle: u64, succeeded: bool) -> Option<MintError> {
        if !succeeded && !self.pending.contains(handle) {
            Some(MintError::UnknownReservation)
        } else {
            None
        }
    }

    /// The sale after the answer to a registration: a failure closes the
    /// claim, a success leaves it open until the key is used.
    pub open spec fn after_send_callback(self, handle: u64, succeeded: bool) -> ContractView {
        if succeeded {
            self
        } else {
            ContractView { pending: self.pending.remove(handle), ..self }
        }
    }

    /// Why the use of a key is turned down, if it is: what went before it
    /// failed, or no claim is open under the handle.
    pub open spec fn link_callback_error(self, handle: u64, succeeded: bool) -> Option<MintError> {
        if !succeeded || !self.pending.contains(handle) {
            Some(MintError::UnknownReservation)
        } else {
            None
        }
    }

    /// The sale after the use of a key: the claim is closed and a token
    /// drawn for it.
    pub open spec fn after_link_callback(self, ctx: Context, handle: u64) -> ContractView {
        ContractView {
            pending: self.pending.remove(handle),
            raffle: self.raffle.draw(ctx.random),
            ..self
        }
    }

    /// Who gets back what the storage deposit of a claimed token leaves
    /// over: the owner while the sale is switched on, else nobody.
    pub open spec fn link_refund_account(self) -> Option<Seq<char>> {
        if self.sale_enabled {
            Some(self.owner_id)
        } else {
            None
        }
    }
}

/// One call of an operation that can change the sale, with what the host
/// reports about it.
pub enum Operation {
    AddWhitelistAccount { ctx: Context, account: Seq<char> },
    UpdateSize { ctx: Context, new_size: u32 },
    StartPremint { ctx: Context },
    EndPremint { ctx: Context },
    UpdatePricing {
        ctx: Context,
        base_cost: u128,
        min_cost: u128,
        after_sale_cost: u128,
        percent_off: u8,
    },
    TransferOwnership { ctx: Context, new_owner: Seq<char> },
    Mint { ctx: Context, num: u32 },
    CreateLinkdrop { ctx: Context },
    OnSendWithCallback { handle: u64, succeeded: bool },
    LinkCallback { ctx: Context, handle: u64, succeeded: bool },
}

impl ContractView {
    /// The sale after one call: what the operation leaves behind, or the
    /// sale as it was where the call is turned down.
    pub open spec fn step(self, op: Operation) -> ContractView {
        match op {
            Operation::AddWhitelistAccount { ctx, account } => if self.owner_error(ctx) is None {
                self.after_add_whitelist_account(account)
            } else {
                self
            },
            Operation::UpdateSize { ctx, new_size } => if self.update_size_error(ctx, new_size)
                is None {
                self.after_update_size(new_size)
            } else {
                self
            },
            Operation::StartPremint { ctx } => if self.start_premint_error(ctx) is None {
                self.after_start_premint()
            } else {
                self
            },
            Operation::EndPremint { ctx } => if self.end_premint_error(ctx) is None {
                self.after_end_premint()
            } else {
                self
            },
            Operation::UpdatePricing { ctx, base_cost, min_cost, after_sale_cost, percent_off } => if self.owner_error(
                ctx,
            ) is None && self.after_update_pricing(
                base_cost,
                min_cost,
                after_sale_cost,
                percent_off,
            ).pricing.wf() {
                self.after_update_pricing(base_cost, min_cost, after_sale_cost, percent_off)
            } else {
                self
            },
            Operation::TransferOwnership { ctx, new_owner } => if self.owner_error(ctx) is None {
                self.after_transfer_ownership(new_owner)
            } else {
                self
            },
            Operation::Mint { ctx, num } => if self.mint_error(ctx, num) is None {
                self.after_mint(ctx, num)
            } else {
                self
            },
            Operation::CreateLinkdrop { ctx } => if self.linkdrop_error(ctx) is None
                && self.next_handle < u64::MAX {
                self.after_create_linkdrop()
            } else {
                self
            },
            Operation::OnSendWithCallback { handle, succeeded } => if self.send_callback_error(
                handle,
                succeeded,
            ) is None {
                self.after_send_callback(handle, succeeded)
            } else {
                self
            },
            Operation::LinkCallback { ctx, handle, succeeded } => if self.link_callback_error(
                handle,
                succeeded,
            ) is None {
                self.after_link_callback(ctx, handle)
            } else {
                self
            },
        }
    }

    /// The sale after a run of calls, in their order.
    pub open spec fn run(self, ops: Seq<Operation>) -> ContractView
        decreases ops.len(),
    {
        if ops.len() == 0 {
            self
        } else {
            self.run(ops.drop_last()).step(ops.last())
        }
    }
}

/// A mint that is let through takes exactly as many numbers out of the pool
/// as were asked for.
pub proof fn law_mint_takes_what_was_asked(v: ContractView, ctx: Context, num: u32)
    requires
        v.wf(),
        v.mint_error(ctx, num) is None,
    ensures
        v.after_mint(ctx, num).raffle.wf(),
        v.after_mint(ctx, num).raffle.pool.len() == v.raffle.pool.len() - num,
        v.after_mint(ctx, num).raffle.drawn.len() == v.raffle.drawn.len() + num,
        v.after_mint(ctx, num).tokens_left() == v.tokens_left() - num,
        v.minted_ids(ctx, num).len() == num,
        v.minted_ids(ctx, num).no_duplicates(),
        forall|k: int|
            0 <= k < num ==> !v.raffle.drawn.contains(#[trigger] v.minted_ids(ctx, num)[k]),
{
    let randoms = same_random(ctx.random, num as nat);
    law_draws_never_repeat(v.raffle, randoms);
    let after = v.raffle.draw_each(randoms);
    let base = v.raffle.drawn.len() as int;
    let ids = v.minted_ids(ctx, num);
    assert forall|i: int, j: int| 0 <= i < ids.len() && 0 <= j < ids.len() && i != j implies ids[i]
        != ids[j] by {
        assert(ids[i] == after.drawn[base + i]);
        assert(ids[j] == after.drawn[base + j]);
    }
    assert forall|k: int| 0 <= k < num implies !v.raffle.drawn.contains(#[trigger] ids[k]) by {
        if v.raffle.drawn.contains(ids[k]) {
            let j = choose|j: int| 0 <= j < v.raffle.drawn.len() && v.raffle.drawn[j] == ids[k];
            assert(after.drawn.subrange(0, base)[j] == after.drawn[j]);
            assert(ids[k] == after.drawn[base + k]);
        }
    }
}

/// Every operation leaves the sale in order. With that, the tokens that can
/// be asked for are always the tokens in the pool less the open claims, and
/// never fewer than none.
pub proof fn law_step_keeps_order(v: ContractView, op: Operation)
    requires
        v.wf(),
    ensures
        v.step(op).wf(),
        v.step(op).tokens_left() == v.step(op).raffle.pool.len() - v.step(op).pending.len(),
        v.step(op).tokens_left() >= 0,
{
    match op {
        Operation::Mint { ctx, num } => {
            if v.mint_error(ctx, num) is None {
                law_mint_takes_what_was_asked(v, ctx, num);
            }
        },
        Operation::UpdateSize { ctx, new_size } => {
            if v.update_size_error(ctx, new_size) is None {
                assert(RaffleView::fresh(new_size as nat).wf());
            }
        },
        Operation::CreateLinkdrop { ctx } => {
            if v.linkdrop_error(ctx) is None && v.next_handle < u64::MAX {
                assert(!v.pending.contains(v.next_handle));
            }
        },
        Operation::LinkCallback { ctx, handle, succeeded } => {
            if v.link_callback_error(handle, succeeded) is None {
                assert(v.pending.len() >= 1) by {
                    if v.pending.len() == 0 {
                        assert(v.pending =~= Set::empty());
                    }
                }
                law_draw_keeps_numbers_apart(v.raffle, ctx.random);
            }
        },
        _ => {},
    }
}

/// However dispatches, answers, purchases and the owner's calls follow one
/// another, the sale stays in order: the tokens that can be asked for are
/// the tokens in the pool less the open claims, and never fewer than none.
pub proof fn law_run_keeps_order(v: ContractView, ops: Seq<Operation>)
    requires
        v.wf(),
    ensures
        v.run(ops).wf(),
        v.run(ops).tokens_left() == v.run(ops).raffle.pool.len() - v.run(ops).pending.len(),
        v.run(ops).tokens_left() >= 0,
    decreases ops.len(),
{
    if ops.len() > 0 {
        law_run_keeps_order(v, ops.drop_last());
        law_step_keeps_order(v.run(ops.drop_last()), ops.last());
    }
}

/// One operation leaves the phase where it is or moves it one place on:
/// from before the premint into it, or out of it into the open sale.
pub proof fn law_step_moves_phase_forward(v: ContractView, op: Operation)
    ensures
        v.step(op).phase == v.phase || (v.phase == Phase::NotStarted && v.step(op).phase
            == Phase::Restricted) || (v.phase == Phase::Restricted && v.step(op).phase
            == Phase::Open),
        v.step(op).phase.rank() >= v.phase.rank(),
{
}

/// The phase never goes back, whatever is called.
pub proof fn law_phase_never_goes_back(v: ContractView, ops: Seq<Operation>)
    ensures
        v.run(ops).phase.rank() >= v.phase.rank(),
    decreases ops.len(),
{
    if ops.len() > 0 {
        law_phase_never_goes_back(v, ops.drop_last());
        law_step_moves_phase_forward(v.run(ops.drop_last()), ops.last());
    }
}

/// Once the premint has been started, the owner's next call to start it is
/// turned down as already started.
pub proof fn law_premint_starts_once(v: ContractView, first: Context, second: Context)
    requires
        v.start_premint_error(first) is None,
        v.is_owner(second),
    ensures
        v.after_start_premint().start_premint_error(second) == Some(MintError::AlreadyStarted),
{
}

/// Before the premint has started it cannot be ended, and once it has
/// ended it can neither be started nor ended again.
pub proof fn law_premint_ends_after_start_only(v: ContractView, ctx: Context)
    ensures
        v.phase == Phase::NotStarted ==> v.end_premint_error(ctx) is Some,
        v.phase == Phase::Open ==> v.end_premint_error(ctx) is Some && v.start_premint_error(ctx)
            is Some,
        v.end_premint_error(ctx) is None ==> v.phase == Phase::Restricted,
{
}

/// During the premint, whoever holds two tokens already is turned down for
/// going over the limit, whatever number of tokens is asked for.
pub proof fn law_premint_limit_per_account(v: ContractView, ctx: Context, num: u32)
    requires
        v.phase == Phase::Restricted,
        ctx.tokens_held >= PREMINT_LIMIT_PER_ACCOUNT,
        num >= 1,
    ensures
        v.mint_error(ctx, num) == Some(MintError::PerAccountLimitExceeded),
        v.linkdrop_error(ctx) == Some(MintError::PerAccountLimitExceeded),
{
}

/// During the premint, a mint is let through only while fewer tokens exist
/// than the premint's share, and leaves the signer with two at most. So the
/// count of tokens goes over the share in one case only, and then by one:
/// a mint of two tokens when one token is missing to the share.
pub proof fn law_premint_share(v: ContractView, ctx: Context, num: u32)
    requires
        v.phase == Phase::Restricted,
        v.mint_error(ctx, num) is None,
    ensures
        ctx.total_supply < PREMINT_SUPPLY_CAP,
        ctx.tokens_held + num <= PREMINT_LIMIT_PER_ACCOUNT,
        ctx.total_supply + num <= PREMINT_SUPPLY_CAP + 1,
        ctx.total_supply + num > PREMINT_SUPPLY_CAP <==> ctx.total_supply + 1
            == PREMINT_SUPPLY_CAP && num == 2,
{
}

/// A claim that is sent off takes one token out of those that can be asked
/// for, and nothing out of the pool.
pub proof fn law_claim_holds_one_token_back(v: ContractView, ctx: Context)
    requires
        v.wf(),
        v.linkdrop_error(ctx) is None,
        v.next_handle < u64::MAX,
    ensures
        v.after_create_linkdrop().tokens_left() == v.tokens_left() - 1,
        v.after_create_linkdrop().raffle == v.raffle,
        v.after_create_linkdrop().pending.contains(v.next_handle),
{
    assert(!v.pending.contains(v.next_handle));
}

/// A claim whose registration fails leaves the pool and the open claims as
/// they were before it was sent off.
pub proof fn law_failed_claim_gives_token_back(v: ContractView, ctx: Context)
    requires
        v.wf(),
        v.linkdrop_error(ctx) is None,
        v.next_handle < u64::MAX,
    ensures
        v.after_create_linkdrop().send_callback_error(v.next_handle, false) is None,
        v.after_create_linkdrop().after_send_callback(v.next_handle, false).pending
            == v.pending,
        v.after_create_linkdrop().after_send_callback(v.next_handle, false).raffle == v.raffle,
        v.after_create_linkdrop().after_send_callback(v.next_handle, false).tokens_left()
            == v.tokens_left(),
{
    assert(!v.pending.contains(v.next_handle));
    assert(v.pending.insert(v.next_handle).remove(v.next_handle) =~= v.pending);
}

/// A claim whose key is used takes exactly one token: one number leaves the
/// pool, the claim is closed, and one token fewer can be asked for than
/// before the claim was sent off. A second answer under the same handle is
/// turned down.
pub proof fn law_claim_counts_once(v: ContractView, ctx: Context, answer: Context)
    requires
        v.wf(),
        v.linkdrop_error(ctx) is None,
        v.next_handle < u64::MAX,
    ensures
        ({
            let sent = v.after_create_linkdrop();
            let used = sent.after_link_callback(answer, v.next_handle);
            &&& sent.link_callback_error(v.next_handle, true) is None
            &&& used.pending == v.pending
            &&& used.raffle == v.raffle.draw(answer.random)
            &&& used.raffle.pool.len() == v.raffle.pool.len() - 1
            &&& used.raffle.drawn == v.raffle.drawn.push(v.raffle.drawn_id(answer.random))
            &&& used.tokens_left() == v.tokens_left() - 1
            &&& used.link_callback_error(v.next_handle, true) == Some(
                MintError::UnknownReservation,
            )
            &&& used.send_callback_error(v.next_handle, false) == Some(
                MintError::UnknownReservation,
            )
        }),
{
    assert(!v.pending.contains(v.next_handle));
    assert(v.pending.insert(v.next_handle).remove(v.next_handle) =~= v.pending);
    law_draw_keeps_numbers_apart(v.raffle, answer.random);
}

} // verus!
