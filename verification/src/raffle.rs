//! The pool of token numbers that have not been given out.
//!
//! A pool of size `n` starts with the numbers `0..n` in order. A draw picks a
//! place among the numbers that are left, moves the last of them into that
//! place and shortens the pool by one: constant work, and no number comes
//! out twice.
use vstd::prelude::*;
use crate::error::MintError;

verus! {

/// A pool as mathematics sees it: the numbers still to be had, in their
/// places, and the numbers given out, first drawn first.
#[verifier::ext_equal]
pub struct RaffleView {
    pub pool: Seq<u32>,
    pub drawn: Seq<u32>,
}

impl RaffleView {
    /// A pool of `size` numbers from which nothing has been drawn.
    pub open spec fn fresh(size: nat) -> RaffleView {
        RaffleView { pool: Seq::new(size, |i: int| i as u32), drawn: Seq::empty() }
    }

    /// How many numbers the pool was made with.
    pub open spec fn size(self) -> nat {
        self.pool.len() + self.drawn.len()
    }

    /// Every number is below the size and stands in one place only.
    pub open spec fn wf(self) -> bool {
        &&& self.size() <= u32::MAX
        &&& forall|i: int| 0 <= i < self.pool.len() ==> (#[trigger] self.pool[i]) < self.size()
        &&& forall|i: int| 0 <= i < self.drawn.len() ==> (#[trigger] self.drawn[i]) < self.size()
        &&& self.pool.no_duplicates()
        &&& self.drawn.no_duplicates()
        &&& forall|i: int, j: int|
            0 <= i < self.pool.len() && 0 <= j < self.drawn.len() ==> (#[trigger] self.pool[i])
                != (#[trigger] self.drawn[j])
    }

    /// The place that `random` picks among the numbers that are left.
    pub open spec fn pick(self, random: u64) -> int
        recommends
            self.pool.len() > 0,
    {
        random as int % self.pool.len() as int
    }

    /// The number that a draw with `random` gives out.
    pub open spec fn drawn_id(self, random: u64) -> u32
        recommends
            self.pool.len() > 0,
    {
        self.pool[self.pick(random)]
    }

    /// The pool after a draw with `random`: the last number takes the place
    /// of the one that leaves. An empty pool stays as it is.
    pub open spec fn draw(self, random: u64) -> RaffleView {
        if self.pool.len() == 0 {
            self
        } else {
            RaffleView {
                pool: self.pool.update(self.pick(random), self.pool.last()).drop_last(),
                drawn: self.drawn.push(self.drawn_id(random)),
            }
        }
    }

    /// The pool after one draw for each of `randoms`, in their order.
    pub open spec fn draw_each(self, randoms: Seq<u64>) -> RaffleView
        decreases randoms.len(),
    {
        if randoms.len() == 0 {
            self
        } else {
            self.draw_each(randoms.drop_last()).draw(randoms.last())
        }
    }
}

/// A draw keeps every number in one place only, and adds the number it
/// gives out to those given out before.
pub proof fn law_draw_keeps_numbers_apart(v: RaffleView, random: u64)
    requires
        v.wf(),
    ensures
        v.draw(random).wf(),
        v.draw(random).size() == v.size(),
        v.pool.len() > 0 ==> v.draw(random).pool.len() == v.pool.len() - 1,
        v.pool.len() > 0 ==> !v.drawn.contains(v.drawn_id(random)),
{
    if v.pool.len() > 0 {
        let after = v.draw(random);
        let at = v.pick(random);
        let id = v.pool[at];
        assert(0 <= at < v.pool.len());
        assert forall|i: int| 0 <= i < after.pool.len() implies after.pool[i] == (if i == at {
            v.pool.last()
        } else {
            v.pool[i]
        }) by {}
        assert forall|i: int, j: int|
            0 <= i < after.pool.len() && 0 <= j < after.pool.len() && i != j implies after.pool[i]
            != after.pool[j] by {
            let from_i = if i == at { v.pool.len() - 1 } else { i };
            let from_j = if j == at { v.pool.len() - 1 } else { j };
            assert(after.pool[i] == v.pool[from_i]);
            assert(after.pool[j] == v.pool[from_j]);
        }
        assert forall|i: int, j: int|
            0 <= i < after.drawn.len() && 0 <= j < after.drawn.len() && i != j implies after.drawn[i]
            != after.drawn[j] by {
            if i == v.drawn.len() {
                assert(after.drawn[j] == v.drawn[j]);
            } else if j == v.drawn.len() {
                assert(after.drawn[i] == v.drawn[i]);
            } else {
                assert(after.drawn[i] == v.drawn[i]);
                assert(after.drawn[j] == v.drawn[j]);
            }
        }
        assert forall|i: int, j: int|
            0 <= i < after.pool.len() && 0 <= j < after.drawn.len() implies after.pool[i]
            != after.drawn[j] by {
            let from_i = if i == at { v.pool.len() - 1 } else { i };
            assert(after.pool[i] == v.pool[from_i]);
            if j == v.drawn.len() {
                assert(after.drawn[j] == v.pool[at]);
            } else {
                assert(after.drawn[j] == v.drawn[j]);
            }
        }
        assert forall|i: int| 0 <= i < after.pool.len() implies (#[trigger] after.pool[i])
            < after.size() by {
            let from_i = if i == at { v.pool.len() - 1 } else { i };
            assert(after.pool[i] == v.pool[from_i]);
        }
        assert forall|i: int| 0 <= i < after.drawn.len() implies (#[trigger] after.drawn[i])
            < after.size() by {
            if i == v.drawn.len() {
                assert(after.drawn[i] == v.pool[at]);
            } else {
                assert(after.drawn[i] == v.drawn[i]);
            }
        }
        if v.drawn.contains(id) {
            let j = choose|j: int| 0 <= j < v.drawn.len() && v.drawn[j] == id;
            assert(v.pool[at] != v.drawn[j]);
        }
    }
}

/// However the draws fall, no number is given out twice: after a run of
/// draws every number still stands in one place only, the numbers given out
/// before the run come first among those given out, and each draw has
/// taken one number as long as any was left.
pub proof fn law_draws_never_repeat(v: RaffleView, randoms: Seq<u64>)
    requires
        v.wf(),
    ensures
        v.draw_each(randoms).wf(),
        v.draw_each(randoms).drawn.no_duplicates(),
        v.draw_each(randoms).size() == v.size(),
        v.draw_each(randoms).drawn.len() == v.drawn.len() + if randoms.len() <= v.pool.len() {
            randoms.len()
        } else {
            v.pool.len()
        },
        v.draw_each(randoms).drawn.subrange(0, v.drawn.len() as int) == v.drawn,
    decreases randoms.len(),
{
    if randoms.len() == 0 {
        assert(v.drawn.subrange(0, v.drawn.len() as int) =~= v.drawn);
    } else {
        let before = v.draw_each(randoms.drop_last());
        law_draws_never_repeat(v, randoms.drop_last());
        law_draw_keeps_numbers_apart(before, randoms.last());
        let after = before.draw(randoms.last());
        assert(after.drawn.subrange(0, v.drawn.len() as int) =~= before.drawn.subrange(
            0,
            v.drawn.len() as int,
        ));
    }
}

/// The numbers below `size`, as a set: there are `size` of them.
proof fn lemma_numbers_below(size: nat)
    requires
        size <= u32::MAX,
    ensures
        Set::new(|id: u32| id < size).finite(),
        Set::new(|id: u32| id < size).len() == size,
    decreases size,
{
    if size == 0 {
        assert(Set::new(|id: u32| id < size) =~= Set::<u32>::empty());
    } else {
        let fewer = (size - 1) as nat;
        lemma_numbers_below(fewer);
        assert(Set::new(|id: u32| id < fewer).insert(fewer as u32) =~= Set::new(
            |id: u32| id < size,
        ));
    }
}

/// From a new pool of `size` numbers, `size` draws give out each of the
/// numbers `0..size` exactly once, however the draws fall, and leave the
/// pool empty: a further draw finds nothing.
pub proof fn law_full_run_gives_every_number_once(size: nat, randoms: Seq<u64>, further: u64)
    requires
        size <= u32::MAX,
        randoms.len() == size,
    ensures
        RaffleView::fresh(size).draw_each(randoms).pool.len() == 0,
        RaffleView::fresh(size).draw_each(randoms).drawn.len() == size,
        RaffleView::fresh(size).draw_each(randoms).drawn.no_duplicates(),
        RaffleView::fresh(size).draw_each(randoms).drawn.to_set() == Set::new(
            |id: u32| id < size,
        ),
        RaffleView::fresh(size).draw_each(randoms).draw(further) == RaffleView::fresh(
            size,
        ).draw_each(randoms),
{
    let start = RaffleView::fresh(size);
    assert(start.wf());
    law_draws_never_repeat(start, randoms);
    let end = start.draw_each(randoms);
    let given = end.drawn.to_set();
    let all = Set::new(|id: u32| id < size);
    lemma_numbers_below(size);
    end.drawn.unique_seq_to_set();
    vstd::seq_lib::seq_to_set_is_finite(end.drawn);
    assert(given.subset_of(all)) by {
        assert forall|id: u32| given.contains(id) implies all.contains(id) by {
            let j = choose|j: int| 0 <= j < end.drawn.len() && end.drawn[j] == id;
            assert(end.drawn[j] < end.size());
        }
    }
    vstd::set_lib::lemma_subset_equality(given, all);
}

/// Whether `slots` and `len` describe a pool: the first `len` numbers are
/// still to be had, the others were given out, last drawn first, and every
/// number below the count of slots stands in one slot only.
pub open spec fn slots_describe_pool(slots: Seq<u32>, len: u32) -> bool {
    &&& len <= slots.len()
    &&& slots.len() <= u32::MAX
    &&& forall|i: int| 0 <= i < slots.len() ==> (#[trigger] slots[i]) < slots.len()
    &&& slots.no_duplicates()
}

/// The pool that `slots` and `len` describe.
pub open spec fn pool_of_slots(slots: Seq<u32>, len: u32) -> RaffleView {
    RaffleView {
        pool: slots.subrange(0, len as int),
        drawn: Seq::new((slots.len() - len) as nat, |k: int| slots[slots.len() - 1 - k]),
    }
}

/// Slots describe a pool exactly where the pool they stand for is in order.
proof fn lemma_slots_and_pool(slots: Seq<u32>, len: u32)
    requires
        len <= slots.len(),
        slots.len() <= u32::MAX,
    ensures
        slots_describe_pool(slots, len) <==> pool_of_slots(slots, len).wf(),
{
    let v = pool_of_slots(slots, len);
    let n = slots.len() as int;
    if slots_describe_pool(slots, len) {
        assert forall|i: int, j: int|
            0 <= i < v.drawn.len() && 0 <= j < v.drawn.len() && i != j implies v.drawn[i]
            != v.drawn[j] by {
            assert(v.drawn[i] == slots[n - 1 - i]);
            assert(v.drawn[j] == slots[n - 1 - j]);
        }
        assert forall|i: int, j: int|
            0 <= i < v.pool.len() && 0 <= j < v.drawn.len() implies (#[trigger] v.pool[i]) != (
        #[trigger] v.drawn[j]) by {
            assert(v.pool[i] == slots[i]);
            assert(v.drawn[j] == slots[n - 1 - j]);
        }
    }
    if v.wf() {
        assert forall|i: int| 0 <= i < n implies (#[trigger] slots[i]) < n by {
            if i < len {
                assert(v.pool[i] == slots[i]);
            } else {
                assert(v.drawn[n - 1 - i] == slots[i]);
            }
        }
        assert forall|i: int, j: int| 0 <= i < n && 0 <= j < n && i != j implies slots[i]
            != slots[j] by {
            if i < len && j < len {
                assert(v.pool[i] == slots[i]);
                assert(v.pool[j] == slots[j]);
            } else if i < len {
                assert(v.pool[i] == slots[i]);
                assert(v.drawn[n - 1 - j] == slots[j]);
            } else if j < len {
                assert(v.pool[j] == slots[j]);
                assert(v.drawn[n - 1 - i] == slots[i]);
            } else {
                assert(v.drawn[n - 1 - i] == slots[i]);
                assert(v.drawn[n - 1 - j] == slots[j]);
            }
        }
    }
}

/// The pool itself.
pub struct Raffle {
    /// The numbers still to be had, then the numbers given out, last drawn
    /// first.
    slots: Vec<u32>,
    /// How many numbers are still to be had.
    len: u32,
}

impl View for Raffle {
    type V = RaffleView;

    closed spec fn view(&self) -> RaffleView {
        pool_of_slots(self.slots@, self.len)
    }
}

impl Raffle {
    /// The pool is in order: see `RaffleView::wf`.
    pub closed spec fn wf(&self) -> bool {
        &&& self.len <= self.slots@.len()
        &&& self.slots@.len() <= u32::MAX
        &&& self@.wf()
    }

    /// A pool that is in order has a view that is.
    pub proof fn lemma_wf_view(&self)
        requires
            self.wf(),
        ensures
            self@.wf(),
    {
    }

    /// A pool with the numbers `0..size`, none of them drawn.
    pub fn new(size: u32) -> (pool: Raffle)
        ensures
            pool.wf(),
            pool@ == RaffleView::fresh(size as nat),
    {
        let mut slots: Vec<u32> = Vec::new();
        let mut next: u32 = 0;
        while next < size
            invariant
                next <= size,
                slots@ =~= Seq::new(next as nat, |i: int| i as u32),
            decreases size - next,
        {
            slots.push(next);
            next = next + 1;
        }
        let pool = Raffle { slots, len: size };
        proof {
            assert(pool@.pool =~= RaffleView::fresh(size as nat).pool);
            assert(pool@.drawn =~= RaffleView::fresh(size as nat).drawn);
        }
        pool
    }

    /// How many numbers are still to be had.
    pub fn len(&self) -> (n: u32)
        requires
            self.wf(),
        ensures
            n == self@.pool.len(),
    {
        self.len
    }

    /// Whether every number has been given out.
    pub fn is_empty(&self) -> (empty: bool)
        requires
            self.wf(),
        ensures
            empty == (self@.pool.len() == 0),
    {
        self.len == 0
    }

    /// How many numbers the pool was made with.
    pub fn size(&self) -> (n: u32)
        requires
            self.wf(),
        ensures
            n == self@.size(),
    {
        self.slots.len() as u32
    }

    /// How many numbers have been given out.
    pub fn drawn_count(&self) -> (n: u32)
        requires
            self.wf(),
        ensures
            n == self@.drawn.len(),
    {
        self.slots.len() as u32 - self.len
    }

    /// Gives out the number in the place that `random` picks and closes the
    /// gap with the last number. Fails on an empty pool, which it leaves as
    /// it is.
    pub fn draw(&mut self, random: u64) -> (r: Result<u32, MintError>)
        requires
            old(self).wf(),
        ensures
            final(self).wf(),
            final(self)@ == old(self)@.draw(random),
            match r {
                Ok(id) => old(self)@.pool.len() > 0 && id == old(self)@.drawn_id(random),
                Err(e) => old(self)@.pool.len() == 0 && e == MintError::PoolExhausted,
            },
    {
        if self.len == 0 {
            return Err(MintError::PoolExhausted);
        }
        let at: usize = (random % (self.len as u64)) as usize;
        let last: usize = (self.len - 1) as usize;
        let id: u32 = self.slots[at];
        let moved: u32 = self.slots[last];
        self.slots.set(at, moved);
        self.slots.set(last, id);
        self.len = self.len - 1;
        proof {
            let before = old(self)@;
            assert(final(self)@.pool =~= before.draw(random).pool);
            assert(final(self)@.drawn =~= before.draw(random).drawn);
            law_draw_keeps_numbers_apart(before, random);
        }
        Ok(id)
    }

    /// Replaces the pool by a new one of `new_size` numbers, none of them
    /// drawn. Fails, and changes nothing, where `new_size` is below the
    /// count of numbers already given out.
    pub fn resize(&mut self, new_size: u32) -> (r: Result<(), MintError>)
        requires
            old(self).wf(),
        ensures
            final(self).wf(),
            match r {
                Ok(()) => new_size >= old(self)@.drawn.len() && final(self)@ == RaffleView::fresh(
                    new_size as nat,
                ),
                Err(e) => new_size < old(self)@.drawn.len() && e == MintError::InvalidResize
                    && final(self)@ == old(self)@,
            },
    {
        if new_size < self.drawn_count() {
            return Err(MintError::InvalidResize);
        }
        *self = Raffle::new(new_size);
        Ok(())
    }

    /// Takes the pool apart, for a host that stores it: its slots and the
    /// count of numbers still to be had.
    pub fn into_parts(self) -> (parts: (Vec<u32>, u32))
        requires
            self.wf(),
        ensures
            slots_describe_pool(parts.0@, parts.1),
            pool_of_slots(parts.0@, parts.1) == self@,
    {
        proof {
            lemma_slots_and_pool(self.slots@, self.len);
        }
        (self.slots, self.len)
    }

    /// Puts a pool together from its slots and the count of numbers still
    /// to be had. Gives nothing where they do not describe a pool.
    pub fn from_parts(slots: Vec<u32>, len: u32) -> (r: Option<Raffle>)
        ensures
            match r {
                Some(pool) => slots_describe_pool(slots@, len) && pool.wf() && pool@
                    == pool_of_slots(slots@, len),
                None => !slots_describe_pool(slots@, len),
            },
    {
        let n: usize = slots.len();
        if n > 0xffff_ffff || (len as usize) > n {
            return None;
        }
        let mut seen: Vec<bool> = Vec::new();
        let mut filled: usize = 0;
        while filled < n
            invariant
                filled <= n,
                seen@.len() == filled,
                forall|v: int| 0 <= v < filled ==> !(#[trigger] seen@[v]),
            decreases n - filled,
        {
            seen.push(false);
            filled = filled + 1;
        }
        let mut i: usize = 0;
        while i < n
            invariant
                n == slots@.len(),
                seen@.len() == n,
                i <= n,
                forall|j: int| 0 <= j < i ==> (#[trigger] slots@[j]) < n,
                forall|a: int, b: int| 0 <= a < i && 0 <= b < i && a != b ==> slots@[a] != slots@[b],
                forall|v: int|
                    0 <= v < n ==> ((#[trigger] seen@[v]) <==> exists|j: int|
                        0 <= j < i && slots@[j] == v),
            decreases n - i,
        {
            let id: u32 = slots[i];
            if (id as usize) >= n {
                return None;
            }
            if seen[id as usize] {
                proof {
                    let j = choose|j: int| 0 <= j < i && slots@[j] == id as int;
                    assert(slots@[j] == slots@[i as int]);
                }
                return None;
            }
            let ghost before = seen@;
            seen.set(id as usize, true);
            proof {
                assert forall|v: int| 0 <= v < n implies ((#[trigger] seen@[v]) <==> exists|j: int|
                    0 <= j < i + 1 && slots@[j] == v) by {
                    if v == id as int {
                        assert(slots@[i as int] == v);
                    } else {
                        assert(seen@[v] == before[v]);
                        if before[v] {
                            let j = choose|j: int| 0 <= j < i && slots@[j] == v;
                            assert(0 <= j < i + 1 && slots@[j] == v);
                        }
                        if exists|j: int| 0 <= j < i + 1 && slots@[j] == v {
                            let j = choose|j: int| 0 <= j < i + 1 && slots@[j] == v;
                            assert(j != i);
                            assert(0 <= j < i && slots@[j] == v);
                        }
                    }
                }
                assert forall|a: int, b: int|
                    0 <= a < i + 1 && 0 <= b < i + 1 && a != b implies slots@[a] != slots@[b] by {
                    if a == i {
                        if slots@[b] == slots@[a] {
                            assert(0 <= b < i && slots@[b] == id as int);
                            assert(before[id as int]);
                        }
                    } else if b == i {
                        if slots@[a] == slots@[b] {
                            assert(0 <= a < i && slots@[a] == id as int);
                            assert(before[id as int]);
                        }
                    }
                }
            }
            i = i + 1;
        }
        proof {
            assert(slots_describe_pool(slots@, len));
            lemma_slots_and_pool(slots@, len);
        }
        Some(Raffle { slots, len })
    }
}

} // verus!
