//! The claims that have been sent off and not yet answered.
//!
//! Every claim that is sent off gets a handle of its own, and a token is
//! held back for it until the answer comes. An answer names the handle; a
//! handle can be answered once.
use vstd::prelude::*;
use crate::error::MintError;

verus! {

/// Whether `open` and `next` describe open claims: no handle stands twice,
/// and each was given out before `next`.
pub open spec fn handles_describe_claims(open: Seq<u64>, next: u64) -> bool {
    &&& open.no_duplicates()
    &&& forall|i: int| 0 <= i < open.len() ==> (#[trigger] open[i]) < next
}

/// The open claims.
pub struct PendingClaims {
    /// The handles of the open claims.
    open: Vec<u64>,
    /// The handle that the next claim gets. Handles are never used again.
    next: u64,
}

impl PendingClaims {
    /// The handles of the open claims.
    pub closed spec fn handles(&self) -> Set<u64> {
        self.open@.to_set()
    }

    /// The handle that the next claim gets.
    pub closed spec fn next_handle(&self) -> u64 {
        self.next
    }

    /// How many claims are open.
    pub open spec fn count(&self) -> nat {
        self.handles().len()
    }

    /// No handle is open twice, and every open handle has been given out.
    pub closed spec fn wf(&self) -> bool {
        handles_describe_claims(self.open@, self.next)
    }

    /// The open handles are finitely many, and each was given out before the
    /// next one.
    pub proof fn lemma_handles(&self)
        requires
            self.wf(),
        ensures
            self.handles().finite(),
            forall|handle: u64| #[trigger]
                self.handles().contains(handle) ==> handle < self.next_handle(),
    {
        vstd::seq_lib::seq_to_set_is_finite(self.open@);
        assert forall|handle: u64| #[trigger] self.handles().contains(handle) implies handle
            < self.next by {
            let i = choose|i: int| 0 <= i < self.open@.len() && self.open@[i] == handle;
            assert(self.open@[i] < self.next);
        }
    }

    /// No claim is open.
    pub fn new() -> (claims: PendingClaims)
        ensures
            claims.wf(),
            claims.handles() == Set::<u64>::empty(),
            claims.next_handle() == 0,
            claims.count() == 0,
    {
        let claims = PendingClaims { open: Vec::new(), next: 0 };
        assert(claims.handles() =~= Set::<u64>::empty());
        claims
    }

    /// How many claims are open.
    pub fn len(&self) -> (n: usize)
        requires
            self.wf(),
        ensures
            n == self.count(),
    {
        proof {
            self.open@.unique_seq_to_set();
        }
        self.open.len()
    }

    /// Whether another handle can be given out: the counter has not reached
    /// the end of `u64`.
    pub fn can_reserve(&self) -> (ok: bool)
        ensures
            ok == (self.next_handle() < u64::MAX),
    {
        self.next < u64::MAX
    }

    /// Whether the claim with this handle is open.
    pub fn is_open(&self, handle: u64) -> (found: bool)
        requires
            self.wf(),
        ensures
            found == self.handles().contains(handle),
    {
        self.position(handle).is_some()
    }

    /// Where `handle` stands among the open ones, if it does.
    fn position(&self, handle: u64) -> (at: Option<usize>)
        ensures
            match at {
                Some(i) => i < self.open@.len() && self.open@[i as int] == handle,
                None => !self.handles().contains(handle),
            },
    {
        let mut i: usize = 0;
        while i < self.open.len()
            invariant
                i <= self.open@.len(),
                forall|j: int| 0 <= j < i ==> self.open@[j] != handle,
            decreases self.open@.len() - i,
        {
            if self.open[i] == handle {
                return Some(i);
            }
            i = i + 1;
        }
        None
    }

    /// Opens a claim and gives it the next handle.
    pub fn reserve(&mut self) -> (handle: u64)
        requires
            old(self).wf(),
            old(self).next_handle() < u64::MAX,
        ensures
            final(self).wf(),
            handle == old(self).next_handle(),
            !old(self).handles().contains(handle),
            final(self).handles() == old(self).handles().insert(handle),
            final(self).next_handle() == old(self).next_handle() + 1,
            final(self).count() == old(self).count() + 1,
    {
        let handle: u64 = self.next;
        proof {
            old(self).lemma_handles();
            old(self).open@.unique_seq_to_set();
        }
        self.open.push(handle);
        self.next = self.next + 1;
        proof {
            let before = old(self).open@;
            let after = final(self).open@;
            assert forall|i: int, j: int|
                0 <= i < after.len() && 0 <= j < after.len() && i != j implies after[i]
                != after[j] by {
                if i < before.len() {
                    assert(after[i] == before[i]);
                }
                if j < before.len() {
                    assert(after[j] == before[j]);
                }
            }
            assert forall|i: int| 0 <= i < after.len() implies (#[trigger] after[i])
                < final(self).next by {
                if i < before.len() {
                    assert(after[i] == before[i]);
                }
            }
            assert(after.to_set() =~= before.to_set().insert(handle)) by {
                assert forall|h: u64| after.to_set().contains(h) implies before.to_set().insert(
                    handle,
                ).contains(h) by {
                    let i = choose|i: int| 0 <= i < after.len() && after[i] == h;
                    if i < before.len() {
                        assert(before[i] == h);
                    }
                }
                assert forall|h: u64| before.to_set().insert(handle).contains(h) implies after.to_set().contains(
                    h,
                ) by {
                    if h == handle {
                        assert(after[before.len() as int] == h);
                    } else {
                        let i = choose|i: int| 0 <= i < before.len() && before[i] == h;
                        assert(after[i] == h);
                    }
                }
            }
            after.unique_seq_to_set();
        }
        handle
    }

    /// Closes the claim with this handle. Fails, and changes nothing, where
    /// no such claim is open.
    pub fn release(&mut self, handle: u64) -> (r: Result<(), MintError>)
        requires
            old(self).wf(),
        ensures
            final(self).wf(),
            final(self).next_handle() == old(self).next_handle(),
            match r {
                Ok(()) => old(self).handles().contains(handle) && final(self).handles() == old(
                    self,
                ).handles().remove(handle) && final(self).count() == old(self).count() - 1,
                Err(e) => !old(self).handles().contains(handle) && e
                    == MintError::UnknownReservation && final(self).handles() == old(
                    self,
                ).handles(),
            },
    {
        match self.position(handle) {
            None => Err(MintError::UnknownReservation),
            Some(at) => {
                self.open.swap_remove(at);
                proof {
                    let before = old(self).open@;
                    let after = final(self).open@;
                    let last = before.len() - 1;
                    assert(before[at as int] == handle);
                    assert(before.to_set().contains(handle));
                    assert forall|i: int| 0 <= i < after.len() implies after[i] == before[if i
                        == at {
                        last
                    } else {
                        i
                    }] by {}
                    assert forall|i: int, j: int|
                        0 <= i < after.len() && 0 <= j < after.len() && i != j implies after[i]
                        != after[j] by {
                        let from_i = if i == at { last } else { i };
                        let from_j = if j == at { last } else { j };
                        assert(after[i] == before[from_i]);
                        assert(after[j] == before[from_j]);
                    }
                    assert forall|i: int| 0 <= i < after.len() implies (#[trigger] after[i])
                        < final(self).next by {
                        let from_i = if i == at { last } else { i };
                        assert(after[i] == before[from_i]);
                    }
                    assert(after.to_set() =~= before.to_set().remove(handle)) by {
                        assert forall|h: u64| after.to_set().contains(h) implies before.to_set().remove(
                            handle,
                        ).contains(h) by {
                            let i = choose|i: int| 0 <= i < after.len() && after[i] == h;
                            let from_i = if i == at { last } else { i };
                            assert(before[from_i] == h);
                            assert(from_i != at);
                        }
                        assert forall|h: u64| before.to_set().remove(handle).contains(h) implies after.to_set().contains(
                            h,
                        ) by {
                            let i = choose|i: int| 0 <= i < before.len() && before[i] == h;
                            assert(i != at);
                            if i == last {
                                assert(after[at as int] == h);
                            } else {
                                assert(after[i] == h);
                            }
                        }
                    }
                    before.unique_seq_to_set();
                    after.unique_seq_to_set();
                }
                Ok(())
            },
        }
    }

    /// Takes the open claims apart, for a host that stores them: their
    /// handles and the handle that comes next.
    pub fn into_parts(self) -> (parts: (Vec<u64>, u64))
        requires
            self.wf(),
        ensures
            handles_describe_claims(parts.0@, parts.1),
            parts.0@.to_set() == self.handles(),
            parts.1 == self.next_handle(),
    {
        (self.open, self.next)
    }

    /// Puts open claims together from their handles and the handle that
    /// comes next. Gives nothing where a handle stands twice or was not
    /// given out before `next`.
    pub fn from_parts(open: Vec<u64>, next: u64) -> (r: Option<PendingClaims>)
        ensures
            match r {
                Some(claims) => handles_describe_claims(open@, next) && claims.wf()
                    && claims.handles() == open@.to_set() && claims.next_handle() == next,
                None => !handles_describe_claims(open@, next),
            },
    {
        let mut i: usize = 0;
        while i < open.len()
            invariant
                i <= open@.len(),
                forall|a: int| 0 <= a < i ==> (#[trigger] open@[a]) < next,
                forall|a: int, b: int| 0 <= a < i && 0 <= b < i && a != b ==> open@[a] != open@[b],
            decreases open@.len() - i,
        {
            if open[i] >= next {
                return None;
            }
            let mut j: usize = 0;
            while j < i
                invariant
                    j <= i,
                    i < open@.len(),
                    forall|b: int| 0 <= b < j ==> open@[b] != open@[i as int],
                decreases i - j,
            {
                if open[j] == open[i] {
                    return None;
                }
                j = j + 1;
            }
            i = i + 1;
        }
        Some(PendingClaims { open, next })
    }
}

} // verus!
