//! The accounts that may mint during the premint.
//!
//! Each account on the list carries a mark that says whether it has minted
//! in the premint. The owner puts accounts on the list without the mark; a
//! mint in the premint puts the signer on it with the mark.
use vstd::prelude::*;

verus! {

/// One account on the list.
#[derive(Clone, Debug, PartialEq, Eq)]
pub struct Entry {
    /// The account.
    pub account: String,
    /// Whether it has minted in the premint.
    pub claimed: bool,
}

/// The list as a map, built entry by entry: a later entry for an account
/// would replace an earlier one.
pub open spec fn entries_map(entries: Seq<Entry>) -> Map<Seq<char>, bool>
    decreases entries.len(),
{
    if entries.len() == 0 {
        Map::empty()
    } else {
        entries_map(entries.drop_last()).insert(entries.last().account@, entries.last().claimed)
    }
}

/// No account has two entries.
pub open spec fn accounts_differ(entries: Seq<Entry>) -> bool {
    forall|i: int, j: int|
        0 <= i < entries.len() && 0 <= j < entries.len() && i != j ==> (
        #[trigger] entries[i]).account@ != (#[trigger] entries[j]).account@
}

/// The map holds exactly the accounts of the entries, and where no account
/// has two entries, each with its own mark.
proof fn lemma_entries_map(entries: Seq<Entry>)
    ensures
        forall|account: Seq<char>| #[trigger]
            entries_map(entries).contains_key(account) <==> exists|i: int|
                0 <= i < entries.len() && (#[trigger] entries[i]).account@ == account,
        accounts_differ(entries) ==> forall|i: int|
            0 <= i < entries.len() ==> entries_map(entries)[(#[trigger] entries[i]).account@]
                == entries[i].claimed,
    decreases entries.len(),
{
    if entries.len() > 0 {
        let front = entries.drop_last();
        let last = entries.last();
        lemma_entries_map(front);
        assert forall|account: Seq<char>| #[trigger]
            entries_map(entries).contains_key(account) implies exists|i: int|
            0 <= i < entries.len() && (#[trigger] entries[i]).account@ == account by {
            if account == last.account@ {
                assert(entries[entries.len() - 1].account@ == account);
            } else {
                assert(entries_map(front).contains_key(account));
                let i = choose|i: int| 0 <= i < front.len() && (#[trigger] front[i]).account@ == account;
                assert(entries[i].account@ == account);
            }
        }
        assert forall|account: Seq<char>|
            (exists|i: int| 0 <= i < entries.len() && (#[trigger] entries[i]).account@ == account)
            implies #[trigger] entries_map(entries).contains_key(account) by {
            let i = choose|i: int| 0 <= i < entries.len() && (#[trigger] entries[i]).account@ == account;
            if i < front.len() {
                assert(front[i].account@ == account);
                assert(entries_map(front).contains_key(account));
            }
        }
        if accounts_differ(entries) {
            assert(accounts_differ(front)) by {
                assert forall|i: int, j: int|
                    0 <= i < front.len() && 0 <= j < front.len() && i != j implies (
                #[trigger] front[i]).account@ != (#[trigger] front[j]).account@ by {
                    assert(front[i] == entries[i]);
                    assert(front[j] == entries[j]);
                }
            }
            assert forall|i: int| 0 <= i < entries.len() implies entries_map(entries)[(
            #[trigger] entries[i]).account@] == entries[i].claimed by {
                if i < front.len() {
                    assert(front[i] == entries[i]);
                    assert(entries[i].account@ != entries[entries.len() - 1].account@);
                }
            }
        }
    }
}

/// The list of accounts.
pub struct Whitelist {
    entries: Vec<Entry>,
}

impl View for Whitelist {
    type V = Map<Seq<char>, bool>;

    closed spec fn view(&self) -> Map<Seq<char>, bool> {
        entries_map(self.entries@)
    }
}

impl Whitelist {
    /// No account stands on the list twice.
    pub closed spec fn wf(&self) -> bool {
        accounts_differ(self.entries@)
    }

    /// A list with nobody on it.
    pub fn new() -> (list: Whitelist)
        ensures
            list.wf(),
            list@ == Map::<Seq<char>, bool>::empty(),
    {
        Whitelist { entries: Vec::new() }
    }

    /// Where `account` stands in the list, if it does.
    fn position(&self, account: &String) -> (at: Option<usize>)
        requires
            self.wf(),
        ensures
            match at {
                Some(i) => i < self.entries@.len() && self.entries@[i as int].account@ == account@
                    && self@.contains_key(account@) && self@[account@]
                    == self.entries@[i as int].claimed,
                None => !self@.contains_key(account@),
            },
    {
        let mut i: usize = 0;
        while i < self.entries.len()
            invariant
                self.wf(),
                i <= self.entries@.len(),
                forall|j: int| 0 <= j < i ==> (#[trigger] self.entries@[j]).account@ != account@,
            decreases self.entries@.len() - i,
        {
            if self.entries[i].account == *account {
                proof {
                    lemma_entries_map(self.entries@);
                    assert(self.entries@[i as int].account@ == account@);
                    assert(entries_map(self.entries@).contains_key(account@));
                }
                return Some(i);
            }
            i = i + 1;
        }
        proof {
            lemma_entries_map(self.entries@);
        }
        None
    }

    /// Whether `account` is on the list.
    pub fn contains_key(&self, account: &String) -> (found: bool)
        requires
            self.wf(),
        ensures
            found == self@.contains_key(account@),
    {
        self.position(account).is_some()
    }

    /// The mark of `account`, if it is on the list.
    pub fn get(&self, account: &String) -> (mark: Option<bool>)
        requires
            self.wf(),
        ensures
            mark == (if self@.contains_key(account@) {
                Some(self@[account@])
            } else {
                None
            }),
    {
        match self.position(account) {
            Some(i) => Some(self.entries[i].claimed),
            None => None,
        }
    }

    /// Puts `account` on the list with the mark `claimed`, in place of the
    /// mark it had if it was there. Returns the mark it had.
    pub fn insert(&mut self, account: String, claimed: bool) -> (previous: Option<bool>)
        requires
            old(self).wf(),
        ensures
            final(self).wf(),
            final(self)@ == old(self)@.insert(account@, claimed),
            previous == (if old(self)@.contains_key(account@) {
                Some(old(self)@[account@])
            } else {
                None
            }),
    {
        let ghost key = account@;
        match self.position(&account) {
            Some(i) => {
                let previous = self.entries[i].claimed;
                self.entries.set(i, Entry { account, claimed });
                proof {
                    let before = old(self).entries@;
                    let after = final(self).entries@;
                    assert forall|a: int, b: int|
                        0 <= a < after.len() && 0 <= b < after.len() && a != b implies (
                    #[trigger] after[a]).account@ != (#[trigger] after[b]).account@ by {
                        assert(after[a].account@ == before[a].account@);
                        assert(after[b].account@ == before[b].account@);
                    }
                    lemma_entries_map(before);
                    lemma_entries_map(after);
                    assert forall|k: Seq<char>|
                        entries_map(after).contains_key(k) <==> #[trigger] entries_map(
                            before,
                        ).insert(key, claimed).contains_key(k) by {
                        if entries_map(after).contains_key(k) {
                            let a = choose|a: int|
                                0 <= a < after.len() && (#[trigger] after[a]).account@ == k;
                            assert(before[a].account@ == k);
                        }
                        if entries_map(before).contains_key(k) {
                            let a = choose|a: int|
                                0 <= a < before.len() && (#[trigger] before[a]).account@ == k;
                            assert(after[a].account@ == k);
                        }
                        if k == key {
                            assert(after[i as int].account@ == k);
                        }
                    }
                    assert forall|k: Seq<char>| #[trigger]
                        entries_map(after).contains_key(k) implies entries_map(after)[k]
                        == entries_map(before).insert(key, claimed)[k] by {
                        let a = choose|a: int|
                            0 <= a < after.len() && (#[trigger] after[a]).account@ == k;
                        assert(entries_map(after)[after[a].account@] == after[a].claimed);
                        if a != i {
                            assert(before[a].account@ == k);
                            assert(before[a].account@ != before[i as int].account@);
                            assert(entries_map(before)[before[a].account@] == before[a].claimed);
                        }
                    }
                    assert(entries_map(after) =~= entries_map(before).insert(key, claimed));
                }
                Some(previous)
            },
            None => {
                self.entries.push(Entry { account, claimed });
                proof {
                    let before = old(self).entries@;
                    let after = final(self).entries@;
                    lemma_entries_map(before);
                    assert(after.drop_last() =~= before);
                    assert forall|a: int, b: int|
                        0 <= a < after.len() && 0 <= b < after.len() && a != b implies (
                    #[trigger] after[a]).account@ != (#[trigger] after[b]).account@ by {
                        if a < before.len() {
                            assert(after[a] == before[a]);
                        }
                        if b < before.len() {
                            assert(after[b] == before[b]);
                        }
                    }
                }
                None
            },
        }
    }

    /// The accounts on the list with their marks, for a host that stores
    /// them: one entry for each account.
    pub fn entries(&self) -> (entries: Vec<Entry>)
        requires
            self.wf(),
        ensures
            accounts_differ(entries@),
            entries_map(entries@) == self@,
    {
        let mut entries: Vec<Entry> = Vec::new();
        let mut i: usize = 0;
        while i < self.entries.len()
            invariant
                i <= self.entries@.len(),
                entries@.len() == i,
                forall|j: int|
                    0 <= j < i ==> (#[trigger] entries@[j]).account@ == self.entries@[j].account@
                        && entries@[j].claimed == self.entries@[j].claimed,
            decreases self.entries@.len() - i,
        {
            let entry = &self.entries[i];
            entries.push(Entry { account: entry.account.clone(), claimed: entry.claimed });
            i = i + 1;
        }
        proof {
            lemma_same_entries(entries@, self.entries@);
            assert forall|a: int, b: int|
                0 <= a < entries@.len() && 0 <= b < entries@.len() && a != b implies (
            #[trigger] entries@[a]).account@ != (#[trigger] entries@[b]).account@ by {
                assert(self.entries@[a].account@ != self.entries@[b].account@);
            }
        }
        entries
    }

    /// Puts a list together from entries, in their order: where an account
    /// has two, the later one counts.
    pub fn from_entries(entries: Vec<Entry>) -> (list: Whitelist)
        ensures
            list.wf(),
            list@ == entries_map(entries@),
    {
        let mut list = Whitelist::new();
        let mut entries = entries;
        let ghost all = entries@;
        let total: usize = entries.len();
        let mut rest: Vec<Entry> = Vec::new();
        // Turn the entries round, to take them from the end in their order.
        while entries.len() > 0
            invariant
                all.len() == total,
                entries@.len() + rest@.len() == all.len(),
                forall|j: int| 0 <= j < entries@.len() ==> entries@[j] == all[j],
                forall|j: int| 0 <= j < rest@.len() ==> rest@[j] == all[all.len() - 1 - j],
            decreases entries@.len(),
        {
            match entries.pop() {
                Some(entry) => {
                    rest.push(entry);
                },
                None => {},
            }
        }
        let mut done: usize = 0;
        while rest.len() > 0
            invariant
                list.wf(),
                all.len() == total,
                done + rest@.len() == all.len(),
                forall|j: int| 0 <= j < rest@.len() ==> rest@[j] == all[all.len() - 1 - j],
                list@ == entries_map(all.take(done as int)),
            decreases rest@.len(),
        {
            match rest.pop() {
                Some(entry) => {
                    proof {
                        assert(entry == all[done as int]);
                        assert(all.take(done + 1).drop_last() =~= all.take(done as int));
                        assert(all.take(done + 1).last() == all[done as int]);
                    }
                    list.insert(entry.account, entry.claimed);
                    done = done + 1;
                },
                None => {},
            }
        }
        proof {
            assert(all.take(all.len() as int) =~= all);
        }
        list
    }
}

/// Entries that agree place by place in account and mark make the same map.
proof fn lemma_same_entries(a: Seq<Entry>, b: Seq<Entry>)
    requires
        a.len() == b.len(),
        forall|j: int|
            0 <= j < a.len() ==> (#[trigger] a[j]).account@ == b[j].account@ && a[j].claimed
                == b[j].claimed,
    ensures
        entries_map(a) == entries_map(b),
    decreases a.len(),
{
    if a.len() > 0 {
        assert forall|j: int| 0 <= j < a.drop_last().len() implies (#[trigger] a.drop_last()[j]).account@
            == b.drop_last()[j].account@ && a.drop_last()[j].claimed == b.drop_last()[j].claimed by {
            assert(a.drop_last()[j] == a[j]);
            assert(b.drop_last()[j] == b[j]);
        }
        lemma_same_entries(a.drop_last(), b.drop_last());
        assert(a.last() == a[a.len() - 1]);
    }
}

} // verus!
