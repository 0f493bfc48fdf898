//! A set of calendar identifiers.
use vstd::prelude::*;

use crate::text;

verus! {

/// Some calendars, by their identifiers.
#[derive(Debug)]
pub struct UidSet {
    /// The identifiers, each of them once.
    uids: Vec<String>,
}

impl View for UidSet {
    type V = Set<Seq<char>>;

    closed spec fn view(&self) -> Set<Seq<char>> {
        text::texts(self.uids@).to_set()
    }
}

impl UidSet {
    /// Whether no identifier is held twice.
    pub closed spec fn wf(self) -> bool {
        text::texts(self.uids@).no_duplicates()
    }

    /// The set without any calendar.
    pub fn new() -> (s: UidSet)
        ensures
            s.wf(),
            s@ == Set::<Seq<char>>::empty(),
    {
        let s = UidSet { uids: Vec::new() };
        assert(text::texts(s.uids@) =~= Seq::<Seq<char>>::empty());
        assert(s@ =~= Set::<Seq<char>>::empty());
        s
    }

    /// Where the identifier is held.
    fn position(&self, uid: &String) -> (at: Option<usize>)
        ensures
            at matches Some(i) ==> i < self.uids@.len() && self.uids@[i as int]@ == uid@
                && self@.contains(uid@),
            at is None ==> !self@.contains(uid@),
    {
        let ghost all = text::texts(self.uids@);
        let mut i: usize = 0;
        while i < self.uids.len()
            invariant
                i <= self.uids@.len(),
                all == text::texts(self.uids@),
                forall|k: int| 0 <= k < i ==> #[trigger] all[k] != uid@,
            decreases self.uids@.len() - i,
        {
            if self.uids[i] == *uid {
                assert(all[i as int] == uid@);
                return Some(i);
            }
            i += 1;
        }
        None
    }

    /// Whether the set holds the calendar.
    pub fn contains(&self, uid: &String) -> (b: bool)
        ensures
            b == self@.contains(uid@),
    {
        self.position(uid).is_some()
    }

    /// Adds a calendar; says whether it was not there before.
    pub fn insert(&mut self, uid: String) -> (added: bool)
        requires
            old(self).wf(),
        ensures
            final(self).wf(),
            final(self)@ == old(self)@.insert(uid@),
            added == !old(self)@.contains(uid@),
    {
        let ghost before = text::texts(self.uids@);
        if self.contains(&uid) {
            assert(self@ =~= old(self)@.insert(uid@));
            return false;
        }
        proof {
            text::lemma_texts_push(self.uids@, uid);
        }
        self.uids.push(uid);
        proof {
            let after = text::texts(self.uids@);
            assert(after == before.push(uid@));
            assert forall|u: Seq<char>| #[trigger] after.to_set().contains(u) <==> before.to_set().insert(
                uid@,
            ).contains(u) by {
                if after.contains(u) {
                    let k = choose|k: int| 0 <= k < after.len() && after[k] == u;
                    if k < before.len() {
                        assert(before[k] == u);
                    }
                }
                if before.contains(u) {
                    let k = choose|k: int| 0 <= k < before.len() && before[k] == u;
                    assert(after[k] == u);
                }
                assert(after[before.len() as int] == uid@);
            }
            assert(self@ =~= old(self)@.insert(uid@));
            assert forall|i: int, j: int|
                0 <= i < after.len() && 0 <= j < after.len() && i != j implies after[i]
                != after[j] by {
                if i < before.len() && j < before.len() {
                    assert(before[i] != before[j]);
                } else if i < before.len() {
                    assert(before.contains(before[i]));
                } else {
                    assert(before.contains(before[j]));
                }
            }
        }
        true
    }

    /// Takes a calendar out; says whether it was there.
    pub fn remove(&mut self, uid: &String) -> (removed: bool)
        requires
            old(self).wf(),
        ensures
            final(self).wf(),
            final(self)@ == old(self)@.remove(uid@),
            removed == old(self)@.contains(uid@),
    {
        let ghost before = text::texts(self.uids@);
        match self.position(uid) {
            Some(at) => {
                self.uids.remove(at);
                proof {
                    let after = text::texts(self.uids@);
                    assert(after =~= before.remove(at as int));
                    assert forall|u: Seq<char>| #[trigger]
                        after.to_set().contains(u) <==> before.to_set().remove(uid@).contains(u) by {
                        if after.contains(u) {
                            let k = choose|k: int| 0 <= k < after.len() && after[k] == u;
                            let from = if k < at {
                                k
                            } else {
                                k + 1
                            };
                            assert(before[from] == u);
                            assert(before[at as int] != before[from]);
                        }
                        if before.contains(u) && u != uid@ {
                            let k = choose|k: int| 0 <= k < before.len() && before[k] == u;
                            let to = if k < at {
                                k
                            } else {
                                k - 1
                            };
                            assert(after[to] == u);
                        }
                    }
                    assert(self@ =~= old(self)@.remove(uid@));
                    assert forall|i: int, j: int|
                        0 <= i < after.len() && 0 <= j < after.len() && i != j implies after[i]
                        != after[j] by {
                        let a = if i < at {
                            i
                        } else {
                            i + 1
                        };
                        let b = if j < at {
                            j
                        } else {
                            j + 1
                        };
                        assert(before[a] != before[b]);
                    }
                }
                true
            },
            None => {
                assert(self@ =~= old(self)@.remove(uid@));
                false
            },
        }
    }

    /// How many calendars there are in the set.
    pub fn len(&self) -> (n: usize)
        requires
            self.wf(),
        ensures
            n == self@.len(),
    {
        proof {
            text::texts(self.uids@).unique_seq_to_set();
        }
        self.uids.len()
    }
}

} // verus!
