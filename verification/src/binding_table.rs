//! A table of session bindings that can be searched by session and walked by entry.

use vstd::hash_map::StringHashMap;
use vstd::prelude::*;

verus! {

/// The credential that a session is bound to, until a time.
#[derive(Clone, Copy, Debug, PartialEq, Eq, Structural)]
pub struct Binding {
    pub credential_id: u64,
    pub expires_at: i128,
}

impl Binding {
    /// A binding holds until the time at which it expires, and no longer at that time.
    pub open spec fn live_at(self, now: int) -> bool {
        self.expires_at > now
    }

    /// Whether the binding still holds at `now`.
    pub fn is_live(&self, now: i128) -> (live: bool)
        ensures
            live == self.live_at(now as int),
    {
        self.expires_at > now
    }
}

/// The bindings of `bindings` that hold at `now`.
pub open spec fn live_part(bindings: Map<Seq<char>, Binding>, now: int) -> Map<Seq<char>, Binding> {
    Map::new(
        |session: Seq<char>| bindings.contains_key(session) && bindings[session].live_at(now),
        |session: Seq<char>| bindings[session],
    )
}

/// No binding expires before that of `session`.
pub open spec fn is_earliest(bindings: Map<Seq<char>, Binding>, session: Seq<char>) -> bool {
    &&& bindings.contains_key(session)
    &&& forall|other: Seq<char>| #[trigger]
        bindings.contains_key(other) ==> bindings[session].expires_at <= bindings[other].expires_at
}

struct Entry {
    session: String,
    binding: Binding,
}

/// Bindings by session. The entries stand in a vector, and an index gives the place of each.
pub struct BindingTable {
    entries: Vec<Entry>,
    index: StringHashMap<usize>,
}

impl View for BindingTable {
    type V = Map<Seq<char>, Binding>;

    closed spec fn view(&self) -> Map<Seq<char>, Binding> {
        Map::new(
            |session: Seq<char>| self.index@.contains_key(session),
            |session: Seq<char>| self.entries@[self.index@[session] as int].binding,
        )
    }
}

impl BindingTable {
    /// The index lists each entry at its place and nothing else.
    pub closed spec fn wf(&self) -> bool {
        &&& forall|session: Seq<char>| #[trigger]
            self.index@.contains_key(session) ==> {
                &&& self.index@[session] < self.entries@.len()
                &&& self.entries@[self.index@[session] as int].session@ == session
            }
        &&& forall|i: int|
            0 <= i < self.entries@.len() ==> {
                &&& self.index@.contains_key((#[trigger] self.entries@[i]).session@)
                &&& self.index@[self.entries@[i].session@] == i
            }
    }

    /// There are as many bindings as entries.
    proof fn lemma_len(&self)
        requires
            self.wf(),
        ensures
            self@.dom().finite(),
            self@.len() == self.entries@.len(),
    {
        let sessions = Seq::new(self.entries@.len(), |i: int| self.entries@[i].session@);
        assert(sessions.no_duplicates()) by {
            assert forall|i: int, j: int|
                0 <= i < sessions.len() && 0 <= j < sessions.len() && i
                    != j implies sessions[i] != sessions[j] by {
                assert(self.index@[self.entries@[i].session@] == i);
                assert(self.index@[self.entries@[j].session@] == j);
            }
        }
        assert(sessions.to_set() =~= self@.dom()) by {
            assert forall|session: Seq<char>| self@.dom().contains(session) implies
                sessions.to_set().contains(session) by {
                let i = self.index@[session] as int;
                assert(sessions[i] == session);
            }
            assert forall|session: Seq<char>| sessions.to_set().contains(session) implies
                self@.dom().contains(session) by {
                let i = choose|i: int| 0 <= i < sessions.len() && sessions[i] == session;
                assert(self.index@.contains_key(self.entries@[i].session@));
            }
        }
        sessions.unique_seq_to_set();
    }

    /// An empty table.
    pub fn new() -> (table: BindingTable)
        ensures
            table.wf(),
            table@ == Map::<Seq<char>, Binding>::empty(),
    {
        let table = BindingTable { entries: Vec::new(), index: StringHashMap::new() };
        assert(table@ =~= Map::<Seq<char>, Binding>::empty());
        table
    }

    /// The number of bindings.
    pub fn len(&self) -> (n: usize)
        requires
            self.wf(),
        ensures
            self@.dom().finite(),
            n == self@.len(),
    {
        proof {
            self.lemma_len();
        }
        self.entries.len()
    }

    /// The binding of `session`.
    pub fn get(&self, session: &str) -> (binding: Option<Binding>)
        requires
            self.wf(),
        ensures
            binding == self@.get(session@),
    {
        match self.index.get(session) {
            Some(i) => Some(self.entries[*i].binding),
            None => None,
        }
    }

    /// Binds `session`, in place of the binding that it may have.
    pub fn insert(&mut self, session: &str, binding: Binding)
        requires
            old(self).wf(),
        ensures
            final(self).wf(),
            final(self)@ == old(self)@.insert(session@, binding),
    {
        let place = match self.index.get(session) {
            Some(i) => Some(*i),
            None => None,
        };
        match place {
            Some(i) => {
                self.entries[i].binding = binding;
            },
            None => {
                let i = self.entries.len();
                self.entries.push(Entry { session: session.to_owned(), binding });
                self.index.insert(session.to_owned(), i);
            },
        }
        assert(self@ =~= old(self)@.insert(session@, binding));
    }

    /// Takes out the entry at `i`. The last entry takes its place.
    fn remove_at(&mut self, i: usize)
        requires
            old(self).wf(),
            i < old(self).entries@.len(),
        ensures
            final(self).wf(),
            final(self)@ == old(self)@.remove(old(self).entries@[i as int].session@),
            final(self).entries@ == old(self).entries@.update(
                i as int,
                old(self).entries@.last(),
            ).drop_last(),
    {
        let removed = self.entries.swap_remove(i);
        self.index.remove(removed.session.as_str());
        if i < self.entries.len() {
            self.index.insert(self.entries[i].session.clone(), i);
        }
        assert(self@ =~= old(self)@.remove(removed.session@));
    }

    /// Takes out the binding of `session`, if it has one.
    pub fn remove(&mut self, session: &str)
        requires
            old(self).wf(),
        ensures
            final(self).wf(),
            final(self)@ == old(self)@.remove(session@),
    {
        let place = match self.index.get(session) {
            Some(i) => Some(*i),
            None => None,
        };
        match place {
            Some(i) => {
                self.remove_at(i);
            },
            None => {
                assert(self@ =~= old(self)@.remove(session@));
            },
        }
    }

    /// Takes out the bindings that no longer hold at `now`.
    pub fn retain_live(&mut self, now: i128)
        requires
            old(self).wf(),
        ensures
            final(self).wf(),
            final(self)@ == live_part(old(self)@, now as int),
    {
        let mut i: usize = 0;
        while i < self.entries.len()
            invariant
                self.wf(),
                i <= self.entries@.len(),
                forall|j: int|
                    0 <= j < i ==> (#[trigger] self.entries@[j]).binding.live_at(now as int),
                live_part(self@, now as int) == live_part(old(self)@, now as int),
            decreases self.entries@.len() - i,
        {
            let ghost before = self@;
            if self.entries[i].binding.is_live(now) {
                i = i + 1;
            } else {
                let ghost session = self.entries@[i as int].session@;
                self.remove_at(i);
                assert(live_part(self@, now as int) =~= live_part(before, now as int)) by {
                    assert(before.contains_key(session) && !before[session].live_at(now as int));
                }
            }
        }
        assert(self@ =~= live_part(self@, now as int)) by {
            assert forall|session: Seq<char>| self@.contains_key(session) implies
                self@[session].live_at(now as int) by {
                let place = self.index@[session] as int;
                assert(self.entries@[place].binding.live_at(now as int));
            }
        }
    }

    /// Takes out a binding that expires no later than any other.
    pub fn evict_earliest(&mut self)
        requires
            old(self).wf(),
            old(self)@.len() > 0,
        ensures
            final(self).wf(),
            exists|victim: Seq<char>| #[trigger]
                is_earliest(old(self)@, victim) && final(self)@ == old(self)@.remove(victim),
    {
        proof {
            self.lemma_len();
        }
        let mut least: usize = 0;
        let mut i: usize = 1;
        while i < self.entries.len()
            invariant
                self.entries@ == old(self).entries@,
                least < i <= self.entries@.len(),
                forall|j: int|
                    0 <= j < i ==> self.entries@[least as int].binding.expires_at <= (
                    #[trigger] self.entries@[j]).binding.expires_at,
            decreases self.entries@.len() - i,
        {
            if self.entries[i].binding.expires_at < self.entries[least].binding.expires_at {
                least = i;
            }
            i = i + 1;
        }
        let ghost victim = self.entries@[least as int].session@;
        assert(is_earliest(old(self)@, victim)) by {
            assert forall|other: Seq<char>| #[trigger] old(self)@.contains_key(other) implies
                old(self)@[victim].expires_at <= old(self)@[other].expires_at by {
                let place = old(self).index@[other] as int;
                assert(old(self).entries@[place].session@ == other);
            }
        }
        self.remove_at(least);
    }

    /// The number of bindings that hold at `now`.
    pub fn count_live(&self, now: i128) -> (n: usize)
        requires
            self.wf(),
        ensures
            n == live_part(self@, now as int).len(),
            n <= self@.len(),
    {
        proof {
            self.lemma_len();
        }
        let mut n: usize = 0;
        let mut i: usize = 0;
        let ghost mut seen: Set<Seq<char>> = Set::empty();
        while i < self.entries.len()
            invariant
                self.wf(),
                self@.len() == self.entries@.len(),
                n <= i <= self.entries@.len(),
                seen.finite(),
                seen.len() == n,
                forall|session: Seq<char>| #[trigger]
                    seen.contains(session) <==> {
                        &&& self@.contains_key(session)
                        &&& self.index@[session] < i
                        &&& self@[session].live_at(now as int)
                    },
            decreases self.entries@.len() - i,
        {
            let ghost session = self.entries@[i as int].session@;
            if self.entries[i].binding.is_live(now) {
                proof {
                    assert(!seen.contains(session));
                    seen = seen.insert(session);
                }
                n = n + 1;
            }
            i = i + 1;
            assert forall|other: Seq<char>| #[trigger] seen.contains(other) <==> {
                &&& self@.contains_key(other)
                &&& self.index@[other] < i
                &&& self@[other].live_at(now as int)
            } by {
                if self@.contains_key(other) && self.index@[other] == i - 1 {
                    assert(other == session);
                }
            }
        }
        assert(seen =~= live_part(self@, now as int).dom());
        n
    }
}

} // verus!
