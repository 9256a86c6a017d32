//! The participant registry: one session record per active participant id.
//!
//! The registry is viewed as a finite map from id (a character sequence) to
//! [`ClientStatus`].  Entries are created when a session's first connection
//! is accepted and removed when a terminal action completes.

use vstd::prelude::*;

use crate::server::client_status::{ClientStatus, Operation};
use crate::text::str_eq;

verus! {

/// The map described by a sequence of key/status pairs; a later pair with
/// the same key overrides an earlier one.
pub open spec fn map_of(s: Seq<(String, ClientStatus)>) -> Map<Seq<char>, ClientStatus>
    decreases s.len(),
{
    if s.len() == 0 {
        Map::empty()
    } else {
        map_of(s.drop_last()).insert(s.last().0@, s.last().1)
    }
}

/// No two pairs carry the same key.
pub open spec fn unique_keys(s: Seq<(String, ClientStatus)>) -> bool {
    forall|i: int, j: int| 0 <= i < j < s.len() ==> s[i].0@ != s[j].0@
}

pub proof fn lemma_map_of_contains(s: Seq<(String, ClientStatus)>, k: Seq<char>)
    ensures
        map_of(s).contains_key(k) <==> exists|i: int| 0 <= i < s.len() && s[i].0@ == k,
    decreases s.len(),
{
    if s.len() > 0 {
        lemma_map_of_contains(s.drop_last(), k);
        if map_of(s).contains_key(k) {
            if s.last().0@ == k {
                assert(s[s.len() - 1].0@ == k);
            } else {
                let i = choose|i: int| 0 <= i < s.drop_last().len() && s.drop_last()[i].0@ == k;
                assert(s[i].0@ == k);
            }
        }
        if exists|i: int| 0 <= i < s.len() && s[i].0@ == k {
            let i = choose|i: int| 0 <= i < s.len() && s[i].0@ == k;
            if i < s.len() - 1 {
                assert(s.drop_last()[i].0@ == k);
            }
        }
    }
}

pub proof fn lemma_map_of_index(s: Seq<(String, ClientStatus)>, i: int)
    requires
        0 <= i < s.len(),
        forall|j: int| i < j < s.len() ==> s[j].0@ != s[i].0@,
    ensures
        map_of(s).contains_key(s[i].0@),
        map_of(s)[s[i].0@] == s[i].1,
    decreases s.len(),
{
    if i == s.len() - 1 {
        assert(s.last() == s[i]);
    } else {
        assert(s.drop_last()[i] == s[i]);
        lemma_map_of_index(s.drop_last(), i);
    }
}

pub proof fn lemma_map_of_remove(s: Seq<(String, ClientStatus)>, i: int)
    requires
        unique_keys(s),
        0 <= i < s.len(),
    ensures
        map_of(s.remove(i)) == map_of(s).remove(s[i].0@),
    decreases s.len(),
{
    let k = s[i].0@;
    if i == s.len() - 1 {
        assert(s.remove(i) =~= s.drop_last());
        lemma_map_of_contains(s.drop_last(), k);
        assert(forall|j: int| 0 <= j < s.len() - 1 ==> s.drop_last()[j].0@ != k);
        assert(map_of(s.remove(i)) =~= map_of(s).remove(k));
    } else {
        assert(unique_keys(s.drop_last())) by {
            assert(forall|a: int, b: int|
                0 <= a < b < s.len() - 1 ==> s.drop_last()[a].0@ != s.drop_last()[b].0@);
        }
        assert(s.remove(i).drop_last() =~= s.drop_last().remove(i));
        assert(s.remove(i).last() == s.last());
        lemma_map_of_remove(s.drop_last(), i);
        assert(s.drop_last()[i] == s[i]);
        assert(s.last().0@ != k);
        assert(map_of(s.remove(i)) =~= map_of(s).remove(k));
    }
}

pub proof fn lemma_map_of_update(s: Seq<(String, ClientStatus)>, i: int, st: ClientStatus)
    requires
        unique_keys(s),
        0 <= i < s.len(),
    ensures
        map_of(s.update(i, (s[i].0, st))) == map_of(s).insert(s[i].0@, st),
    decreases s.len(),
{
    let k = s[i].0@;
    let s2 = s.update(i, (s[i].0, st));
    if i == s.len() - 1 {
        assert(s2.drop_last() =~= s.drop_last());
        assert(s2.last() == (s[i].0, st));
        assert(map_of(s2) =~= map_of(s).insert(k, st));
    } else {
        assert(unique_keys(s.drop_last())) by {
            assert(forall|a: int, b: int|
                0 <= a < b < s.len() - 1 ==> s.drop_last()[a].0@ != s.drop_last()[b].0@);
        }
        assert(s2.drop_last() =~= s.drop_last().update(i, (s[i].0, st)));
        assert(s.drop_last()[i] == s[i]);
        assert(s2.last() == s.last());
        lemma_map_of_update(s.drop_last(), i, st);
        assert(s.last().0@ != k);
        assert(map_of(s2) =~= map_of(s).insert(k, st));
    }
}

/// The participant registry.
pub struct Registry {
    entries: Vec<(String, ClientStatus)>,
}

impl Registry {
    /// The registry as a map from participant id to session state.
    pub closed spec fn view(&self) -> Map<Seq<char>, ClientStatus> {
        map_of(self.entries@)
    }

    /// Internal invariant: keys are unique, and every recorded session is
    /// connected and well-formed.
    pub closed spec fn inv(&self) -> bool {
        &&& unique_keys(self.entries@)
        &&& forall|i: int|
            0 <= i < self.entries@.len() ==> (#[trigger] self.entries@[i].1).connected
                && self.entries@[i].1.wf()
    }

    /// Everything the registry holds is a connected, well-formed session.
    pub proof fn lemma_statuses_wf(&self, id: Seq<char>)
        requires
            self.inv(),
            self@.contains_key(id),
        ensures
            self@[id].connected,
            self@[id].wf(),
    {
        lemma_map_of_contains(self.entries@, id);
        let i = choose|i: int| 0 <= i < self.entries@.len() && self.entries@[i].0@ == id;
        lemma_map_of_index(self.entries@, i);
    }

    pub fn new() -> (r: Registry)
        ensures
            r@ == Map::<Seq<char>, ClientStatus>::empty(),
            r.inv(),
    {
        Registry { entries: Vec::new() }
    }

    /// Index of the entry for `id`, if present.
    fn index_of(&self, id: &str) -> (r: Option<usize>)
        ensures
            match r {
                Some(i) => i < self.entries@.len() && self.entries@[i as int].0@ == id@,
                None => forall|i: int|
                    0 <= i < self.entries@.len() ==> self.entries@[i].0@ != id@,
            },
    {
        let n: usize = self.entries.len();
        let mut i: usize = 0;
        while i < n
            invariant
                i <= n,
                n == self.entries@.len(),
                forall|j: int| 0 <= j < i ==> self.entries@[j].0@ != id@,
            decreases n - i,
        {
            if str_eq(self.entries[i].0.as_str(), id) {
                return Some(i);
            }
            i = i + 1;
        }
        None
    }

    /// Is a session with this id active?
    pub fn contains(&self, id: &str) -> (r: bool)
        ensures
            r == self@.contains_key(id@),
    {
        proof {
            lemma_map_of_contains(self.entries@, id@);
        }
        self.index_of(id).is_some()
    }

    /// The session state recorded for `id`, if any.
    pub fn get(&self, id: &str) -> (r: Option<&ClientStatus>)
        requires
            self.inv(),
        ensures
            match r {
                Some(st) => self@.contains_key(id@) && *st == self@[id@],
                None => !self@.contains_key(id@),
            },
    {
        proof {
            lemma_map_of_contains(self.entries@, id@);
        }
        match self.index_of(id) {
            Some(i) => {
                proof {
                    lemma_map_of_index(self.entries@, i as int);
                }
                Some(&self.entries[i].1)
            },
            None => None,
        }
    }

    /// Records a fresh session for `id` unless one is already active.
    /// Returns whether the session was inserted.
    pub fn try_insert(&mut self, id: &str, st: ClientStatus) -> (r: bool)
        requires
            old(self).inv(),
            st.connected,
            st.wf(),
        ensures
            final(self).inv(),
            r == !old(self)@.contains_key(id@),
            final(self)@ == if r {
                old(self)@.insert(id@, st)
            } else {
                old(self)@
            },
    {
        proof {
            lemma_map_of_contains(self.entries@, id@);
        }
        match self.index_of(id) {
            Some(_) => false,
            None => {
                self.entries.push((String::from_str(id), st));
                proof {
                    assert(self.entries@.drop_last() =~= old(self).entries@);
                    assert(self.entries@.last().0@ == id@);
                    assert(forall|j: int|
                        0 <= j < old(self).entries@.len() ==> self.entries@[j]
                            == old(self).entries@[j]);
                }
                true
            },
        }
    }

    /// Drops the session for `id`, if one is active.
    pub fn remove(&mut self, id: &str)
        requires
            old(self).inv(),
        ensures
            final(self).inv(),
            final(self)@ == old(self)@.remove(id@),
    {
        proof {
            lemma_map_of_contains(self.entries@, id@);
        }
        match self.index_of(id) {
            Some(i) => {
                self.entries.remove(i);
                proof {
                    lemma_map_of_remove(old(self).entries@, i as int);
                    assert(self.entries@ =~= old(self).entries@.remove(i as int));
                    assert(unique_keys(self.entries@)) by {
                        assert(forall|a: int, b: int|
                            0 <= a < b < self.entries@.len() ==> self.entries@[a].0@
                                != self.entries@[b].0@);
                    }
                }
            },
            None => {
                proof {
                    assert(old(self)@.remove(id@) =~= old(self)@);
                }
            },
        }
    }

    /// Marks the session for `id` ready, if one is active.
    pub fn mark_ready(&mut self, id: &str)
        requires
            old(self).inv(),
        ensures
            final(self).inv(),
            final(self)@ == if old(self)@.contains_key(id@) {
                old(self)@.insert(id@, ClientStatus { ready: true, ..old(self)@[id@] })
            } else {
                old(self)@
            },
    {
        proof {
            lemma_map_of_contains(self.entries@, id@);
        }
        match self.index_of(id) {
            Some(i) => {
                let ghost entries0 = self.entries@;
                proof {
                    lemma_map_of_index(entries0, i as int);
                }
                let key = self.entries[i].0.clone();
                let mut st = self.entries[i].1;
                st.set_ready(true);
                self.entries.set(i, (key, st));
                proof {
                    assert(self.entries@ =~= entries0.update(
                        i as int,
                        (entries0[i as int].0, st),
                    ));
                    lemma_map_of_update(entries0, i as int, st);
                }
            },
            None => {},
        }
    }

    /// Marks the session for `id` as having an open connection again: a
    /// later hook of the same operation reuses the entry.
    pub fn mark_active(&mut self, id: &str)
        requires
            old(self).inv(),
        ensures
            final(self).inv(),
            final(self)@ == if old(self)@.contains_key(id@) {
                old(self)@.insert(id@, ClientStatus { active: true, ..old(self)@[id@] })
            } else {
                old(self)@
            },
    {
        proof {
            lemma_map_of_contains(self.entries@, id@);
        }
        match self.index_of(id) {
            Some(i) => {
                let ghost entries0 = self.entries@;
                proof {
                    lemma_map_of_index(entries0, i as int);
                }
                let key = self.entries[i].0.clone();
                let mut st = self.entries[i].1;
                st.active = true;
                self.entries.set(i, (key, st));
                proof {
                    assert(self.entries@ =~= entries0.update(
                        i as int,
                        (entries0[i as int].0, st),
                    ));
                    lemma_map_of_update(entries0, i as int, st);
                }
            },
            None => {},
        }
    }

    /// Marks the session for `id` as having no open connection: its entry
    /// stays, with its flags, until a terminal action removes it.
    pub fn mark_inactive(&mut self, id: &str)
        requires
            old(self).inv(),
        ensures
            final(self).inv(),
            final(self)@ == if old(self)@.contains_key(id@) {
                old(self)@.insert(id@, ClientStatus { active: false, ..old(self)@[id@] })
            } else {
                old(self)@
            },
    {
        proof {
            lemma_map_of_contains(self.entries@, id@);
        }
        match self.index_of(id) {
            Some(i) => {
                let ghost entries0 = self.entries@;
                proof {
                    lemma_map_of_index(entries0, i as int);
                }
                let key = self.entries[i].0.clone();
                let mut st = self.entries[i].1;
                st.active = false;
                self.entries.set(i, (key, st));
                proof {
                    assert(self.entries@ =~= entries0.update(
                        i as int,
                        (entries0[i as int].0, st),
                    ));
                    lemma_map_of_update(entries0, i as int, st);
                }
            },
            None => {},
        }
    }

    /// Marks the local checkpoint of the session for `id`, if one is active
    /// and belongs to a dump: a checkpoint is never recorded for a restore.
    pub fn mark_local_checkpoint(&mut self, id: &str)
        requires
            old(self).inv(),
        ensures
            final(self).inv(),
            final(self)@ == if old(self)@.contains_key(id@) && old(self)@[id@].operation
                == Operation::Dump {
                old(self)@.insert(
                    id@,
                    ClientStatus { local_checkpoint: true, ..old(self)@[id@] },
                )
            } else {
                old(self)@
            },
    {
        proof {
            lemma_map_of_contains(self.entries@, id@);
        }
        match self.index_of(id) {
            Some(i) => {
                let ghost entries0 = self.entries@;
                proof {
                    lemma_map_of_index(entries0, i as int);
                }
                let key = self.entries[i].0.clone();
                let mut st = self.entries[i].1;
                if st.get_operation() == Operation::Dump {
                    st.set_local_checkpoint();
                    self.entries.set(i, (key, st));
                    proof {
                        assert(self.entries@ =~= entries0.update(
                            i as int,
                            (entries0[i as int].0, st),
                        ));
                        lemma_map_of_update(entries0, i as int, st);
                    }
                }
            },
            None => {},
        }
    }

    /// Is the registry empty?
    pub fn is_empty(&self) -> (r: bool)
        ensures
            r == (self@ == Map::<Seq<char>, ClientStatus>::empty()),
    {
        proof {
            if self.entries@.len() > 0 {
                lemma_map_of_contains(self.entries@, self.entries@.last().0@);
                assert(self.entries@[self.entries@.len() - 1].0@ == self.entries@.last().0@);
            } else {
                assert(self@ =~= Map::<Seq<char>, ClientStatus>::empty());
            }
        }
        self.entries.len() == 0
    }
}

} // verus!
