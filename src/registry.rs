//! The registry of live sessions: for each session id, the handles that the
//! command path needs (the PTY pair for resizing, the writer for input).
//!
//! The registry is generic over the handle types, so that it holds whatever
//! the PTY layer hands out; its contracts speak of the map from ids to entries.
use vstd::prelude::*;

verus! {

/// The handles that the registry holds for one session.
pub struct Entry<P, W> {
    pub pair: P,
    pub writer: W,
}

/// One registered session: its id and its handles.
struct Slot<P, W> {
    id: String,
    entry: Entry<P, W>,
}

/// Live sessions keyed by id, at most one entry per id.
pub struct SessionRegistry<P, W> {
    slots: Vec<Slot<P, W>>,
}

spec fn ids_unique<P, W>(s: Seq<Slot<P, W>>) -> bool {
    forall|i: int, j: int| 0 <= i < j < s.len() ==> s[i].id@ != s[j].id@
}

spec fn holds_id<P, W>(s: Seq<Slot<P, W>>, k: Seq<char>) -> bool {
    exists|i: int| 0 <= i < s.len() && s[i].id@ == k
}

spec fn slot_index<P, W>(s: Seq<Slot<P, W>>, k: Seq<char>) -> int {
    choose|i: int| 0 <= i < s.len() && s[i].id@ == k
}

spec fn slots_map<P, W>(s: Seq<Slot<P, W>>) -> Map<Seq<char>, Entry<P, W>> {
    Map::new(|k: Seq<char>| holds_id(s, k), |k: Seq<char>| s[slot_index(s, k)].entry)
}

/// Giving one slot a new entry, under the same id, updates the map at that id.
proof fn lemma_update_entry<P, W>(s: Seq<Slot<P, W>>, i: int, e: Entry<P, W>)
    requires
        ids_unique(s),
        0 <= i < s.len(),
    ensures
        ids_unique(s.update(i, Slot { id: s[i].id, entry: e })),
        slots_map(s.update(i, Slot { id: s[i].id, entry: e })) == slots_map(s).insert(s[i].id@, e),
{
    let t = s.update(i, Slot { id: s[i].id, entry: e });
    let k = s[i].id@;
    assert forall|q: Seq<char>| #![auto] holds_id(t, q) <==> holds_id(s, q) by {
        if holds_id(t, q) {
            let j = slot_index(t, q);
            assert(s[j].id@ == q);
        }
        if holds_id(s, q) {
            let j = slot_index(s, q);
            assert(t[j].id@ == q);
        }
    }
    assert forall|q: Seq<char>| #![auto] holds_id(t, q) implies slots_map(t)[q] == slots_map(s).insert(k, e)[q] by {
        let j = slot_index(t, q);
        let j2 = slot_index(s, q);
        assert(s[j].id@ == q);
        assert(j == j2);
    }
    assert(slots_map(t) =~= slots_map(s).insert(k, e));
}

impl<P, W> SessionRegistry<P, W> {
    /// No two slots share an id.
    pub closed spec fn wf(&self) -> bool {
        ids_unique(self.slots@)
    }

    spec fn holds(&self, k: Seq<char>) -> bool {
        holds_id(self.slots@, k)
    }

    spec fn index_of(&self, k: Seq<char>) -> int {
        slot_index(self.slots@, k)
    }

    /// The sessions as a map from id to entry.
    pub closed spec fn sessions(&self) -> Map<Seq<char>, Entry<P, W>> {
        slots_map(self.slots@)
    }

    proof fn lemma_slot(&self, i: int)
        requires
            self.wf(),
            0 <= i < self.slots@.len(),
        ensures
            self.sessions().contains_key(self.slots@[i].id@),
            self.sessions()[self.slots@[i].id@] == self.slots@[i].entry,
    {
        let k = self.slots@[i].id@;
        assert(self.holds(k));
        let j = self.index_of(k);
        assert(self.slots@[j].id@ == k);
        assert(i == j);
    }

    /// An empty registry.
    pub fn new() -> (r: Self)
        ensures
            r.wf(),
            r@ == Map::<Seq<char>, Entry<P, W>>::empty(),
    {
        let r = SessionRegistry { slots: Vec::new() };
        assert(r@ =~= Map::<Seq<char>, Entry<P, W>>::empty());
        r
    }

    /// The number of registered sessions.
    pub fn len(&self) -> (n: usize)
        requires
            self.wf(),
        ensures
            n == self@.len(),
    {
        proof {
            self.lemma_len();
        }
        self.slots.len()
    }

    proof fn lemma_len(&self)
        requires
            self.wf(),
        ensures
            self@.len() == self.slots@.len(),
            self@.dom().finite(),
    {
        let ids = self.slots@.map_values(|s: Slot<P, W>| s.id@);
        assert forall|i: int, j: int| 0 <= i < ids.len() && 0 <= j < ids.len() && i != j implies ids[i]
            != ids[j] by {
            if i < j {
            } else {
            }
        }
        ids.unique_seq_to_set();
        assert(self@.dom() =~= ids.to_set()) by {
            assert forall|k: Seq<char>| self@.dom().contains(k) implies ids.to_set().contains(k) by {
                let i = self.index_of(k);
                assert(ids[i] == k);
            }
            assert forall|k: Seq<char>| ids.to_set().contains(k) implies self@.dom().contains(k) by {
                let i = choose|i: int| 0 <= i < ids.len() && ids[i] == k;
                assert(self.slots@[i].id@ == k);
            }
        }
    }

    /// The position of the slot for `id`, if there is one.
    fn find(&self, id: &String) -> (r: Option<usize>)
        requires
            self.wf(),
        ensures
            match r {
                Some(i) => i < self.slots@.len() && self.slots@[i as int].id@ == id@,
                None => !self@.contains_key(id@),
            },
    {
        let mut i: usize = 0;
        while i < self.slots.len()
            invariant
                i <= self.slots@.len(),
                forall|j: int| 0 <= j < i ==> self.slots@[j].id@ != id@,
            decreases self.slots@.len() - i,
        {
            if self.slots[i].id == *id {
                return Some(i);
            }
            i = i + 1;
        }
        None
    }

    /// Whether a session is registered under `id`.
    pub fn contains(&self, id: &String) -> (r: bool)
        requires
            self.wf(),
        ensures
            r == self@.contains_key(id@),
    {
        match self.find(id) {
            Some(i) => {
                proof {
                    self.lemma_slot(i as int);
                }
                true
            },
            None => false,
        }
    }
    /// Registers `pair` and `writer` under `id`. An entry already registered
    /// under `id` is replaced, and handed back so that its owner can release it.
    pub fn insert(&mut self, id: String, pair: P, writer: W) -> (previous: Option<Entry<P, W>>)
        requires
            old(self).wf(),
        ensures
            final(self).wf(),
            final(self)@ == old(self)@.insert(id@, (Entry { pair, writer })),
            previous == (if old(self)@.contains_key(id@) {
                Some(old(self)@[id@])
            } else {
                None
            }),
    {
        let ghost k = id@;
        let ghost e = Entry { pair, writer };
        match self.find(&id) {
            Some(i) => {
                proof {
                    old(self).lemma_slot(i as int);
                }
                let mut slot = Slot { id, entry: Entry { pair, writer } };
                let ghost before = self.slots@;
                self.slots.set_and_swap(i, &mut slot);
                proof {
                    assert forall|j: int| 0 <= j < self.slots@.len() && j != i implies self.slots@[j] == before[j] by {}
                    assert(self.wf());
                    assert forall|q: Seq<char>| #![auto] self@.contains_key(q) <==> old(self)@.insert(k, e).contains_key(q) by {
                        if q == k {
                            self.lemma_slot(i as int);
                        } else if old(self)@.contains_key(q) {
                            let j = old(self).index_of(q);
                            self.lemma_slot(j);
                        } else if self@.contains_key(q) {
                            let j = self.index_of(q);
                            old(self).lemma_slot(j);
                        }
                    }
                    assert forall|q: Seq<char>| #![auto] self@.contains_key(q) implies self@[q] == old(self)@.insert(k, e)[q] by {
                        let j = self.index_of(q);
                        self.lemma_slot(j);
                        if q != k {
                            old(self).lemma_slot(j);
                        }
                    }
                    assert(self@ =~= old(self)@.insert(k, e));
                }
                Some(slot.entry)
            },
            None => {
                self.slots.push(Slot { id, entry: Entry { pair, writer } });
                proof {
                    let n = old(self).slots@.len() as int;
                    assert(self.wf());
                    assert forall|q: Seq<char>| #![auto] self@.contains_key(q) <==> old(self)@.insert(k, e).contains_key(q) by {
                        if q == k {
                            self.lemma_slot(n);
                        } else if old(self)@.contains_key(q) {
                            let j = old(self).index_of(q);
                            self.lemma_slot(j);
                        } else if self@.contains_key(q) {
                            let j = self.index_of(q);
                            old(self).lemma_slot(j);
                        }
                    }
                    assert forall|q: Seq<char>| #![auto] self@.contains_key(q) implies self@[q] == old(self)@.insert(k, e)[q] by {
                        let j = self.index_of(q);
                        self.lemma_slot(j);
                        if q != k {
                            old(self).lemma_slot(j);
                        }
                    }
                    assert(self@ =~= old(self)@.insert(k, e));
                }
                None
            },
        }
    }

    /// Unregisters `id`, handing back its entry if it had one. Removing an id
    /// that is not registered changes nothing.
    pub fn remove(&mut self, id: &String) -> (removed: Option<Entry<P, W>>)
        requires
            old(self).wf(),
        ensures
            final(self).wf(),
            final(self)@ == old(self)@.remove(id@),
            removed == (if old(self)@.contains_key(id@) {
                Some(old(self)@[id@])
            } else {
                None
            }),
    {
        let ghost k = id@;
        match self.find(id) {
            Some(i) => {
                proof {
                    old(self).lemma_slot(i as int);
                }
                let slot = self.slots.swap_remove(i);
                proof {
                    let o = old(self).slots@;
                    let n = o.len() - 1;
                    assert forall|j: int| 0 <= j < self.slots@.len() implies self.slots@[j] == (if j == i { o[n] } else { o[j] }) by {}
                    assert(self.wf());
                    assert forall|q: Seq<char>| #![auto] self@.contains_key(q) <==> old(self)@.remove(k).contains_key(q) by {
                        if q == k {
                            if self@.contains_key(q) {
                                let j = self.index_of(q);
                                if j == i {
                                } else {
                                }
                            }
                        } else if old(self)@.contains_key(q) {
                            let j = old(self).index_of(q);
                            if j == n {
                                self.lemma_slot(i as int);
                            } else {
                                self.lemma_slot(j);
                            }
                        } else if self@.contains_key(q) {
                            let j = self.index_of(q);
                            if j == i {
                                old(self).lemma_slot(n);
                            } else {
                                old(self).lemma_slot(j);
                            }
                        }
                    }
                    assert forall|q: Seq<char>| #![auto] self@.contains_key(q) implies self@[q] == old(self)@.remove(k)[q] by {
                        let j = self.index_of(q);
                        self.lemma_slot(j);
                        if j == i {
                            old(self).lemma_slot(n);
                        } else {
                            old(self).lemma_slot(j);
                        }
                    }
                    assert(self@ =~= old(self)@.remove(k));
                }
                Some(slot.entry)
            },
            None => {
                assert(self@ =~= old(self)@.remove(k));
                None
            },
        }
    }

    /// The PTY pair registered under `id`, if any.
    pub fn get_pair(&self, id: &String) -> (r: Option<&P>)
        requires
            self.wf(),
        ensures
            match r {
                Some(p) => self@.contains_key(id@) && *p == self@[id@].pair,
                None => !self@.contains_key(id@),
            },
    {
        match self.find(id) {
            Some(i) => {
                proof {
                    self.lemma_slot(i as int);
                }
                Some(&self.slots[i].entry.pair)
            },
            None => None,
        }
    }
    /// The writer registered under `id`, if any, borrowed for writing. Writing
    /// through it changes that session's writer and nothing else.
    pub fn get_writer_mut(&mut self, id: &String) -> (r: Option<&mut W>)
        requires
            old(self).wf(),
        ensures
            r is Some <==> old(self)@.contains_key(id@),
            r is None ==> *final(self) == *old(self),
            r matches Some(w) ==> *w == old(self)@[id@].writer && final(self).wf() && final(self)@
                == old(self)@.insert(id@, (Entry { pair: old(self)@[id@].pair, writer: *final(w) })),
    {
        match self.find(id) {
            Some(i) => {
                proof {
                    old(self).lemma_slot(i as int);
                }
                let ghost before = self.slots@;
                let w = &mut self.slots[i].entry.writer;
                proof {
                    lemma_update_entry(before, i as int, Entry { pair: before[i as int].entry.pair, writer: *final(w) });
                }
                Some(w)
            },
            None => None,
        }
    }
}

/// Killing is idempotent: removing `id` a second time changes nothing more,
/// and removing an id that was never registered changes nothing at all.
pub proof fn lemma_kill_idempotent<P, W>(r: &SessionRegistry<P, W>, id: Seq<char>)
    ensures
        r@.remove(id).remove(id) == r@.remove(id),
        !r@.contains_key(id) ==> r@.remove(id) == r@,
{
    assert(r@.remove(id).remove(id) =~= r@.remove(id));
    if !r@.contains_key(id) {
        assert(r@.remove(id) =~= r@);
    }
}

/// After a kill the id has no entry, so a write to it finds no writer and is
/// a no-op.
pub proof fn lemma_killed_has_no_writer<P, W>(r: &SessionRegistry<P, W>, id: Seq<char>)
    ensures
        !r@.remove(id).contains_key(id),
{
}

/// Registering twice under one id leaves exactly the second entry: its pair
/// and its writer, not the first's.
pub proof fn lemma_respawn_replaces<P, W>(
    r: &SessionRegistry<P, W>,
    id: Seq<char>,
    first: Entry<P, W>,
    second: Entry<P, W>,
)
    ensures
        r@.insert(id, first).insert(id, second) == r@.insert(id, second),
        r@.insert(id, first).insert(id, second)[id] == second,
{
    assert(r@.insert(id, first).insert(id, second) =~= r@.insert(id, second));
}

/// Registering or removing one id leaves every other session's entry as it
/// was: operations on distinct sessions do not disturb each other.
pub proof fn lemma_sessions_independent<P, W>(
    r: &SessionRegistry<P, W>,
    id: Seq<char>,
    other: Seq<char>,
    e: Entry<P, W>,
)
    requires
        id != other,
    ensures
        r@.insert(id, e).contains_key(other) == r@.contains_key(other),
        r@.remove(id).contains_key(other) == r@.contains_key(other),
        r@.contains_key(other) ==> r@.insert(id, e)[other] == r@[other] && r@.remove(id)[other]
            == r@[other],
{
}

impl<P, W> View for SessionRegistry<P, W> {
    type V = Map<Seq<char>, Entry<P, W>>;

    open spec fn view(&self) -> Map<Seq<char>, Entry<P, W>> {
        self.sessions()
    }
}

} // verus!
