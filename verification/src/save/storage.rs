//! The persistent key-value store's decision core: a double-buffered
//! transactional model.
//!
//! Two slots hold string entries; a marker names the slot of the last
//! completed frame. Reads go through the marker, so an interrupted
//! frame can never be observed: writes land in the other slot, which a
//! frame begins by overwriting with the committed one and ends by
//! pointing the marker at. The filesystem (or browser-storage) mirror
//! of this model lives outside the library; it persists the two slots
//! and the marker and replays them into `load_committed` on startup.

use vstd::prelude::*;

verus! {

use vstd::map::*;

/// The entries of one slot, as a map from key to value.
pub open spec fn slot_has(s: Seq<(String, String)>, k: Seq<char>) -> bool {
    exists|i: int| 0 <= i < s.len() && (#[trigger] s[i]).0@ == k
}

/// The index holding key `k` (unique when the keys are).
pub open spec fn slot_at(s: Seq<(String, String)>, k: Seq<char>) -> int {
    choose|i: int| 0 <= i < s.len() && (#[trigger] s[i]).0@ == k
}

/// No two entries share a key.
pub open spec fn keys_unique(s: Seq<(String, String)>) -> bool {
    forall|i: int, j: int| 0 <= i < j < s.len() ==> (#[trigger] s[i]).0@ != (#[trigger] s[j]).0@
}

/// One slot's entries as a map.
pub open spec fn slot_map(s: Seq<(String, String)>) -> Map<Seq<char>, Seq<char>> {
    Map::new(|k: Seq<char>| slot_has(s, k), |k: Seq<char>| s[slot_at(s, k)].1@)
}

/// An index that holds key `k` is the index the map reads through.
proof fn lemma_slot_at(s: Seq<(String, String)>, k: Seq<char>, i: int)
    requires
        keys_unique(s),
        0 <= i < s.len(),
        s[i].0@ == k,
    ensures
        slot_has(s, k),
        slot_at(s, k) == i,
{
    assert(slot_has(s, k));
    let j = slot_at(s, k);
    assert(0 <= j < s.len() && s[j].0@ == k);
    if i < j {
        assert(s[i].0@ != s[j].0@);
    } else if j < i {
        assert(s[j].0@ != s[i].0@);
    }
}

/// The double-buffered store.
pub struct Storage {
    slot_even: Vec<(String, String)>,
    slot_odd: Vec<(String, String)>,
    committed: Option<bool>,
    active: bool,
    in_transaction: bool,
}

impl Storage {
    /// Both slots keep their keys unique.
    pub closed spec fn wf(self) -> bool {
        &&& keys_unique(self.slot_even@)
        &&& keys_unique(self.slot_odd@)
    }

    /// The entries of a slot, as a map.
    pub closed spec fn slot(self, odd: bool) -> Map<Seq<char>, Seq<char>> {
        if odd {
            slot_map(self.slot_odd@)
        } else {
            slot_map(self.slot_even@)
        }
    }

    /// Which slot writes currently land in.
    pub closed spec fn active_slot(self) -> bool {
        self.active
    }

    /// Which slot the last completed frame committed, if any ever did.
    pub closed spec fn committed_slot(self) -> Option<bool> {
        self.committed
    }

    /// Whether the store is inside the frame loop (writes allowed,
    /// reads not).
    pub closed spec fn in_transaction(self) -> bool {
        self.in_transaction
    }

    /// What a reader observes: the committed slot's map, if a frame was
    /// ever committed.
    pub open spec fn committed_map(self) -> Option<Map<Seq<char>, Seq<char>>> {
        match self.committed_slot() {
            None => None,
            Some(odd) => Some(self.slot(odd)),
        }
    }

    /// A store with nothing committed and no transaction running.
    pub fn new() -> (store: Storage)
        ensures
            store.wf(),
            !store.in_transaction(),
            store.committed_slot() is None,
            !store.active_slot(),
            store.slot(false) == Map::<Seq<char>, Seq<char>>::empty(),
            store.slot(true) == Map::<Seq<char>, Seq<char>>::empty(),
    {
        let store = Storage {
            slot_even: Vec::new(),
            slot_odd: Vec::new(),
            committed: None,
            active: false,
            in_transaction: false,
        };
        proof {
            assert_maps_equal!(store.slot(false), Map::<Seq<char>, Seq<char>>::empty());
            assert_maps_equal!(store.slot(true), Map::<Seq<char>, Seq<char>>::empty());
        }
        store
    }

    /// A store rebuilt from a persisted committed slot, ready for
    /// reads: nothing is in transaction yet.
    pub fn load_committed(entries: Vec<(String, String)>, odd: bool) -> (store: Storage)
        requires
            keys_unique(entries@),
        ensures
            store.wf(),
            !store.in_transaction(),
            store.committed_slot() == Some(odd),
            store.active_slot() == odd,
            store.committed_map() == Some(slot_map(entries@)),
    {
        let store = if odd {
            Storage {
                slot_even: Vec::new(),
                slot_odd: entries,
                committed: Some(true),
                active: true,
                in_transaction: false,
            }
        } else {
            Storage {
                slot_even: entries,
                slot_odd: Vec::new(),
                committed: Some(false),
                active: false,
                in_transaction: false,
            }
        };
        store
    }

    /// Enter the frame loop: from now on writes are allowed and reads
    /// are not. Called once.
    pub fn start_transactions(&mut self)
        requires
            !old(self).in_transaction(),
        ensures
            final(self).in_transaction(),
            final(self).wf() == old(self).wf(),
            final(self).active_slot() == old(self).active_slot(),
            final(self).committed_slot() == old(self).committed_slot(),
            final(self).slot(false) == old(self).slot(false),
            final(self).slot(true) == old(self).slot(true),
    {
        self.in_transaction = true;
    }

    /// Store `value` under `key` in the working slot. Writes are
    /// meaningful only inside the frame loop, so the call is refused
    /// outside it; the committed slot is untouched, and an interrupted
    /// frame leaves every read unchanged.
    pub fn set(&mut self, key: &str, value: &str)
        requires
            old(self).wf(),
            old(self).in_transaction(),
        ensures
            final(self).wf(),
            final(self).in_transaction(),
            final(self).active_slot() == old(self).active_slot(),
            final(self).committed_slot() == old(self).committed_slot(),
            final(self).slot(old(self).active_slot()) == old(self).slot(
                old(self).active_slot(),
            ).insert(key@, value@),
            final(self).slot(!old(self).active_slot()) == old(self).slot(
                !old(self).active_slot(),
            ),
    {
        if self.active {
            slot_set(&mut self.slot_odd, key, value);
        } else {
            slot_set(&mut self.slot_even, key, value);
        }
    }

    /// Read `key` from the last committed slot. Refused inside the
    /// frame loop, where a half-written frame could expose inconsistent
    /// state; absent a committed frame or the key, reports `None`.
    pub fn get(&self, key: &str) -> (value: Option<String>)
        requires
            self.wf(),
            !self.in_transaction(),
        ensures
            match self.committed_map() {
                None => value is None,
                Some(m) => match value {
                    Some(v) => m.dom().contains(key@) && v@ == m[key@],
                    None => !m.dom().contains(key@),
                },
            },
    {
        match self.committed {
            None => None,
            Some(odd) => {
                if odd {
                    slot_get(&self.slot_odd, key)
                } else {
                    slot_get(&self.slot_even, key)
                }
            },
        }
    }

    /// Begin a frame: move the working slot away from the committed one
    /// and carry the committed contents over, so the frame's writes
    /// refine the last completed state.
    pub fn begin_frame(&mut self)
        requires
            old(self).wf(),
            old(self).in_transaction(),
        ensures
            final(self).wf(),
            final(self).in_transaction(),
            final(self).committed_slot() == old(self).committed_slot(),
            final(self).active_slot() == !(match old(self).committed_slot() {
                None => true,
                Some(odd) => odd,
            }),
            final(self).slot(final(self).active_slot()) == old(self).slot(
                !final(self).active_slot(),
            ),
            final(self).slot(!final(self).active_slot()) == old(self).slot(
                !final(self).active_slot(),
            ),
    {
        let prev = match self.committed {
            None => true,
            Some(odd) => odd,
        };
        self.active = !prev;
        if self.active {
            let copied = slot_clone(&self.slot_even);
            self.slot_odd = copied;
        } else {
            let copied = slot_clone(&self.slot_odd);
            self.slot_even = copied;
        }
    }

    /// End a frame: point the marker at the working slot, making its
    /// contents what every later read observes.
    pub fn commit_frame(&mut self)
        requires
            old(self).wf(),
            old(self).in_transaction(),
        ensures
            final(self).wf(),
            final(self).in_transaction(),
            final(self).active_slot() == old(self).active_slot(),
            final(self).committed_slot() == Some(old(self).active_slot()),
            final(self).slot(false) == old(self).slot(false),
            final(self).slot(true) == old(self).slot(true),
            final(self).committed_map() == Some(old(self).slot(old(self).active_slot())),
    {
        self.committed = Some(self.active);
    }

    /// Which slot the last completed frame committed, if any: what the
    /// persistence mirror writes the marker as.
    pub fn committed(&self) -> (odd: Option<bool>)
        ensures
            odd == self.committed_slot(),
    {
        self.committed
    }

    /// The entries of a slot, cloned, for the persistence mirror.
    pub fn snapshot(&self, odd: bool) -> (entries: Vec<(String, String)>)
        requires
            self.wf(),
        ensures
            keys_unique(entries@),
            slot_map(entries@) == self.slot(odd),
    {
        if odd {
            slot_clone(&self.slot_odd)
        } else {
            slot_clone(&self.slot_even)
        }
    }
}

/// Write `key = value` into one slot's entries, replacing an existing
/// entry or appending a fresh one.
fn slot_set(entries: &mut Vec<(String, String)>, key: &str, value: &str)
    requires
        keys_unique(old(entries)@),
    ensures
        keys_unique(final(entries)@),
        slot_map(final(entries)@) == slot_map(old(entries)@).insert(key@, value@),
{
    let k = key.to_owned();
    let mut i: usize = 0;
    while i < entries.len()
        invariant
            keys_unique(entries@),
            entries@ == old(entries)@,
            k@ == key@,
            i <= entries@.len(),
            forall|j: int| 0 <= j < i ==> (#[trigger] entries@[j]).0@ != key@,
        decreases entries@.len() - i,
    {
        let hit = entries[i].0 == k;
        if hit {
            let v = value.to_owned();
            entries[i] = (k, v);
            proof {
                let s_old = old(entries)@;
                let s = entries@;
                assert(s == s_old.update(i as int, (k, v)));
                assert forall|a: int, b: int| 0 <= a < b < s.len() implies (#[trigger] s[a]).0@
                    != (#[trigger] s[b]).0@ by {
                    assert(s_old[a].0@ != s_old[b].0@);
                }
                lemma_slot_at(s, key@, i as int);
                assert_maps_equal!(slot_map(entries@), slot_map(old(entries)@).insert(key@, value@), kk => {
                    if kk == key@ {
                    } else {
                        if slot_has(s, kk) {
                            let idx = slot_at(s, kk);
                            assert(s[idx].0@ == kk);
                            assert(idx != i);
                            assert(s_old[idx].0@ == kk);
                            lemma_slot_at(s_old, kk, idx);
                        }
                        if slot_has(s_old, kk) {
                            let idx = slot_at(s_old, kk);
                            assert(s_old[idx].0@ == kk);
                            assert(idx != i);
                            assert(s[idx].0@ == kk);
                            lemma_slot_at(s, kk, idx);
                        }
                    }
                });
            }
            return ;
        }
        i = i + 1;
    }
    let v = value.to_owned();
    entries.push((k, v));
    proof {
        let s_old = old(entries)@;
        let s = entries@;
        assert(s == s_old.push((k, v)));
        assert forall|a: int, b: int| 0 <= a < b < s.len() implies (#[trigger] s[a]).0@
            != (#[trigger] s[b]).0@ by {
            if b < s.len() - 1 {
                assert(s_old[a].0@ != s_old[b].0@);
            } else {
                assert(s[a] == s_old[a]);
            }
        }
        lemma_slot_at(s, key@, s.len() - 1);
        assert_maps_equal!(slot_map(entries@), slot_map(old(entries)@).insert(key@, value@), kk => {
            if kk == key@ {
            } else {
                if slot_has(s, kk) {
                    let idx = slot_at(s, kk);
                    assert(s[idx].0@ == kk);
                    assert(idx != s.len() - 1);
                    assert(s_old[idx].0@ == kk);
                    lemma_slot_at(s_old, kk, idx);
                }
                if slot_has(s_old, kk) {
                    let idx = slot_at(s_old, kk);
                    assert(s_old[idx].0@ == kk);
                    assert(s[idx].0@ == kk);
                    lemma_slot_at(s, kk, idx);
                }
            }
        });
    }
}

/// Look `key` up in one slot's entries.
fn slot_get(entries: &Vec<(String, String)>, key: &str) -> (value: Option<String>)
    requires
        keys_unique(entries@),
    ensures
        match value {
            Some(v) => slot_has(entries@, key@) && v@ == slot_map(entries@)[key@],
            None => !slot_has(entries@, key@),
        },
{
    let k = key.to_owned();
    let mut i: usize = 0;
    while i < entries.len()
        invariant
            keys_unique(entries@),
            k@ == key@,
            i <= entries@.len(),
            forall|j: int| 0 <= j < i ==> (#[trigger] entries@[j]).0@ != key@,
        decreases entries@.len() - i,
    {
        let hit = entries[i].0 == k;
        if hit {
            proof {
                lemma_slot_at(entries@, key@, i as int);
            }
            return Some(entries[i].1.clone());
        }
        i = i + 1;
    }
    None
}

/// Clone one slot's entries; the clone carries the same keys and
/// values.
fn slot_clone(entries: &Vec<(String, String)>) -> (out: Vec<(String, String)>)
    requires
        keys_unique(entries@),
    ensures
        keys_unique(out@),
        slot_map(out@) == slot_map(entries@),
{
    let mut out: Vec<(String, String)> = Vec::new();
    let mut i: usize = 0;
    while i < entries.len()
        invariant
            keys_unique(entries@),
            i <= entries@.len(),
            out@.len() == i,
            forall|j: int|
                0 <= j < i ==> (#[trigger] out@[j]).0@ == entries@[j].0@ && out@[j].1@
                    == entries@[j].1@,
        decreases entries@.len() - i,
    {
        let k = entries[i].0.clone();
        let v = entries[i].1.clone();
        out.push((k, v));
        i = i + 1;
    }
    proof {
        assert forall|a: int, b: int| 0 <= a < b < out@.len() implies (#[trigger] out@[a]).0@
            != (#[trigger] out@[b]).0@ by {
            assert(entries@[a].0@ != entries@[b].0@);
        }
        assert_maps_equal!(slot_map(out@), slot_map(entries@), kk => {
            if slot_has(out@, kk) {
                let idx = slot_at(out@, kk);
                assert(out@[idx].0@ == kk);
                assert(entries@[idx].0@ == kk);
                lemma_slot_at(entries@, kk, idx);
                lemma_slot_at(out@, kk, idx);
            }
            if slot_has(entries@, kk) {
                let idx = slot_at(entries@, kk);
                assert(entries@[idx].0@ == kk);
                assert(out@[idx].0@ == kk);
                lemma_slot_at(out@, kk, idx);
                lemma_slot_at(entries@, kk, idx);
            }
        });
    }
    out
}

} // verus!