//! Saving and restoring values through the transactional store.
//!
//! A [`Save`] value writes itself under a key as one or more text
//! entries and restores itself from them; [`Saveable`] pairs a value
//! with its key and persists every update. What one type writes and
//! what it reads back are both pinned in its `record` and `restored`
//! specifications, and for the numeric values the decimal codec is
//! proved to round-trip, so a committed save restores exactly.

pub mod codec;
pub mod storage;

use vstd::prelude::*;

verus! {

use vstd::map::*;
use crate::save::codec::{
    render_i64, parse_i64, dec_string, parse_ok, parse_value, lemma_decimal_round_trip,
};
use crate::save::storage::Storage;

/// A value that can write itself into the store under a key and
/// restore itself from what the store holds.
pub trait Save: Sized {
    /// The entries this value writes under `key`.
    spec fn record(&self, key: Seq<char>) -> Map<Seq<char>, Seq<char>>;

    /// The value a load leaves behind, given the prior value and the
    /// committed entries.
    spec fn restored(prior: Self, key: Seq<char>, committed: Option<Map<Seq<char>, Seq<char>>>) -> Self;

    /// Write this value's entries into the working slot.
    fn save(&self, key: &str, store: &mut Storage)
        requires
            old(store).wf(),
            old(store).in_transaction(),
        ensures
            final(store).wf(),
            final(store).in_transaction(),
            final(store).active_slot() == old(store).active_slot(),
            final(store).committed_slot() == old(store).committed_slot(),
            final(store).slot(old(store).active_slot()) == old(store).slot(
                old(store).active_slot(),
            ).union_prefer_right(self.record(key@)),
            final(store).slot(!old(store).active_slot()) == old(store).slot(
                !old(store).active_slot(),
            ),
    ;

    /// Restore this value from the committed entries under `key`.
    fn load(&mut self, key: &str, store: &Storage)
        requires
            store.wf(),
            !store.in_transaction(),
        ensures
            *final(self) == Self::restored(*old(self), key@, store.committed_map()),
    ;
}

impl Save for i64 {
    /// One entry: the canonical decimal text of the value.
    open spec fn record(&self, key: Seq<char>) -> Map<Seq<char>, Seq<char>> {
        Map::empty().insert(key, dec_string(*self as int))
    }

    /// The committed text under `key`, when there is one and it parses;
    /// the prior value otherwise.
    open spec fn restored(
        prior: i64,
        key: Seq<char>,
        committed: Option<Map<Seq<char>, Seq<char>>>,
    ) -> i64 {
        match committed {
            None => prior,
            Some(m) => if m.dom().contains(key) && parse_ok(m[key]) {
                parse_value(m[key]) as i64
            } else {
                prior
            },
        }
    }

    fn save(&self, key: &str, store: &mut Storage) {
        let text = render_i64(*self);
        store.set(key, text.as_str());
        proof {
            assert_maps_equal!(
                store.slot(old(store).active_slot()),
                old(store).slot(old(store).active_slot()).union_prefer_right(
                    self.record(key@)),
            );
        }
    }

    fn load(&mut self, key: &str, store: &Storage) {
        match store.get(key) {
            None => (),
            Some(text) => {
                match parse_i64(text.as_str()) {
                    None => (),
                    Some(v) => {
                        *self = v;
                    },
                }
            },
        }
    }
}

/// A saved value restores exactly after its save is committed: writing
/// an `i64` and reading it back through any store state yields the
/// value itself, because the decimal codec round-trips.
pub proof fn lemma_save_then_restore_i64(
    v: i64,
    prior: i64,
    key: Seq<char>,
    slot: Map<Seq<char>, Seq<char>>,
)
    ensures
        i64::restored(prior, key, Some(slot.union_prefer_right(v.record(key)))) == v,
{
    let m = slot.union_prefer_right(v.record(key));
    assert(v.record(key).dom().contains(key));
    assert(m[key] == dec_string(v as int));
    lemma_decimal_round_trip(v as int);
}

/// A pair of hex-grid coordinates, saved componentwise.
#[derive(Clone, Copy, Debug, PartialEq, Eq, Structural)]
pub struct Coord {
    pub x: i64,
    pub y: i64,
}

/// Relies on the `format!` macro: the pieces joined with a slash.
#[verifier::external_body]
fn join_key(base: &str, field: &str) -> (joined: String)
    ensures
        joined@ == base@ + seq!['/'] + field@,
{
    format!("{}/{}", base, field)
}

/// A composite value saved as several entries under derived keys.
#[derive(Clone, Copy, Debug, PartialEq, Eq, Structural)]
pub struct ComplexSave<T>(pub T);

impl Save for ComplexSave<Coord> {
    /// Two entries: the coordinates under `key/x` and `key/y`.
    open spec fn record(&self, key: Seq<char>) -> Map<Seq<char>, Seq<char>> {
        Map::empty().insert(key + seq!['/', 'x'], dec_string(self.0.x as int)).insert(
            key + seq!['/', 'y'],
            dec_string(self.0.y as int),
        )
    }

    /// Each coordinate restored from its own entry, independently.
    open spec fn restored(
        prior: ComplexSave<Coord>,
        key: Seq<char>,
        committed: Option<Map<Seq<char>, Seq<char>>>,
    ) -> ComplexSave<Coord> {
        ComplexSave(
            Coord {
                x: i64::restored(prior.0.x, key + seq!['/', 'x'], committed),
                y: i64::restored(prior.0.y, key + seq!['/', 'y'], committed),
            },
        )
    }

    fn save(&self, key: &str, store: &mut Storage) {
        let kx = join_key(key, "x");
        let ky = join_key(key, "y");
        proof {
            reveal_strlit("x");
            reveal_strlit("y");
            assert(kx@ =~= key@ + seq!['/', 'x']);
            assert(ky@ =~= key@ + seq!['/', 'y']);
        }
        self.0.x.save(kx.as_str(), store);
        self.0.y.save(ky.as_str(), store);
        proof {
            assert((key@ + seq!['/', 'x']) != (key@ + seq!['/', 'y'])) by {
                assert((key@ + seq!['/', 'x'])[key@.len() as int + 1] == 'x');
                assert((key@ + seq!['/', 'y'])[key@.len() as int + 1] == 'y');
            }
            assert_maps_equal!(
                store.slot(old(store).active_slot()),
                old(store).slot(old(store).active_slot()).union_prefer_right(
                    self.record(key@)),
            );
        }
    }

    fn load(&mut self, key: &str, store: &Storage) {
        let kx = join_key(key, "x");
        let ky = join_key(key, "y");
        proof {
            reveal_strlit("x");
            reveal_strlit("y");
            assert(kx@ =~= key@ + seq!['/', 'x']);
            assert(ky@ =~= key@ + seq!['/', 'y']);
        }
        self.0.x.load(kx.as_str(), store);
        self.0.y.load(ky.as_str(), store);
    }
}

/// A value paired with its key, written back to the store on every
/// update.
pub struct Saveable<T> {
    /// The current value.
    pub value: T,
    /// The key it saves under.
    pub key: String,
}

impl<T: Save> Saveable<T> {
    /// The key this value saves under.
    pub open spec fn spec_key(self) -> Seq<char> {
        self.key@
    }

    /// Pair `value` with `key`, restoring whatever the store holds
    /// committed under that key.
    pub fn new(value: T, key: &str, store: &Storage) -> (s: Saveable<T>)
        requires
            store.wf(),
            !store.in_transaction(),
        ensures
            s.spec_key() == key@,
            s.value == T::restored(value, key@, store.committed_map()),
    {
        let mut v = value;
        v.load(key, store);
        Saveable { value: v, key: key.to_owned() }
    }

    /// Pair the type's default value with `key`, restoring whatever the
    /// store holds committed under that key. What the default itself is
    /// depends on `T`, so only the key is pinned here; `new` says how
    /// the restored value relates to the starting one.
    pub fn default(key: &str, store: &Storage) -> (s: Saveable<T>) where T: Default
        requires
            store.wf(),
            !store.in_transaction(),
        ensures
            s.spec_key() == key@,
    {
        Saveable::new(T::default(), key, store)
    }

    /// Replace the value by a function of the current one and persist
    /// the result.
    pub fn update<F: FnOnce(T) -> T>(&mut self, f: F, store: &mut Storage) where T: Copy
        requires
            old(store).wf(),
            old(store).in_transaction(),
            call_requires(f, (old(self).value,)),
        ensures
            call_ensures(f, (old(self).value,), final(self).value),
            final(self).spec_key() == old(self).spec_key(),
            final(store).wf(),
            final(store).in_transaction(),
            final(store).active_slot() == old(store).active_slot(),
            final(store).committed_slot() == old(store).committed_slot(),
            final(store).slot(old(store).active_slot()) == old(store).slot(
                old(store).active_slot(),
            ).union_prefer_right(final(self).value.record(old(self).spec_key())),
            final(store).slot(!old(store).active_slot()) == old(store).slot(
                !old(store).active_slot(),
            ),
    {
        let next = f(self.value);
        self.value = next;
        self.value.save(self.key.as_str(), store);
    }

    /// Overwrite the value and persist it.
    pub fn set(&mut self, value: T, store: &mut Storage) where T: Copy
        requires
            old(store).wf(),
            old(store).in_transaction(),
        ensures
            final(self).value == value,
            final(self).spec_key() == old(self).spec_key(),
            final(store).wf(),
            final(store).in_transaction(),
            final(store).active_slot() == old(store).active_slot(),
            final(store).committed_slot() == old(store).committed_slot(),
            final(store).slot(old(store).active_slot()) == old(store).slot(
                old(store).active_slot(),
            ).union_prefer_right(value.record(old(self).spec_key())),
            final(store).slot(!old(store).active_slot()) == old(store).slot(
                !old(store).active_slot(),
            ),
    {
        self.value = value;
        self.value.save(self.key.as_str(), store);
    }
}

} // verus!