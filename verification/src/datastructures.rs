//! Shared sensors: a writer handle over a shared cell, and weak reader
//! handles that observe the latest written value and notice when the
//! sensor is gone.
//!
//! The cell is ordinary shared-memory plumbing (a reference-counted
//! interior-mutable cell), which admits no functional contract: a write
//! through one handle changes what every aliasing handle reads. The
//! wrappers below therefore carry no postconditions; the value-level
//! logic of each sensor lives in the [`SetGet`] values stored inside.

use vstd::prelude::*;

use core::cell::RefCell;
use std::rc::Rc;
use std::rc::Weak;

verus! {

#[verifier::external_type_specification]
#[verifier::external_body]
#[verifier::reject_recursive_types(T)]
pub struct ExRefCell<T: ?Sized>(RefCell<T>);

/// A weak handle to a sensor cell. The standard weak pointer cannot be
/// declared to the verifier on stable (its allocator parameter is not
/// nameable), so this library holds it opaquely and only ever upgrades
/// it.
#[verifier::external_body]
#[verifier::reject_recursive_types(T)]
struct WeakCell<T>(Weak<RefCell<T>>);

impl<T> Clone for WeakCell<T> {
    /// Relies on `Weak::clone`: another handle to the same cell.
    #[verifier::external_body]
    fn clone(&self) -> WeakCell<T> {
        WeakCell(self.0.clone())
    }
}

/// Relies on `RefCell::new`.
#[verifier::external_body]
fn cell_new<T>(value: T) -> RefCell<T> {
    RefCell::new(value)
}

/// Relies on `RefCell::replace`. No borrow of any cell outlives the
/// wrapper that takes it, so the borrow check cannot fail.
#[verifier::external_body]
fn cell_replace<T>(cell: &RefCell<T>, value: T) -> T {
    cell.replace(value)
}

/// Relies on `RefCell::borrow`: returns a copy of the current contents.
/// No borrow of any cell outlives the wrapper that takes it, so the
/// borrow check cannot fail.
#[verifier::external_body]
fn cell_get<T: Copy>(cell: &RefCell<T>) -> T {
    *cell.borrow()
}

/// Relies on `Rc::downgrade`.
#[verifier::external_body]
fn rc_downgrade<T>(rc: &Rc<RefCell<T>>) -> WeakCell<T> {
    WeakCell(Rc::downgrade(rc))
}

/// Relies on `Weak::upgrade`: the strong handle, while one still
/// exists.
#[verifier::external_body]
fn weak_upgrade<T>(weak: &WeakCell<T>) -> Option<Rc<RefCell<T>>> {
    weak.0.upgrade()
}

/// A value a sensor can hold: something whose reading can be taken and
/// replaced.
pub trait SetGet: Sized {
    type Val;

    fn get(&self) -> Self::Val;

    fn set(&mut self, val: Self::Val);
}

impl<T: Copy> SetGet for T {
    type Val = T;

    fn get(&self) -> T {
        *self
    }

    fn set(&mut self, val: T) {
        *self = val;
    }
}

/// The writing side of a shared sensor.
#[verifier::reject_recursive_types(T)]
pub struct Sensor<T> {
    input: Rc<RefCell<T>>,
}

/// The observing side: sees the latest value written through the
/// sensor, or nothing once the sensor has been dropped.
#[derive(Clone)]
#[verifier::reject_recursive_types(T)]
pub struct Reader<T> {
    output: WeakCell<T>,
}

impl<T: SetGet + Copy> Sensor<T> {
    /// Just create a sensor, leaving reader creation to later.
    pub fn raw(val: T) -> Sensor<T> {
        Sensor { input: Rc::new(cell_new(val)) }
    }

    /// Create a sensor and a reader at the same time.
    pub fn new(val: T) -> (Sensor<T>, Reader<T>) {
        let this = Sensor::raw(val);
        let reader = this.make_reader();
        (this, reader)
    }

    /// A fresh observer of this sensor.
    pub fn make_reader(&self) -> Reader<T> {
        Reader { output: rc_downgrade(&self.input) }
    }

    /// Replace the sensor's reading by a function of the current one.
    pub fn update<F: FnOnce(T::Val) -> T::Val>(&mut self, f: F)
        requires
            forall|v: T::Val| call_requires(f, (v,)),
    {
        let mut held = cell_get(&self.input);
        let next = f(held.get());
        held.set(next);
        let _ = cell_replace(&self.input, held);
    }

    /// Replace the sensor's reading by a function of the current one
    /// and hand the new reading back.
    pub fn modify<F: FnOnce(T::Val) -> T::Val>(&mut self, f: F) -> (new_val: T::Val) where
        T::Val: Copy
        requires
            forall|v: T::Val| call_requires(f, (v,)),
        ensures
            exists|prior: T::Val| call_ensures(f, (prior,), new_val),
    {
        let mut held = cell_get(&self.input);
        let next = f(held.get());
        held.set(next);
        let _ = cell_replace(&self.input, held);
        next
    }

    /// The current reading.
    pub fn get(&self) -> T::Val {
        cell_get(&self.input).get()
    }

    /// Overwrite the current reading.
    pub fn set(&mut self, val: T::Val) {
        let mut held = cell_get(&self.input);
        held.set(val);
        let _ = cell_replace(&self.input, held);
    }
}

impl<T: SetGet + Copy> SetGet for Sensor<T> {
    type Val = T::Val;

    fn get(&self) -> T::Val {
        Sensor::get(self)
    }

    fn set(&mut self, val: T::Val) {
        Sensor::set(self, val)
    }
}

impl<T: SetGet + Copy> Reader<T> {
    /// The sensor's current reading, or `None` once the sensor has been
    /// dropped.
    pub fn get(&self) -> Option<T::Val> {
        match weak_upgrade(&self.output) {
            None => None,
            Some(cell) => Some(cell_get(&cell).get()),
        }
    }
}

} // verus!