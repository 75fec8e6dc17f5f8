//! The actor abstraction: opaque session identifiers, an error capability,
//! and the contract every session actor offers its driver.

use vstd::prelude::*;

verus! {

/// An error that tells its caller whether the failed operation left the
/// actor usable, and whether the very same call could succeed on a retry.
pub trait Error {
    fn recoverable(&self) -> bool;

    fn retryable(&self) -> bool;
}

/// Relies on uuid::Uuid::new_v4 and Uuid::as_u128: a freshly generated
/// version-4 identifier read as an integer. Nothing is promised of the
/// value.
#[verifier::external_body]
fn fresh_u128() -> u128 {
    uuid::Uuid::new_v4().as_u128()
}

/// An opaque, nonzero session identifier: a comparable, printable token,
/// never used in arithmetic.
#[derive(Copy, Clone, PartialEq, Eq, Structural, Hash, Debug)]
pub struct Id {
    value: u128,
}

impl Id {
    pub closed spec fn spec_value(self) -> u128 {
        self.value
    }

    /// Wraps a raw value; zero is reserved for "no identifier" and refused.
    pub fn new(id: u128) -> (r: Option<Id>)
        ensures
            id == 0 ==> r is None,
            id != 0 ==> (r matches Some(x) && x.spec_value() == id),
    {
        if id == 0 {
            None
        } else {
            Some(Id { value: id })
        }
    }

    /// A fresh high-entropy identifier, always nonzero: the one value the
    /// generator could draw that collides with "no identifier" is mapped to
    /// one.
    pub fn random() -> (r: Id)
        ensures
            r.spec_value() != 0,
    {
        let v = fresh_u128();
        if v == 0 {
            Id { value: 1 }
        } else {
            Id { value: v }
        }
    }

    pub fn into_inner(&self) -> (r: u128)
        ensures
            r == self.spec_value(),
    {
        self.value
    }
}

/// One session actor: it accepts commands without waiting on their
/// processing, performs its own execution step on demand, and exposes a
/// consistent snapshot of its state.
pub trait Actor {
    type Message;

    type State;

    type Failure;

    fn name(&self) -> &'static str;

    fn id(&self) -> &Id;

    fn send(&self, message: Self::Message) -> Result<(), Self::Failure>;

    fn on_tick(&self) -> Result<(), Self::Failure>;

    fn state(&self) -> Self::State;
}

} // verus!
