//! Identifiers, errors and the lock that the state of a host sits behind.
use vstd::prelude::*;

use crate::path::{FilePath, PathView};
use crate::text::{copied, decimal, decimal_text};

verus! {

/// Why a query or a reload failed.
#[derive(Debug, Copy, Clone, PartialEq, Eq, Structural)]
pub enum AError {
    /// A holder of the lock panicked earlier.
    MutexPoison,
    /// Anything else, most often that there is no answer.
    Unclassified,
}

pub type AResult<T> = Result<T, AError>;

/// The value of a result, down to the mathematical view of what it holds.
pub open spec fn outcome<T: DeepView>(r: AResult<T>) -> AResult<T::V> {
    match r {
        Ok(t) => Ok(t.deep_view()),
        Err(e) => Err(e),
    }
}

impl AError {
    /// The sentence that describes an error.
    pub open spec fn sentence(self) -> Seq<char> {
        match self {
            AError::MutexPoison => "poison error in a mutex (usually a secondary error)"@,
            AError::Unclassified => "unknown error"@,
        }
    }

    /// A short description of the error.
    pub fn description(&self) -> (s: &'static str)
        ensures
            s@ == self.sentence(),
    {
        match self {
            AError::MutexPoison => "poison error in a mutex (usually a secondary error)",
            AError::Unclassified => "unknown error",
        }
    }

    /// The error as it is shown: its description.
    pub fn to_string(&self) -> (s: String)
        ensures
            s@ == self.sentence(),
    {
        copied(self.description())
    }
}

/// `std::sync::PoisonError`, carried whole; nothing in it is read.
#[verifier::external_type_specification]
#[verifier::external_body]
#[verifier::reject_recursive_types(T)]
pub struct ExPoisonError<T>(std::sync::PoisonError<T>);

impl<T> From<std::sync::PoisonError<T>> for AError {
    fn from(_error: std::sync::PoisonError<T>) -> (e: AError) {
        AError::MutexPoison
    }
}

impl<T> vstd::std_specs::convert::FromSpecImpl<std::sync::PoisonError<T>> for AError {
    open spec fn obeys_from_spec() -> bool {
        true
    }

    open spec fn from_spec(_error: std::sync::PoisonError<T>) -> AError {
        AError::MutexPoison
    }
}

/// The identity of a definition, the same in every crate that refers to it.
#[derive(Copy, Clone, PartialEq, Eq, Structural, Debug, Hash)]
pub struct Id(pub u64);

impl View for Id {
    type V = Id;

    open spec fn view(&self) -> Id {
        *self
    }
}

impl DeepView for Id {
    type V = Id;

    open spec fn deep_view(&self) -> Id {
        *self
    }
}

impl Id {
    pub fn new(value: u64) -> (id: Id)
        ensures
            id == Id(value),
    {
        Id(value)
    }

    /// The id that stands for a missing index.
    pub open spec fn is_null(self) -> bool {
        self == Id(u64::MAX)
    }

    /// The id that stands for a missing index.
    pub fn null() -> (id: Id)
        ensures
            id.is_null(),
    {
        Id(u64::MAX)
    }

    /// The id as it is shown: its number in decimal.
    pub fn to_string(&self) -> (s: String)
        ensures
            s@ == decimal(self.0 as nat),
    {
        decimal_text(self.0)
    }
}

/// The identity of a loaded crate: its name and the file its data came from.
#[derive(PartialEq, Eq, Debug, Hash)]
pub struct CrateId {
    pub name: String,
    pub path: FilePath,
}

/// What a [`CrateId`] holds.
pub ghost struct CrateIdView {
    pub name: Seq<char>,
    pub path: PathView,
}

impl CrateIdView {
    /// Whether two ids are of the same crate: the names are the same and the paths
    /// name the same file.
    pub open spec fn same(self, other: CrateIdView) -> bool {
        self.name == other.name && self.path.key() == other.path.key()
    }
}

impl View for CrateId {
    type V = CrateIdView;

    open spec fn view(&self) -> CrateIdView {
        CrateIdView { name: self.name@, path: self.path@ }
    }
}

impl Clone for CrateId {
    fn clone(&self) -> (c: CrateId)
        ensures
            c@ == self@,
    {
        CrateId { name: self.name.clone(), path: self.path.clone() }
    }
}

impl CrateId {
    pub fn new(name: String, path: FilePath) -> (c: CrateId)
        ensures
            c == (CrateId { name, path }),
    {
        CrateId { name, path }
    }

    /// Whether two crates are the same crate.
    pub fn same(&self, other: &CrateId) -> (b: bool)
        ensures
            b == self@.same(other@),
    {
        self.name == other.name && self.path.same(&other.path)
    }
}

/// A value behind a lock. Once a holder of the lock has panicked the lock is
/// poisoned, and everyone who asks for it gets [`AError::MutexPoison`].
#[derive(Debug)]
pub struct Guarded<T> {
    value: T,
    poisoned: bool,
}

impl<T> Guarded<T> {
    /// What the lock guards.
    pub closed spec fn value(&self) -> T {
        self.value
    }

    /// Whether a holder of the lock has panicked.
    pub closed spec fn is_poisoned(&self) -> bool {
        self.poisoned
    }

    pub fn new(value: T) -> (g: Guarded<T>)
        ensures
            g.value() == value,
            !g.is_poisoned(),
    {
        Guarded { value, poisoned: false }
    }

    /// Takes the lock to read.
    pub fn lock(&self) -> (r: AResult<&T>)
        ensures
            r == (if self.is_poisoned() {
                Err::<&T, AError>(AError::MutexPoison)
            } else {
                Ok(&self.value())
            }),
    {
        if self.poisoned {
            Err(AError::MutexPoison)
        } else {
            Ok(&self.value)
        }
    }

    /// Takes the lock to write.
    pub fn lock_mut(&mut self) -> (r: AResult<&mut T>)
        ensures
            final(self).is_poisoned() == old(self).is_poisoned(),
            match r {
                Ok(value) => {
                    &&& !old(self).is_poisoned()
                    &&& *value == old(self).value()
                    &&& final(self).value() == *final(value)
                },
                Err(e) => {
                    &&& old(self).is_poisoned()
                    &&& e == AError::MutexPoison
                    &&& final(self).value() == old(self).value()
                },
            },
    {
        if self.poisoned {
            Err(AError::MutexPoison)
        } else {
            Ok(&mut self.value)
        }
    }

    /// Takes the lock and stores a value.
    pub fn set(&mut self, value: T) -> (r: AResult<()>)
        ensures
            final(self).is_poisoned() == old(self).is_poisoned(),
            old(self).is_poisoned() ==> r == Err::<(), AError>(AError::MutexPoison)
                && final(self).value() == old(self).value(),
            !old(self).is_poisoned() ==> r == Ok::<(), AError>(()) && final(self).value() == value,
    {
        if self.poisoned {
            Err(AError::MutexPoison)
        } else {
            self.value = value;
            Ok(())
        }
    }

    /// Gives up the lock for the value.
    pub fn into_inner(self) -> (r: AResult<T>)
        ensures
            r == (if self.is_poisoned() {
                Err::<T, AError>(AError::MutexPoison)
            } else {
                Ok(self.value())
            }),
    {
        if self.poisoned {
            Err(AError::MutexPoison)
        } else {
            Ok(self.value)
        }
    }

    /// Records that a holder of the lock panicked.
    pub fn poison(&mut self)
        ensures
            final(self).is_poisoned(),
            final(self).value() == old(self).value(),
    {
        self.poisoned = true;
    }
}

} // verus!
