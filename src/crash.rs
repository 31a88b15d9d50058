//! Failing executions, their structural fingerprints, and the set of crashes
//! a worker has already reported.
use vstd::prelude::*;

use crate::value::{all_equal, all_equiv, duplicate_all, Value};

verus! {

/// The error an execution backend reports for a failed call.
#[derive(Debug, PartialEq, Eq)]
pub enum Error {
    Unknown { message: String },
}

impl Error {
    /// The human-readable message of the error.
    pub open spec fn message_of(&self) -> Seq<char> {
        match self {
            Error::Unknown { message } => message@,
        }
    }

    /// A copy of this error.
    pub fn duplicate(&self) -> (r: Error)
        ensures
            r.message_of() == self.message_of(),
    {
        match self {
            Error::Unknown { message } => Error::Unknown { message: message.clone() },
        }
    }

    /// The human-readable message of the error.
    pub fn message(&self) -> (r: String)
        ensures
            r@ == self.message_of(),
    {
        match self {
            Error::Unknown { message } => message.clone(),
        }
    }
}

/// A failed call: the module and function called, the inputs, and the error.
#[derive(Debug, PartialEq, Eq)]
pub struct Crash {
    pub module: String,
    pub function: String,
    pub inputs: Vec<Value>,
    pub error: Error,
}

/// Two crashes have the same signature: same module, same function,
/// structurally equal inputs, same error.
pub open spec fn same_crash(a: Crash, b: Crash) -> bool {
    &&& a.module@ == b.module@
    &&& a.function@ == b.function@
    &&& all_equiv(a.inputs@, b.inputs@)
    &&& a.error.message_of() == b.error.message_of()
}

/// Whether a crash with the signature of `c` is among `seen`.
pub open spec fn known(seen: Seq<Crash>, c: Crash) -> bool {
    exists|i: int| 0 <= i < seen.len() && same_crash(#[trigger] seen[i], c)
}

impl Crash {
    /// A crash record made of copies of its parts.
    pub fn new(module: &String, function: &String, inputs: &Vec<Value>, error: &Error) -> (r:
        Crash)
        ensures
            r.module@ == module@,
            r.function@ == function@,
            all_equiv(inputs@, r.inputs@),
            r.error.message_of() == error.message_of(),
    {
        Crash {
            module: module.clone(),
            function: function.clone(),
            inputs: duplicate_all(inputs),
            error: error.duplicate(),
        }
    }

    /// Whether the two crashes have the same signature.
    pub fn same_as(&self, other: &Crash) -> (r: bool)
        ensures
            r == same_crash(*self, *other),
    {
        if self.module != other.module || self.function != other.function {
            return false;
        }
        if !all_equal(&self.inputs, &other.inputs) {
            return false;
        }
        let a = self.error.message();
        let b = other.error.message();
        a == b
    }
}

/// The crashes a worker has reported, by signature.
pub struct CrashSet {
    crashes: Vec<Crash>,
}

impl CrashSet {
    /// The reported crashes, in the order they came.
    pub closed spec fn view(&self) -> Seq<Crash> {
        self.crashes@
    }

    /// An empty set.
    pub fn new() -> (r: Self)
        ensures
            r@ == Seq::<Crash>::empty(),
    {
        CrashSet { crashes: Vec::new() }
    }

    /// The number of reported crashes.
    pub fn len(&self) -> (r: usize)
        ensures
            r == self@.len(),
    {
        self.crashes.len()
    }

    /// Whether a crash with the signature of `c` was reported.
    pub fn contains(&self, c: &Crash) -> (r: bool)
        ensures
            r == known(self@, *c),
    {
        let mut i: usize = 0;
        while i < self.crashes.len()
            invariant
                i <= self.crashes@.len(),
                forall|j: int| 0 <= j < i ==> !same_crash(#[trigger] self.crashes@[j], *c),
            decreases self.crashes@.len() - i,
        {
            if self.crashes[i].same_as(c) {
                return true;
            }
            i = i + 1;
        }
        false
    }

    /// Adds `c` unless a crash with its signature was reported; says whether it
    /// was new.
    pub fn insert(&mut self, c: Crash) -> (r: bool)
        ensures
            r == !known(old(self)@, c),
            final(self)@ == if r {
                old(self)@.push(c)
            } else {
                old(self)@
            },
    {
        if self.contains(&c) {
            false
        } else {
            self.crashes.push(c);
            true
        }
    }
}

/// Reporting the same crash twice gives one new entry: once a crash is added,
/// any crash with the same signature is known. A crash whose signature differs
/// from the added one stays new if it was.
pub proof fn lemma_dedup_idempotent(seen: Seq<Crash>, first: Crash, again: Crash, other: Crash)
    requires
        same_crash(first, again),
    ensures
        known(seen.push(first), again),
        !same_crash(first, other) && !known(seen, other) ==> !known(seen.push(first), other),
{
    let s = seen.push(first);
    assert(same_crash(s[seen.len() as int], again));
    if !same_crash(first, other) && !known(seen, other) {
        assert forall|i: int| 0 <= i < s.len() implies !same_crash(#[trigger] s[i], other) by {
            if i < seen.len() {
                assert(s[i] == seen[i]);
            }
        }
    }
}

/// What a worker reports outward.
#[derive(Debug, PartialEq, Eq)]
pub enum WorkerEvent {
    /// A crash whose signature was not seen before: function, inputs, error.
    NewCrash(String, Vec<Value>, Error),
}

} // verus!
