//! A byte-level mutation pass together with the record of every run of it.
use vstd::prelude::*;

verus! {

/// One run of the byte-level pass: the bytes it was given, the number of
/// mutation rounds asked for, and the bytes it handed back.
pub type Pass = (Seq<u8>, nat, Seq<u8>);

/// A general-purpose byte-level mutation pass, seeded by whoever builds it.
pub trait ByteMutator {
    /// Applies `count` rounds of mutation to `input`, in place.
    fn mutate_bytes(&mut self, input: &mut Vec<u8>, count: usize);
}

/// A byte-level pass whose runs are recorded, in proof only; the record grows
/// only by running the pass.
pub struct PassLog<B> {
    inner: B,
    log: Ghost<Seq<Pass>>,
}

impl<B: ByteMutator> PassLog<B> {
    /// Every run so far, in order.
    pub closed spec fn passes(&self) -> Seq<Pass> {
        self.log@
    }

    /// `inner`, with no run recorded yet.
    pub fn new(inner: B) -> (r: Self)
        ensures
            r.passes() == Seq::<Pass>::empty(),
    {
        PassLog { inner, log: Ghost(Seq::empty()) }
    }

    /// Runs the pass with `count` rounds on `input` and records the bytes it
    /// was given and handed back.
    pub fn run(&mut self, input: &mut Vec<u8>, count: usize)
        ensures
            final(self).passes() == old(self).passes().push(
                (old(input)@, count as nat, final(input)@),
            ),
    {
        let ghost given = input@;
        self.inner.mutate_bytes(input, count);
        self.log = Ghost(self.log@.push((given, count as nat, input@)));
    }
}

} // verus!
