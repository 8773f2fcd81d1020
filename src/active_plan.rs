//! Enumeration of the mutators, in the order the runtime reports them.
use vstd::prelude::*;

verus! {

/// The mutators that the runtime reported, handed out oldest first.
pub struct ScalaNativeMutatorIterator {
    pub mutators: Vec<usize>,
    pub next_index: usize,
}

impl ScalaNativeMutatorIterator {
    /// The mutators not yet handed out.
    pub open spec fn remaining(&self) -> Seq<usize> {
        self.mutators@.subrange(self.next_index as int, self.mutators@.len() as int)
    }

    pub open spec fn wf(&self) -> bool {
        self.next_index <= self.mutators@.len()
    }

    pub fn new(mutators: Vec<usize>) -> (r: ScalaNativeMutatorIterator)
        ensures
            r.wf(),
            r.remaining() == mutators@,
    {
        let r = ScalaNativeMutatorIterator { mutators, next_index: 0 };
        assert(r.remaining() =~= r.mutators@);
        r
    }

    pub fn next(&mut self) -> (r: Option<usize>)
        requires
            old(self).wf(),
        ensures
            final(self).wf(),
            old(self).remaining().len() == 0 ==> r is None && final(self).remaining() == old(self).remaining(),
            old(self).remaining().len() > 0 ==> r == Some(old(self).remaining()[0])
                && final(self).remaining() == old(self).remaining().drop_first(),
    {
        if self.next_index < self.mutators.len() {
            let m = self.mutators[self.next_index];
            self.next_index = self.next_index + 1;
            assert(self.remaining() =~= old(self).remaining().drop_first());
            Some(m)
        } else {
            None
        }
    }
}

/// Mutator enumeration for the framework.
pub struct VMActivePlan {}

impl VMActivePlan {
    /// All the mutators, in the order given.
    pub fn mutators(reported: Vec<usize>) -> (r: ScalaNativeMutatorIterator)
        ensures
            r.wf(),
            r.remaining() == reported@,
    {
        ScalaNativeMutatorIterator::new(reported)
    }
}

} // verus!
