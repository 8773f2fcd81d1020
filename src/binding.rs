//! The binding's own state: the constants of the runtime and the objects it
//! pinned during root scanning.
use vstd::prelude::*;
use crate::abi::VmConstants;
use crate::heap::{addrs, distinct, index_of, Heap, PinBits};

verus! {

pub struct ScalaNativeBinding {
    pub constants: VmConstants,
    /// Objects pinned by root scanning, to be unpinned at weak-reference processing.
    pub pinned_objects: Vec<usize>,
}

impl ScalaNativeBinding {
    pub fn new(constants: VmConstants) -> (r: ScalaNativeBinding)
        ensures
            r.constants == constants,
            r.pinned_objects@.len() == 0,
    {
        ScalaNativeBinding { constants, pinned_objects: Vec::new() }
    }

    /// Adds objects to the pinned set.
    pub fn append_pinned_objects(&mut self, objects: &mut Vec<usize>)
        ensures
            final(self).constants == old(self).constants,
            final(self).pinned_objects@ == old(self).pinned_objects@ + old(objects)@,
            final(objects)@.len() == 0,
    {
        self.pinned_objects.append(objects);
    }

    /// Clears the pinning bit of every object of the pinned set, and empties the set.
    pub fn unpin_pinned_objects(&mut self, h: &Heap, pins: &mut PinBits)
        requires
            h.wf_pins(*old(pins)),
            distinct(addrs(h.objects@)),
        ensures
            h.wf_pins(*final(pins)),
            final(self).constants == old(self).constants,
            final(self).pinned_objects@.len() == 0,
            forall|i: int| 0 <= i < h.objects@.len() ==> #[trigger] final(pins).bits@[i] == (old(pins).bits@[i]
                && !old(self).pinned_objects@.contains(h.objects@[i].addr)),
    {
        let ghost list = self.pinned_objects@;
        let mut k: usize = 0;
        while k < self.pinned_objects.len()
            invariant
                h.wf_pins(*pins),
                distinct(addrs(h.objects@)),
                self.pinned_objects@ == list,
                k <= list.len(),
                forall|i: int| 0 <= i < h.objects@.len() ==> #[trigger] pins.bits@[i] == (old(pins).bits@[i]
                    && !list.subrange(0, k as int).contains(h.objects@[i].addr)),
            decreases list.len() - k,
        {
            let a = self.pinned_objects[k];
            let ghost before = pins.bits@;
            match h.find_object(a) {
                Some(i) => {
                    pins.bits.set(i, false);
                },
                None => {},
            }
            proof {
                assert(list.subrange(0, k + 1) =~= list.subrange(0, k as int).push(a));
                assert forall|i: int| 0 <= i < h.objects@.len() implies #[trigger] pins.bits@[i] == (old(pins).bits@[i]
                    && !list.subrange(0, k + 1).contains(h.objects@[i].addr)) by {
                    crate::heap::lemma_push_contains(list.subrange(0, k as int), a, h.objects@[i].addr);
                    crate::heap::lemma_index_of(addrs(h.objects@), i);
                    assert(addrs(h.objects@)[i] == h.objects@[i].addr);
                }
            }
            k = k + 1;
        }
        self.pinned_objects.clear();
        proof {
            assert(list.subrange(0, list.len() as int) =~= list);
        }
    }
}

} // verus!
