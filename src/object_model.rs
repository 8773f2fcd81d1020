//! What the framework asks of objects: their size, how to copy them, and how
//! references map to addresses.
use vstd::prelude::*;
use crate::abi::{
    array_size, array_size_fits, high_i32, is_array_id, lemma_round_up, low_i32, plain_size,
    round_up, VmConstants, ARRAY_HEADER_SIZE, OBJECT_HEADER_SIZE, WORD_SIZE,
};
use crate::heap::{
    type_addrs,
    addrs, align_down, align_ptr, index_of, is_aligned, is_object, object_wf, rtti_wf, type_at, Heap,
};

verus! {

/// Offset from an object's address to its reference: none.
pub const OBJECT_REF_OFFSET: usize = 0;

/// Bytes that the object at `a` occupies.
pub open spec fn object_size(h: Heap, c: VmConstants, a: usize) -> int {
    match index_of(addrs(h.objects@), a) {
        Some(i) => {
            let o = h.objects@[i];
            match type_at(h.types@, o.rtti) {
                Some(r) => if is_array_id(r.rt.id, c) {
                    array_size(low_i32(o.fields@[0]), high_i32(o.fields@[0]), c)
                } else {
                    plain_size(r, c)
                },
                None => 0,
            }
        },
        None => 0,
    }
}

/// The size of the object at `a` is a machine word.
pub open spec fn size_fits(h: Heap, c: VmConstants, a: usize) -> bool {
    match index_of(addrs(h.objects@), a) {
        Some(i) => {
            let o = h.objects@[i];
            match type_at(h.types@, o.rtti) {
                Some(r) => {
                    &&& r.size + c.allocation_alignment - 1 <= usize::MAX
                    &&& is_array_id(r.rt.id, c) ==> array_size_fits(
                        low_i32(o.fields@[0]),
                        high_i32(o.fields@[0]),
                        c,
                    )
                },
                None => false,
            }
        },
        None => false,
    }
}

impl Heap {
    /// Bytes that the object at `a` occupies: for an array, its header and
    /// `length * stride` bytes; otherwise the size of its type; rounded up to
    /// the allocation alignment.
    pub fn object_size(&self, c: &VmConstants, a: usize) -> (r: usize)
        requires
            self.wf(*c),
            size_fits(*self, *c, a),
        ensures
            r == object_size(*self, *c, a),
    {
        let i = self.find_object(a).unwrap();
        let j = self.find_type(self.objects[i].rtti).unwrap();
        assert(object_wf(*self, *c, self.objects@[i as int]));
        assert(rtti_wf(self.types@[j as int].rtti));
        self.objects[i].size(&self.types[j].rtti, c)
    }
}

/// The type of the object at `a` as copying reads it: through the header
/// word with its low bits cleared, since the framework may have set
/// forwarding bits there.
pub open spec fn copy_type(h: Heap, c: VmConstants, a: usize) -> Option<crate::abi::Rtti> {
    match index_of(addrs(h.objects@), a) {
        Some(i) => type_at(h.types@, align_down(h.objects@[i].rtti, c.allocation_alignment)),
        None => None,
    }
}

/// Bytes of the object at `a`, by the type that copying reads.
pub open spec fn copy_size(h: Heap, c: VmConstants, a: usize) -> int {
    let o = h.objects@[index_of(addrs(h.objects@), a)->0];
    let r = copy_type(h, c, a)->0;
    if is_array_id(r.rt.id, c) {
        array_size(low_i32(o.fields@[0]), high_i32(o.fields@[0]), c)
    } else {
        plain_size(r, c)
    }
}

/// The copy-time size of the object at `a` is known and is a machine word.
pub open spec fn copy_size_fits(h: Heap, c: VmConstants, a: usize) -> bool {
    let o = h.objects@[index_of(addrs(h.objects@), a)->0];
    let r = copy_type(h, c, a)->0;
    &&& copy_type(h, c, a) is Some
    &&& r.size + c.allocation_alignment - 1 <= usize::MAX
    &&& is_array_id(r.rt.id, c) ==> o.fields@.len() >= 1 && array_size_fits(
        low_i32(o.fields@[0]),
        high_i32(o.fields@[0]),
        c,
    )
}

impl Heap {
    /// Whether the object at `a` is an array, by the type that copying reads.
    pub fn is_array_for_copy(&self, c: &VmConstants, a: usize) -> (r: bool)
        requires
            self.wf(*c),
        ensures
            r == (copy_type(*self, *c, a) matches Some(t) && is_array_id(t.rt.id, *c)),
    {
        match self.find_object(a) {
            Some(i) => match self.find_type(align_ptr(self.objects[i].rtti, c)) {
                Some(j) => self.objects[i].is_array(&self.types[j].rtti, c),
                None => false,
            },
            None => false,
        }
    }

    /// Bytes of the object at `a`, by the type that copying reads.
    pub fn size_for_copy(&self, c: &VmConstants, a: usize) -> (r: usize)
        requires
            self.wf(*c),
            copy_size_fits(*self, *c, a),
        ensures
            r == copy_size(*self, *c, a),
    {
        let i = self.find_object(a).unwrap();
        let j = self.find_type(align_ptr(self.objects[i].rtti, c)).unwrap();
        assert(rtti_wf(self.types@[j as int].rtti));
        self.objects[i].size(&self.types[j].rtti, c)
    }
}

/// A live object has a positive size, a type pointer, and an aligned address.
pub proof fn lemma_live_object(h: Heap, c: VmConstants, i: int)
    requires
        h.wf(c),
        0 <= i < h.objects@.len(),
        size_fits(h, c, h.objects@[i].addr),
    ensures
        object_size(h, c, h.objects@[i].addr) > 0,
        h.objects@[i].rtti != 0,
        is_aligned(h.objects@[i].addr, c.allocation_alignment),
{
    let o = h.objects@[i];
    crate::heap::lemma_index_of(addrs(h.objects@), i);
    assert(addrs(h.objects@)[i] == o.addr);
    assert(object_wf(h, c, o));
    let r = type_at(h.types@, o.rtti)->0;
    let j = index_of(type_addrs(h.types@), o.rtti)->0;
    assert(rtti_wf(h.types@[j].rtti));
    if is_array_id(r.rt.id, c) {
        let len = low_i32(o.fields@[0]);
        let st = high_i32(o.fields@[0]);
        assert(0 <= len * st) by (nonlinear_arith)
            requires len >= 0, st >= 0;
        lemma_round_up(ARRAY_HEADER_SIZE + len * st, c.allocation_alignment as int);
    } else {
        lemma_round_up(r.size as int, c.allocation_alignment as int);
    }
}

/// An array of length zero occupies its header, rounded up to the alignment.
pub proof fn lemma_empty_array_size(stride: i32, c: VmConstants)
    ensures
        array_size(0, stride, c) == round_up(ARRAY_HEADER_SIZE as int, c.allocation_alignment as int),
{
}

/// The framework's view of objects.
pub struct VMObjectModel {}

impl VMObjectModel {
    pub fn get_current_size(h: &Heap, c: &VmConstants, object: usize) -> (r: usize)
        requires
            h.wf(*c),
            size_fits(*h, *c, object),
        ensures
            r == object_size(*h, *c, object),
    {
        h.object_size(c, object)
    }

    /// A copy takes as many bytes as the object it copies.
    pub fn get_size_when_copied(h: &Heap, c: &VmConstants, object: usize) -> (r: usize)
        requires
            h.wf(*c),
            size_fits(*h, *c, object),
        ensures
            r == object_size(*h, *c, object),
    {
        Self::get_current_size(h, c, object)
    }

    pub fn get_align_when_copied() -> (r: usize)
        ensures
            r == WORD_SIZE,
    {
        WORD_SIZE
    }

    pub fn get_align_offset_when_copied() -> (r: usize)
        ensures
            r == 0,
    {
        0
    }

    pub fn ref_to_object_start(object: usize) -> (r: usize)
        ensures
            r == object,
    {
        object - OBJECT_REF_OFFSET
    }

    pub fn ref_to_header(object: usize) -> (r: usize)
        ensures
            r == object,
    {
        object
    }

    pub fn ref_to_address(object: usize) -> (r: usize)
        ensures
            r == object,
    {
        Self::ref_to_object_start(object)
    }

    pub fn address_to_ref(addr: usize) -> (r: usize)
        ensures
            r == addr,
    {
        addr + OBJECT_REF_OFFSET
    }
}

} // verus!
