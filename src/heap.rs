//! The heap as the scanner sees it: typed addresses, the objects that live
//! in `[start, end)`, and the type information that their headers address.
use vstd::prelude::*;
use crate::abi::{
    is_array_id, is_weak_ref_id, Object, Rtti, VmConstants, ARRAY_HEADER_SIZE,
    OBJECT_HEADER_SIZE,
};

verus! {

/// `heap_start <= p < heap_end`: the heap is half-open.
pub open spec fn in_heap(start: usize, end: usize, p: usize) -> bool {
    start <= p && p < end
}

/// `(p & (α - 1)) == 0`.
pub open spec fn is_aligned(p: usize, alignment: usize) -> bool {
    p & ((alignment - 1) as usize) == 0
}

/// `p & !(α - 1)`.
pub open spec fn align_down(p: usize, alignment: usize) -> usize {
    p & !((alignment - 1) as usize)
}

/// Type information at an address of static data.
pub struct TypeEntry {
    pub addr: usize,
    pub rtti: Rtti,
}

/// A snapshot of the heap: its bounds, the live objects, whether each is
/// marked (reachable in the current cycle), and the type table.
pub struct Heap {
    pub start: usize,
    pub end: usize,
    pub types: Vec<TypeEntry>,
    pub objects: Vec<Object>,
    pub marked: Vec<bool>,
}

/// The pinning bit of each object of a heap, in the order of its objects.
pub struct PinBits {
    pub bits: Vec<bool>,
}

/// The addresses of the objects, in order.
pub open spec fn addrs(objs: Seq<Object>) -> Seq<usize> {
    objs.map_values(|o: Object| o.addr)
}

/// The header words of the objects that address their type information.
pub open spec fn rtti_words(objs: Seq<Object>) -> Seq<usize> {
    objs.map_values(|o: Object| o.rtti)
}

/// The index of the object at address `a`, if there is one.
pub open spec fn index_of(s: Seq<usize>, a: usize) -> Option<int> {
    if s.contains(a) {
        Some(choose|i: int| 0 <= i < s.len() && s[i] == a)
    } else {
        None
    }
}

/// The addresses of the type entries, in order.
pub open spec fn type_addrs(types: Seq<TypeEntry>) -> Seq<usize> {
    types.map_values(|t: TypeEntry| t.addr)
}

/// The type information that header word `w` addresses, if there is any.
pub open spec fn type_at(types: Seq<TypeEntry>, w: usize) -> Option<Rtti> {
    match index_of(type_addrs(types), w) {
        Some(j) => Some(types[j].rtti),
        None => None,
    }
}

/// The type of the object at address `a`, if `a` is an object whose header resolves.
pub open spec fn type_of(h: Heap, a: usize) -> Option<Rtti> {
    match index_of(addrs(h.objects@), a) {
        Some(i) => type_at(h.types@, h.objects@[i].rtti),
        None => None,
    }
}

/// Whether an object starts at address `a`.
pub open spec fn is_object(h: Heap, a: usize) -> bool {
    addrs(h.objects@).contains(a)
}

/// Whether `a` is an object whose type is a weak reference.
pub open spec fn is_weak_object(h: Heap, c: VmConstants, a: usize) -> bool {
    match type_of(h, a) {
        Some(r) => is_weak_ref_id(r.rt.id, c),
        None => false,
    }
}

/// Two heaps that agree on bounds, types, and each object's address and type
/// word answer every object and type query alike.
pub open spec fn same_shape(h1: Heap, h2: Heap) -> bool {
    &&& h1.start == h2.start
    &&& h1.end == h2.end
    &&& h1.types@ == h2.types@
    &&& addrs(h1.objects@) == addrs(h2.objects@)
    &&& rtti_words(h1.objects@) == rtti_words(h2.objects@)
}

pub proof fn lemma_same_shape(h1: Heap, h2: Heap, c: VmConstants, a: usize)
    requires
        same_shape(h1, h2),
    ensures
        is_object(h1, a) == is_object(h2, a),
        type_of(h1, a) == type_of(h2, a),
        is_weak_object(h1, c, a) == is_weak_object(h2, c, a),
{
    match index_of(addrs(h1.objects@), a) {
        Some(i) => {
            assert(h1.objects@[i].rtti == rtti_words(h1.objects@)[i]);
            assert(h2.objects@[i].rtti == rtti_words(h2.objects@)[i]);
        },
        None => {},
    }
}

/// No two entries of `s` are equal.
pub open spec fn distinct(s: Seq<usize>) -> bool {
    forall|i: int, j: int| 0 <= i < s.len() && 0 <= j < s.len() && s[i] == s[j] ==> i == j
}

pub proof fn lemma_index_of(s: Seq<usize>, i: int)
    requires
        distinct(s),
        0 <= i < s.len(),
    ensures
        index_of(s, s[i]) == Some(i),
{
    assert(s.contains(s[i]));
}

/// Type information that the scanner can rely on.
pub open spec fn rtti_wf(r: Rtti) -> bool {
    &&& r.size >= OBJECT_HEADER_SIZE
    &&& r.size <= i32::MAX
}

/// An object that lies within the heap, aligned, with a type and a positive size.
pub open spec fn object_wf(h: Heap, c: VmConstants, o: Object) -> bool {
    &&& in_heap(h.start, h.end, o.addr)
    &&& is_aligned(o.addr, c.allocation_alignment)
    &&& o.rtti != 0
    &&& o.addr + OBJECT_HEADER_SIZE + WORD * o.fields@.len() <= h.end
    &&& type_at(h.types@, o.rtti) is Some
    &&& is_array_id(type_at(h.types@, o.rtti)->0.rt.id, c) ==> o.fields@.len() >= 1
}

pub const WORD: usize = 8;

impl Heap {
    /// The heap's invariant.
    pub open spec fn wf(&self, c: VmConstants) -> bool {
        &&& c.wf()
        &&& 0 < self.start <= self.end
        &&& self.end + ARRAY_HEADER_SIZE <= usize::MAX
        &&& distinct(addrs(self.objects@))
        &&& distinct(type_addrs(self.types@))
        &&& self.marked@.len() == self.objects@.len()
        &&& forall|i: int| 0 <= i < self.objects@.len() ==> object_wf(*self, c, #[trigger] self.objects@[i])
        &&& forall|j: int| 0 <= j < self.types@.len() ==> rtti_wf(#[trigger] self.types@[j].rtti)
    }

    /// One pinning bit per object.
    pub open spec fn wf_pins(&self, pins: PinBits) -> bool {
        pins.bits@.len() == self.objects@.len()
    }

    /// Index of the object at `a`.
    pub fn find_object(&self, a: usize) -> (r: Option<usize>)
        requires
            distinct(addrs(self.objects@)),
        ensures
            r matches Some(i) ==> index_of(addrs(self.objects@), a) == Some(i as int),
            r is None ==> index_of(addrs(self.objects@), a) is None,
            r is Some == is_object(*self, a),
    {
        let ghost s = addrs(self.objects@);
        let mut i: usize = 0;
        while i < self.objects.len()
            invariant
                i <= self.objects@.len(),
                s == addrs(self.objects@),
                distinct(s),
                forall|j: int| 0 <= j < i ==> s[j] != a,
            decreases self.objects@.len() - i,
        {
            if self.objects[i].addr == a {
                proof {
                    assert(s[i as int] == a);
                    lemma_index_of(s, i as int);
                }
                return Some(i);
            }
            i = i + 1;
        }
        proof {
            assert(!s.contains(a)) by {
                if s.contains(a) {
                    let k = choose|k: int| 0 <= k < s.len() && s[k] == a;
                    assert(s[k] == a);
                }
            }
        }
        None
    }

    /// Index of the type entry at `w`.
    pub fn find_type(&self, w: usize) -> (r: Option<usize>)
        requires
            distinct(type_addrs(self.types@)),
        ensures
            r matches Some(j) ==> j < self.types@.len() && type_at(self.types@, w) == Some(
                self.types@[j as int].rtti,
            ) && self.types@[j as int].addr == w,
            r is None ==> type_at(self.types@, w) is None,
    {
        let ghost s = type_addrs(self.types@);
        let mut j: usize = 0;
        while j < self.types.len()
            invariant
                j <= self.types@.len(),
                s == type_addrs(self.types@),
                distinct(s),
                forall|k: int| 0 <= k < j ==> s[k] != w,
            decreases self.types@.len() - j,
        {
            if self.types[j].addr == w {
                proof {
                    assert(s[j as int] == w);
                    lemma_index_of(s, j as int);
                }
                return Some(j);
            }
            j = j + 1;
        }
        proof {
            assert(!s.contains(w)) by {
                if s.contains(w) {
                    let k = choose|k: int| 0 <= k < s.len() && s[k] == w;
                    assert(s[k] == w);
                }
            }
        }
        None
    }

    /// The type of the object at address `a`, as the index of its type entry.
    pub fn type_index_of(&self, a: usize) -> (r: Option<usize>)
        requires
            distinct(addrs(self.objects@)),
            distinct(type_addrs(self.types@)),
        ensures
            r matches Some(j) ==> j < self.types@.len() && type_of(*self, a) == Some(
                self.types@[j as int].rtti,
            ),
            r is None ==> type_of(*self, a) is None,
    {
        match self.find_object(a) {
            Some(i) => self.find_type(self.objects[i].rtti),
            None => None,
        }
    }

    /// Whether `a` is an object whose type is a weak reference.
    pub fn is_weak_object(&self, c: &VmConstants, a: usize) -> (r: bool)
        requires
            distinct(addrs(self.objects@)),
            distinct(type_addrs(self.types@)),
        ensures
            r == is_weak_object(*self, *c, a),
    {
        match self.type_index_of(a) {
            Some(j) => {
                let id = self.types[j].rtti.rt.id;
                c.weak_ref_ids_min <= id && id <= c.weak_ref_ids_max
            },
            None => false,
        }
    }
}

/// Whether no two entries of `s` are equal.
pub fn all_distinct(s: &Vec<usize>) -> (r: bool)
    ensures
        r == distinct(s@),
{
    let mut i: usize = 0;
    while i < s.len()
        invariant
            i <= s@.len(),
            forall|a: int, b: int| 0 <= a < i && 0 <= b < s@.len() && s@[a] == s@[b] ==> a == b,
        decreases s@.len() - i,
    {
        let mut j: usize = 0;
        while j < s.len()
            invariant
                i < s@.len(),
                j <= s@.len(),
                forall|a: int, b: int| 0 <= a < i && 0 <= b < s@.len() && s@[a] == s@[b] ==> a == b,
                forall|b: int| 0 <= b < j && s@[i as int] == s@[b] ==> i == b,
            decreases s@.len() - j,
        {
            if j != i && s[i] == s[j] {
                return false;
            }
            j = j + 1;
        }
        i = i + 1;
    }
    true
}

impl Heap {
    /// Whether the snapshot meets the heap's invariant.
    pub fn is_well_formed(&self, c: &VmConstants) -> (r: bool)
        ensures
            r == self.wf(*c),
    {
        if !c.is_valid() || self.start == 0 || self.start > self.end || self.end > usize::MAX - ARRAY_HEADER_SIZE {
            return false;
        }
        if self.marked.len() != self.objects.len() {
            return false;
        }
        let mut object_addrs: Vec<usize> = Vec::new();
        let mut i: usize = 0;
        while i < self.objects.len()
            invariant
                i <= self.objects@.len(),
                object_addrs@ == addrs(self.objects@).subrange(0, i as int),
            decreases self.objects@.len() - i,
        {
            object_addrs.push(self.objects[i].addr);
            i = i + 1;
            assert(object_addrs@ =~= addrs(self.objects@).subrange(0, i as int));
        }
        assert(object_addrs@ =~= addrs(self.objects@));
        let mut type_entry_addrs: Vec<usize> = Vec::new();
        let mut j: usize = 0;
        while j < self.types.len()
            invariant
                j <= self.types@.len(),
                type_entry_addrs@ == type_addrs(self.types@).subrange(0, j as int),
            decreases self.types@.len() - j,
        {
            type_entry_addrs.push(self.types[j].addr);
            j = j + 1;
            assert(type_entry_addrs@ =~= type_addrs(self.types@).subrange(0, j as int));
        }
        assert(type_entry_addrs@ =~= type_addrs(self.types@));
        if !all_distinct(&object_addrs) || !all_distinct(&type_entry_addrs) {
            return false;
        }
        let mut j: usize = 0;
        while j < self.types.len()
            invariant
                j <= self.types@.len(),
                forall|k: int| 0 <= k < j ==> rtti_wf(#[trigger] self.types@[k].rtti),
            decreases self.types@.len() - j,
        {
            let size = self.types[j].rtti.size;
            if size < OBJECT_HEADER_SIZE as i32 {
                return false;
            }
            j = j + 1;
        }
        let mut i: usize = 0;
        while i < self.objects.len()
            invariant
                c.wf(),
                0 < self.start <= self.end,
                self.end + ARRAY_HEADER_SIZE <= usize::MAX,
                distinct(type_addrs(self.types@)),
                i <= self.objects@.len(),
                forall|k: int| 0 <= k < i ==> object_wf(*self, *c, #[trigger] self.objects@[k]),
            decreases self.objects@.len() - i,
        {
            let o = &self.objects[i];
            if !(self.start <= o.addr && o.addr < self.end) || !is_ptr_aligned(o.addr, c) || o.rtti == 0 {
                return false;
            }
            if self.end - o.addr < OBJECT_HEADER_SIZE {
                return false;
            }
            if o.fields.len() > (self.end - o.addr - OBJECT_HEADER_SIZE) / WORD {
                return false;
            }
            match self.find_type(o.rtti) {
                None => {
                    return false;
                },
                Some(t) => {
                    let id = self.types[t].rtti.rt.id;
                    if c.array_ids_min <= id && id <= c.array_ids_max && o.fields.len() == 0 {
                        return false;
                    }
                },
            }
            i = i + 1;
        }
        true
    }
}

/// Whether `address` lies in the heap `[start, end)`.
pub fn is_word_in_heap(h: &Heap, address: usize) -> (r: bool)
    ensures
        r == in_heap(h.start, h.end, address),
{
    address >= h.start && address < h.end
}

/// Whether `address` is aligned to the allocation alignment.
pub fn is_ptr_aligned(address: usize, c: &VmConstants) -> (r: bool)
    requires
        c.wf(),
    ensures
        r == is_aligned(address, c.allocation_alignment),
{
    let mask = !(c.allocation_alignment - 1);
    proof {
        let a = address;
        let m = (c.allocation_alignment - 1) as usize;
        assert((a & !m) == a <==> a & m == 0) by (bit_vector);
    }
    (address & mask) == address
}

/// `address` rounded down to the allocation alignment.
pub fn align_ptr(address: usize, c: &VmConstants) -> (r: usize)
    requires
        c.wf(),
    ensures
        r == align_down(address, c.allocation_alignment),
        r <= address,
{
    let mask = !(c.allocation_alignment - 1);
    proof {
        let a = address;
        let m = (c.allocation_alignment - 1) as usize;
        assert(a & !m <= a) by (bit_vector);
    }
    address & mask
}

/// Rounding down is idempotent, and its result is aligned.
pub proof fn lemma_align_down_idempotent(p: usize, alignment: usize)
    ensures
        align_down(align_down(p, alignment), alignment) == align_down(p, alignment),
        is_aligned(align_down(p, alignment), alignment),
{
    let m = (alignment - 1) as usize;
    assert((p & !m) & !m == p & !m) by (bit_vector);
    assert((p & !m) & m == 0) by (bit_vector);
}

/// Pushing `y` adds exactly `y` to what a sequence contains.
pub proof fn lemma_push_contains<T>(s: Seq<T>, y: T, x: T)
    ensures
        s.push(y).contains(x) == (s.contains(x) || x == y),
{
    if s.contains(x) {
        let t = choose|t: int| 0 <= t < s.len() && s[t] == x;
        assert(s.push(y)[t] == x);
    }
    if x == y {
        assert(s.push(y)[s.len() as int] == x);
    }
    if s.push(y).contains(x) {
        let t = choose|t: int| 0 <= t < s.push(y).len() && s.push(y)[t] == x;
        if t < s.len() {
            assert(s[t] == x);
        }
    }
}

} // verus!
