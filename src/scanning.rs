//! Root scanning: the conservative scan of stacks and registers, the precise
//! scan of module slots, and the batching of the roots found.
use vstd::prelude::*;
use crate::abi::{aligned_lock_ref, field_alligned_lock_ref, field_is_inflated_lock, is_inflated, VmConstants};
use crate::heap::{
    addrs, align_down, align_ptr, in_heap, index_of, is_aligned, is_object, is_ptr_aligned, is_weak_object,
    is_word_in_heap, type_of, Heap, PinBits,
};
use crate::binding::ScalaNativeBinding;
use crate::object_scanning::Forwarding;
use crate::weak_refs::{clears, fields_after, mmtk_weak_ref_stack_nullify, same_but_fields, WeakRefStack};

verus! {

/// The concatenation of a sequence of packets.
pub open spec fn flatten(s: Seq<Seq<usize>>) -> Seq<usize>
    decreases s.len(),
{
    if s.len() == 0 {
        Seq::empty()
    } else {
        flatten(s.drop_last()) + s.last()
    }
}

/// The views of a sequence of buffers.
pub open spec fn views(s: Seq<Vec<usize>>) -> Seq<Seq<usize>> {
    s.map_values(|v: Vec<usize>| v@)
}

/// Roots gathered into buffers of a fixed capacity; a full buffer becomes a
/// packet for the framework.
pub struct RootsClosure {
    pub buffer: Vec<usize>,
    pub capacity: usize,
    pub packets: Vec<Vec<usize>>,
}

impl RootsClosure {
    /// Every root reported so far, in order: the packets, then the buffer.
    pub open spec fn roots(&self) -> Seq<usize> {
        flatten(views(self.packets@)) + self.buffer@
    }

    pub open spec fn wf(&self) -> bool {
        &&& self.capacity > 0
        &&& self.buffer@.len() < self.capacity
        &&& forall|i: int| 0 <= i < self.packets@.len() ==> (#[trigger] self.packets@[i])@.len() <= self.capacity
    }

    pub fn new(capacity: usize) -> (r: RootsClosure)
        requires
            capacity > 0,
        ensures
            r.wf(),
            r.capacity == capacity,
            r.roots() == Seq::<usize>::empty(),
            r.packets@.len() == 0,
    {
        let r = RootsClosure { buffer: Vec::new(), capacity, packets: Vec::new() };
        assert(r.roots() =~= Seq::<usize>::empty());
        r
    }

    /// Adds a root; a buffer that becomes full is handed over as a packet.
    pub fn do_work(&mut self, p: usize)
        requires
            old(self).wf(),
        ensures
            final(self).wf(),
            final(self).capacity == old(self).capacity,
            final(self).roots() == old(self).roots().push(p),
            old(self).buffer@.len() + 1 == old(self).capacity ==> final(self).buffer@.len() == 0
                && views(final(self).packets@) == views(old(self).packets@).push(old(self).buffer@.push(p)),
            old(self).buffer@.len() + 1 < old(self).capacity ==> final(self).buffer@ == old(self).buffer@.push(p)
                && views(final(self).packets@) == views(old(self).packets@),
    {
        self.buffer.push(p);
        proof {
            assert(self.roots() =~= old(self).roots().push(p));
        }
        if self.buffer.len() >= self.capacity {
            self.flush();
        }
    }

    /// Hands a non-empty buffer over as a packet.
    pub fn flush(&mut self)
        requires
            old(self).capacity > 0,
            old(self).buffer@.len() <= old(self).capacity,
            forall|i: int| 0 <= i < old(self).packets@.len() ==> (#[trigger] old(self).packets@[i])@.len() <= old(self).capacity,
        ensures
            final(self).wf(),
            final(self).capacity == old(self).capacity,
            final(self).roots() == old(self).roots(),
            final(self).buffer@.len() == 0,
            old(self).buffer@.len() > 0 ==> views(final(self).packets@) == views(old(self).packets@).push(
                old(self).buffer@,
            ),
            old(self).buffer@.len() == 0 ==> views(final(self).packets@) == views(old(self).packets@),
    {
        if self.buffer.len() > 0 {
            let ghost ps = views(self.packets@);
            let ghost b = self.buffer@;
            let mut full: Vec<usize> = Vec::new();
            std::mem::swap(&mut self.buffer, &mut full);
            self.packets.push(full);
            proof {
                assert(views(self.packets@) =~= ps.push(b));
                assert(ps.push(b).drop_last() =~= ps);
                assert(self.roots() =~= old(self).roots());
            }
        }
    }
}

/// Each root of a packet once.
pub fn dedup_roots(buf: &Vec<usize>) -> (r: Vec<usize>)
    ensures
        forall|x: usize| r@.contains(x) <==> buf@.contains(x),
        crate::heap::distinct(r@),
{
    let mut r: Vec<usize> = Vec::new();
    let mut i: usize = 0;
    while i < buf.len()
        invariant
            i <= buf@.len(),
            forall|x: usize| r@.contains(x) <==> buf@.subrange(0, i as int).contains(x),
            crate::heap::distinct(r@),
        decreases buf@.len() - i,
    {
        let x = buf[i];
        let mut seen = false;
        let mut j: usize = 0;
        while j < r.len()
            invariant
                j <= r@.len(),
                seen == r@.subrange(0, j as int).contains(x),
            decreases r@.len() - j,
        {
            if r[j] == x {
                seen = true;
            }
            proof {
                assert(r@.subrange(0, j + 1) =~= r@.subrange(0, j as int).push(r@[j as int]));
                crate::heap::lemma_push_contains(r@.subrange(0, j as int), r@[j as int], x);
            }
            j = j + 1;
        }
        proof {
            assert(r@.subrange(0, r@.len() as int) =~= r@);
            assert(buf@.subrange(0, i + 1) =~= buf@.subrange(0, i as int).push(x));
        }
        let ghost r0 = r@;
        if !seen {
            r.push(x);
        }
        proof {
            assert forall|y: usize| r@.contains(y) <==> buf@.subrange(0, i + 1).contains(y) by {
                crate::heap::lemma_push_contains(buf@.subrange(0, i as int), x, y);
                if !seen {
                    crate::heap::lemma_push_contains(r0, x, y);
                }
            }
            if !seen {
                assert forall|a: int, b: int| 0 <= a < r@.len() && 0 <= b < r@.len() && r@[a] == r@[b] implies a == b by {
                    if a < r0.len() && b == r0.len() {
                        assert(r0.contains(x));
                    }
                    if b < r0.len() && a == r0.len() {
                        assert(r0.contains(x));
                    }
                }
            }
        }
        i = i + 1;
    }
    proof {
        assert(buf@.subrange(0, buf@.len() as int) =~= buf@);
    }
    r
}

/// The lock word of the type of the object at `a`.
pub open spec fn type_lock(h: Heap, a: usize) -> usize {
    match type_of(h, a) {
        Some(r) => r.rt.lock_word,
        None => 0,
    }
}

/// The lock word of the object at `a`.
pub open spec fn own_lock(h: Heap, a: usize) -> usize {
    match index_of(addrs(h.objects@), a) {
        Some(i) => h.objects@[i].lock_word,
        None => 0,
    }
}

/// The monitor that an inflated lock word makes a root: its object, when it is one of the heap.
pub open spec fn lock_roots(h: Heap, w: usize) -> Seq<usize> {
    let m = aligned_lock_ref(w);
    if is_inflated(w) && in_heap(h.start, h.end, m) && is_object(h, m) {
        seq![m]
    } else {
        Seq::empty()
    }
}

pub open spec fn lock_weak(h: Heap, c: VmConstants, w: usize) -> Seq<usize> {
    let m = aligned_lock_ref(w);
    if is_inflated(w) && in_heap(h.start, h.end, m) && is_object(h, m) && is_weak_object(h, c, m) {
        seq![m]
    } else {
        Seq::empty()
    }
}

/// The roots that marking the object at `a` reports: the monitors of its
/// type's and its own inflated lock words, then the object.
pub open spec fn object_roots(h: Heap, a: usize) -> Seq<usize> {
    lock_roots(h, type_lock(h, a)) + lock_roots(h, own_lock(h, a)) + seq![a]
}

/// The weak references that marking the object at `a` pushes.
pub open spec fn object_root_weak(h: Heap, c: VmConstants, a: usize) -> Seq<usize> {
    lock_weak(h, c, type_lock(h, a)) + lock_weak(h, c, own_lock(h, a)) + if is_weak_object(h, c, a) {
        seq![a]
    } else {
        Seq::empty()
    }
}

/// Whether a word of a stack or of the registers is taken as a root: it lies
/// in the heap, is aligned, and is the address of an object.
pub open spec fn is_conservative_root(h: Heap, c: VmConstants, w: usize) -> bool {
    in_heap(h.start, h.end, w) && is_aligned(w, c.allocation_alignment) && w != 0 && is_object(h, w)
}

/// The roots that the first `n` words of a range yield.
pub open spec fn range_roots(h: Heap, c: VmConstants, words: Seq<usize>, n: nat) -> Seq<usize>
    decreases n,
{
    if n == 0 {
        Seq::empty()
    } else {
        let prev = range_roots(h, c, words, (n - 1) as nat);
        if is_conservative_root(h, c, words[n - 1]) {
            prev + object_roots(h, words[n - 1])
        } else {
            prev
        }
    }
}

pub open spec fn range_weak(h: Heap, c: VmConstants, words: Seq<usize>, n: nat) -> Seq<usize>
    decreases n,
{
    if n == 0 {
        Seq::empty()
    } else {
        let prev = range_weak(h, c, words, (n - 1) as nat);
        if is_conservative_root(h, c, words[n - 1]) {
            prev + object_root_weak(h, c, words[n - 1])
        } else {
            prev
        }
    }
}

/// Whether a module slot is a root: it holds the address of a heap object.
pub open spec fn is_module_root(h: Heap, w: usize) -> bool {
    in_heap(h.start, h.end, w) && is_object(h, w)
}

pub open spec fn module_roots(h: Heap, modules: Seq<usize>, n: nat) -> Seq<usize>
    decreases n,
{
    if n == 0 {
        Seq::empty()
    } else {
        let prev = module_roots(h, modules, (n - 1) as nat);
        if is_module_root(h, modules[n - 1]) {
            prev + object_roots(h, modules[n - 1])
        } else {
            prev
        }
    }
}

pub open spec fn module_weak(h: Heap, c: VmConstants, modules: Seq<usize>, n: nat) -> Seq<usize>
    decreases n,
{
    if n == 0 {
        Seq::empty()
    } else {
        let prev = module_weak(h, c, modules, (n - 1) as nat);
        if is_module_root(h, modules[n - 1]) {
            prev + object_root_weak(h, c, modules[n - 1])
        } else {
            prev
        }
    }
}

/// Reports the monitor of an inflated lock word as a root.
fn mark_lock_word(h: &Heap, c: &VmConstants, w: usize, roots: &mut RootsClosure, weak: &mut WeakRefStack)
    requires
        h.wf(*c),
        old(roots).wf(),
    ensures
        final(roots).wf(),
        final(roots).capacity == old(roots).capacity,
        final(roots).roots() == old(roots).roots() + lock_roots(*h, w),
        final(weak)@ == old(weak)@ + lock_weak(*h, *c, w),
{
    if field_is_inflated_lock(w) {
        let m = field_alligned_lock_ref(w);
        mmtk_mark_field(h, c, m, roots, weak);
        assert(roots.roots() =~= old(roots).roots() + lock_roots(*h, w));
        assert(weak@ =~= old(weak)@ + lock_weak(*h, *c, w));
    } else {
        assert(roots.roots() =~= old(roots).roots() + lock_roots(*h, w));
        assert(weak@ =~= old(weak)@ + lock_weak(*h, *c, w));
    }
}

/// Reports a monitor object as a root when it is an object of the heap,
/// pushing it onto `weak` when it is a weak reference.
pub fn mmtk_mark_field(h: &Heap, c: &VmConstants, field: usize, roots: &mut RootsClosure, weak: &mut WeakRefStack)
    requires
        h.wf(*c),
        old(roots).wf(),
    ensures
        final(roots).wf(),
        final(roots).capacity == old(roots).capacity,
        final(roots).roots() == old(roots).roots() + if is_module_root(*h, field) {
            seq![field]
        } else {
            Seq::<usize>::empty()
        },
        final(weak)@ == old(weak)@ + if is_module_root(*h, field) && is_weak_object(*h, *c, field) {
            seq![field]
        } else {
            Seq::<usize>::empty()
        },
{
    if is_word_in_heap(h, field) && h.find_object(field).is_some() {
        if h.is_weak_object(c, field) {
            weak.push(field);
        }
        roots.do_work(field);
        assert(roots.roots() =~= old(roots).roots() + seq![field]);
        assert(weak@ =~= old(weak)@ + if is_weak_object(*h, *c, field) { seq![field] } else { Seq::<usize>::empty() });
    } else {
        assert(roots.roots() =~= old(roots).roots());
        assert(weak@ =~= old(weak)@);
    }
}

/// Marks the object at `object` as a root: first the monitors of its inflated
/// lock words, then the object itself; weak references among them are pushed
/// onto `weak`.
pub fn mmtk_mark_object(h: &Heap, c: &VmConstants, object: usize, roots: &mut RootsClosure, weak: &mut WeakRefStack)
    requires
        h.wf(*c),
        old(roots).wf(),
    ensures
        final(roots).wf(),
        final(roots).capacity == old(roots).capacity,
        final(roots).roots() == old(roots).roots() + object_roots(*h, object),
        final(weak)@ == old(weak)@ + object_root_weak(*h, *c, object),
{
    let type_lock_word = match h.type_index_of(object) {
        Some(j) => h.types[j].rtti.rt.lock_word,
        None => 0,
    };
    let own_lock_word = match h.find_object(object) {
        Some(i) => h.objects[i].lock_word,
        None => 0,
    };
    mark_lock_word(h, c, type_lock_word, roots, weak);
    mark_lock_word(h, c, own_lock_word, roots, weak);
    let is_weak = h.is_weak_object(c, object);
    if is_weak {
        weak.push(object);
    }
    roots.do_work(object);
    assert(roots.roots() =~= old(roots).roots() + object_roots(*h, object));
    assert(weak@ =~= old(weak)@ + object_root_weak(*h, *c, object));
}

/// Marks the object that a conservative word addresses, when there is one:
/// the word rounded down to the allocation alignment.
pub fn mmtk_mark_conservative(h: &Heap, c: &VmConstants, address: usize, roots: &mut RootsClosure, weak: &mut WeakRefStack)
    requires
        h.wf(*c),
        old(roots).wf(),
    ensures
        final(roots).wf(),
        final(roots).capacity == old(roots).capacity,
        ({
            let a = align_down(address, c.allocation_alignment);
            &&& final(roots).roots() == old(roots).roots() + if a != 0 && is_object(*h, a) {
                object_roots(*h, a)
            } else {
                Seq::<usize>::empty()
            }
            &&& final(weak)@ == old(weak)@ + if a != 0 && is_object(*h, a) {
                object_root_weak(*h, *c, a)
            } else {
                Seq::<usize>::empty()
            }
        }),
{
    let object = align_ptr(address, c);
    if object != 0 && h.find_object(object).is_some() {
        mmtk_mark_object(h, c, object, roots, weak);
    } else {
        assert(roots.roots() =~= old(roots).roots());
        assert(weak@ =~= old(weak)@);
    }
}

/// The pin bits after pinning `a`: its object's bit is set, when `a` is an object.
pub open spec fn pinned_after(h: Heap, pins: Seq<bool>, a: usize) -> Seq<bool> {
    match index_of(addrs(h.objects@), a) {
        Some(i) => pins.update(i, true),
        None => pins,
    }
}

/// `a`, when pinning it sets a bit that was clear.
pub open spec fn newly_pinned(h: Heap, pins: Seq<bool>, a: usize) -> Seq<usize> {
    match index_of(addrs(h.objects@), a) {
        Some(i) => if pins[i] {
            Seq::empty()
        } else {
            seq![a]
        },
        None => Seq::empty(),
    }
}

/// Pins the object at `a`; true when it was not pinned before.
pub fn pin_object(h: &Heap, pins: &mut PinBits, a: usize) -> (r: bool)
    requires
        h.wf_pins(*old(pins)),
        crate::heap::distinct(addrs(h.objects@)),
    ensures
        h.wf_pins(*final(pins)),
        final(pins).bits@ == pinned_after(*h, old(pins).bits@, a),
        r == (newly_pinned(*h, old(pins).bits@, a).len() > 0),
{
    match h.find_object(a) {
        Some(i) => {
            if pins.bits[i] {
                proof {
                    assert(pins.bits@ =~= old(pins).bits@.update(i as int, true));
                }
                false
            } else {
                pins.bits.set(i, true);
                true
            }
        },
        None => false,
    }
}

/// The pin bits after the first `n` words of a range: each conservative root is pinned.
pub open spec fn range_pins(h: Heap, c: VmConstants, words: Seq<usize>, pins0: Seq<bool>, n: nat) -> Seq<bool>
    decreases n,
{
    if n == 0 {
        pins0
    } else {
        let p = range_pins(h, c, words, pins0, (n - 1) as nat);
        if is_conservative_root(h, c, words[n - 1]) {
            pinned_after(h, p, words[n - 1])
        } else {
            p
        }
    }
}

/// The conservative roots among the first `n` words whose pinning set a clear bit, in order.
pub open spec fn range_pinned(h: Heap, c: VmConstants, words: Seq<usize>, pins0: Seq<bool>, n: nat) -> Seq<usize>
    decreases n,
{
    if n == 0 {
        Seq::empty()
    } else {
        let prev = range_pinned(h, c, words, pins0, (n - 1) as nat);
        if is_conservative_root(h, c, words[n - 1]) {
            prev + newly_pinned(h, range_pins(h, c, words, pins0, (n - 1) as nat), words[n - 1])
        } else {
            prev
        }
    }
}

/// The pin bits after the first `n` module slots: each slot's object is pinned.
pub open spec fn module_pins(h: Heap, modules: Seq<usize>, pins0: Seq<bool>, n: nat) -> Seq<bool>
    decreases n,
{
    if n == 0 {
        pins0
    } else {
        pinned_after(h, module_pins(h, modules, pins0, (n - 1) as nat), modules[n - 1])
    }
}

/// The module slots among the first `n` whose pinning set a clear bit, in order.
pub open spec fn module_pinned(h: Heap, modules: Seq<usize>, pins0: Seq<bool>, n: nat) -> Seq<usize>
    decreases n,
{
    if n == 0 {
        Seq::empty()
    } else {
        module_pinned(h, modules, pins0, (n - 1) as nat) + newly_pinned(
            h,
            module_pins(h, modules, pins0, (n - 1) as nat),
            modules[n - 1],
        )
    }
}

/// Whether every candidate word among the first `n` has its object pinned.
pub open spec fn candidates_pinned(h: Heap, c: VmConstants, words: Seq<usize>, n: int, pins: Seq<bool>) -> bool {
    forall|k: int| #![trigger words[k]] 0 <= k < n && is_conservative_root(h, c, words[k]) ==>
        pins[index_of(addrs(h.objects@), words[k])->0]
}

/// Pins are never cleared.
pub open spec fn pins_kept(before: Seq<bool>, after: Seq<bool>) -> bool {
    &&& before.len() == after.len()
    &&& forall|i: int| 0 <= i < before.len() && #[trigger] before[i] ==> after[i]
}

/// Scans a range of words conservatively: each word that lies in the heap,
/// is aligned and addresses an object is pinned (the newly pinned ones are
/// appended to `pinned_list`, in order) and marked as a root.
pub fn mmtk_mark_range(
    h: &Heap,
    c: &VmConstants,
    words: &Vec<usize>,
    pins: &mut PinBits,
    pinned_list: &mut Vec<usize>,
    roots: &mut RootsClosure,
    weak: &mut WeakRefStack,
)
    requires
        h.wf(*c),
        h.wf_pins(*old(pins)),
        old(roots).wf(),
    ensures
        h.wf_pins(*final(pins)),
        final(roots).wf(),
        final(roots).capacity == old(roots).capacity,
        final(roots).roots() == old(roots).roots() + range_roots(*h, *c, words@, words@.len()),
        final(weak)@ == old(weak)@ + range_weak(*h, *c, words@, words@.len()),
        final(pins).bits@ == range_pins(*h, *c, words@, old(pins).bits@, words@.len()),
        final(pinned_list)@ == old(pinned_list)@ + range_pinned(*h, *c, words@, old(pins).bits@, words@.len()),
        candidates_pinned(*h, *c, words@, words@.len() as int, final(pins).bits@),
        pins_kept(old(pins).bits@, final(pins).bits@),
{
    let mut k: usize = 0;
    while k < words.len()
        invariant
            h.wf(*c),
            h.wf_pins(*pins),
            roots.wf(),
            roots.capacity == old(roots).capacity,
            k <= words@.len(),
            roots.roots() == old(roots).roots() + range_roots(*h, *c, words@, k as nat),
            weak@ == old(weak)@ + range_weak(*h, *c, words@, k as nat),
            pins.bits@ == range_pins(*h, *c, words@, old(pins).bits@, k as nat),
            pinned_list@ == old(pinned_list)@ + range_pinned(*h, *c, words@, old(pins).bits@, k as nat),
            candidates_pinned(*h, *c, words@, k as int, pins.bits@),
            pins_kept(old(pins).bits@, pins.bits@),
        decreases words@.len() - k,
    {
        let w = words[k];
        let ghost pins_before = pins.bits@;
        proof {
            let m = (c.allocation_alignment - 1) as usize;
            assert(w & m == 0 ==> w & !m == w) by (bit_vector);
        }
        if is_word_in_heap(h, w) && is_ptr_aligned(w, c) {
            if pin_object(h, pins, w) {
                pinned_list.push(w);
            }
            mmtk_mark_conservative(h, c, w, roots, weak);
            proof {
                assert forall|j: int| #![trigger words@[j]] 0 <= j < k + 1 && is_conservative_root(*h, *c, words@[j])
                    implies pins.bits@[index_of(addrs(h.objects@), words@[j])->0] by {
                    if j < k {
                        let i = index_of(addrs(h.objects@), words@[j])->0;
                        assert(pins_before[i]);
                    }
                }
            }
        }
        k = k + 1;
        proof {
            assert(roots.roots() =~= old(roots).roots() + range_roots(*h, *c, words@, k as nat));
            assert(weak@ =~= old(weak)@ + range_weak(*h, *c, words@, k as nat));
            assert(pinned_list@ =~= old(pinned_list)@ + range_pinned(*h, *c, words@, old(pins).bits@, k as nat));
        }
    }
}

/// Scans the module slots precisely: each slot's object is pinned (the newly
/// pinned ones are appended to `pinned_list`, in order), and each slot that
/// holds the address of a heap object is marked as a root.
pub fn mmtk_mark_modules(
    h: &Heap,
    c: &VmConstants,
    modules: &Vec<usize>,
    pins: &mut PinBits,
    pinned_list: &mut Vec<usize>,
    roots: &mut RootsClosure,
    weak: &mut WeakRefStack,
)
    requires
        h.wf(*c),
        h.wf_pins(*old(pins)),
        old(roots).wf(),
    ensures
        h.wf_pins(*final(pins)),
        final(roots).wf(),
        final(roots).capacity == old(roots).capacity,
        final(roots).roots() == old(roots).roots() + module_roots(*h, modules@, modules@.len()),
        final(weak)@ == old(weak)@ + module_weak(*h, *c, modules@, modules@.len()),
        final(pins).bits@ == module_pins(*h, modules@, old(pins).bits@, modules@.len()),
        final(pinned_list)@ == old(pinned_list)@ + module_pinned(*h, modules@, old(pins).bits@, modules@.len()),
        pins_kept(old(pins).bits@, final(pins).bits@),
{
    let mut k: usize = 0;
    while k < modules.len()
        invariant
            h.wf(*c),
            h.wf_pins(*pins),
            roots.wf(),
            roots.capacity == old(roots).capacity,
            k <= modules@.len(),
            roots.roots() == old(roots).roots() + module_roots(*h, modules@, k as nat),
            weak@ == old(weak)@ + module_weak(*h, *c, modules@, k as nat),
            pins.bits@ == module_pins(*h, modules@, old(pins).bits@, k as nat),
            pinned_list@ == old(pinned_list)@ + module_pinned(*h, modules@, old(pins).bits@, k as nat),
            pins_kept(old(pins).bits@, pins.bits@),
        decreases modules@.len() - k,
    {
        let node = modules[k];
        if pin_object(h, pins, node) {
            pinned_list.push(node);
        }
        if is_word_in_heap(h, node) && h.find_object(node).is_some() {
            mmtk_mark_object(h, c, node, roots, weak);
        }
        k = k + 1;
        proof {
            assert(roots.roots() =~= old(roots).roots() + module_roots(*h, modules@, k as nat));
            assert(weak@ =~= old(weak)@ + module_weak(*h, *c, modules@, k as nat));
            assert(pinned_list@ =~= old(pinned_list)@ + module_pinned(*h, modules@, old(pins).bits@, k as nat));
        }
    }
}

/// An empty range of words and an empty list of modules yield no roots.
pub proof fn lemma_no_roots_from_nothing(h: Heap, c: VmConstants)
    ensures
        range_roots(h, c, Seq::empty(), 0) == Seq::<usize>::empty(),
        range_weak(h, c, Seq::empty(), 0) == Seq::<usize>::empty(),
        module_roots(h, Seq::empty(), 0) == Seq::<usize>::empty(),
        module_weak(h, c, Seq::empty(), 0) == Seq::<usize>::empty(),
        forall|pins: Seq<bool>| range_pins(h, c, Seq::empty(), pins, 0) == pins
            && #[trigger] range_pinned(h, c, Seq::empty(), pins, 0) == Seq::<usize>::empty(),
        forall|pins: Seq<bool>| module_pins(h, Seq::empty(), pins, 0) == pins
            && #[trigger] module_pinned(h, Seq::empty(), pins, 0) == Seq::<usize>::empty(),
{
}

/// The stack of a mutator, from its top (lowest address) to its bottom.
pub struct StackRange {
    pub stack_top: usize,
    pub stack_bottom: usize,
}

impl StackRange {
    /// Number of whole words in `[stack_top, stack_bottom)`.
    pub fn word_count(&self) -> (r: usize)
        ensures
            self.stack_bottom <= self.stack_top ==> r == 0,
            self.stack_bottom > self.stack_top ==> r == (self.stack_bottom - self.stack_top) / 8,
    {
        if self.stack_bottom <= self.stack_top {
            0
        } else {
            (self.stack_bottom - self.stack_top) / 8
        }
    }
}

/// The saved registers of a mutator: `regs_size` words from `regs`.
pub struct RegsRange {
    pub regs: usize,
    pub regs_size: usize,
}

/// The entry points through which the framework scans.
pub struct VMScanning {}

impl VMScanning {
    /// Root scanning needs the lock words of each object, which edges alone do not give.
    pub fn support_edge_enqueuing() -> (r: bool)
        ensures
            !r,
    {
        false
    }

    /// Scans the stack and the registers of one mutator, whose words have been read into
    /// `stack` and `regs`.
    pub fn scan_roots_in_mutator_thread(
        h: &Heap,
        c: &VmConstants,
        stack: &Vec<usize>,
        regs: &Vec<usize>,
        pins: &mut PinBits,
        pinned_list: &mut Vec<usize>,
        roots: &mut RootsClosure,
        weak: &mut WeakRefStack,
    )
        requires
            h.wf(*c),
            h.wf_pins(*old(pins)),
            old(roots).wf(),
        ensures
            h.wf_pins(*final(pins)),
            final(roots).wf(),
            final(roots).roots() == old(roots).roots() + range_roots(*h, *c, stack@, stack@.len())
                + range_roots(*h, *c, regs@, regs@.len()),
            final(weak)@ == old(weak)@ + range_weak(*h, *c, stack@, stack@.len()) + range_weak(
                *h,
                *c,
                regs@,
                regs@.len(),
            ),
            ({
                let mid = range_pins(*h, *c, stack@, old(pins).bits@, stack@.len());
                &&& final(pins).bits@ == range_pins(*h, *c, regs@, mid, regs@.len())
                &&& final(pinned_list)@ == old(pinned_list)@ + range_pinned(*h, *c, stack@, old(pins).bits@, stack@.len())
                    + range_pinned(*h, *c, regs@, mid, regs@.len())
            }),
            candidates_pinned(*h, *c, stack@, stack@.len() as int, final(pins).bits@),
            candidates_pinned(*h, *c, regs@, regs@.len() as int, final(pins).bits@),
            pins_kept(old(pins).bits@, final(pins).bits@),
    {
        mmtk_mark_range(h, c, stack, pins, pinned_list, roots, weak);
        let ghost pins_mid = pins.bits@;
        mmtk_mark_range(h, c, regs, pins, pinned_list, roots, weak);
        proof {
            assert(roots.roots() =~= old(roots).roots() + range_roots(*h, *c, stack@, stack@.len())
                + range_roots(*h, *c, regs@, regs@.len()));
            assert(weak@ =~= old(weak)@ + range_weak(*h, *c, stack@, stack@.len()) + range_weak(*h, *c, regs@, regs@.len()));
            assert(pinned_list@ =~= old(pinned_list)@ + range_pinned(*h, *c, stack@, old(pins).bits@, stack@.len())
                + range_pinned(*h, *c, regs@, pins_mid, regs@.len()));
            assert forall|j: int| #![trigger stack@[j]] 0 <= j < stack@.len() && is_conservative_root(*h, *c, stack@[j])
                implies pins.bits@[index_of(addrs(h.objects@), stack@[j])->0] by {
                assert(pins_mid[index_of(addrs(h.objects@), stack@[j])->0]);
            }
        }
    }

    /// Processing after marking: unpins every object of the binding's pinned
    /// set, then clears the dead referents of the weak references on `stack`.
    /// Returns whether a referent was cleared.
    pub fn process_weak_refs(
        binding: &mut ScalaNativeBinding,
        h: &mut Heap,
        pins: &mut PinBits,
        c: &VmConstants,
        fw: &Forwarding,
        stack: &mut WeakRefStack,
    ) -> (visited: bool)
        requires
            old(h).wf(*c),
            old(h).wf_pins(*old(pins)),
            fw.wf(),
        ensures
            final(h).wf(*c),
            final(h).wf_pins(*final(pins)),
            final(binding).pinned_objects@.len() == 0,
            final(binding).constants == old(binding).constants,
            forall|i: int| 0 <= i < old(h).objects@.len() ==> #[trigger] final(pins).bits@[i] == (old(pins).bits@[i]
                && !old(binding).pinned_objects@.contains(old(h).objects@[i].addr)),
            final(stack)@.len() == 0,
            same_but_fields(*old(h), *final(h)),
            forall|i: int| 0 <= i < old(h).objects@.len() ==> (#[trigger] final(h).objects@[i]).fields@
                == fields_after(*old(h), *c, *fw, old(stack)@, i),
            visited == exists|i: int| 0 <= i < old(h).objects@.len() && clears(*old(h), *c, *fw, old(stack)@, i),
    {
        binding.unpin_pinned_objects(h, pins);
        mmtk_weak_ref_stack_nullify(h, c, fw, stack)
    }

    /// Scans the module slots, whose values have been read into `modules`.
    pub fn scan_vm_specific_roots(
        h: &Heap,
        c: &VmConstants,
        modules: &Vec<usize>,
        pins: &mut PinBits,
        pinned_list: &mut Vec<usize>,
        roots: &mut RootsClosure,
        weak: &mut WeakRefStack,
    )
        requires
            h.wf(*c),
            h.wf_pins(*old(pins)),
            old(roots).wf(),
        ensures
            h.wf_pins(*final(pins)),
            final(roots).wf(),
            final(roots).roots() == old(roots).roots() + module_roots(*h, modules@, modules@.len()),
            final(weak)@ == old(weak)@ + module_weak(*h, *c, modules@, modules@.len()),
            final(pins).bits@ == module_pins(*h, modules@, old(pins).bits@, modules@.len()),
            final(pinned_list)@ == old(pinned_list)@ + module_pinned(*h, modules@, old(pins).bits@, modules@.len()),
            pins_kept(old(pins).bits@, final(pins).bits@),
    {
        mmtk_mark_modules(h, c, modules, pins, pinned_list, roots, weak);
    }
}

} // verus!
