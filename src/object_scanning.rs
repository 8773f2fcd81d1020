//! Precise scanning of one object: the edges of its reference fields, for an
//! edge visitor, or traced and written back through a forwarding table.
use vstd::prelude::*;
use crate::abi::{
    aligned_lock_ref, field_alligned_lock_ref, field_inflate_lock_ref, field_is_inflated_lock,
    inflate_lock_ref, is_array_id, is_inflated, is_weak_ref_id, is_referent, low_i32, ref_map_len, Object, Rtti,
    Runtime, VmConstants, OBJECT_HEADER_SIZE,
};
use crate::heap::{
    type_addrs,
    addrs, distinct, in_heap, index_of, is_object, is_weak_object, is_word_in_heap,
    lemma_same_shape, object_wf, rtti_words, same_shape, type_at, Heap, TypeEntry, WORD,
};
use crate::weak_refs::WeakRefStack;

verus! {

/// The slot that entry `k` of a reference map leads to, when the scan follows it:
/// not the referent of a weak reference, a word-aligned slot of the object,
/// holding the address of an object of the heap.
pub open spec fn plain_slot(h: Heap, c: VmConstants, r: Rtti, fields: Seq<usize>, k: int) -> Option<
    int,
> {
    let off = r.ref_map@[k] as int;
    if is_referent(r.rt.id, c, off) {
        None
    } else if off >= 0 && off % 8 == 0 && off / 8 < fields.len() && in_heap(
        h.start,
        h.end,
        fields[off / 8],
    ) && is_object(h, fields[off / 8]) {
        Some(off / 8)
    } else {
        None
    }
}

/// Address of slot `s` of the object at `a`.
pub open spec fn slot_addr(a: usize, s: int) -> usize {
    (a + OBJECT_HEADER_SIZE + WORD * s) as usize
}

/// The edges that the first `n` entries of the reference map yield.
pub open spec fn plain_edges(h: Heap, c: VmConstants, o: Object, r: Rtti, n: nat) -> Seq<usize>
    decreases n,
{
    if n == 0 {
        Seq::empty()
    } else {
        let prev = plain_edges(h, c, o, r, (n - 1) as nat);
        match plain_slot(h, c, r, o.fields@, n - 1) {
            Some(s) => prev.push(slot_addr(o.addr, s)),
            None => prev,
        }
    }
}

/// The weak references that the first `n` entries of the reference map lead to.
pub open spec fn plain_weak(h: Heap, c: VmConstants, o: Object, r: Rtti, n: nat) -> Seq<usize>
    decreases n,
{
    if n == 0 {
        Seq::empty()
    } else {
        let prev = plain_weak(h, c, o, r, (n - 1) as nat);
        match plain_slot(h, c, r, o.fields@, n - 1) {
            Some(s) => if is_weak_object(h, c, o.fields@[s]) {
                prev.push(o.fields@[s])
            } else {
                prev
            },
            None => prev,
        }
    }
}

/// Elements of an array that the scan reads: its length, as far as its words go.
pub open spec fn array_count(o: Object) -> nat {
    let len = low_i32(o.fields@[0]) as int;
    if len <= 0 {
        0
    } else if len < o.fields@.len() - 1 {
        len as nat
    } else {
        (o.fields@.len() - 1) as nat
    }
}

/// The slot of element `i`, when it holds the address of an object of the heap.
pub open spec fn array_slot(h: Heap, fields: Seq<usize>, i: int) -> Option<int> {
    if in_heap(h.start, h.end, fields[1 + i]) && is_object(h, fields[1 + i]) {
        Some(1 + i)
    } else {
        None
    }
}

pub open spec fn array_edges(h: Heap, o: Object, n: nat) -> Seq<usize>
    decreases n,
{
    if n == 0 {
        Seq::empty()
    } else {
        let prev = array_edges(h, o, (n - 1) as nat);
        match array_slot(h, o.fields@, n - 1) {
            Some(s) => prev.push(slot_addr(o.addr, s)),
            None => prev,
        }
    }
}

pub open spec fn array_weak(h: Heap, c: VmConstants, o: Object, n: nat) -> Seq<usize>
    decreases n,
{
    if n == 0 {
        Seq::empty()
    } else {
        let prev = array_weak(h, c, o, (n - 1) as nat);
        match array_slot(h, o.fields@, n - 1) {
            Some(s) => if is_weak_object(h, c, o.fields@[s]) {
                prev.push(o.fields@[s])
            } else {
                prev
            },
            None => prev,
        }
    }
}

/// Whether the scan walks the elements of this array: only arrays of references.
pub open spec fn scans_elements(c: VmConstants, o: Object, r: Rtti) -> bool {
    r.rt.id == c.object_array_id && o.fields@.len() >= 1
}

/// The edges of the object at `a`, in the order the scan reports them.
pub open spec fn object_edges(h: Heap, c: VmConstants, a: usize) -> Seq<usize> {
    match index_of(addrs(h.objects@), a) {
        None => Seq::empty(),
        Some(i) => {
            let o = h.objects@[i];
            match type_at(h.types@, o.rtti) {
                None => Seq::empty(),
                Some(r) => if is_array_id(r.rt.id, c) {
                    if scans_elements(c, o, r) {
                        array_edges(h, o, array_count(o))
                    } else {
                        Seq::empty()
                    }
                } else {
                    plain_edges(h, c, o, r, ref_map_len(r.ref_map@))
                },
            }
        },
    }
}

/// The weak references that the scan of the object at `a` pushes, in order.
pub open spec fn object_weak(h: Heap, c: VmConstants, a: usize) -> Seq<usize> {
    match index_of(addrs(h.objects@), a) {
        None => Seq::empty(),
        Some(i) => {
            let o = h.objects@[i];
            match type_at(h.types@, o.rtti) {
                None => Seq::empty(),
                Some(r) => if is_array_id(r.rt.id, c) {
                    if scans_elements(c, o, r) {
                        array_weak(h, c, o, array_count(o))
                    } else {
                        Seq::empty()
                    }
                } else {
                    plain_weak(h, c, o, r, ref_map_len(r.ref_map@))
                },
            }
        },
    }
}

proof fn lemma_plain_edges_avoid(h: Heap, c: VmConstants, o: Object, r: Rtti, n: nat)
    requires
        object_wf(h, c, o),
        is_weak_ref_id(r.rt.id, c),
    ensures
        forall|k: int| 0 <= k < plain_edges(h, c, o, r, n).len() ==> plain_edges(h, c, o, r, n)[k]
            != o.addr + OBJECT_HEADER_SIZE + c.weak_ref_field_offset,
    decreases n,
{
    if n > 0 {
        lemma_plain_edges_avoid(h, c, o, r, (n - 1) as nat);
        let off = r.ref_map@[n - 1] as int;
        if plain_slot(h, c, r, o.fields@, n - 1) is None {
            assert(plain_edges(h, c, o, r, n) == plain_edges(h, c, o, r, (n - 1) as nat));
        } else {
            let s = plain_slot(h, c, r, o.fields@, n - 1)->0;
            assert(s * 8 == off);
            assert(o.addr + OBJECT_HEADER_SIZE + WORD * s <= usize::MAX) by (nonlinear_arith)
                requires
                    o.addr + OBJECT_HEADER_SIZE + WORD * o.fields@.len() <= h.end,
                    s < o.fields@.len(),
                    h.end <= usize::MAX,
                    WORD == 8,
            ;
            let prev = plain_edges(h, c, o, r, (n - 1) as nat);
            let e = slot_addr(o.addr, s);
            assert(off != c.weak_ref_field_offset);
            assert(e == o.addr + OBJECT_HEADER_SIZE + off);
            assert(plain_edges(h, c, o, r, n) == prev.push(e));
            assert forall|k: int| 0 <= k < prev.push(e).len() implies prev.push(e)[k]
                != o.addr + OBJECT_HEADER_SIZE + c.weak_ref_field_offset by {
                if k < prev.len() {
                    assert(prev.push(e)[k] == prev[k]);
                }
            }
        }
    }
}

/// The scan of a weak reference never reports the slot of its referent: an
/// entry of the reference map at the referent's offset is skipped.
pub proof fn lemma_referent_skipped(h: Heap, c: VmConstants, a: usize)
    requires
        h.wf(c),
        is_weak_object(h, c, a),
        !is_array_id(crate::heap::type_of(h, a)->0.rt.id, c),
    ensures
        forall|k: int| 0 <= k < object_edges(h, c, a).len() ==> object_edges(h, c, a)[k]
            != a + OBJECT_HEADER_SIZE + c.weak_ref_field_offset,
{
    let i = index_of(addrs(h.objects@), a)->0;
    let o = h.objects@[i];
    assert(object_wf(h, c, o));
    assert(addrs(h.objects@)[i] == a);
    let r = type_at(h.types@, o.rtti)->0;
    lemma_plain_edges_avoid(h, c, o, r, ref_map_len(r.ref_map@));
}

/// An array of length zero has no elements to scan.
pub proof fn lemma_empty_array_scan(h: Heap, c: VmConstants, o: Object)
    requires
        o.fields@.len() >= 1,
        low_i32(o.fields@[0]) == 0,
    ensures
        array_count(o) == 0,
        array_edges(h, o, array_count(o)) == Seq::<usize>::empty(),
        array_weak(h, c, o, array_count(o)) == Seq::<usize>::empty(),
{
}

/// Scans the reference fields of a plain object.
fn obj_iterate_plain(
    h: &Heap,
    c: &VmConstants,
    o: &Object,
    r: &Rtti,
    edges: &mut Vec<usize>,
    targets: &mut Vec<usize>,
    weak: &mut WeakRefStack,
)
    requires
        h.wf(*c),
        object_wf(*h, *c, *o),
    ensures
        final(edges)@ == old(edges)@ + plain_edges(*h, *c, *o, *r, ref_map_len(r.ref_map@)),
        final(targets)@ == old(targets)@ + plain_targets(*h, *c, *o, *r, ref_map_len(r.ref_map@)),
        final(weak)@ == old(weak)@ + plain_weak(*h, *c, *o, *r, ref_map_len(r.ref_map@)),
{
    let n = o.num_fields(r);
    let mut k: usize = 0;
    while k < n
        invariant
            h.wf(*c),
            object_wf(*h, *c, *o),
            n == ref_map_len(r.ref_map@),
            n <= r.ref_map@.len(),
            k <= n,
            edges@ == old(edges)@ + plain_edges(*h, *c, *o, *r, k as nat),
            targets@ == old(targets)@ + plain_targets(*h, *c, *o, *r, k as nat),
            weak@ == old(weak)@ + plain_weak(*h, *c, *o, *r, k as nat),
        decreases n - k,
    {
        let off = r.ref_map[k];
        let referent = c.weak_ref_ids_min <= r.rt.id && r.rt.id <= c.weak_ref_ids_max
            && off == c.weak_ref_field_offset as i64;
        if !referent && off >= 0 && off % 8 == 0 && ((off / 8) as u64) < (o.fields.len() as u64) {
            let s = (off / 8) as usize;
            let target = o.fields[s];
            if is_word_in_heap(h, target) && h.find_object(target).is_some() {
                let edge = o.addr + OBJECT_HEADER_SIZE + WORD * s;
                edges.push(edge);
                targets.push(target);
                if h.is_weak_object(c, target) {
                    weak.push(target);
                }
            }
        }
        k = k + 1;
        proof {
            assert(edges@ =~= old(edges)@ + plain_edges(*h, *c, *o, *r, k as nat));
            assert(targets@ =~= old(targets)@ + plain_targets(*h, *c, *o, *r, k as nat));
            assert(weak@ =~= old(weak)@ + plain_weak(*h, *c, *o, *r, k as nat));
        }
    }
}

/// Scans the elements of an array of references.
fn obj_iterate_array(
    h: &Heap,
    c: &VmConstants,
    o: &Object,
    edges: &mut Vec<usize>,
    targets: &mut Vec<usize>,
    weak: &mut WeakRefStack,
)
    requires
        h.wf(*c),
        object_wf(*h, *c, *o),
        o.fields@.len() >= 1,
    ensures
        final(edges)@ == old(edges)@ + array_edges(*h, *o, array_count(*o)),
        final(targets)@ == old(targets)@ + array_targets(*h, *o, array_count(*o)),
        final(weak)@ == old(weak)@ + array_weak(*h, *c, *o, array_count(*o)),
{
    let header = o.as_array_object();
    let count: usize = if header.length <= 0 {
        0
    } else if (header.length as usize) < o.fields.len() - 1 {
        header.length as usize
    } else {
        o.fields.len() - 1
    };
    let mut i: usize = 0;
    while i < count
        invariant
            h.wf(*c),
            object_wf(*h, *c, *o),
            o.fields@.len() >= 1,
            count == array_count(*o),
            i <= count,
            edges@ == old(edges)@ + array_edges(*h, *o, i as nat),
            targets@ == old(targets)@ + array_targets(*h, *o, i as nat),
            weak@ == old(weak)@ + array_weak(*h, *c, *o, i as nat),
        decreases count - i,
    {
        let target = o.fields[1 + i];
        if is_word_in_heap(h, target) && h.find_object(target).is_some() {
            let edge = o.addr + OBJECT_HEADER_SIZE + WORD * (1 + i);
            edges.push(edge);
            targets.push(target);
            if h.is_weak_object(c, target) {
                weak.push(target);
            }
        }
        i = i + 1;
        proof {
            assert(edges@ =~= old(edges)@ + array_edges(*h, *o, i as nat));
            assert(targets@ =~= old(targets)@ + array_targets(*h, *o, i as nat));
            assert(weak@ =~= old(weak)@ + array_weak(*h, *c, *o, i as nat));
        }
    }
}

/// Reports to `edges` the address of each reference slot of the object at
/// `object` that holds the address of a heap object, and pushes onto `weak`
/// each such target that is a weak reference. The referent of a weak
/// reference is skipped, and of arrays only arrays of references are walked.
pub fn scan_object(h: &Heap, c: &VmConstants, object: usize, edges: &mut Vec<usize>, weak: &mut WeakRefStack)
    requires
        h.wf(*c),
    ensures
        final(edges)@ == old(edges)@ + object_edges(*h, *c, object),
        final(weak)@ == old(weak)@ + object_weak(*h, *c, object),
{
    match h.find_object(object) {
        None => {
            assert(edges@ =~= old(edges)@ + object_edges(*h, *c, object));
            assert(weak@ =~= old(weak)@ + object_weak(*h, *c, object));
        },
        Some(oi) => {
            let o = &h.objects[oi];
            assert(object_wf(*h, *c, h.objects@[oi as int]));
            match h.find_type(o.rtti) {
                None => {
                    assert(edges@ =~= old(edges)@ + object_edges(*h, *c, object));
                    assert(weak@ =~= old(weak)@ + object_weak(*h, *c, object));
                },
                Some(ti) => {
                    let r = &h.types[ti].rtti;
                    if o.is_array(r, c) {
                        if r.rt.id == c.object_array_id && o.fields.len() >= 1 {
                            let mut targets: Vec<usize> = Vec::new();
                            obj_iterate_array(h, c, o, edges, &mut targets, weak);
                        } else {
                            assert(edges@ =~= old(edges)@ + object_edges(*h, *c, object));
                            assert(weak@ =~= old(weak)@ + object_weak(*h, *c, object));
                        }
                    } else {
                        let mut targets: Vec<usize> = Vec::new();
                        obj_iterate_plain(h, c, o, r, edges, &mut targets, weak);
                    }
                },
            }
        },
    }
}

/// Where the tracer sends each object: `to[j]` for `from[j]`, and every other
/// address to itself.
pub struct Forwarding {
    pub from: Vec<usize>,
    pub to: Vec<usize>,
}

impl Forwarding {
    pub open spec fn wf(&self) -> bool {
        &&& self.from@.len() == self.to@.len()
        &&& distinct(self.from@)
    }

    /// The address that `a` has after tracing.
    pub open spec fn forwarded(&self, a: usize) -> usize {
        match index_of(self.from@, a) {
            Some(j) => self.to@[j],
            None => a,
        }
    }

    pub fn trace_object(&self, a: usize) -> (r: usize)
        requires
            self.wf(),
        ensures
            r == self.forwarded(a),
    {
        let mut j: usize = 0;
        while j < self.from.len()
            invariant
                self.wf(),
                j <= self.from@.len(),
                forall|k: int| 0 <= k < j ==> self.from@[k] != a,
            decreases self.from@.len() - j,
        {
            if self.from[j] == a {
                proof {
                    crate::heap::lemma_index_of(self.from@, j as int);
                }
                return self.to[j];
            }
            j = j + 1;
        }
        proof {
            assert(!self.from@.contains(a)) by {
                if self.from@.contains(a) {
                    let k = choose|k: int| 0 <= k < self.from@.len() && self.from@[k] == a;
                    assert(self.from@[k] == a);
                }
            }
        }
        a
    }
}

/// A lock word after tracing: an inflated one addresses the forwarded monitor.
pub open spec fn traced_lock(fw: Forwarding, w: usize) -> usize {
    if is_inflated(w) {
        inflate_lock_ref(fw.forwarded(aligned_lock_ref(w)))
    } else {
        w
    }
}

/// Traces the monitor of an inflated lock word, and gives the lock word that
/// addresses where the monitor went.
pub fn trace_lock_word(fw: &Forwarding, w: usize) -> (r: usize)
    requires
        fw.wf(),
    ensures
        r == traced_lock(*fw, w),
{
    if field_is_inflated_lock(w) {
        let monitor = field_alligned_lock_ref(w);
        let moved = fw.trace_object(monitor);
        field_inflate_lock_ref(moved)
    } else {
        w
    }
}

/// The fields of a plain object after tracing the first `n` reference-map
/// entries: each followed slot holds its forwarded target.
pub open spec fn traced_plain(h: Heap, c: VmConstants, fw: Forwarding, r: Rtti, f0: Seq<usize>, n: nat) -> Seq<usize>
    decreases n,
{
    if n == 0 {
        f0
    } else {
        let f = traced_plain(h, c, fw, r, f0, (n - 1) as nat);
        match plain_slot(h, c, r, f, n - 1) {
            Some(s) => f.update(s, fw.forwarded(f[s])),
            None => f,
        }
    }
}

/// The forwarded targets of the first `n` entries whose target is a weak reference.
pub open spec fn traced_plain_weak(h: Heap, c: VmConstants, fw: Forwarding, r: Rtti, f0: Seq<usize>, n: nat) -> Seq<usize>
    decreases n,
{
    if n == 0 {
        Seq::empty()
    } else {
        let prev = traced_plain_weak(h, c, fw, r, f0, (n - 1) as nat);
        let f = traced_plain(h, c, fw, r, f0, (n - 1) as nat);
        match plain_slot(h, c, r, f, n - 1) {
            Some(s) => if is_weak_object(h, c, f[s]) {
                prev.push(fw.forwarded(f[s]))
            } else {
                prev
            },
            None => prev,
        }
    }
}

/// The words of an array after tracing its first `n` elements.
pub open spec fn traced_array(h: Heap, fw: Forwarding, f0: Seq<usize>, n: nat) -> Seq<usize>
    decreases n,
{
    if n == 0 {
        f0
    } else {
        let f = traced_array(h, fw, f0, (n - 1) as nat);
        match array_slot(h, f, n - 1) {
            Some(s) => f.update(s, fw.forwarded(f[s])),
            None => f,
        }
    }
}

pub open spec fn traced_array_weak(h: Heap, c: VmConstants, fw: Forwarding, f0: Seq<usize>, n: nat) -> Seq<usize>
    decreases n,
{
    if n == 0 {
        Seq::empty()
    } else {
        let prev = traced_array_weak(h, c, fw, f0, (n - 1) as nat);
        let f = traced_array(h, fw, f0, (n - 1) as nat);
        match array_slot(h, f, n - 1) {
            Some(s) => if is_weak_object(h, c, f[s]) {
                prev.push(fw.forwarded(f[s]))
            } else {
                prev
            },
            None => prev,
        }
    }
}

proof fn lemma_traced_array_len(h: Heap, fw: Forwarding, f0: Seq<usize>, n: nat)
    requires
        n + 1 <= f0.len(),
    ensures
        traced_array(h, fw, f0, n).len() == f0.len(),
        traced_array(h, fw, f0, n)[0] == f0[0],
    decreases n,
{
    if n > 0 {
        lemma_traced_array_len(h, fw, f0, (n - 1) as nat);
    }
}

proof fn lemma_traced_plain_len(h: Heap, c: VmConstants, fw: Forwarding, r: Rtti, f0: Seq<usize>, n: nat)
    ensures
        traced_plain(h, c, fw, r, f0, n).len() == f0.len(),
    decreases n,
{
    if n > 0 {
        lemma_traced_plain_len(h, c, fw, r, f0, (n - 1) as nat);
    }
}

/// The words of an object after `scan_object_and_trace_edges`.
pub open spec fn traced_fields(h: Heap, c: VmConstants, fw: Forwarding, o: Object, r: Rtti) -> Seq<usize> {
    if is_array_id(r.rt.id, c) {
        if scans_elements(c, o, r) {
            traced_array(h, fw, o.fields@, array_count(o))
        } else {
            o.fields@
        }
    } else {
        traced_plain(h, c, fw, r, o.fields@, ref_map_len(r.ref_map@))
    }
}

/// The weak references that `scan_object_and_trace_edges` pushes.
pub open spec fn traced_weak(h: Heap, c: VmConstants, fw: Forwarding, o: Object, r: Rtti) -> Seq<usize> {
    if is_array_id(r.rt.id, c) {
        if scans_elements(c, o, r) {
            traced_array_weak(h, c, fw, o.fields@, array_count(o))
        } else {
            Seq::empty()
        }
    } else {
        traced_plain_weak(h, c, fw, r, o.fields@, ref_map_len(r.ref_map@))
    }
}

fn trace_plain(
    h: &Heap,
    c: &VmConstants,
    fw: &Forwarding,
    r: &Rtti,
    o: &mut Object,
    weak: &mut WeakRefStack,
)
    requires
        h.wf(*c),
        fw.wf(),
    ensures
        final(o).addr == old(o).addr,
        final(o).rtti == old(o).rtti,
        final(o).lock_word == old(o).lock_word,
        final(o).fields@ == traced_plain(*h, *c, *fw, *r, old(o).fields@, ref_map_len(r.ref_map@)),
        final(weak)@ == old(weak)@ + traced_plain_weak(*h, *c, *fw, *r, old(o).fields@, ref_map_len(r.ref_map@)),
{
    let ghost f0 = o.fields@;
    let n = o.num_fields(r);
    let mut k: usize = 0;
    while k < n
        invariant
            h.wf(*c),
            fw.wf(),
            n == ref_map_len(r.ref_map@),
            n <= r.ref_map@.len(),
            k <= n,
            o.addr == old(o).addr,
            o.rtti == old(o).rtti,
            o.lock_word == old(o).lock_word,
            f0 == old(o).fields@,
            o.fields@ == traced_plain(*h, *c, *fw, *r, f0, k as nat),
            weak@ == old(weak)@ + traced_plain_weak(*h, *c, *fw, *r, f0, k as nat),
        decreases n - k,
    {
        let off = r.ref_map[k];
        let referent = c.weak_ref_ids_min <= r.rt.id && r.rt.id <= c.weak_ref_ids_max
            && off == c.weak_ref_field_offset as i64;
        if !referent && off >= 0 && off % 8 == 0 && ((off / 8) as u64) < (o.fields.len() as u64) {
            let s = (off / 8) as usize;
            let target = o.fields[s];
            if is_word_in_heap(h, target) && h.find_object(target).is_some() {
                let was_weak = h.is_weak_object(c, target);
                let moved = fw.trace_object(target);
                o.fields.set(s, moved);
                if was_weak {
                    weak.push(moved);
                }
            }
        }
        k = k + 1;
        proof {
            assert(weak@ =~= old(weak)@ + traced_plain_weak(*h, *c, *fw, *r, f0, k as nat));
        }
    }
}

fn trace_array(h: &Heap, c: &VmConstants, fw: &Forwarding, o: &mut Object, weak: &mut WeakRefStack)
    requires
        h.wf(*c),
        fw.wf(),
        old(o).fields@.len() >= 1,
    ensures
        final(o).addr == old(o).addr,
        final(o).rtti == old(o).rtti,
        final(o).lock_word == old(o).lock_word,
        final(o).fields@ == traced_array(*h, *fw, old(o).fields@, array_count(*old(o))),
        final(weak)@ == old(weak)@ + traced_array_weak(*h, *c, *fw, old(o).fields@, array_count(*old(o))),
{
    let ghost f0 = o.fields@;
    let ghost o0 = *o;
    let header = o.as_array_object();
    let count: usize = if header.length <= 0 {
        0
    } else if (header.length as usize) < o.fields.len() - 1 {
        header.length as usize
    } else {
        o.fields.len() - 1
    };
    let mut i: usize = 0;
    while i < count
        invariant
            h.wf(*c),
            fw.wf(),
            f0.len() >= 1,
            count == array_count(o0),
            o0.fields@ == f0,
            count + 1 <= f0.len(),
            i <= count,
            o.addr == old(o).addr,
            o.rtti == old(o).rtti,
            o.lock_word == old(o).lock_word,
            f0 == old(o).fields@,
            o.fields@ == traced_array(*h, *fw, f0, i as nat),
            weak@ == old(weak)@ + traced_array_weak(*h, *c, *fw, f0, i as nat),
        decreases count - i,
    {
        proof {
            lemma_traced_array_len(*h, *fw, f0, i as nat);
        }
        let target = o.fields[1 + i];
        if is_word_in_heap(h, target) && h.find_object(target).is_some() {
            let was_weak = h.is_weak_object(c, target);
            let moved = fw.trace_object(target);
            o.fields.set(1 + i, moved);
            if was_weak {
                weak.push(moved);
            }
        }
        i = i + 1;
        proof {
            assert(weak@ =~= old(weak)@ + traced_array_weak(*h, *c, *fw, f0, i as nat));
        }
    }
}

proof fn lemma_traced_plain_same(h0: Heap, h: Heap, c: VmConstants, fw: Forwarding, r: Rtti, f0: Seq<usize>, n: nat)
    requires
        same_shape(h0, h),
    ensures
        traced_plain(h, c, fw, r, f0, n) == traced_plain(h0, c, fw, r, f0, n),
        traced_plain_weak(h, c, fw, r, f0, n) == traced_plain_weak(h0, c, fw, r, f0, n),
    decreases n,
{
    if n > 0 {
        lemma_traced_plain_same(h0, h, c, fw, r, f0, (n - 1) as nat);
        let f = traced_plain(h0, c, fw, r, f0, (n - 1) as nat);
        let off = r.ref_map@[n - 1] as int;
        if off >= 0 && off % 8 == 0 && off / 8 < f.len() {
            lemma_same_shape(h0, h, c, f[off / 8]);
            lemma_same_shape(h0, h, c, fw.forwarded(f[off / 8]));
        }
    }
}

proof fn lemma_traced_array_same(h0: Heap, h: Heap, c: VmConstants, fw: Forwarding, f0: Seq<usize>, n: nat)
    requires
        same_shape(h0, h),
    ensures
        traced_array(h, fw, f0, n) == traced_array(h0, fw, f0, n),
        traced_array_weak(h, c, fw, f0, n) == traced_array_weak(h0, c, fw, f0, n),
    decreases n,
{
    if n > 0 {
        lemma_traced_array_same(h0, h, c, fw, f0, (n - 1) as nat);
        let f = traced_array(h0, fw, f0, (n - 1) as nat);
        lemma_same_shape(h0, h, c, f[n as int]);
        lemma_same_shape(h0, h, c, fw.forwarded(f[n as int]));
    }
}

/// Type entries that differ at most in lock words resolve every header word
/// to type information with the same id, size and reference map.
pub open spec fn same_types_but_locks(t1: Seq<TypeEntry>, t2: Seq<TypeEntry>) -> bool {
    &&& t1.len() == t2.len()
    &&& forall|j: int| 0 <= j < t1.len() ==> {
        &&& (#[trigger] t1[j]).addr == t2[j].addr
        &&& t1[j].rtti.rt.id == t2[j].rtti.rt.id
        &&& t1[j].rtti.size == t2[j].rtti.size
        &&& t1[j].rtti.ref_map@ == t2[j].rtti.ref_map@
    }
}

proof fn lemma_same_types_but_locks(t1: Seq<TypeEntry>, t2: Seq<TypeEntry>, w: usize)
    requires
        same_types_but_locks(t1, t2),
    ensures
        type_addrs(t1) == type_addrs(t2),
        type_at(t1, w) is Some == type_at(t2, w) is Some,
        type_at(t1, w) is Some ==> type_at(t1, w)->0.rt.id == type_at(t2, w)->0.rt.id
            && type_at(t1, w)->0.size == type_at(t2, w)->0.size,
{
    assert(type_addrs(t1) =~= type_addrs(t2));
}

/// The entry `t1` is `t0` with the type's lock word replaced by `w`.
pub open spec fn lock_replaced(t0: TypeEntry, t1: TypeEntry, w: usize) -> bool {
    &&& t1.addr == t0.addr
    &&& t1.rtti.rt.lock_word == w
    &&& t1.rtti.rt.cls == t0.rtti.rt.cls
    &&& t1.rtti.rt.id == t0.rtti.rt.id
    &&& t1.rtti.rt.tid == t0.rtti.rt.tid
    &&& t1.rtti.rt.name == t0.rtti.rt.name
    &&& t1.rtti.size == t0.rtti.size
    &&& t1.rtti.id_range_until == t0.rtti.id_range_until
    &&& t1.rtti.ref_map == t0.rtti.ref_map
}

/// The monitor that tracing an inflated lock word asks the tracer about.
pub open spec fn lock_target(w: usize) -> Seq<usize> {
    if is_inflated(w) {
        seq![aligned_lock_ref(w)]
    } else {
        Seq::empty()
    }
}

/// The targets of the slots that the first `n` reference-map entries lead to.
pub open spec fn plain_targets(h: Heap, c: VmConstants, o: Object, r: Rtti, n: nat) -> Seq<usize>
    decreases n,
{
    if n == 0 {
        Seq::empty()
    } else {
        let prev = plain_targets(h, c, o, r, (n - 1) as nat);
        match plain_slot(h, c, r, o.fields@, n - 1) {
            Some(s) => prev.push(o.fields@[s]),
            None => prev,
        }
    }
}

pub open spec fn array_targets(h: Heap, o: Object, n: nat) -> Seq<usize>
    decreases n,
{
    if n == 0 {
        Seq::empty()
    } else {
        let prev = array_targets(h, o, (n - 1) as nat);
        match array_slot(h, o.fields@, n - 1) {
            Some(s) => prev.push(o.fields@[s]),
            None => prev,
        }
    }
}

/// The objects that tracing the object at `a` asks the tracer about: the
/// monitors of the type's and the object's inflated lock words, then the
/// target of each slot that the scan follows.
pub open spec fn trace_targets(h: Heap, c: VmConstants, a: usize) -> Seq<usize> {
    match index_of(addrs(h.objects@), a) {
        None => Seq::empty(),
        Some(i) => {
            let o = h.objects@[i];
            match type_at(h.types@, o.rtti) {
                None => Seq::empty(),
                Some(r) => lock_target(r.rt.lock_word) + lock_target(o.lock_word) + if is_array_id(r.rt.id, c) {
                    if scans_elements(c, o, r) {
                        array_targets(h, o, array_count(o))
                    } else {
                        Seq::empty()
                    }
                } else {
                    plain_targets(h, c, o, r, ref_map_len(r.ref_map@))
                },
            }
        },
    }
}

/// The objects that tracing the object at `object` asks the tracer about,
/// in order: the monitors of the type's and the object's inflated lock
/// words, then the target of each slot that the scan follows.
pub fn objects_to_trace(h: &Heap, c: &VmConstants, object: usize) -> (r: Vec<usize>)
    requires
        h.wf(*c),
    ensures
        r@ == trace_targets(*h, *c, object),
{
    let mut r: Vec<usize> = Vec::new();
    match h.find_object(object) {
        None => {},
        Some(oi) => {
            let o = &h.objects[oi];
            assert(object_wf(*h, *c, h.objects@[oi as int]));
            match h.find_type(o.rtti) {
                None => {},
                Some(ti) => {
                    let rt = &h.types[ti].rtti;
                    let type_lock = rt.rt.lock_word;
                    if field_is_inflated_lock(type_lock) {
                        r.push(field_alligned_lock_ref(type_lock));
                    }
                    if field_is_inflated_lock(o.lock_word) {
                        r.push(field_alligned_lock_ref(o.lock_word));
                    }
                    let ghost locks = r@;
                    assert(locks =~= lock_target(rt.rt.lock_word) + lock_target(o.lock_word));
                    let mut edges: Vec<usize> = Vec::new();
                    let mut weak = WeakRefStack::new();
                    if o.is_array(rt, c) {
                        if rt.rt.id == c.object_array_id && o.fields.len() >= 1 {
                            obj_iterate_array(h, c, o, &mut edges, &mut r, &mut weak);
                        }
                    } else {
                        obj_iterate_plain(h, c, o, rt, &mut edges, &mut r, &mut weak);
                    }
                },
            }
        },
    }
    assert(r@ =~= trace_targets(*h, *c, object));
    r
}

proof fn lemma_plain_targets_avoid(h: Heap, c: VmConstants, o: Object, r: Rtti, n: nat, v: usize)
    requires
        is_weak_ref_id(r.rt.id, c),
        c.wf(),
        forall|j: int| 0 <= j < o.fields@.len() && j != c.weak_ref_field_offset / 8 ==> o.fields@[j] != v,
    ensures
        forall|k: int| 0 <= k < plain_targets(h, c, o, r, n).len() ==> plain_targets(h, c, o, r, n)[k] != v,
    decreases n,
{
    if n > 0 {
        lemma_plain_targets_avoid(h, c, o, r, (n - 1) as nat, v);
        let prev = plain_targets(h, c, o, r, (n - 1) as nat);
        if plain_slot(h, c, r, o.fields@, n - 1) is None {
            assert(plain_targets(h, c, o, r, n) == prev);
        } else {
            let s = plain_slot(h, c, r, o.fields@, n - 1)->0;
            let off = r.ref_map@[n - 1] as int;
            assert(off != c.weak_ref_field_offset);
            assert(s != c.weak_ref_field_offset / 8);
            let t = o.fields@[s];
            assert(plain_targets(h, c, o, r, n) == prev.push(t));
            assert forall|k: int| 0 <= k < prev.push(t).len() implies prev.push(t)[k] != v by {
                if k < prev.len() {
                    assert(prev.push(t)[k] == prev[k]);
                }
            }
        }
    }
}

/// Tracing a weak reference never asks the tracer about its referent, when
/// the referent is held by no other slot and by neither lock word: the
/// referent field is skipped.
pub proof fn lemma_referent_not_traced(h: Heap, c: VmConstants, a: usize)
    requires
        h.wf(c),
        is_weak_object(h, c, a),
        !is_array_id(crate::heap::type_of(h, a)->0.rt.id, c),
        ({
            let o = h.objects@[index_of(addrs(h.objects@), a)->0];
            let r = crate::heap::type_of(h, a)->0;
            let v = o.fields@[c.weak_ref_field_offset / 8];
            &&& c.weak_ref_field_offset / 8 < o.fields@.len()
            &&& forall|j: int| 0 <= j < o.fields@.len() && j != c.weak_ref_field_offset / 8 ==> o.fields@[j] != v
            &&& !(is_inflated(r.rt.lock_word) && aligned_lock_ref(r.rt.lock_word) == v)
            &&& !(is_inflated(o.lock_word) && aligned_lock_ref(o.lock_word) == v)
        }),
    ensures
        ({
            let o = h.objects@[index_of(addrs(h.objects@), a)->0];
            let v = o.fields@[c.weak_ref_field_offset / 8];
            forall|k: int| 0 <= k < trace_targets(h, c, a).len() ==> trace_targets(h, c, a)[k] != v
        }),
{
    let i = index_of(addrs(h.objects@), a)->0;
    let o = h.objects@[i];
    let r = type_at(h.types@, o.rtti)->0;
    let v = o.fields@[c.weak_ref_field_offset / 8];
    let n = ref_map_len(r.ref_map@);
    lemma_plain_targets_avoid(h, c, o, r, n, v);
    let l1 = lock_target(r.rt.lock_word);
    let l2 = lock_target(o.lock_word);
    let p = plain_targets(h, c, o, r, n);
    assert(trace_targets(h, c, a) == l1 + l2 + p);
    assert forall|k: int| 0 <= k < (l1 + l2 + p).len() implies (l1 + l2 + p)[k] != v by {
        if k < l1.len() {
            assert((l1 + l2 + p)[k] == l1[k]);
        } else if k < l1.len() + l2.len() {
            assert((l1 + l2 + p)[k] == l2[k - l1.len()]);
        } else {
            assert((l1 + l2 + p)[k] == p[k - l1.len() - l2.len()]);
        }
    }
}

/// A slot that holds null is never followed: null lies outside the heap.
pub proof fn lemma_null_slot_not_followed(h: Heap, c: VmConstants, r: Rtti, fields: Seq<usize>, k: int)
    requires
        h.wf(c),
        ({
            let off = r.ref_map@[k] as int;
            off >= 0 && off % 8 == 0 && off / 8 < fields.len() && fields[off / 8] == 0
        }),
    ensures
        plain_slot(h, c, r, fields, k) is None,
{
}

/// Traces the object at `object`: the monitors of its two inflated lock words
/// (the type's and its own) and the target of each reference slot that the
/// edge scan follows; writes each forwarded address back, and pushes onto
/// `weak` the forwarded address of each target that is a weak reference.
pub fn scan_object_and_trace_edges(
    h: &mut Heap,
    c: &VmConstants,
    fw: &Forwarding,
    object: usize,
    weak: &mut WeakRefStack,
)
    requires
        old(h).wf(*c),
        fw.wf(),
        forall|k: int| 0 <= k < trace_targets(*old(h), *c, object).len() ==> fw.from@.contains(
            #[trigger] trace_targets(*old(h), *c, object)[k],
        ),
    ensures
        final(h).wf(*c),
        final(h).start == old(h).start,
        final(h).end == old(h).end,
        addrs(final(h).objects@) == addrs(old(h).objects@),
        rtti_words(final(h).objects@) == rtti_words(old(h).objects@),
        same_types_but_locks(old(h).types@, final(h).types@),
        final(h).marked@ == old(h).marked@,
        index_of(addrs(old(h).objects@), object) is None ==> *final(h) == *old(h) && final(weak)@
            == old(weak)@,
        index_of(addrs(old(h).objects@), object) matches Some(i) ==> {
            let o = old(h).objects@[i];
            match type_at(old(h).types@, o.rtti) {
                None => *final(h) == *old(h) && final(weak)@ == old(weak)@,
                Some(r) => {
                    &&& final(h).objects@[i].lock_word == traced_lock(*fw, o.lock_word)
                    &&& final(h).objects@[i].fields@ == traced_fields(*old(h), *c, *fw, o, r)
                    &&& forall|k: int|
                        0 <= k < old(h).objects@.len() && k != i ==> final(h).objects@[k]
                            == old(h).objects@[k]
                    &&& ({
                        let j = index_of(type_addrs(old(h).types@), o.rtti)->0;
                        &&& final(h).types@.len() == old(h).types@.len()
                        &&& lock_replaced(old(h).types@[j], final(h).types@[j], traced_lock(*fw, r.rt.lock_word))
                        &&& forall|k: int| 0 <= k < old(h).types@.len() && k != j ==> final(h).types@[k]
                            == old(h).types@[k]
                    })
                    &&& final(weak)@ == old(weak)@ + traced_weak(*old(h), *c, *fw, o, r)
                },
            }
        },
{
    let ghost h0 = *h;
    match h.find_object(object) {
        None => {
            assert(weak@ =~= old(weak)@);
        },
        Some(oi) => {
            let rw = h.objects[oi].rtti;
            match h.find_type(rw) {
                None => {
                    assert(weak@ =~= old(weak)@);
                },
                Some(ti) => {
                    let ghost o0 = h0.objects@[oi as int];
                    let ghost r0 = h0.types@[ti as int].rtti;
                    assert(object_wf(h0, *c, o0));
                    let addr = h.objects[oi].addr;
                    let lw = h.objects[oi].lock_word;
                    let mut stub_fields: Vec<usize> = Vec::new();
                    if h.objects[oi].fields.len() >= 1 {
                        stub_fields.push(0);
                    }
                    let mut o = Object { addr, rtti: rw, lock_word: lw, fields: stub_fields };
                    h.objects.set_and_swap(oi, &mut o);
                    proof {
                        assert(addrs(h.objects@) =~= addrs(h0.objects@));
                        assert(rtti_words(h.objects@) =~= rtti_words(h0.objects@));
                        assert(same_shape(h0, *h));
                        assert forall|k: int| 0 <= k < h.objects@.len() implies object_wf(*h, *c, #[trigger] h.objects@[k]) by {
                            assert(object_wf(h0, *c, h0.objects@[k]));
                        }
                        assert(h.wf(*c));
                    }
                    o.lock_word = trace_lock_word(fw, o.lock_word);
                    let r = &h.types[ti].rtti;
                    if o.is_array(r, c) {
                        if r.rt.id == c.object_array_id && o.fields.len() >= 1 {
                            trace_array(h, c, fw, &mut o, weak);
                        } else {
                            assert(weak@ =~= old(weak)@ + traced_weak(h0, *c, *fw, o0, r0));
                        }
                    } else {
                        trace_plain(h, c, fw, r, &mut o, weak);
                    }
                    proof {
                        lemma_traced_plain_same(h0, *h, *c, *fw, r0, o0.fields@, ref_map_len(r0.ref_map@));
                        lemma_traced_array_same(h0, *h, *c, *fw, o0.fields@, array_count(o0));
                    }
                    h.objects.set_and_swap(oi, &mut o);
                    let ghost h1 = *h;
                    let mut entry = TypeEntry {
                        addr: rw,
                        rtti: Rtti {
                            rt: Runtime { cls: 0, lock_word: 0, id: 0, tid: 0, name: 0 },
                            size: 0,
                            id_range_until: 0,
                            ref_map: Vec::new(),
                        },
                    };
                    h.types.set_and_swap(ti, &mut entry);
                    entry.rtti.rt.lock_word = trace_lock_word(fw, entry.rtti.rt.lock_word);
                    h.types.set_and_swap(ti, &mut entry);
                    proof {
                        crate::heap::lemma_index_of(type_addrs(h0.types@), ti as int);
                        assert(same_types_but_locks(h0.types@, h.types@));
                        assert(addrs(h.objects@) =~= addrs(h0.objects@));
                        assert(rtti_words(h.objects@) =~= rtti_words(h0.objects@));
                        lemma_same_types_but_locks(h0.types@, h.types@, rw);
                        crate::heap::lemma_index_of(type_addrs(h.types@), ti as int);
                        assert forall|k: int| 0 <= k < h.objects@.len() implies object_wf(*h, *c, #[trigger] h.objects@[k]) by {
                            assert(object_wf(h0, *c, h0.objects@[k]));
                            lemma_same_types_but_locks(h0.types@, h.types@, h0.objects@[k].rtti);
                            if k == oi {
                                lemma_traced_plain_len(h0, *c, *fw, r0, o0.fields@, ref_map_len(r0.ref_map@));
                                if scans_elements(*c, o0, r0) {
                                    lemma_traced_array_len(h0, *fw, o0.fields@, array_count(o0));
                                }
                            }
                        }
                        assert forall|j: int| 0 <= j < h.types@.len() implies crate::heap::rtti_wf(#[trigger] h.types@[j].rtti) by {
                            assert(crate::heap::rtti_wf(h0.types@[j].rtti));
                        }
                    }
                },
            }
        },
    }
}

} // verus!
