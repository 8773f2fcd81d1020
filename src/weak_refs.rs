//! Weak references found during tracing, and the clearing of dead referents.
use vstd::prelude::*;
use crate::abi::{Object, VmConstants};
use crate::binding::ScalaNativeBinding;
use crate::heap::{addrs, index_of, is_word_in_heap, object_wf, rtti_words, Heap, PinBits, WORD};
use crate::object_scanning::Forwarding;

verus! {

/// The address of an object, as it is handed between threads.
pub struct ObjectSendPtr(pub usize);

/// Weak-reference objects met during tracing, waiting for processing.
pub struct WeakRefStack {
    pub items: Vec<usize>,
}

impl WeakRefStack {
    pub open spec fn view(&self) -> Seq<usize> {
        self.items@
    }

    pub fn new() -> (r: WeakRefStack)
        ensures
            r@ == Seq::<usize>::empty(),
    {
        WeakRefStack { items: Vec::new() }
    }

    pub fn push(&mut self, object: usize)
        ensures
            final(self)@ == old(self)@.push(object),
    {
        self.items.push(object);
    }
}

pub fn weak_ref_stack_is_empty(stack: &WeakRefStack) -> (r: bool)
    ensures
        r == (stack@.len() == 0),
{
    stack.items.len() == 0
}

/// Takes the most recently pushed weak reference.
pub fn weak_ref_stack_pop(stack: &mut WeakRefStack) -> (r: Option<ObjectSendPtr>)
    ensures
        old(stack)@.len() == 0 ==> r is None && final(stack)@ == old(stack)@,
        old(stack)@.len() > 0 ==> (r matches Some(p) && p.0 == old(stack)@.last()
            && final(stack)@ == old(stack)@.drop_last()),
{
    match stack.items.pop() {
        Some(a) => Some(ObjectSendPtr(a)),
        None => None,
    }
}

/// Whether the referent `t` is dead: an object of the heap that marking did not reach.
pub open spec fn referent_dead(h: Heap, t: usize) -> bool {
    match index_of(addrs(h.objects@), t) {
        Some(j) => !h.marked@[j],
        None => false,
    }
}

/// The slot of the referent field among an object's words.
pub open spec fn referent_slot(c: VmConstants) -> int {
    c.weak_ref_field_offset / 8
}

/// Whether one of `ws` is forwarded to `a`.
pub open spec fn forwarded_to(fw: Forwarding, ws: Seq<usize>, a: usize) -> bool {
    exists|k: int| 0 <= k < ws.len() && fw.forwarded(#[trigger] ws[k]) == a
}

/// Whether processing the weak references `ws` clears the referent slot of
/// object `i`: `i` is where one of them was forwarded to, and its referent is dead.
pub open spec fn clears(h: Heap, c: VmConstants, fw: Forwarding, ws: Seq<usize>, i: int) -> bool {
    &&& forwarded_to(fw, ws, h.objects@[i].addr)
    &&& referent_slot(c) < h.objects@[i].fields@.len()
    &&& referent_dead(h, h.objects@[i].fields@[referent_slot(c)])
}

/// The words of object `i` after processing: its referent slot is null when cleared.
pub open spec fn fields_after(h: Heap, c: VmConstants, fw: Forwarding, ws: Seq<usize>, i: int) -> Seq<usize> {
    if clears(h, c, fw, ws, i) {
        h.objects@[i].fields@.update(referent_slot(c), 0)
    } else {
        h.objects@[i].fields@
    }
}

/// Everything but the referent slots is as it was.
pub open spec fn same_but_fields(h0: Heap, h: Heap) -> bool {
    &&& h.start == h0.start
    &&& h.end == h0.end
    &&& h.types@ == h0.types@
    &&& h.marked@ == h0.marked@
    &&& h.objects@.len() == h0.objects@.len()
    &&& forall|i: int| 0 <= i < h0.objects@.len() ==> {
        &&& (#[trigger] h.objects@[i]).addr == h0.objects@[i].addr
        &&& h.objects@[i].rtti == h0.objects@[i].rtti
        &&& h.objects@[i].lock_word == h0.objects@[i].lock_word
        &&& h.objects@[i].fields@.len() == h0.objects@[i].fields@.len()
    }
}

proof fn lemma_same_but_fields(h0: Heap, h: Heap, c: VmConstants, t: usize)
    requires
        same_but_fields(h0, h),
    ensures
        addrs(h.objects@) == addrs(h0.objects@),
        rtti_words(h.objects@) == rtti_words(h0.objects@),
        referent_dead(h, t) == referent_dead(h0, t),
        h0.wf(c) ==> h.wf(c),
{
    assert(addrs(h.objects@) =~= addrs(h0.objects@));
    assert(rtti_words(h.objects@) =~= rtti_words(h0.objects@));
    if h0.wf(c) {
        assert forall|i: int| 0 <= i < h.objects@.len() implies object_wf(h, c, #[trigger] h.objects@[i]) by {
            assert(object_wf(h0, c, h0.objects@[i]));
        }
    }
}

/// What one step of weak-reference processing does to object `i`.
proof fn step_facts(
    h0: Heap,
    hb: Heap,
    h: Heap,
    c: VmConstants,
    fw: Forwarding,
    ws: Seq<usize>,
    m: int,
    object: usize,
    found: Option<usize>,
    dead: bool,
    i: int,
)
    requires
        h0.wf(c),
        hb.wf(c),
        1 <= m <= ws.len(),
        object == fw.forwarded(ws[m - 1]),
        same_but_fields(h0, hb),
        0 <= i < h0.objects@.len(),
        hb.objects@[i].fields@ == fields_after(h0, c, fw, ws.subrange(m, ws.len() as int), i),
        found matches Some(fi) ==> fi < hb.objects@.len() && hb.objects@[fi as int].addr == object,
        found is None ==> forall|k: int| 0 <= k < hb.objects@.len() ==> (#[trigger] hb.objects@[k]).addr != object,
        found is None ==> !dead,
        found matches Some(fi) ==> {
            let sl = referent_slot(c);
            &&& (dead ==> sl < hb.objects@[fi as int].fields@.len()
                && referent_dead(hb, hb.objects@[fi as int].fields@[sl])
                && h.objects@[fi as int].fields@ == hb.objects@[fi as int].fields@.update(sl, 0))
            &&& (!dead ==> h.objects@ == hb.objects@ && !(sl < hb.objects@[fi as int].fields@.len()
                && referent_dead(hb, hb.objects@[fi as int].fields@[sl])))
        },
        found is None ==> h.objects@ == hb.objects@,
        h.objects@.len() == hb.objects@.len(),
        forall|k: int| 0 <= k < hb.objects@.len() && !(found matches Some(fi) && fi as int == k) ==> h.objects@[k] == hb.objects@[k],
    ensures
        h.objects@[i].fields@ == fields_after(h0, c, fw, ws.subrange(m - 1, ws.len() as int), i),
        dead && (found matches Some(fi) && fi as int == i) ==> clears(h0, c, fw, ws.subrange(m - 1, ws.len() as int), i)
            && !clears(h0, c, fw, ws.subrange(m, ws.len() as int), i),
        !dead ==> (clears(h0, c, fw, ws.subrange(m - 1, ws.len() as int), i) == clears(h0, c, fw, ws.subrange(m, ws.len() as int), i)),
        !(found matches Some(fi) && fi as int == i) ==> (clears(h0, c, fw, ws.subrange(m - 1, ws.len() as int), i) == clears(h0, c, fw, ws.subrange(m, ws.len() as int), i)),
{
    let a = h0.objects@[i].addr;
    let sl = referent_slot(c);
    lemma_done2(ws, m, fw, a);
    lemma_zero_not_dead(h0, c);
    lemma_same_but_fields(h0, hb, c, 0);
    assert(hb.objects@[i].addr == a);
    if found is Some {
        let fi = found->0;
        if fi as int == i {
            if sl < h0.objects@[i].fields@.len() {
                let t0 = h0.objects@[i].fields@[sl];
                lemma_same_but_fields(h0, hb, c, t0);
                if clears(h0, c, fw, ws.subrange(m, ws.len() as int), i) {
                    assert(hb.objects@[i].fields@[sl] == 0);
                    assert(!dead);
                } else {
                    assert(hb.objects@[i].fields@ == h0.objects@[i].fields@);
                    assert(forwarded_to(fw, ws.subrange(m - 1, ws.len() as int), a));
                }
            }
        } else {
            assert(addrs(h0.objects@)[i] == a);
            assert(addrs(h0.objects@)[fi as int] == h0.objects@[fi as int].addr);
            assert(hb.objects@[fi as int].addr == h0.objects@[fi as int].addr);
            assert(a != object);
            assert(h.objects@[i] == hb.objects@[i]);
        }
    } else {
        assert(a != object);
    }
}

/// With no weak reference to process, no slot is cleared.
pub proof fn lemma_empty_stack_noop(h: Heap, c: VmConstants, fw: Forwarding)
    ensures
        forall|i: int| 0 <= i < h.objects@.len() ==> !clears(h, c, fw, Seq::empty(), i)
            && #[trigger] fields_after(h, c, fw, Seq::empty(), i) == h.objects@[i].fields@,
{
}

/// A weak reference whose referent slot is null keeps it null.
pub proof fn lemma_null_referent_stays(h: Heap, c: VmConstants, fw: Forwarding, ws: Seq<usize>, i: int)
    requires
        h.wf(c),
        0 <= i < h.objects@.len(),
        referent_slot(c) < h.objects@[i].fields@.len(),
        h.objects@[i].fields@[referent_slot(c)] == 0,
    ensures
        !clears(h, c, fw, ws, i),
        fields_after(h, c, fw, ws, i) == h.objects@[i].fields@,
{
    lemma_zero_not_dead(h, c);
}

/// With a tracer that moves nothing, processing clears exactly the weak
/// references on the stack whose referent is an object that marking did not
/// reach, and leaves every other slot as it was.
pub proof fn lemma_weak_clearing_in_place(h: Heap, c: VmConstants, fw: Forwarding, ws: Seq<usize>, i: int)
    requires
        fw.from@.len() == 0,
        0 <= i < h.objects@.len(),
    ensures
        clears(h, c, fw, ws, i) == (ws.contains(h.objects@[i].addr) && referent_slot(c)
            < h.objects@[i].fields@.len() && referent_dead(h, h.objects@[i].fields@[referent_slot(c)])),
{
    let a = h.objects@[i].addr;
    assert forall|x: usize| fw.forwarded(x) == x by {
        assert(!fw.from@.contains(x));
    }
    if ws.contains(a) {
        let k = choose|k: int| 0 <= k < ws.len() && ws[k] == a;
        assert(fw.forwarded(ws[k]) == a);
    }
    if forwarded_to(fw, ws, a) {
        let k = choose|k: int| 0 <= k < ws.len() && fw.forwarded(#[trigger] ws[k]) == a;
        assert(ws[k] == a);
    }
}

proof fn lemma_zero_not_dead(h: Heap, c: VmConstants)
    requires
        h.wf(c),
    ensures
        !referent_dead(h, 0),
        !addrs(h.objects@).contains(0),
{
    if addrs(h.objects@).contains(0) {
        let i = choose|i: int| 0 <= i < addrs(h.objects@).len() && addrs(h.objects@)[i] == 0;
        assert(object_wf(h, c, h.objects@[i]));
    }
}

proof fn lemma_done2(ws: Seq<usize>, m: int, fw: Forwarding, a: usize)
    requires
        1 <= m <= ws.len(),
    ensures
        forwarded_to(fw, ws.subrange(m - 1, ws.len() as int), a) == (forwarded_to(
            fw,
            ws.subrange(m, ws.len() as int),
            a,
        ) || fw.forwarded(ws[m - 1]) == a),
{
    let d2 = ws.subrange(m - 1, ws.len() as int);
    let d = ws.subrange(m, ws.len() as int);
    if forwarded_to(fw, d2, a) {
        let k = choose|k: int| 0 <= k < d2.len() && fw.forwarded(#[trigger] d2[k]) == a;
        if k > 0 {
            assert(d[k - 1] == d2[k]);
        }
    }
    if forwarded_to(fw, d, a) {
        let k = choose|k: int| 0 <= k < d.len() && fw.forwarded(#[trigger] d[k]) == a;
        assert(d2[k + 1] == d[k]);
        assert(forwarded_to(fw, d2, a));
    }
    if fw.forwarded(ws[m - 1]) == a {
        assert(d2[0] == ws[m - 1]);
        assert(forwarded_to(fw, d2, a));
    }
}

/// Pops every weak reference; for each, when the object it was forwarded to
/// holds a referent that marking did not reach, nulls that referent slot.
/// Returns whether any slot was nulled.
pub fn mmtk_weak_ref_stack_nullify(h: &mut Heap, c: &VmConstants, fw: &Forwarding, stack: &mut WeakRefStack) -> (visited: bool)
    requires
        old(h).wf(*c),
        fw.wf(),
    ensures
        final(h).wf(*c),
        final(stack)@.len() == 0,
        same_but_fields(*old(h), *final(h)),
        forall|i: int| 0 <= i < old(h).objects@.len() ==> (#[trigger] final(h).objects@[i]).fields@
            == fields_after(*old(h), *c, *fw, old(stack)@, i),
        visited == exists|i: int| 0 <= i < old(h).objects@.len() && clears(*old(h), *c, *fw, old(stack)@, i),
{
    let ghost h0 = *h;
    let ghost ws = stack@;
    let mut visited = false;
    proof {
        assert forall|i: int| 0 <= i < h0.objects@.len() implies #[trigger] h.objects@[i].fields@
            == fields_after(h0, *c, *fw, ws.subrange(ws.len() as int, ws.len() as int), i) by {}
    }
    while !weak_ref_stack_is_empty(stack)
        invariant
            h.wf(*c),
            fw.wf(),
            h0.wf(*c),
            stack@.len() <= ws.len(),
            stack@ == ws.subrange(0, stack@.len() as int),
            same_but_fields(h0, *h),
            forall|i: int| 0 <= i < h0.objects@.len() ==> #[trigger] h.objects@[i].fields@
                == fields_after(h0, *c, *fw, ws.subrange(stack@.len() as int, ws.len() as int), i),
            visited == exists|i: int| 0 <= i < h0.objects@.len()
                && clears(h0, *c, *fw, ws.subrange(stack@.len() as int, ws.len() as int), i),
        decreases stack@.len(),
    {
        let ghost m = stack@.len();
        let ghost done = ws.subrange(m as int, ws.len() as int);
        let ghost done2 = ws.subrange(m - 1, ws.len() as int);
        let ghost hb = *h;
        let ghost old_visited = visited;
        let w = match weak_ref_stack_pop(stack) {
            Some(p) => p.0,
            None => 0,
        };
        assert(w == ws[m - 1]);
        let object = fw.trace_object(w);
        proof {
            lemma_same_but_fields(h0, *h, *c, 0);
        }
        let found: Option<usize> = if is_word_in_heap(h, object) {
            h.find_object(object)
        } else {
            None
        };
        proof {
            if found is None {
                assert forall|i: int| 0 <= i < h.objects@.len() implies (#[trigger] h.objects@[i]).addr != object by {
                    assert(object_wf(*h, *c, h.objects@[i]));
                    assert(addrs(h.objects@)[i] == h.objects@[i].addr);
                }
            }
        }
        let slot = (c.weak_ref_field_offset / 8) as usize;
        let mut dead = false;
        match found {
            Some(i) => {
                if slot < h.objects[i].fields.len() {
                    let t = h.objects[i].fields[slot];
                    dead = match h.find_object(t) {
                        Some(j) => !h.marked[j],
                        None => false,
                    };
                    proof {
                        lemma_same_but_fields(h0, *h, *c, t);
                    }
                    if dead {
                        let addr = h.objects[i].addr;
                        let rtti = h.objects[i].rtti;
                        let lock_word = h.objects[i].lock_word;
                        let mut o = Object { addr, rtti, lock_word, fields: Vec::new() };
                        h.objects.set_and_swap(i, &mut o);
                        o.fields.set(slot, 0);
                        h.objects.set_and_swap(i, &mut o);
                        visited = true;
                    }
                }
            },
            None => {},
        }
        proof {
            lemma_zero_not_dead(h0, *c);
            assert(same_but_fields(h0, *h));
            lemma_same_but_fields(h0, *h, *c, 0);
            lemma_same_but_fields(h0, hb, *c, 0);
            assert forall|i: int| 0 <= i < h0.objects@.len() implies #[trigger] h.objects@[i].fields@
                == fields_after(h0, *c, *fw, done2, i) by {
                step_facts(h0, hb, *h, *c, *fw, ws, m as int, object, found, dead, i);
            }
            assert(visited == exists|i: int| 0 <= i < h0.objects@.len() && clears(h0, *c, *fw, done2, i)) by {
                if visited {
                    if !old_visited {
                        let i = found->0 as int;
                        step_facts(h0, hb, *h, *c, *fw, ws, m as int, object, found, dead, i);
                        assert(clears(h0, *c, *fw, done2, i));
                    } else {
                        let i = choose|i: int| 0 <= i < h0.objects@.len() && clears(h0, *c, *fw, done, i);
                        lemma_done2(ws, m as int, *fw, h0.objects@[i].addr);
                        assert(clears(h0, *c, *fw, done2, i));
                    }
                } else {
                    assert forall|i: int| 0 <= i < h0.objects@.len() implies !clears(h0, *c, *fw, done2, i) by {
                        lemma_done2(ws, m as int, *fw, h0.objects@[i].addr);
                        step_facts(h0, hb, *h, *c, *fw, ws, m as int, object, found, dead, i);
                    }
                }
            }
        }
    }
    visited
}

} // verus!
