use scalanative_mmtk::abi::{Object, Rtti, Runtime, VmConstants};
use scalanative_mmtk::binding::ScalaNativeBinding;
use scalanative_mmtk::heap::{Heap, PinBits, TypeEntry};
use scalanative_mmtk::object_scanning::{
    objects_to_trace, scan_object, scan_object_and_trace_edges, trace_lock_word, Forwarding,
};
use scalanative_mmtk::scanning::{
    dedup_roots, mmtk_mark_conservative, mmtk_mark_modules, mmtk_mark_object, mmtk_mark_range, RootsClosure, StackRange,
    VMScanning,
};
use scalanative_mmtk::weak_refs::{weak_ref_stack_is_empty, weak_ref_stack_pop, WeakRefStack};

const START: usize = 0x10000;
const END: usize = 0x20000;
const PLAIN: usize = 0x500;
const LEAF: usize = 0x600;
const WEAK: usize = 0x700;
const OBJ_ARRAY: usize = 0x800;
const PRIM_ARRAY: usize = 0x900;

fn consts() -> VmConstants {
    VmConstants {
        array_ids_min: 10,
        array_ids_max: 19,
        weak_ref_ids_min: 30,
        weak_ref_ids_max: 31,
        weak_ref_field_offset: 8,
        object_array_id: 10,
        allocation_alignment: 16,
    }
}

fn rtti(id: i32, size: i32, ref_map: Vec<i64>) -> Rtti {
    Rtti {
        rt: Runtime { cls: 0, lock_word: 0, id, tid: 0, name: 0 },
        size,
        id_range_until: id,
        ref_map,
    }
}

fn types() -> Vec<TypeEntry> {
    vec![
        TypeEntry { addr: PLAIN, rtti: rtti(1, 48, vec![8, 24, -1]) },
        TypeEntry { addr: LEAF, rtti: rtti(2, 16, vec![-1]) },
        TypeEntry { addr: WEAK, rtti: rtti(30, 32, vec![0, 8, -1]) },
        TypeEntry { addr: OBJ_ARRAY, rtti: rtti(10, 24, vec![-1]) },
        TypeEntry { addr: PRIM_ARRAY, rtti: rtti(11, 24, vec![-1]) },
    ]
}

fn object(addr: usize, rtti: usize, fields: Vec<usize>) -> Object {
    Object { addr, rtti, lock_word: 0, fields }
}

fn heap(objects: Vec<Object>, marked: Vec<bool>) -> Heap {
    Heap { start: START, end: END, types: types(), objects, marked }
}

fn array_word(length: u32, stride: u32) -> usize {
    (length as usize) | ((stride as usize) << 32)
}

const O: usize = START;
const A: usize = START + 0x100;
const B: usize = START + 0x200;

#[test]
fn plain_object_scan_visits_each_reference_field() {
    let c = consts();
    let h = heap(
        vec![
            object(O, PLAIN, vec![0, A, 0, B]),
            object(A, LEAF, vec![]),
            object(B, LEAF, vec![]),
        ],
        vec![true, true, true],
    );
    let mut edges = Vec::new();
    let mut weak = WeakRefStack::new();
    scan_object(&h, &c, O, &mut edges, &mut weak);
    assert_eq!(edges, vec![O + 16 + 8, O + 16 + 24]);
    assert!(weak_ref_stack_is_empty(&weak));
}

#[test]
fn scan_skips_targets_outside_the_heap_and_non_objects() {
    let c = consts();
    let h = heap(
        vec![object(O, PLAIN, vec![0, END + 16, 0, A + 16]), object(A, LEAF, vec![])],
        vec![true, true],
    );
    let mut edges = Vec::new();
    let mut weak = WeakRefStack::new();
    scan_object(&h, &c, O, &mut edges, &mut weak);
    assert!(edges.is_empty());
}

#[test]
fn scan_skips_the_referent_of_a_weak_reference() {
    let c = consts();
    let h = heap(
        vec![object(O, WEAK, vec![A, B]), object(A, LEAF, vec![]), object(B, LEAF, vec![])],
        vec![true, true, true],
    );
    let mut edges = Vec::new();
    let mut weak = WeakRefStack::new();
    scan_object(&h, &c, O, &mut edges, &mut weak);
    assert_eq!(edges, vec![O + 16]);
}

#[test]
fn scan_pushes_weak_reference_targets() {
    let c = consts();
    let h = heap(
        vec![object(O, PLAIN, vec![0, A, 0, 0]), object(A, WEAK, vec![0, B]), object(B, LEAF, vec![])],
        vec![true, true, true],
    );
    let mut edges = Vec::new();
    let mut weak = WeakRefStack::new();
    scan_object(&h, &c, O, &mut edges, &mut weak);
    assert_eq!(edges, vec![O + 24]);
    assert_eq!(weak.items, vec![A]);
}

#[test]
fn array_scan_walks_only_arrays_of_references() {
    let c = consts();
    let h = heap(
        vec![
            object(O, OBJ_ARRAY, vec![array_word(3, 8), A, 0, B]),
            object(A, LEAF, vec![]),
            object(B, PRIM_ARRAY, vec![array_word(1, 8), A]),
        ],
        vec![true, true, true],
    );
    let mut edges = Vec::new();
    let mut weak = WeakRefStack::new();
    scan_object(&h, &c, O, &mut edges, &mut weak);
    assert_eq!(edges, vec![O + 24, O + 24 + 16]);
    let mut prim = Vec::new();
    scan_object(&h, &c, B, &mut prim, &mut weak);
    assert!(prim.is_empty());
}

#[test]
fn empty_array_scan_visits_nothing() {
    let c = consts();
    let h = heap(vec![object(O, OBJ_ARRAY, vec![array_word(0, 8), A]), object(A, LEAF, vec![])], vec![true, true]);
    let mut edges = Vec::new();
    let mut weak = WeakRefStack::new();
    scan_object(&h, &c, O, &mut edges, &mut weak);
    assert!(edges.is_empty());
}

#[test]
fn inflated_lock_follows_the_moved_monitor() {
    let c = consts();
    let m = A;
    let moved = START + 0x800;
    let mut o = object(O, PLAIN, vec![0, B, 0, 0]);
    o.lock_word = m | 1;
    let mut h = heap(
        vec![o, object(m, LEAF, vec![]), object(B, LEAF, vec![])],
        vec![true, true, true],
    );
    let fw = Forwarding { from: vec![m, B], to: vec![moved, B + 0x1000] };
    let mut weak = WeakRefStack::new();
    scan_object_and_trace_edges(&mut h, &c, &fw, O, &mut weak);
    assert_eq!(h.objects[0].lock_word, moved | 1);
    assert_eq!(h.objects[0].fields, vec![0, B + 0x1000, 0, 0]);
    assert_eq!(h.objects[1].lock_word, 0);
}

#[test]
fn type_lock_word_follows_the_moved_monitor() {
    let c = consts();
    let mut h = heap(vec![object(O, LEAF, vec![]), object(A, LEAF, vec![])], vec![true, true]);
    h.types[1].rtti.rt.lock_word = A | 1;
    let fw = Forwarding { from: vec![A], to: vec![B] };
    let mut weak = WeakRefStack::new();
    scan_object_and_trace_edges(&mut h, &c, &fw, O, &mut weak);
    assert_eq!(h.types[1].rtti.rt.lock_word, B | 1);
}

#[test]
fn thin_lock_word_is_left_alone() {
    let fw = Forwarding { from: vec![0x1000], to: vec![0x2000] };
    assert_eq!(trace_lock_word(&fw, 0x1000), 0x1000);
    assert_eq!(trace_lock_word(&fw, 0x1001), 0x2001);
    assert_eq!(fw.trace_object(0x1000), 0x2000);
    assert_eq!(fw.trace_object(0x3000), 0x3000);
}

#[test]
fn weak_reference_to_unreachable_referent_is_cleared() {
    let c = consts();
    let holder = START + 0x300;
    let w = A;
    let r = B;
    let h0 = heap(
        vec![object(holder, PLAIN, vec![0, w, 0, 0]), object(w, WEAK, vec![0, r]), object(r, LEAF, vec![])],
        vec![true, true, false],
    );
    let mut h = h0;
    let mut edges = Vec::new();
    let mut weak = WeakRefStack::new();
    scan_object(&h, &c, holder, &mut edges, &mut weak);
    assert_eq!(weak.items, vec![w]);
    let mut binding = ScalaNativeBinding::new(consts());
    let mut pins = PinBits { bits: vec![false, false, false] };
    let fw = Forwarding { from: vec![], to: vec![] };
    let visited = VMScanning::process_weak_refs(&mut binding, &mut h, &mut pins, &c, &fw, &mut weak);
    assert!(visited);
    assert_eq!(h.objects[1].fields, vec![0, 0]);
    assert_eq!(h.objects[0].fields, vec![0, w, 0, 0]);
    assert!(weak_ref_stack_is_empty(&weak));
}

#[test]
fn weak_reference_to_reachable_referent_is_kept() {
    let c = consts();
    let mut h = heap(vec![object(A, WEAK, vec![0, B]), object(B, LEAF, vec![])], vec![true, true]);
    let mut weak = WeakRefStack::new();
    weak.push(A);
    let mut binding = ScalaNativeBinding::new(consts());
    let mut pins = PinBits { bits: vec![false, false] };
    let fw = Forwarding { from: vec![], to: vec![] };
    let visited = VMScanning::process_weak_refs(&mut binding, &mut h, &mut pins, &c, &fw, &mut weak);
    assert!(!visited);
    assert_eq!(h.objects[0].fields, vec![0, B]);
}

#[test]
fn null_referent_stays_null() {
    let c = consts();
    let mut h = heap(vec![object(A, WEAK, vec![0, 0]), object(B, LEAF, vec![])], vec![true, false]);
    let mut weak = WeakRefStack::new();
    weak.push(A);
    let mut binding = ScalaNativeBinding::new(consts());
    let mut pins = PinBits { bits: vec![false, false] };
    let fw = Forwarding { from: vec![], to: vec![] };
    let visited = VMScanning::process_weak_refs(&mut binding, &mut h, &mut pins, &c, &fw, &mut weak);
    assert!(!visited);
    assert_eq!(h.objects[0].fields, vec![0, 0]);
}

#[test]
fn weak_processing_with_empty_stack_changes_nothing() {
    let c = consts();
    let mut h = heap(vec![object(A, WEAK, vec![0, B]), object(B, LEAF, vec![])], vec![true, false]);
    let mut binding = ScalaNativeBinding::new(consts());
    let mut pins = PinBits { bits: vec![true, false] };
    let fw = Forwarding { from: vec![], to: vec![] };
    let mut weak = WeakRefStack::new();
    for _ in 0..2 {
        let visited = VMScanning::process_weak_refs(&mut binding, &mut h, &mut pins, &c, &fw, &mut weak);
        assert!(!visited);
        assert_eq!(h.objects[0].fields, vec![0, B]);
        assert_eq!(pins.bits, vec![true, false]);
    }
}

#[test]
fn conservative_scan_rejects_outside_and_unaligned_words() {
    let c = consts();
    let h = heap(vec![object(START, LEAF, vec![]), object(A, LEAF, vec![])], vec![false, false]);
    let mut pins = PinBits { bits: vec![false, false] };
    let mut pinned = Vec::new();
    let mut roots = RootsClosure::new(16);
    let mut weak = WeakRefStack::new();
    let words = vec![START - 8, START + 3, A + 8, A];
    mmtk_mark_range(&h, &c, &words, &mut pins, &mut pinned, &mut roots, &mut weak);
    assert_eq!(roots.buffer, vec![A]);
    assert_eq!(pins.bits, vec![false, true]);
    assert_eq!(pinned, vec![A]);
}

#[test]
fn conservative_roots_stay_pinned_until_weak_processing() {
    let c = consts();
    let mut h = heap(vec![object(O, LEAF, vec![]), object(A, LEAF, vec![])], vec![true, true]);
    let mut pins = PinBits { bits: vec![false, false] };
    let mut binding = ScalaNativeBinding::new(consts());
    let mut pinned = Vec::new();
    let mut roots = RootsClosure::new(16);
    let mut weak = WeakRefStack::new();
    let stack = vec![O, A, O];
    VMScanning::scan_roots_in_mutator_thread(&h, &c, &stack, &vec![], &mut pins, &mut pinned, &mut roots, &mut weak);
    assert_eq!(roots.buffer, vec![O, A, O]);
    assert_eq!(pins.bits, vec![true, true]);
    assert_eq!(pinned, vec![O, A]);
    binding.append_pinned_objects(&mut pinned);
    assert_eq!(binding.pinned_objects, vec![O, A]);
    let fw = Forwarding { from: vec![], to: vec![] };
    VMScanning::process_weak_refs(&mut binding, &mut h, &mut pins, &c, &fw, &mut weak);
    assert_eq!(pins.bits, vec![false, false]);
    assert!(binding.pinned_objects.is_empty());
}

#[test]
fn empty_stack_range_reports_no_roots() {
    let c = consts();
    let range = StackRange { stack_top: 0x7000, stack_bottom: 0x7000 };
    assert_eq!(range.word_count(), 0);
    assert_eq!(StackRange { stack_top: 0x7000, stack_bottom: 0x7040 }.word_count(), 8);
    let h = heap(vec![object(O, LEAF, vec![])], vec![false]);
    let mut pins = PinBits { bits: vec![false] };
    let mut pinned = Vec::new();
    let mut roots = RootsClosure::new(4);
    let mut weak = WeakRefStack::new();
    VMScanning::scan_roots_in_mutator_thread(&h, &c, &vec![], &vec![], &mut pins, &mut pinned, &mut roots, &mut weak);
    assert!(roots.buffer.is_empty() && roots.packets.is_empty());
}

#[test]
fn no_modules_no_roots() {
    let c = consts();
    let h = heap(vec![object(O, LEAF, vec![])], vec![false]);
    let mut pins = PinBits { bits: vec![false] };
    let mut pinned = Vec::new();
    let mut roots = RootsClosure::new(4);
    let mut weak = WeakRefStack::new();
    VMScanning::scan_vm_specific_roots(&h, &c, &vec![], &mut pins, &mut pinned, &mut roots, &mut weak);
    assert!(roots.buffer.is_empty() && roots.packets.is_empty());
    assert!(pinned.is_empty());
}

#[test]
fn module_slots_are_precise_roots() {
    let c = consts();
    let h = heap(vec![object(O, LEAF, vec![]), object(A, WEAK, vec![0, 0])], vec![false, false]);
    let mut pins = PinBits { bits: vec![false, false] };
    let mut pinned = Vec::new();
    let mut roots = RootsClosure::new(4);
    let mut weak = WeakRefStack::new();
    mmtk_mark_modules(&h, &c, &vec![0, A + 3, A, O], &mut pins, &mut pinned, &mut roots, &mut weak);
    assert_eq!(roots.buffer, vec![A, O]);
    assert_eq!(weak.items, vec![A]);
    assert_eq!(pinned, vec![A, O]);
}

#[test]
fn monitor_of_a_root_is_a_root() {
    let c = consts();
    let mut o = object(O, LEAF, vec![]);
    o.lock_word = A | 1;
    let h = heap(vec![o, object(A, LEAF, vec![])], vec![false, false]);
    let mut roots = RootsClosure::new(4);
    let mut weak = WeakRefStack::new();
    mmtk_mark_object(&h, &c, O, &mut roots, &mut weak);
    assert_eq!(roots.buffer, vec![A, O]);
}

#[test]
fn roots_are_batched_by_capacity() {
    let mut roots = RootsClosure::new(2);
    roots.do_work(1);
    roots.do_work(2);
    roots.do_work(3);
    assert_eq!(roots.packets, vec![vec![1, 2]]);
    assert_eq!(roots.buffer, vec![3]);
    roots.flush();
    assert_eq!(roots.packets, vec![vec![1, 2], vec![3]]);
    assert!(roots.buffer.is_empty());
    roots.flush();
    assert_eq!(roots.packets.len(), 2);
}

#[test]
fn dedup_keeps_first_occurrences() {
    assert_eq!(dedup_roots(&vec![5, 3, 5, 7, 3]), vec![5, 3, 7]);
    assert!(dedup_roots(&vec![]).is_empty());
}

#[test]
fn weak_stack_pops_last_pushed_first() {
    let mut s = WeakRefStack::new();
    assert!(weak_ref_stack_pop(&mut s).is_none());
    s.push(1);
    s.push(2);
    assert_eq!(weak_ref_stack_pop(&mut s).map(|p| p.0), Some(2));
    assert_eq!(weak_ref_stack_pop(&mut s).map(|p| p.0), Some(1));
    assert!(weak_ref_stack_is_empty(&s));
}

#[test]
fn edge_enqueuing_is_not_supported() {
    assert!(!VMScanning::support_edge_enqueuing());
}

#[test]
fn tracing_asks_about_monitors_and_followed_targets_only() {
    let c = consts();
    let m = START + 0x400;
    let mut o = object(O, WEAK, vec![A, B]);
    o.lock_word = m | 1;
    let h = heap(
        vec![o, object(A, LEAF, vec![]), object(B, LEAF, vec![]), object(m, LEAF, vec![])],
        vec![true, true, false, true],
    );
    assert_eq!(objects_to_trace(&h, &c, O), vec![m, A]);
    assert!(objects_to_trace(&h, &c, START + 0x900).is_empty());
}

#[test]
fn moved_weak_reference_is_pushed_at_its_new_address() {
    let c = consts();
    let moved = START + 0x900;
    let mut h = heap(
        vec![object(O, PLAIN, vec![0, A, 0, 0]), object(A, WEAK, vec![0, 0])],
        vec![true, true],
    );
    let fw = Forwarding { from: vec![A], to: vec![moved] };
    let mut weak = WeakRefStack::new();
    scan_object_and_trace_edges(&mut h, &c, &fw, O, &mut weak);
    assert_eq!(h.objects[0].fields, vec![0, moved, 0, 0]);
    assert_eq!(weak.items, vec![moved]);
}

#[test]
fn conservative_word_is_rounded_down() {
    let c = consts();
    let h = heap(vec![object(A, LEAF, vec![])], vec![false]);
    let mut roots = RootsClosure::new(4);
    let mut weak = WeakRefStack::new();
    mmtk_mark_conservative(&h, &c, A + 5, &mut roots, &mut weak);
    assert_eq!(roots.buffer, vec![A]);
    mmtk_mark_conservative(&h, &c, B + 5, &mut roots, &mut weak);
    assert_eq!(roots.buffer, vec![A]);
}

#[test]
fn snapshot_validity() {
    let c = consts();
    assert!(c.is_valid());
    let good = heap(vec![object(O, LEAF, vec![]), object(A, PLAIN, vec![0, 0, 0, 0])], vec![false, false]);
    assert!(good.is_well_formed(&c));
    let duplicate = heap(vec![object(O, LEAF, vec![]), object(O, LEAF, vec![])], vec![false, false]);
    assert!(!duplicate.is_well_formed(&c));
    let unaligned = heap(vec![object(O + 8, LEAF, vec![])], vec![false]);
    assert!(!unaligned.is_well_formed(&c));
    let untyped = heap(vec![object(O, 0x1234, vec![])], vec![false]);
    assert!(!untyped.is_well_formed(&c));
    let mut bad = consts();
    bad.allocation_alignment = 0;
    assert!(!bad.is_valid());
}
