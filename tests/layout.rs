use scalanative_mmtk::abi::{
    field_alligned_lock_ref, field_inflate_lock_ref, field_is_inflated_lock, round_to_next_multiple,
    ArrayHeader, CharArray, Object, Rtti, Runtime, VmConstants,
};
use scalanative_mmtk::api::{heap_trigger, needs_large_object_space, HeapTrigger};
use scalanative_mmtk::framework::admits_object;
use scalanative_mmtk::heap::{align_ptr, is_ptr_aligned, is_word_in_heap, Heap, TypeEntry};
use scalanative_mmtk::object_model::VMObjectModel;

const START: usize = 0x10000;
const END: usize = 0x20000;

fn consts() -> VmConstants {
    VmConstants {
        array_ids_min: 10,
        array_ids_max: 19,
        weak_ref_ids_min: 30,
        weak_ref_ids_max: 31,
        weak_ref_field_offset: 8,
        object_array_id: 10,
        allocation_alignment: 16,
    }
}

fn rtti(id: i32, size: i32, ref_map: Vec<i64>) -> Rtti {
    Rtti {
        rt: Runtime { cls: 0, lock_word: 0, id, tid: 0, name: 0 },
        size,
        id_range_until: id,
        ref_map,
    }
}

fn object(addr: usize, rtti: usize, fields: Vec<usize>) -> Object {
    Object { addr, rtti, lock_word: 0, fields }
}

fn array_word(length: u32, stride: u32) -> usize {
    (length as usize) | ((stride as usize) << 32)
}

#[test]
fn round_up_to_alignment() {
    assert_eq!(round_to_next_multiple(17, 16), 32);
    assert_eq!(round_to_next_multiple(32, 16), 32);
    assert_eq!(round_to_next_multiple(0, 8), 0);
    assert_eq!(round_to_next_multiple(1, 64), 64);
}

#[test]
fn lock_word_bits() {
    assert!(field_is_inflated_lock(0x1001));
    assert!(!field_is_inflated_lock(0x1000));
    assert_eq!(field_alligned_lock_ref(0x1001), 0x1000);
    assert_eq!(field_inflate_lock_ref(0x1000), 0x1001);
    assert_eq!(field_alligned_lock_ref(field_inflate_lock_ref(0x2340)), 0x2340);
}

#[test]
fn array_header_size_and_elements() {
    let c = consts();
    let a = ArrayHeader { addr: 0x1000, rtti: 0x500, lock_word: 0, length: 3, stride: 8 };
    assert_eq!(a.size(&c), 48);
    assert_eq!(a.get_element_address(0), 0x1000 + 24);
    assert_eq!(a.get_element_address(2), 0x1000 + 24 + 16);
    let b = ArrayHeader { addr: 0x1000, rtti: 0x500, lock_word: 0, length: 5, stride: 2 };
    assert_eq!(b.size(&c), 48);
}

#[test]
fn empty_array_occupies_its_header() {
    let c = consts();
    let a = ArrayHeader { addr: 0x1000, rtti: 0x500, lock_word: 0, length: 0, stride: 8 };
    assert_eq!(a.size(&c), 32);
    let o = object(0x1000, 0x500, vec![array_word(0, 8)]);
    let r = rtti(10, 24, vec![-1]);
    assert_eq!(o.size(&r, &c), 32);
    let header = o.as_array_object();
    assert_eq!(header.length, 0);
    assert_eq!(header.stride, 8);
}

#[test]
fn num_fields_stops_at_sentinel() {
    let o = object(0x1000, 0x500, vec![0, 0, 0, 0, 0, 0]);
    assert_eq!(o.num_fields(&rtti(1, 48, vec![8, 24, -1, 40])), 2);
    assert_eq!(o.num_fields(&rtti(1, 48, vec![-1])), 0);
    assert_eq!(o.num_fields(&rtti(1, 48, vec![])), 0);
    assert_eq!(o.num_fields(&rtti(1, 48, vec![0, 16])), 2);
}

#[test]
fn field_base_is_past_the_header() {
    let o = object(0x1000, 0x500, vec![]);
    assert_eq!(o.get_fields(), 0x1010);
    assert_eq!(o.get_field_address(), 0x1010);
}

#[test]
fn type_tests_by_id_range() {
    let c = consts();
    let o = object(0x1000, 0x500, vec![0]);
    assert!(o.is_array(&rtti(10, 24, vec![-1]), &c));
    assert!(o.is_array(&rtti(19, 24, vec![-1]), &c));
    assert!(!o.is_array(&rtti(20, 24, vec![-1]), &c));
    assert!(o.is_weak_reference(&rtti(30, 24, vec![-1]), &c));
    assert!(!o.is_weak_reference(&rtti(29, 24, vec![-1]), &c));
    assert!(o.is_referant_of_weak_reference(&rtti(31, 24, vec![-1]), &c, 8));
    assert!(!o.is_referant_of_weak_reference(&rtti(31, 24, vec![-1]), &c, 16));
    assert!(!o.is_referant_of_weak_reference(&rtti(1, 24, vec![-1]), &c, 8));
}

#[test]
fn object_sizes_plain_and_array() {
    let c = consts();
    let types = vec![
        TypeEntry { addr: 0x500, rtti: rtti(1, 40, vec![-1]) },
        TypeEntry { addr: 0x600, rtti: rtti(12, 24, vec![-1]) },
    ];
    let objects = vec![
        object(START, 0x500, vec![0, 0, 0]),
        object(START + 0x100, 0x600, vec![array_word(4, 4), 0, 0]),
    ];
    let h = Heap { start: START, end: END, types, objects, marked: vec![false, false] };
    assert_eq!(VMObjectModel::get_current_size(&h, &c, START), 48);
    assert_eq!(VMObjectModel::get_size_when_copied(&h, &c, START + 0x100), 48);
    assert_eq!(VMObjectModel::get_align_when_copied(), 8);
    assert_eq!(VMObjectModel::get_align_offset_when_copied(), 0);
    assert_eq!(VMObjectModel::ref_to_address(START), START);
    assert_eq!(VMObjectModel::address_to_ref(START), START);
}

#[test]
fn heap_bounds_are_half_open() {
    let h = Heap { start: START, end: END, types: vec![], objects: vec![], marked: vec![] };
    assert!(is_word_in_heap(&h, START));
    assert!(is_word_in_heap(&h, END - 1));
    assert!(!is_word_in_heap(&h, END));
    assert!(!is_word_in_heap(&h, START - 8));
}

#[test]
fn alignment_down_is_idempotent() {
    let c = consts();
    assert_eq!(align_ptr(0x1237, &c), 0x1230);
    assert_eq!(align_ptr(align_ptr(0x1237, &c), &c), 0x1230);
    assert!(is_ptr_aligned(0x1230, &c));
    assert!(!is_ptr_aligned(0x1233, &c));
    assert!(is_ptr_aligned(align_ptr(0x1233, &c), &c));
}

#[test]
fn char_array_low_bytes() {
    let a = CharArray {
        header: ArrayHeader { addr: 0, rtti: 0, lock_word: 0, length: 3, stride: 2 },
        value: vec![0x41, 0x142, 0x43],
    };
    assert_eq!(a.to_bytes(), vec![0x41u8, 0x42, 0x43]);
}

#[test]
fn copy_reads_the_type_through_the_aligned_header() {
    let c = consts();
    let types = vec![
        TypeEntry { addr: 0x500, rtti: rtti(1, 40, vec![-1]) },
        TypeEntry { addr: 0x600, rtti: rtti(12, 24, vec![-1]) },
    ];
    let objects = vec![
        object(START, 0x500 | 3, vec![0, 0, 0]),
        object(START + 0x100, 0x600 | 2, vec![array_word(10, 8), 0]),
    ];
    let h = Heap { start: START, end: END, types, objects, marked: vec![false, false] };
    assert!(!h.is_array_for_copy(&c, START));
    assert!(h.is_array_for_copy(&c, START + 0x100));
    assert_eq!(h.size_for_copy(&c, START), 48);
    assert_eq!(h.size_for_copy(&c, START + 0x100), 112);
    assert!(!h.is_array_for_copy(&c, START + 0x200));
}

#[test]
fn heap_trigger_fixed_or_dynamic() {
    assert_eq!(heap_trigger(64, 64), HeapTrigger::Fixed(64));
    assert_eq!(heap_trigger(32, 64), HeapTrigger::Dynamic(32, 64));
}

#[test]
fn large_allocations_go_to_large_object_space() {
    assert!(needs_large_object_space(8192, 8192));
    assert!(needs_large_object_space(9000, 8192));
    assert!(!needs_large_object_space(8191, 8192));
}

#[test]
fn words_outside_the_heap_or_unaligned_are_not_objects() {
    assert!(!admits_object(START, END, START - 8));
    assert!(!admits_object(START, END, START + 3));
    assert!(!admits_object(START, END, END));
}

fn name(text: &str) -> CharArray {
    CharArray {
        header: ArrayHeader { addr: 0, rtti: 0, lock_word: 0, length: text.len() as i32, stride: 2 },
        value: text.bytes().map(|b| b as i16).collect(),
    }
}

#[test]
fn object_description_lists_reference_fields() {
    let o = object(0x10000, 0x500, vec![0, 0x10100, 0, 0x10200]);
    let r = rtti(1, 48, vec![8, 24, -1]);
    assert_eq!(
        o.describe(&r, &name("Foo")),
        "Object(0x10000), name: [Foo], rtti: 0x500, lock_word: 0x0, fields: [0x10018->0x10100, 0x10028->0x10200]"
    );
    let bad = rtti(1, 48, vec![4, -1]);
    assert_eq!(
        o.describe(&bad, &name("")),
        "Object(0x10000), name: [], rtti: 0x500, lock_word: 0x0, fields: [?]"
    );
}

#[test]
fn array_description_lists_elements() {
    let c = consts();
    let a = ArrayHeader { addr: 0x10000, rtti: 0x600, lock_word: 0, length: 2, stride: 8 };
    assert_eq!(
        a.describe(&c, &name("Arr"), &vec![0x10100, 0, 7]),
        "ArrayHeader(0x10000), name: [Arr], size: 48 bytes, elements: [0x10100, 0x0]"
    );
    let empty = ArrayHeader { addr: 0xff0, rtti: 0x600, lock_word: 0, length: 0, stride: 8 };
    assert_eq!(
        empty.describe(&c, &name("E"), &vec![]),
        "ArrayHeader(0xff0), name: [E], size: 32 bytes, elements: []"
    );
}
