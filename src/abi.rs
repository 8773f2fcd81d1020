//! Object layout of the client runtime: headers, type information, arrays and
//! inflated lock words.
use vstd::prelude::*;

verus! {

/// Bytes in one machine word.
pub const WORD_SIZE: usize = 8;

/// Bytes of the header of a plain object: the type pointer and the lock word.
pub const OBJECT_HEADER_SIZE: usize = 16;

/// Bytes of the header of an array: the object header, then `length` and `stride` (two `i32`).
pub const ARRAY_HEADER_SIZE: usize = 24;

/// The sentinel that ends a reference map.
pub const LAST_FIELD_OFFSET: i64 = -1;

/// The low bit of a lock word: set when the lock is inflated.
pub const MONITOR_INFLATION_MARK_MASK: usize = 1;

/// The bits of an inflated lock word that address the monitor object.
pub const MONITOR_OBJECT_MASK: usize = !1usize;

/// The constants that the runtime hands over once, at start-up.
pub struct VmConstants {
    pub array_ids_min: i32,
    pub array_ids_max: i32,
    pub weak_ref_ids_min: i32,
    pub weak_ref_ids_max: i32,
    /// Offset of the referent field, from the first field of a weak reference.
    pub weak_ref_field_offset: i32,
    /// Type id of arrays whose elements are references.
    pub object_array_id: i32,
    /// Alignment of every heap allocation, in bytes.
    pub allocation_alignment: usize,
}

impl VmConstants {
    pub open spec fn wf(&self) -> bool {
        &&& self.allocation_alignment > 0
        &&& self.weak_ref_field_offset >= 0
        &&& self.weak_ref_field_offset % 8 == 0
    }

    /// Whether the constants are usable: a positive alignment, and a
    /// non-negative, word-aligned referent offset.
    pub fn is_valid(&self) -> (r: bool)
        ensures
            r == self.wf(),
    {
        self.allocation_alignment > 0 && self.weak_ref_field_offset >= 0 && self.weak_ref_field_offset % 8 == 0
    }
}

/// `round_up(v, m)`: the least multiple of `m` that is at least `v`.
pub open spec fn round_up(v: int, m: int) -> int {
    (v + m - 1) / m * m
}

pub fn round_to_next_multiple(value: usize, multiple: usize) -> (r: usize)
    requires
        multiple > 0,
        value + multiple - 1 <= usize::MAX,
    ensures
        r == round_up(value as int, multiple as int),
{
    proof {
        let q = (value + multiple - 1) / multiple as int;
        assert(q * multiple <= value + multiple - 1) by (nonlinear_arith)
            requires q == (value + multiple - 1) / multiple as int, multiple > 0, value + multiple - 1 >= 0;
    }
    (value + (multiple - 1)) / multiple * multiple
}

/// The round-up of `v` to `m` is a multiple of `m`, at least `v`, and less than `v + m`.
pub proof fn lemma_round_up(v: int, m: int)
    requires
        v >= 0,
        m > 0,
    ensures
        round_up(v, m) % m == 0,
        v <= round_up(v, m) < v + m,
{
    let q = (v + m - 1) / m;
    let r = (v + m - 1) % m;
    assert(v + m - 1 == q * m + r && 0 <= r < m) by {
        vstd::arithmetic::div_mod::lemma_fundamental_div_mod(v + m - 1, m);
    }
    vstd::arithmetic::div_mod::lemma_mod_multiples_basic(q, m);
}

/// Part of the type information that the runtime shares with its compiler.
pub struct Runtime {
    pub cls: usize,
    pub lock_word: usize,
    pub id: i32,
    pub tid: i32,
    pub name: usize,
}

/// Run-time type information of a class.
pub struct Rtti {
    pub rt: Runtime,
    /// Bytes of a non-array instance, before alignment.
    pub size: i32,
    /// Inclusive upper bound of the ids of this class and its subclasses.
    pub id_range_until: i32,
    /// Byte offsets, from the first field, of the fields that hold references;
    /// ended by `LAST_FIELD_OFFSET`.
    pub ref_map: Vec<i64>,
}

/// Number of entries of a reference map before its sentinel (all of them when it has none).
pub open spec fn ref_map_len(m: Seq<i64>) -> nat
    decreases m.len(),
{
    if m.len() == 0 || m[0] == LAST_FIELD_OFFSET {
        0
    } else {
        1 + ref_map_len(m.subrange(1, m.len() as int))
    }
}

pub proof fn lemma_ref_map_len(m: Seq<i64>, i: int)
    requires
        0 <= i <= m.len(),
        forall|j: int| 0 <= j < i ==> m[j] != LAST_FIELD_OFFSET,
        i == m.len() || m[i] == LAST_FIELD_OFFSET,
    ensures
        ref_map_len(m) == i,
    decreases i,
{
    if i > 0 {
        let t = m.subrange(1, m.len() as int);
        assert forall|j: int| 0 <= j < i - 1 implies t[j] != LAST_FIELD_OFFSET by {
            assert(t[j] == m[j + 1]);
        }
        if i < m.len() {
            assert(t[i - 1] == m[i]);
        }
        lemma_ref_map_len(t, i - 1);
    }
}

/// The id range test shared by arrays and weak references.
pub open spec fn id_in(id: i32, lo: i32, hi: i32) -> bool {
    lo <= id && id <= hi
}

pub open spec fn is_array_id(id: i32, c: VmConstants) -> bool {
    id_in(id, c.array_ids_min, c.array_ids_max)
}

pub open spec fn is_weak_ref_id(id: i32, c: VmConstants) -> bool {
    id_in(id, c.weak_ref_ids_min, c.weak_ref_ids_max)
}

/// Whether a field at `offset` of an object of type id `id` is a weak referent.
pub open spec fn is_referent(id: i32, c: VmConstants, offset: int) -> bool {
    is_weak_ref_id(id, c) && offset == c.weak_ref_field_offset as int
}

/// Bytes that a plain object of this type occupies.
pub open spec fn plain_size(r: Rtti, c: VmConstants) -> int {
    round_up(r.size as int, c.allocation_alignment as int)
}

/// Bytes that an array occupies.
pub open spec fn array_size(length: i32, stride: i32, c: VmConstants) -> int {
    round_up(ARRAY_HEADER_SIZE + length * stride, c.allocation_alignment as int)
}

/// The length half of an array's length/stride word.
pub open spec fn low_i32(w: usize) -> i32 {
    (w & 0xffff_ffffusize) as u32 as i32
}

/// The stride half of an array's length/stride word.
pub open spec fn high_i32(w: usize) -> i32 {
    ((w as u64) >> 32u64) as u32 as i32
}

/// An object on the heap: its address, its two header words, and the words
/// that follow the header. For an array the first of those words holds the
/// length (low half) and the stride (high half), and the elements follow it.
pub struct Object {
    pub addr: usize,
    /// The header word that addresses the type information.
    pub rtti: usize,
    pub lock_word: usize,
    pub fields: Vec<usize>,
}

impl Object {
    pub open spec fn field_base(&self) -> int {
        self.addr + OBJECT_HEADER_SIZE
    }

    pub fn is_array(&self, rtti: &Rtti, c: &VmConstants) -> (r: bool)
        ensures
            r == is_array_id(rtti.rt.id, *c),
    {
        c.array_ids_min <= rtti.rt.id && rtti.rt.id <= c.array_ids_max
    }

    pub fn is_weak_reference(&self, rtti: &Rtti, c: &VmConstants) -> (r: bool)
        ensures
            r == is_weak_ref_id(rtti.rt.id, *c),
    {
        c.weak_ref_ids_min <= rtti.rt.id && rtti.rt.id <= c.weak_ref_ids_max
    }

    pub fn is_referant_of_weak_reference(&self, rtti: &Rtti, c: &VmConstants, field_offset: i32) -> (r: bool)
        ensures
            r == is_referent(rtti.rt.id, *c, field_offset as int),
    {
        self.is_weak_reference(rtti, c) && field_offset == c.weak_ref_field_offset
    }

    /// The array header of this object, read from its first words.
    pub fn as_array_object(&self) -> (r: ArrayHeader)
        requires
            self.fields.len() >= 1,
        ensures
            r.addr == self.addr,
            r.rtti == self.rtti,
            r.lock_word == self.lock_word,
            r.length == low_i32(self.fields@[0]),
            r.stride == high_i32(self.fields@[0]),
    {
        let w = self.fields[0];
        let lo: u32 = #[verifier::truncate] ((w & 0xffff_ffffusize) as u32);
        let hi: u32 = #[verifier::truncate] (((w as u64) >> 32u64) as u32);
        let length: i32 = #[verifier::truncate] (lo as i32);
        let stride: i32 = #[verifier::truncate] (hi as i32);
        ArrayHeader { addr: self.addr, rtti: self.rtti, lock_word: self.lock_word, length, stride }
    }

    /// Address of the first field, just past the header.
    pub fn get_fields(&self) -> (r: usize)
        requires
            self.addr + OBJECT_HEADER_SIZE <= usize::MAX,
        ensures
            r == self.field_base(),
    {
        self.addr + OBJECT_HEADER_SIZE
    }

    /// Address of the first field, just past the header.
    pub fn get_field_address(&self) -> (r: usize)
        requires
            self.addr + OBJECT_HEADER_SIZE <= usize::MAX,
        ensures
            r == self.field_base(),
    {
        self.get_fields()
    }

    /// Number of reference fields: the entries of the reference map before its sentinel.
    pub fn num_fields(&self, rtti: &Rtti) -> (r: usize)
        ensures
            r == ref_map_len(rtti.ref_map@),
            r <= rtti.ref_map@.len(),
    {
        let mut i: usize = 0;
        while i < rtti.ref_map.len() && rtti.ref_map[i] != LAST_FIELD_OFFSET
            invariant
                i <= rtti.ref_map@.len(),
                forall|j: int| 0 <= j < i ==> rtti.ref_map@[j] != LAST_FIELD_OFFSET,
            decreases rtti.ref_map@.len() - i,
        {
            i = i + 1;
        }
        proof {
            lemma_ref_map_len(rtti.ref_map@, i as int);
        }
        i
    }

    /// Bytes that this object occupies: for an array, the header and the
    /// elements; otherwise the size of its type; rounded up to the alignment.
    pub fn size(&self, rtti: &Rtti, c: &VmConstants) -> (r: usize)
        requires
            c.wf(),
            rtti.size >= 0,
            rtti.size + c.allocation_alignment - 1 <= usize::MAX,
            is_array_id(rtti.rt.id, *c) ==> self.fields.len() >= 1 && array_size_fits(
                low_i32(self.fields@[0]),
                high_i32(self.fields@[0]),
                *c,
            ),
        ensures
            is_array_id(rtti.rt.id, *c) ==> r == array_size(
                low_i32(self.fields@[0]),
                high_i32(self.fields@[0]),
                *c,
            ),
            !is_array_id(rtti.rt.id, *c) ==> r == plain_size(*rtti, *c),
            r % c.allocation_alignment == 0,
            is_array_id(rtti.rt.id, *c) || rtti.size > 0 ==> r > 0,
    {
        if self.is_array(rtti, c) {
            let a = self.as_array_object();
            proof {
                assert(0 <= a.length * a.stride) by (nonlinear_arith)
                    requires a.length >= 0, a.stride >= 0;
                lemma_round_up(ARRAY_HEADER_SIZE + a.length * a.stride, c.allocation_alignment as int);
            }
            a.size(c)
        } else {
            proof {
                lemma_round_up(rtti.size as int, c.allocation_alignment as int);
            }
            round_to_next_multiple(rtti.size as usize, c.allocation_alignment)
        }
    }
}

/// An array's length and stride are non-negative and its size is a machine word.
pub open spec fn array_size_fits(length: i32, stride: i32, c: VmConstants) -> bool {
    &&& length >= 0
    &&& stride >= 0
    &&& ARRAY_HEADER_SIZE + length * stride + c.allocation_alignment - 1 <= usize::MAX
}

/// The header of an array.
pub struct ArrayHeader {
    pub addr: usize,
    pub rtti: usize,
    pub lock_word: usize,
    pub length: i32,
    pub stride: i32,
}

impl ArrayHeader {
    /// Bytes that the array occupies: header and elements, rounded up to the alignment.
    pub fn size(&self, c: &VmConstants) -> (r: usize)
        requires
            c.wf(),
            array_size_fits(self.length, self.stride, *c),
        ensures
            r == array_size(self.length, self.stride, *c),
    {
        proof {
            assert(0 <= self.length * self.stride) by (nonlinear_arith)
                requires self.length >= 0, self.stride >= 0;
        }
        let payload = self.length as usize * self.stride as usize;
        round_to_next_multiple(ARRAY_HEADER_SIZE + payload, c.allocation_alignment)
    }

    /// Address of element `index`.
    pub fn get_element_address(&self, index: i32) -> (r: usize)
        requires
            index >= 0,
            self.stride >= 0,
            self.addr + ARRAY_HEADER_SIZE + index * self.stride <= usize::MAX,
        ensures
            r == self.addr + ARRAY_HEADER_SIZE + index * self.stride,
    {
        proof {
            assert(0 <= index * self.stride) by (nonlinear_arith)
                requires index >= 0, self.stride >= 0;
        }
        self.addr + ARRAY_HEADER_SIZE + (index as usize) * (self.stride as usize)
    }
}

/// An array of UTF-16 code units, as the runtime stores string contents.
pub struct CharArray {
    pub header: ArrayHeader,
    pub value: Vec<i16>,
}

impl CharArray {
    /// The low byte of each code unit, as the runtime prints class names.
    pub fn to_bytes(&self) -> (r: Vec<u8>)
        ensures
            r@.len() == self.value@.len(),
            forall|i: int| 0 <= i < r@.len() ==> r@[i] == self.value@[i] as u8,
    {
        let mut r: Vec<u8> = Vec::new();
        let mut i: usize = 0;
        while i < self.value.len()
            invariant
                i <= self.value@.len(),
                r@.len() == i,
                forall|j: int| 0 <= j < i ==> r@[j] == self.value@[j] as u8,
            decreases self.value@.len() - i,
        {
            let b: u8 = #[verifier::truncate] (self.value[i] as u8);
            r.push(b);
            i = i + 1;
        }
        r
    }
}

/// A string object of the runtime.
pub struct StringObject {
    pub rtti: usize,
    pub lock_word: usize,
    pub value: usize,
    pub offset: i32,
    pub count: i32,
    pub cached_hash_code: i32,
}

/// Whether a lock word is inflated: its low bit is set.
pub open spec fn is_inflated(field: usize) -> bool {
    field & MONITOR_INFLATION_MARK_MASK != 0
}

/// The monitor address of a lock word: its low bit cleared.
pub open spec fn aligned_lock_ref(field: usize) -> usize {
    field & MONITOR_OBJECT_MASK
}

/// The inflated lock word for a monitor: its low bit set.
pub open spec fn inflate_lock_ref(field: usize) -> usize {
    field | MONITOR_INFLATION_MARK_MASK
}

pub fn field_is_inflated_lock(field: usize) -> (r: bool)
    ensures
        r == is_inflated(field),
{
    (field & MONITOR_INFLATION_MARK_MASK) != 0
}

pub fn field_alligned_lock_ref(field: usize) -> (r: usize)
    ensures
        r == aligned_lock_ref(field),
{
    field & MONITOR_OBJECT_MASK
}

pub fn field_inflate_lock_ref(field: usize) -> (r: usize)
    ensures
        r == inflate_lock_ref(field),
{
    field | MONITOR_INFLATION_MARK_MASK
}

/// Inflating the monitor address of an inflated lock word gives the lock word
/// back, and the monitor address of an inflated even address is that address.
pub proof fn lemma_lock_word_round_trip(field: usize, monitor: usize)
    ensures
        is_inflated(field) ==> inflate_lock_ref(aligned_lock_ref(field)) == field,
        monitor & 1 == 0 ==> aligned_lock_ref(inflate_lock_ref(monitor)) == monitor,
        is_inflated(inflate_lock_ref(monitor)),
        !is_inflated(aligned_lock_ref(field)),
{
    assert(field & 1usize != 0 ==> ((field & !1usize) | 1usize) == field) by (bit_vector);
    assert(monitor & 1usize == 0 ==> ((monitor | 1usize) & !1usize) == monitor) by (bit_vector);
    assert((monitor | 1usize) & 1usize != 0) by (bit_vector);
    assert((field & !1usize) & 1usize == 0) by (bit_vector);
}

} // verus!
