//! Text that describes an object or an array, for diagnostics: its address,
//! its class name, its header words, and its references.
use vstd::prelude::*;
use vstd::string::*;
use crate::abi::{
    array_size, array_size_fits, ref_map_len, ArrayHeader, CharArray, Object, Rtti, VmConstants,
    OBJECT_HEADER_SIZE,
};
use crate::heap::WORD;

verus! {

/// Relies on `String::push`: appends one character.
#[verifier::external_body]
fn push_char(s: &mut String, c: char)
    ensures
        final(s)@ == old(s)@.push(c),
{
    s.push(c)
}

pub open spec fn digit_char(d: int) -> char {
    if d == 0 { '0' } else if d == 1 { '1' } else if d == 2 { '2' } else if d == 3 { '3' }
    else if d == 4 { '4' } else if d == 5 { '5' } else if d == 6 { '6' } else if d == 7 { '7' }
    else if d == 8 { '8' } else if d == 9 { '9' } else if d == 10 { 'a' } else if d == 11 { 'b' }
    else if d == 12 { 'c' } else if d == 13 { 'd' } else if d == 14 { 'e' } else { 'f' }
}

fn digit(d: usize) -> (r: char)
    requires
        d < 16,
    ensures
        r == digit_char(d as int),
{
    if d == 0 { '0' } else if d == 1 { '1' } else if d == 2 { '2' } else if d == 3 { '3' }
    else if d == 4 { '4' } else if d == 5 { '5' } else if d == 6 { '6' } else if d == 7 { '7' }
    else if d == 8 { '8' } else if d == 9 { '9' } else if d == 10 { 'a' } else if d == 11 { 'b' }
    else if d == 12 { 'c' } else if d == 13 { 'd' } else if d == 14 { 'e' } else { 'f' }
}

/// The hex digits of `n`, most significant first.
pub open spec fn hex_digits(n: nat) -> Seq<char>
    decreases n,
{
    if n < 16 {
        seq![digit_char(n as int)]
    } else {
        hex_digits(n / 16).push(digit_char((n % 16) as int))
    }
}

/// The decimal digits of `n`, most significant first.
pub open spec fn dec_digits(n: nat) -> Seq<char>
    decreases n,
{
    if n < 10 {
        seq![digit_char(n as int)]
    } else {
        dec_digits(n / 10).push(digit_char((n % 10) as int))
    }
}

fn push_hex(s: &mut String, n: usize)
    ensures
        final(s)@ == old(s)@ + hex_digits(n as nat),
    decreases n,
{
    if n >= 16 {
        push_hex(s, n / 16);
    }
    push_char(s, digit(n % 16));
    assert(s@ =~= old(s)@ + hex_digits(n as nat));
}

fn push_dec(s: &mut String, n: usize)
    ensures
        final(s)@ == old(s)@ + dec_digits(n as nat),
    decreases n,
{
    if n >= 10 {
        push_dec(s, n / 10);
    }
    push_char(s, digit(n % 10));
    assert(s@ =~= old(s)@ + dec_digits(n as nat));
}

/// An address as `{:p}` shows it: `0x` and its hex digits.
pub open spec fn ptr_text(n: usize) -> Seq<char> {
    seq!['0', 'x'] + hex_digits(n as nat)
}

fn push_ptr(s: &mut String, n: usize)
    ensures
        final(s)@ == old(s)@ + ptr_text(n),
{
    proof {
        reveal_strlit("0x");
    }
    s.append("0x");
    push_hex(s, n);
    assert(s@ =~= old(s)@ + ptr_text(n));
}

/// The characters of a name: the low byte of each code unit.
pub open spec fn name_text(v: Seq<i16>) -> Seq<char> {
    Seq::new(v.len(), |i: int| (v[i] as u8) as char)
}

fn push_name(s: &mut String, name: &CharArray)
    ensures
        final(s)@ == old(s)@ + name_text(name.value@),
{
    let ghost s0 = s@;
    let mut i: usize = 0;
    while i < name.value.len()
        invariant
            i <= name.value@.len(),
            s@ == s0 + name_text(name.value@).subrange(0, i as int),
        decreases name.value@.len() - i,
    {
        let b: u8 = #[verifier::truncate] (name.value[i] as u8);
        push_char(s, b as char);
        i = i + 1;
        assert(s@ =~= s0 + name_text(name.value@).subrange(0, i as int));
    }
    assert(name_text(name.value@).subrange(0, i as int) =~= name_text(name.value@));
}

/// `", "` before every item but the first.
pub open spec fn sep(k: int) -> Seq<char> {
    if k > 0 { seq![',', ' '] } else { Seq::empty() }
}

/// One entry of the reference map: `edge->target` for a slot of the object, `?` otherwise.
pub open spec fn field_text(o: Object, off: i64) -> Seq<char> {
    if off >= 0 && off % 8 == 0 && off / 8 < o.fields@.len() {
        ptr_text((o.addr + OBJECT_HEADER_SIZE + off) as usize) + seq!['-', '>'] + ptr_text(o.fields@[off / 8])
    } else {
        seq!['?']
    }
}

pub open spec fn fields_text(o: Object, r: Rtti, n: nat) -> Seq<char>
    decreases n,
{
    if n == 0 {
        Seq::empty()
    } else {
        fields_text(o, r, (n - 1) as nat) + sep(n - 1) + field_text(o, r.ref_map@[n - 1])
    }
}

/// The description of a plain object.
pub open spec fn object_text(o: Object, r: Rtti, name: Seq<i16>) -> Seq<char> {
    "Object(0x"@ + hex_digits(o.addr as nat) + "), name: ["@ + name_text(name) + "]"@ + ", rtti: "@
        + ptr_text(o.rtti) + ", lock_word: "@ + ptr_text(o.lock_word) + ", fields: ["@
        + fields_text(o, r, ref_map_len(r.ref_map@)) + "]"@
}

pub open spec fn elements_text(elements: Seq<usize>, n: nat) -> Seq<char>
    decreases n,
{
    if n == 0 {
        Seq::empty()
    } else {
        elements_text(elements, (n - 1) as nat) + sep(n - 1) + ptr_text(elements[n - 1])
    }
}

/// Elements that the description of an array shows: its length, as far as the words go.
pub open spec fn shown_elements(length: i32, available: nat) -> nat {
    if length <= 0 {
        0
    } else if length < available {
        length as nat
    } else {
        available
    }
}

/// The description of an array.
pub open spec fn array_text(a: ArrayHeader, c: VmConstants, name: Seq<i16>, elements: Seq<usize>) -> Seq<char> {
    "ArrayHeader(0x"@ + hex_digits(a.addr as nat) + "), name: ["@ + name_text(name) + "]"@ + ", size: "@
        + dec_digits(array_size(a.length, a.stride, c) as nat) + " bytes"@ + ", elements: ["@
        + elements_text(elements, shown_elements(a.length, elements.len())) + "]"@
}

impl Object {
    /// Describes the object: address, class name, header words, and each
    /// reference field as `slot->target`.
    pub fn describe(&self, rtti: &Rtti, name: &CharArray) -> (r: String)
        requires
            self.addr + OBJECT_HEADER_SIZE + WORD * self.fields@.len() <= usize::MAX,
        ensures
            r@ == object_text(*self, *rtti, name.value@),
    {
        proof {
            reveal_strlit("Object(0x");
            reveal_strlit("), name: [");
            reveal_strlit("]");
            reveal_strlit(", rtti: ");
            reveal_strlit(", lock_word: ");
            reveal_strlit(", fields: [");
        }
        let mut s = String::from_str("Object(0x");
        push_hex(&mut s, self.addr);
        s.append("), name: [");
        push_name(&mut s, name);
        s.append("]");
        s.append(", rtti: ");
        push_ptr(&mut s, self.rtti);
        s.append(", lock_word: ");
        push_ptr(&mut s, self.lock_word);
        s.append(", fields: [");
        let ghost head = s@;
        let n = self.num_fields(rtti);
        let mut k: usize = 0;
        while k < n
            invariant
                n == ref_map_len(rtti.ref_map@),
                n <= rtti.ref_map@.len(),
                k <= n,
                self.addr + OBJECT_HEADER_SIZE + WORD * self.fields@.len() <= usize::MAX,
                s@ == head + fields_text(*self, *rtti, k as nat),
            decreases n - k,
        {
            if k > 0 {
                s.append(", ");
                proof { reveal_strlit(", "); }
            }
            let off = rtti.ref_map[k];
            if off >= 0 && off % 8 == 0 && ((off / 8) as u64) < (self.fields.len() as u64) {
                let slot = (off / 8) as usize;
                proof {
                    assert(self.addr + OBJECT_HEADER_SIZE + WORD * slot <= usize::MAX) by (nonlinear_arith)
                        requires
                            self.addr + OBJECT_HEADER_SIZE + WORD * self.fields@.len() <= usize::MAX,
                            slot < self.fields@.len(),
                            WORD == 8,
                    ;
                }
                push_ptr(&mut s, self.addr + OBJECT_HEADER_SIZE + WORD * slot);
                s.append("->");
                proof { reveal_strlit("->"); }
                push_ptr(&mut s, self.fields[slot]);
            } else {
                s.append("?");
                proof { reveal_strlit("?"); }
            }
            k = k + 1;
            assert(s@ =~= head + fields_text(*self, *rtti, k as nat));
        }
        s.append("]");
        assert(s@ =~= object_text(*self, *rtti, name.value@));
        s
    }
}

impl ArrayHeader {
    /// Describes the array: address, class name, size, and its elements.
    pub fn describe(&self, c: &VmConstants, name: &CharArray, elements: &Vec<usize>) -> (r: String)
        requires
            c.wf(),
            array_size_fits(self.length, self.stride, *c),
        ensures
            r@ == array_text(*self, *c, name.value@, elements@),
    {
        proof {
            reveal_strlit("ArrayHeader(0x");
            reveal_strlit("), name: [");
            reveal_strlit("]");
            reveal_strlit(", size: ");
            reveal_strlit(" bytes");
            reveal_strlit(", elements: [");
        }
        let mut s = String::from_str("ArrayHeader(0x");
        push_hex(&mut s, self.addr);
        s.append("), name: [");
        push_name(&mut s, name);
        s.append("]");
        s.append(", size: ");
        push_dec(&mut s, self.size(c));
        s.append(" bytes");
        s.append(", elements: [");
        let ghost head = s@;
        let n: usize = if self.length <= 0 {
            0
        } else if (self.length as usize) < elements.len() {
            self.length as usize
        } else {
            elements.len()
        };
        let mut i: usize = 0;
        while i < n
            invariant
                n == shown_elements(self.length, elements@.len()),
                n <= elements@.len(),
                i <= n,
                s@ == head + elements_text(elements@, i as nat),
            decreases n - i,
        {
            if i > 0 {
                s.append(", ");
                proof { reveal_strlit(", "); }
            }
            push_ptr(&mut s, elements[i]);
            i = i + 1;
            assert(s@ =~= head + elements_text(elements@, i as nat));
        }
        s.append("]");
        assert(s@ =~= array_text(*self, *c, name.value@, elements@));
        s
    }
}

} // verus!
