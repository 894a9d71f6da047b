//! Just enough of the document format to find a top-level element by its
//! name and to read its value where that is a string, a number or a truth
//! value. Documents are never built, and never decoded as a whole.
//!
//! An element is a type byte, a zero-terminated name and a value whose
//! length follows from the type. A zero byte where a type byte is expected
//! closes the document. Every function here is total: what does not fit the
//! format is not found.

use vstd::prelude::*;
use vstd::slice::{slice_subrange, slice_to_vec};
use crate::wire::{le_i32, le_i64, read_i32_le, read_i64_le};

verus! {

/// A name that may be there, as a value.
pub open spec fn name_view(name: Option<Vec<u8>>) -> Option<Seq<u8>> {
    match name {
        Some(v) => Some(v@),
        None => None,
    }
}

/// Position of the first zero byte of `s` at or behind `start`, or `s.len()`
/// where there is none.
pub open spec fn nul_from(s: Seq<u8>, start: int) -> int
    decreases s.len() - start,
{
    if start >= s.len() {
        s.len() as int
    } else if s[start] == 0 {
        start
    } else {
        nul_from(s, start + 1)
    }
}

/// The zero-terminated string that starts at `start`, without its
/// terminator; `None` where `start` lies outside `s` or no zero byte follows.
pub open spec fn cstring_at(s: Seq<u8>, start: int) -> Option<Seq<u8>> {
    if 0 <= start < s.len() && nul_from(s, start) < s.len() {
        Some(s.subrange(start, nul_from(s, start)))
    } else {
        None
    }
}

/// An element stands at `e`: a type byte that is not zero, and behind it a
/// name that ends within the payload.
pub open spec fn element_at(payload: Seq<u8>, e: int) -> bool {
    0 <= e < payload.len() && payload[e] != 0 && nul_from(payload, e + 1) < payload.len()
}

/// The name of the element at `e`.
pub open spec fn name_at(payload: Seq<u8>, e: int) -> Seq<u8> {
    payload.subrange(e + 1, nul_from(payload, e + 1))
}

/// Where the value of the element at `e` starts: behind the name's
/// terminator.
pub open spec fn value_at(payload: Seq<u8>, e: int) -> int {
    nul_from(payload, e + 1) + 1
}

/// `n` bytes from `at` on lie within the payload.
pub open spec fn has_bytes_at(payload: Seq<u8>, at: int, n: int) -> bool {
    0 <= at && at + n <= payload.len()
}

/// How many bytes the value of an element of type `t` takes, where the value
/// starts at `at`. The fixed-size types take what the format gives them; the
/// others tell their length themselves, or end with a zero byte. `None` for
/// a type that the format does not know, and where a length is missing or
/// makes no sense.
pub open spec fn value_len(payload: Seq<u8>, t: u8, at: int) -> Option<int> {
    let n = le_i32(payload, at);
    if t == 0x01 || t == 0x09 || t == 0x11 || t == 0x12 {
        Some(8)
    } else if t == 0x02 || t == 0x0d || t == 0x0e {
        if has_bytes_at(payload, at, 4) && n >= 1 {
            Some(4 + n)
        } else {
            None
        }
    } else if t == 0x03 || t == 0x04 || t == 0x0f {
        if has_bytes_at(payload, at, 4) && n >= 4 {
            Some(n)
        } else {
            None
        }
    } else if t == 0x05 {
        if has_bytes_at(payload, at, 4) && n >= 0 {
            Some(5 + n)
        } else {
            None
        }
    } else if t == 0x06 || t == 0x0a || t == 0x7f || t == 0xff {
        Some(0)
    } else if t == 0x07 {
        Some(12)
    } else if t == 0x08 {
        Some(1)
    } else if t == 0x0b {
        let first = nul_from(payload, at);
        let second = nul_from(payload, first + 1);
        if 0 <= at && first < payload.len() && second < payload.len() {
            Some(second + 1 - at)
        } else {
            None
        }
    } else if t == 0x0c {
        if has_bytes_at(payload, at, 4) && n >= 1 {
            Some(16 + n)
        } else {
            None
        }
    } else if t == 0x10 {
        Some(4)
    } else if t == 0x13 {
        Some(16)
    } else {
        None
    }
}

/// Where the first element called `name` stands, looked for from the
/// element at `e` on. The search goes from element to element by the length
/// of each value and ends at the zero byte that closes the document, at the
/// end of the payload, or at an element that cannot be skipped.
pub open spec fn element_named(payload: Seq<u8>, name: Seq<u8>, e: int) -> Option<int>
    decreases payload.len() - e,
    via element_named_ends
{
    if !element_at(payload, e) {
        None
    } else if name_at(payload, e) == name {
        Some(e)
    } else {
        match value_len(payload, payload[e], value_at(payload, e)) {
            Some(n) => if n >= 0 && value_at(payload, e) + n <= payload.len() {
                element_named(payload, name, value_at(payload, e) + n)
            } else {
                None
            },
            None => None,
        }
    }
}

#[via_fn]
proof fn element_named_ends(payload: Seq<u8>, name: Seq<u8>, e: int) {
    if 0 <= e < payload.len() {
        lemma_nul_from(payload, e + 1);
    }
}

/// The string that the element at `e` holds: its length, terminator
/// counted, then its bytes. `None` where no element stands at `e`, where it
/// holds no string, and where the string is malformed.
pub open spec fn string_value(payload: Seq<u8>, e: int) -> Option<Seq<u8>> {
    let at = value_at(payload, e);
    let len = le_i32(payload, at);
    if element_at(payload, e) && payload[e] == 0x02 && has_bytes_at(payload, at, 4) && len >= 1
        && at + 4 + len <= payload.len() && payload[at + 4 + len - 1] == 0 {
        Some(payload.subrange(at + 4, at + 4 + len - 1))
    } else {
        None
    }
}

/// The whole number that the element at `e` holds, of 32 or of 64 bits.
pub open spec fn number_value(payload: Seq<u8>, e: int) -> Option<i64> {
    let at = value_at(payload, e);
    if element_at(payload, e) && payload[e] == 0x10 && has_bytes_at(payload, at, 4) {
        Some(le_i32(payload, at) as i64)
    } else if element_at(payload, e) && payload[e] == 0x12 && has_bytes_at(payload, at, 8) {
        Some(le_i64(payload, at) as i64)
    } else {
        None
    }
}

/// The eight bytes at `at` spell a floating-point number other than zero:
/// some bit besides the sign is set.
pub open spec fn double_is_nonzero(payload: Seq<u8>, at: int) -> bool {
    payload[at] != 0 || payload[at + 1] != 0 || payload[at + 2] != 0 || payload[at + 3] != 0
        || payload[at + 4] != 0 || payload[at + 5] != 0 || payload[at + 6] != 0 || payload[at
        + 7] % 128 != 0
}

/// The truth that the element at `e` holds: a boolean as it is, a number
/// where it is not zero.
pub open spec fn truth_value(payload: Seq<u8>, e: int) -> Option<bool> {
    let at = value_at(payload, e);
    if !element_at(payload, e) {
        None
    } else if payload[e] == 0x08 && has_bytes_at(payload, at, 1) {
        Some(payload[at] != 0)
    } else if payload[e] == 0x10 && has_bytes_at(payload, at, 4) {
        Some(le_i32(payload, at) != 0)
    } else if payload[e] == 0x12 && has_bytes_at(payload, at, 8) {
        Some(le_i64(payload, at) != 0)
    } else if payload[e] == 0x01 && has_bytes_at(payload, at, 8) {
        Some(double_is_nonzero(payload, at))
    } else {
        None
    }
}

/// Where the elements of the document start that the element at `e` holds:
/// behind the four bytes of that document's length.
pub open spec fn nested_elements(payload: Seq<u8>, e: int) -> Option<int> {
    let at = value_at(payload, e);
    if element_at(payload, e) && payload[e] == 0x03 && has_bytes_at(payload, at, 4) {
        Some(at + 4)
    } else {
        None
    }
}

/// `nul_from` is the least position of a zero byte from `start` on.
pub proof fn lemma_nul_from(s: Seq<u8>, start: int)
    requires
        0 <= start <= s.len(),
    ensures
        start <= nul_from(s, start) <= s.len(),
        nul_from(s, start) < s.len() ==> s[nul_from(s, start)] == 0,
        forall|j: int| start <= j < nul_from(s, start) ==> s[j] != 0,
    decreases s.len() - start,
{
    if start < s.len() && s[start] != 0 {
        lemma_nul_from(s, start + 1);
    }
}

/// A position from which no zero byte stands before `end`, where one stands
/// or the bytes end, has `end` as its `nul_from`.
proof fn lemma_nul_from_unique(s: Seq<u8>, start: int, end: int)
    requires
        0 <= start <= end <= s.len(),
        forall|j: int| start <= j < end ==> s[j] != 0,
        end < s.len() ==> s[end] == 0,
    ensures
        nul_from(s, start) == end,
    decreases end - start,
{
    if start < end {
        lemma_nul_from_unique(s, start + 1, end);
    }
}

/// Position of the first zero byte at or behind `start`, or the length.
pub(crate) fn find_nul(bytes: &[u8], start: usize) -> (end: usize)
    requires
        start <= bytes@.len(),
    ensures
        end == nul_from(bytes@, start as int),
        start <= end <= bytes@.len(),
{
    let mut i: usize = start;
    while i < bytes.len() && bytes[i] != 0
        invariant
            start <= i <= bytes@.len(),
            forall|j: int| start <= j < i ==> bytes@[j] != 0,
        decreases bytes@.len() - i,
    {
        i += 1;
    }
    proof {
        lemma_nul_from_unique(bytes@, start as int, i as int);
    }
    i
}

/// Reads the zero-terminated string that starts at `start`.
pub fn read_cstring(bytes: &[u8], start: usize) -> (name: Option<Vec<u8>>)
    ensures
        name_view(name) == cstring_at(bytes@, start as int),
{
    if start >= bytes.len() {
        return None;
    }
    let end = find_nul(bytes, start);
    if end < bytes.len() {
        Some(slice_to_vec(slice_subrange(bytes, start, end)))
    } else {
        None
    }
}

/// Whether two slices hold the same bytes.
fn bytes_equal(a: &[u8], b: &[u8]) -> (same: bool)
    ensures
        same == (a@ == b@),
{
    if a.len() != b.len() {
        return false;
    }
    let mut i: usize = 0;
    while i < a.len()
        invariant
            a@.len() == b@.len(),
            i <= a@.len(),
            forall|j: int| 0 <= j < i ==> a@[j] == b@[j],
        decreases a@.len() - i,
    {
        if a[i] != b[i] {
            return false;
        }
        i += 1;
    }
    assert(a@ =~= b@);
    true
}

/// Where the value of the element at `e` starts, if an element stands there.
fn find_value(payload: &[u8], e: usize) -> (at: Option<usize>)
    ensures
        at is Some <==> element_at(payload@, e as int),
        at is Some ==> at->Some_0 == value_at(payload@, e as int) && at->Some_0
            <= payload@.len() && e + 2 <= at->Some_0,
{
    if e >= payload.len() || payload[e] == 0 {
        return None;
    }
    let end = find_nul(payload, e + 1);
    if end >= payload.len() {
        None
    } else {
        Some(end + 1)
    }
}

/// Reads the length field at `at`, where four bytes are there and they spell
/// at least `least`.
fn read_length(payload: &[u8], at: usize, least: i32) -> (n: Option<usize>)
    requires
        at <= payload@.len(),
        least >= 0,
    ensures
        n is Some <==> has_bytes_at(payload@, at as int, 4) && le_i32(payload@, at as int)
            >= least,
        n is Some ==> n->Some_0 == le_i32(payload@, at as int),
        n is Some ==> n->Some_0 <= i32::MAX,
{
    if payload.len() - at < 4 {
        return None;
    }
    let n = read_i32_le(payload, at);
    if n < least {
        None
    } else {
        Some(n as usize)
    }
}

/// How many bytes the value of an element of type `t` takes.
fn skip_len(payload: &[u8], t: u8, at: usize) -> (n: Option<usize>)
    requires
        at <= payload@.len(),
    ensures
        n is Some <==> value_len(payload@, t, at as int) is Some,
        n is Some ==> n->Some_0 == value_len(payload@, t, at as int)->Some_0,
{
    if t == 0x01 || t == 0x09 || t == 0x11 || t == 0x12 {
        Some(8)
    } else if t == 0x02 || t == 0x0d || t == 0x0e {
        match read_length(payload, at, 1) {
            Some(n) => Some(4 + n),
            None => None,
        }
    } else if t == 0x03 || t == 0x04 || t == 0x0f {
        read_length(payload, at, 4)
    } else if t == 0x05 {
        match read_length(payload, at, 0) {
            Some(n) => Some(5 + n),
            None => None,
        }
    } else if t == 0x06 || t == 0x0a || t == 0x7f || t == 0xff {
        Some(0)
    } else if t == 0x07 {
        Some(12)
    } else if t == 0x08 {
        Some(1)
    } else if t == 0x0b {
        let first = find_nul(payload, at);
        if first >= payload.len() {
            return None;
        }
        let second = find_nul(payload, first + 1);
        if second >= payload.len() {
            return None;
        }
        Some(second + 1 - at)
    } else if t == 0x0c {
        match read_length(payload, at, 1) {
            Some(n) => Some(16 + n),
            None => None,
        }
    } else if t == 0x10 {
        Some(4)
    } else if t == 0x13 {
        Some(16)
    } else {
        None
    }
}

/// Looks, from the element at `from` on, for the first element called
/// `name`.
pub fn find_element(payload: &[u8], name: &[u8], from: usize) -> (found: Option<usize>)
    ensures
        found is Some <==> element_named(payload@, name@, from as int) is Some,
        found is Some ==> found->Some_0 == element_named(payload@, name@, from as int)->Some_0,
        found is Some ==> element_at(payload@, found->Some_0 as int),
{
    let mut e: usize = from;
    loop
        invariant
            element_named(payload@, name@, e as int) == element_named(
                payload@,
                name@,
                from as int,
            ),
        decreases payload@.len() - e,
    {
        let at = match find_value(payload, e) {
            Some(at) => at,
            None => {
                return None;
            },
        };
        if bytes_equal(slice_subrange(payload, e + 1, at - 1), name) {
            return Some(e);
        }
        let n = match skip_len(payload, payload[e], at) {
            Some(n) => n,
            None => {
                return None;
            },
        };
        if payload.len() - at < n {
            return None;
        }
        e = at + n;
    }
}

/// Reads the name of the element at `e`.
pub fn read_name(payload: &[u8], e: usize) -> (name: Option<Vec<u8>>)
    ensures
        name_view(name) == (if element_at(payload@, e as int) {
            Some(name_at(payload@, e as int))
        } else {
            None::<Seq<u8>>
        }),
{
    match find_value(payload, e) {
        Some(at) => Some(slice_to_vec(slice_subrange(payload, e + 1, at - 1))),
        None => None,
    }
}

/// Reads the string that the element at `e` holds.
pub fn read_string(payload: &[u8], e: usize) -> (value: Option<Vec<u8>>)
    ensures
        name_view(value) == string_value(payload@, e as int),
{
    let at = match find_value(payload, e) {
        Some(at) => at,
        None => {
            return None;
        },
    };
    if payload[e] != 0x02 {
        return None;
    }
    let n = match read_length(payload, at, 1) {
        Some(n) => n,
        None => {
            return None;
        },
    };
    if payload.len() - at - 4 < n {
        return None;
    }
    if payload[at + 4 + n - 1] != 0 {
        return None;
    }
    Some(slice_to_vec(slice_subrange(payload, at + 4, at + 4 + n - 1)))
}

/// Reads the whole number that the element at `e` holds.
pub fn read_number(payload: &[u8], e: usize) -> (value: Option<i64>)
    ensures
        value == number_value(payload@, e as int),
{
    let at = match find_value(payload, e) {
        Some(at) => at,
        None => {
            return None;
        },
    };
    let t = payload[e];
    let room = payload.len() - at;
    if t == 0x10 && room >= 4 {
        Some(read_i32_le(payload, at) as i64)
    } else if t == 0x12 && room >= 8 {
        Some(read_i64_le(payload, at))
    } else {
        None
    }
}

/// Reads the truth that the element at `e` holds.
pub fn read_truth(payload: &[u8], e: usize) -> (value: Option<bool>)
    ensures
        value == truth_value(payload@, e as int),
{
    let at = match find_value(payload, e) {
        Some(at) => at,
        None => {
            return None;
        },
    };
    let t = payload[e];
    let room = payload.len() - at;
    if t == 0x08 && room >= 1 {
        Some(payload[at] != 0)
    } else if t == 0x10 && room >= 4 {
        Some(read_i32_le(payload, at) != 0)
    } else if t == 0x12 && room >= 8 {
        Some(read_i64_le(payload, at) != 0)
    } else if t == 0x01 && room >= 8 {
        Some(
            payload[at] != 0 || payload[at + 1] != 0 || payload[at + 2] != 0 || payload[at + 3]
                != 0 || payload[at + 4] != 0 || payload[at + 5] != 0 || payload[at + 6] != 0
                || payload[at + 7] % 128 != 0,
        )
    } else {
        None
    }
}

/// Where the elements of the document start that the element at `e` holds.
pub fn find_nested(payload: &[u8], e: usize) -> (start: Option<usize>)
    ensures
        start is Some <==> nested_elements(payload@, e as int) is Some,
        start is Some ==> start->Some_0 == nested_elements(payload@, e as int)->Some_0,
{
    let at = match find_value(payload, e) {
        Some(at) => at,
        None => {
            return None;
        },
    };
    if payload[e] == 0x03 && payload.len() - at >= 4 {
        Some(at + 4)
    } else {
        None
    }
}

} // verus!
