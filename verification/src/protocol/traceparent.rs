//! The W3C trace context `traceparent`: four fields of lowercase hexadecimal
//! digits, joined by hyphens.
//!
//! ```text
//! version "-" trace-id "-" parent-id "-" trace-flags
//!    2            32           16             2
//! ```

use vstd::prelude::*;
use vstd::utf8::*;

use crate::text;

verus! {

/// Why a text is not a `traceparent`.
#[derive(Debug, Clone, Copy, PartialEq, Eq, Structural)]
pub enum TraceParentError {
    /// The text is not 55 bytes long.
    InvalidLength {
        /// How long it is.
        got: usize,
    },
    /// A hyphen is missing or in the wrong place.
    InvalidStructure,
    /// A field holds something other than `0`-`9` and `a`-`f`.
    InvalidHex,
    /// The version is `ff`, which is reserved.
    ForbiddenVersion,
    /// The trace id is all zeros.
    InvalidTraceId,
    /// The parent id is all zeros.
    InvalidParentId,
}

/// The four fields of a `traceparent`, as parts of the text.
#[derive(Debug, Clone, Copy, PartialEq, Eq)]
pub struct TraceParentParts<'a> {
    pub version: &'a str,
    pub trace_id: &'a str,
    pub parent_id: &'a str,
    pub trace_flags: &'a str,
}

/// A lowercase hexadecimal digit.
pub open spec fn is_hex_byte(b: u8) -> bool {
    0x30 <= b <= 0x39 || 0x61 <= b <= 0x66
}

/// All bytes are lowercase hexadecimal digits.
pub open spec fn all_hex(s: Seq<u8>) -> bool {
    forall|i: int| 0 <= i < s.len() ==> is_hex_byte(#[trigger] s[i])
}

/// All bytes are the digit zero.
pub open spec fn all_zero(s: Seq<u8>) -> bool {
    forall|i: int| 0 <= i < s.len() ==> #[trigger] s[i] == 0x30
}

/// What is wrong with the bytes of a would-be `traceparent`, if anything is.
/// The checks come in the order that the errors are listed in.
pub open spec fn traceparent_fault(b: Seq<u8>) -> Option<TraceParentError> {
    if b.len() != 55 {
        Some(TraceParentError::InvalidLength { got: b.len() as usize })
    } else if b[2] != 0x2d || b[35] != 0x2d || b[52] != 0x2d {
        Some(TraceParentError::InvalidStructure)
    } else if !all_hex(b.subrange(0, 2)) || !all_hex(b.subrange(3, 35)) || !all_hex(
        b.subrange(36, 52),
    ) || !all_hex(b.subrange(53, 55)) {
        Some(TraceParentError::InvalidHex)
    } else if b[0] == 0x66 && b[1] == 0x66 {
        Some(TraceParentError::ForbiddenVersion)
    } else if all_zero(b.subrange(3, 35)) {
        Some(TraceParentError::InvalidTraceId)
    } else if all_zero(b.subrange(36, 52)) {
        Some(TraceParentError::InvalidParentId)
    } else {
        None
    }
}

/// Whether a text is a valid `traceparent`.
pub open spec fn valid_traceparent(s: Seq<char>) -> bool {
    traceparent_fault(encode_utf8(s)) is None
}

/// Whether all bytes of a text are lowercase hexadecimal digits.
pub fn is_lowercase_hex(s: &str) -> (r: bool)
    ensures
        r == all_hex(encode_utf8(s@)),
{
    let b = s.as_bytes();
    let mut i: usize = 0;
    while i < b.len()
        invariant
            i <= b@.len(),
            forall|k: int| 0 <= k < i ==> is_hex_byte(#[trigger] b@[k]),
            b@ == encode_utf8(s@),
        decreases b@.len() - i,
    {
        let c: u8 = b[i];
        if !((0x30 <= c && c <= 0x39) || (0x61 <= c && c <= 0x66)) {
            assert(!is_hex_byte(b@[i as int]));
            return false;
        }
        i = i + 1;
    }
    true
}

/// Whether all bytes of a text are the digit zero.
pub fn is_all_zero(s: &str) -> (r: bool)
    ensures
        r == all_zero(encode_utf8(s@)),
{
    let b = s.as_bytes();
    let mut i: usize = 0;
    while i < b.len()
        invariant
            i <= b@.len(),
            forall|k: int| 0 <= k < i ==> #[trigger] b@[k] == 0x30,
            b@ == encode_utf8(s@),
        decreases b@.len() - i,
    {
        if b[i] != 0x30 {
            assert(b@[i as int] != 0x30);
            return false;
        }
        i = i + 1;
    }
    true
}

/// The text between two bytes of an ASCII character each, or the ends.
fn field_at(s: &str, from: usize, to: usize) -> (r: &str)
    requires
        from <= to <= encode_utf8(s@).len(),
        is_char_boundary(encode_utf8(s@), from as int),
        is_char_boundary(encode_utf8(s@), to as int),
    ensures
        encode_utf8(r@) == encode_utf8(s@).subrange(from as int, to as int),
{
    let ghost b = encode_utf8(s@);
    proof {
        encode_utf8_valid_utf8(s@);
    }
    let (head, _) = s.split_at(to);
    let ghost h = encode_utf8(head@);
    proof {
        encode_utf8_valid_utf8(head@);
        assert(h == b.subrange(0, to as int));
        lemma_boundary_in_prefix(b, from as int, to as int);
    }
    let (_, field) = head.split_at(from);
    assert(encode_utf8(field@) =~= b.subrange(from as int, to as int));
    field
}

/// A character boundary stays one in a prefix that ends behind it.
proof fn lemma_boundary_in_prefix(b: Seq<u8>, from: int, to: int)
    requires
        valid_utf8(b),
        0 <= from <= to <= b.len(),
        is_char_boundary(b, from),
        is_char_boundary(b, to),
    ensures
        is_char_boundary(b.subrange(0, to), from),
{
    let p = b.subrange(0, to);
    valid_utf8_split(b, to);
    is_char_boundary_start_end_of_seq(p);
    if 0 < from < to {
        is_char_boundary_iff_not_is_continuation_byte(b, from);
        is_char_boundary_iff_not_is_continuation_byte(p, from);
    }
}

/// The bytes of a valid text on both sides of an ASCII byte are texts.
proof fn lemma_ascii_boundary(b: Seq<u8>, i: int)
    requires
        valid_utf8(b),
        0 <= i < b.len(),
        b[i] < 0x80,
    ensures
        is_char_boundary(b, i),
        is_char_boundary(b, i + 1),
{
    is_char_boundary_start_end_of_seq(b);
    if i > 0 {
        is_char_boundary_iff_not_is_continuation_byte(b, i);
    }
    valid_utf8_split(b, i);
    let rest = b.subrange(i, b.len() as int);
    assert(rest[0] == b[i]);
    assert(valid_first_scalar(rest));
    if i + 1 < b.len() {
        is_char_boundary_start_end_of_seq(rest);
        is_char_boundary_iff_not_is_continuation_byte(b, i + 1);
        let after = pop_first_scalar(rest);
        assert(after =~= rest.subrange(1, rest.len() as int));
        assert(valid_utf8(after));
        assert(after[0] == b[i + 1]);
        assert(valid_first_scalar(after));
    }
}

/// Splits a `traceparent` into its four fields.
pub fn parse_traceparent(s: &str) -> (r: Result<TraceParentParts<'_>, TraceParentError>)
    ensures
        match r {
            Ok(parts) => traceparent_fault(encode_utf8(s@)) is None && encode_utf8(parts.version@)
                == encode_utf8(s@).subrange(0, 2) && encode_utf8(parts.trace_id@) == encode_utf8(
                s@,
            ).subrange(3, 35) && encode_utf8(parts.parent_id@) == encode_utf8(s@).subrange(36, 52)
                && encode_utf8(parts.trace_flags@) == encode_utf8(s@).subrange(53, 55),
            Err(e) => traceparent_fault(encode_utf8(s@)) == Some(e),
        },
{
    let bytes = s.as_bytes();
    let ghost b = bytes@;
    if bytes.len() != 55 {
        return Err(TraceParentError::InvalidLength { got: bytes.len() });
    }
    if bytes[2] != 0x2d || bytes[35] != 0x2d || bytes[52] != 0x2d {
        return Err(TraceParentError::InvalidStructure);
    }
    proof {
        encode_utf8_valid_utf8(s@);
        is_char_boundary_start_end_of_seq(b);
        lemma_ascii_boundary(b, 2);
        lemma_ascii_boundary(b, 35);
        lemma_ascii_boundary(b, 52);
    }
    let version = field_at(s, 0, 2);
    let trace_id = field_at(s, 3, 35);
    let parent_id = field_at(s, 36, 52);
    let trace_flags = field_at(s, 53, 55);
    if !is_lowercase_hex(version) || !is_lowercase_hex(trace_id) || !is_lowercase_hex(parent_id)
        || !is_lowercase_hex(trace_flags) {
        return Err(TraceParentError::InvalidHex);
    }
    if bytes[0] == 0x66 && bytes[1] == 0x66 {
        return Err(TraceParentError::ForbiddenVersion);
    }
    if is_all_zero(trace_id) {
        return Err(TraceParentError::InvalidTraceId);
    }
    if is_all_zero(parent_id) {
        return Err(TraceParentError::InvalidParentId);
    }
    Ok(TraceParentParts { version, trace_id, parent_id, trace_flags })
}

/// Whether a text is a valid `traceparent`.
pub fn is_valid_traceparent(s: &str) -> (r: bool)
    ensures
        r == valid_traceparent(s@),
{
    parse_traceparent(s).is_ok()
}

/// The bytes of the `traceparent` with these fields, in version 0.
pub open spec fn formatted(trace_id: u128, parent_id: u64, trace_flags: u8) -> Seq<u8> {
    seq![0x30u8, 0x30u8, 0x2du8] + text::digits(trace_id as int, 16, 32) + seq![0x2du8]
        + text::digits(parent_id as int, 16, 16) + seq![0x2du8] + text::digits(
        trace_flags as int,
        16,
        2,
    )
}

/// Hexadecimal digits are lowercase, and all zero only for zero.
proof fn lemma_hex_digits(n: int, width: nat)
    requires
        0 <= n,
    ensures
        text::digits(n, 16, width).len() == width,
        all_hex(text::digits(n, 16, width)),
        n < text::capacity(16, width) && n != 0 ==> !all_zero(text::digits(n, 16, width)),
    decreases width,
{
    if width > 0 {
        lemma_hex_digits(n / 16, (width - 1) as nat);
        let d = text::digits(n, 16, width);
        let front = text::digits(n / 16, 16, (width - 1) as nat);
        assert(d =~= front.push(text::digit(n % 16)));
        assert(is_hex_byte(text::digit(n % 16)));
        assert(forall|i: int| 0 <= i < front.len() ==> d[i] == front[i]);
        if n != 0 && n < text::capacity(16, width) {
            if n % 16 != 0 {
                assert(d[width - 1] != 0x30);
            } else {
                assert(n / 16 != 0);
                let k = choose|k: int| 0 <= k < front.len() && #[trigger] front[k] != 0x30;
                assert(d[k] != 0x30);
            }
        }
    }
}

/// Every `traceparent` that can be built is valid, and its fields spell the
/// numbers that it was built from.
pub proof fn law_formatted_is_valid(trace_id: u128, parent_id: u64, trace_flags: u8)
    requires
        trace_id != 0,
        parent_id != 0,
    ensures
        traceparent_fault(formatted(trace_id, parent_id, trace_flags)) is None,
        text::digits_value(
            formatted(trace_id, parent_id, trace_flags).subrange(3, 35),
            16,
        ) == trace_id,
        text::digits_value(
            formatted(trace_id, parent_id, trace_flags).subrange(36, 52),
            16,
        ) == parent_id,
        text::digits_value(
            formatted(trace_id, parent_id, trace_flags).subrange(53, 55),
            16,
        ) == trace_flags,
{
    let b = formatted(trace_id, parent_id, trace_flags);
    reveal_with_fuel(text::capacity, 33);
    lemma_hex_digits(trace_id as int, 32);
    lemma_hex_digits(parent_id as int, 16);
    lemma_hex_digits(trace_flags as int, 2);
    text::lemma_digits_value(trace_id as int, 16, 32);
    text::lemma_digits_value(parent_id as int, 16, 16);
    text::lemma_digits_value(trace_flags as int, 16, 2);
    assert(b.subrange(3, 35) =~= text::digits(trace_id as int, 16, 32));
    assert(b.subrange(36, 52) =~= text::digits(parent_id as int, 16, 16));
    assert(b.subrange(53, 55) =~= text::digits(trace_flags as int, 16, 2));
    assert(b.subrange(0, 2) =~= seq![0x30u8, 0x30u8]);
}

/// Builds a `traceparent` in version 0. There is none with a trace id or a
/// parent id of zero.
pub fn format_traceparent(trace_id: u128, parent_id: u64, trace_flags: u8) -> (r: Option<String>)
    ensures
        match r {
            Some(s) => trace_id != 0 && parent_id != 0 && encode_utf8(s@) == formatted(
                trace_id,
                parent_id,
                trace_flags,
            ) && valid_traceparent(s@),
            None => trace_id == 0 || parent_id == 0,
        },
{
    if trace_id == 0 || parent_id == 0 {
        return None;
    }
    let mut b: Vec<u8> = Vec::new();
    b.push(0x30);
    b.push(0x30);
    b.push(0x2d);
    let mut trace = text::hex_digits(trace_id, 32);
    b.append(&mut trace);
    b.push(0x2d);
    let mut parent = text::hex_digits(parent_id as u128, 16);
    b.append(&mut parent);
    b.push(0x2d);
    let mut flags = text::hex_digits(trace_flags as u128, 2);
    b.append(&mut flags);
    proof {
        assert(b@ =~= formatted(trace_id, parent_id, trace_flags));
        text::lemma_digits_ascii(trace_id as int, 16, 32);
        text::lemma_digits_ascii(parent_id as int, 16, 16);
        text::lemma_digits_ascii(trace_flags as int, 16, 2);
        law_formatted_is_valid(trace_id, parent_id, trace_flags);
        assert(text::all_ascii(b@));
        text::lemma_ascii(b@);
    }
    Some(text::ascii_string(b))
}

/// The number that lowercase hexadecimal digits spell.
pub open spec fn hex_number(b: Seq<u8>) -> int
    decreases b.len(),
{
    if b.len() == 0 {
        0
    } else {
        hex_number(b.drop_last()) * 16 + (if b.last() <= 0x39 {
            b.last() - 0x30
        } else {
            b.last() - 0x57
        })
    }
}

/// Both ways to read digits agree.
proof fn lemma_hex_number(b: Seq<u8>)
    ensures
        hex_number(b) == text::digits_value(b, 16),
    decreases b.len(),
{
    if b.len() > 0 {
        lemma_hex_number(b.drop_last());
    }
}

/// What is put into a `traceparent` is what is found in it: it is split into version
/// `00`, and fields of 32, 16 and 2 digits that spell the numbers that it was built
/// from.
pub proof fn law_fields_are_found(
    trace_id: u128,
    parent_id: u64,
    trace_flags: u8,
    made: String,
    s: &str,
    r: Result<TraceParentParts<'_>, TraceParentError>,
)
    requires
        call_ensures(format_traceparent, (trace_id, parent_id, trace_flags), Some(made)),
        s@ == made@,
        call_ensures(parse_traceparent, (s,), r),
    ensures
        r matches Ok(parts) && encode_utf8(parts.version@) == seq![0x30u8, 0x30u8] && encode_utf8(
            parts.trace_id@,
        ).len() == 32 && hex_number(encode_utf8(parts.trace_id@)) == trace_id && encode_utf8(
            parts.parent_id@,
        ).len() == 16 && hex_number(encode_utf8(parts.parent_id@)) == parent_id && encode_utf8(
            parts.trace_flags@,
        ).len() == 2 && hex_number(encode_utf8(parts.trace_flags@)) == trace_flags,
{
    let b = formatted(trace_id, parent_id, trace_flags);
    law_formatted_is_valid(trace_id, parent_id, trace_flags);
    lemma_hex_digits(trace_id as int, 32);
    lemma_hex_digits(parent_id as int, 16);
    lemma_hex_digits(trace_flags as int, 2);
    assert(b.len() == 55);
    assert(b.subrange(0, 2) =~= seq![0x30u8, 0x30u8]);
    lemma_hex_number(b.subrange(3, 35));
    lemma_hex_number(b.subrange(36, 52));
    lemma_hex_number(b.subrange(53, 55));
}

/// There is no `traceparent` with a trace id or a parent id of zero, and one for all
/// other numbers.
pub proof fn law_zero_ids_have_none(
    trace_id: u128,
    parent_id: u64,
    trace_flags: u8,
    r: Option<String>,
)
    requires
        call_ensures(format_traceparent, (trace_id, parent_id, trace_flags), r),
    ensures
        r is None <==> trace_id == 0 || parent_id == 0,
{
}

} // verus!
