//! Single CBOR data items: what each looks like as bytes, and how it is read
//! and written.
//!
//! The reading and writing itself is done by `minicbor`. Every function of
//! this module that calls into that crate carries a contract over the spec
//! functions below, which state the item formats of RFC 8949.

use vstd::prelude::*;
use vstd::utf8::*;

verus! {

/// What the next byte of the input announces, as far as the codec cares.
#[derive(Debug, Clone, Copy, PartialEq, Eq, Structural)]
pub enum Lead {
    /// The item `null`.
    Null,
    /// The break that ends an array of indefinite length.
    Break,
    /// Anything else.
    Other,
}

/// The error of `minicbor`'s decoder.
#[verifier::external_type_specification]
#[verifier::external_body]
pub struct ExDecodeError(minicbor::decode::Error);

/// The two bytes of `n`, most significant first.
pub open spec fn be2(n: int) -> Seq<u8> {
    seq![(n / 256) as u8, (n % 256) as u8]
}

/// The four bytes of `n`, most significant first.
pub open spec fn be4(n: int) -> Seq<u8> {
    be2(n / 0x1_0000) + be2(n % 0x1_0000)
}

/// The eight bytes of `n`, most significant first.
pub open spec fn be8(n: int) -> Seq<u8> {
    be4(n / 0x1_0000_0000) + be4(n % 0x1_0000_0000)
}

/// The number that the two bytes at `i` spell.
pub open spec fn be2_at(s: Seq<u8>, i: int) -> int {
    s[i] * 256 + s[i + 1]
}

/// The number that the four bytes at `i` spell.
pub open spec fn be4_at(s: Seq<u8>, i: int) -> int {
    be2_at(s, i) * 0x1_0000 + be2_at(s, i + 2)
}

/// The number that the eight bytes at `i` spell.
pub open spec fn be8_at(s: Seq<u8>, i: int) -> int {
    be4_at(s, i) * 0x1_0000_0000 + be4_at(s, i + 4)
}

/// The head of an item: its major type in the three high bits, and `n` in the
/// shortest form.
#[verifier::opaque]
pub open spec fn head(major: int, n: int) -> Seq<u8> {
    if n <= 23 {
        seq![(major * 32 + n) as u8]
    } else if n <= 0xff {
        seq![(major * 32 + 24) as u8, n as u8]
    } else if n <= 0xffff {
        seq![(major * 32 + 25) as u8] + be2(n)
    } else if n <= 0xffff_ffff {
        seq![(major * 32 + 26) as u8] + be4(n)
    } else {
        seq![(major * 32 + 27) as u8] + be8(n)
    }
}

/// The argument of the head at `pos` and the position behind the head. There
/// is none where the input ends too early, or for the reserved and the
/// indefinite forms.
#[verifier::opaque]
pub open spec fn argument(input: Seq<u8>, pos: int) -> Option<(int, int)> {
    if !(0 <= pos < input.len()) {
        None
    } else {
        let info = input[pos] % 32;
        if info <= 23 {
            Some((info as int, pos + 1))
        } else if info == 24 && pos + 2 <= input.len() {
            Some((input[pos + 1] as int, pos + 2))
        } else if info == 25 && pos + 3 <= input.len() {
            Some((be2_at(input, pos + 1), pos + 3))
        } else if info == 26 && pos + 5 <= input.len() {
            Some((be4_at(input, pos + 1), pos + 5))
        } else if info == 27 && pos + 9 <= input.len() {
            Some((be8_at(input, pos + 1), pos + 9))
        } else {
            None
        }
    }
}

/// The major type of the item at `pos`, where there is an item.
pub open spec fn has_major(input: Seq<u8>, pos: int, major: int) -> bool {
    0 <= pos < input.len() && input[pos] / 32 == major
}

/// The unsigned integer at `pos` and the position behind it.
pub open spec fn uint_item(input: Seq<u8>, pos: int) -> Option<(int, int)> {
    if has_major(input, pos, 0) {
        argument(input, pos)
    } else {
        None
    }
}

/// The integer at `pos`, of either sign, and the position behind it; none
/// where the number does not fit in 64 bits with a sign.
pub open spec fn int_item(input: Seq<u8>, pos: int) -> Option<(int, int)> {
    match argument(input, pos) {
        Some((n, end)) if n <= i64::MAX && has_major(input, pos, 0) => Some((n, end)),
        Some((n, end)) if n <= i64::MAX && has_major(input, pos, 1) => Some((-1 - n, end)),
        _ => None,
    }
}

/// The text of definite length at `pos` and the position behind it.
pub open spec fn text_item(input: Seq<u8>, pos: int) -> Option<(Seq<char>, int)> {
    match argument(input, pos) {
        Some((n, start)) if has_major(input, pos, 3) && start + n <= input.len()
            && valid_utf8(input.subrange(start, start + n)) => Some(
            (decode_utf8(input.subrange(start, start + n)), start + n),
        ),
        _ => None,
    }
}

/// The array head at `pos`: how many items follow (`None` for an array that a
/// break ends), and the position behind the head.
pub open spec fn array_item(input: Seq<u8>, pos: int) -> Option<(Option<int>, int)> {
    if !has_major(input, pos, 4) {
        None
    } else if input[pos] == 0x9f {
        Some((None, pos + 1))
    } else {
        match argument(input, pos) {
            Some((n, end)) => Some((Some(n), end)),
            None => None,
        }
    }
}

/// What the byte at `pos` announces. A negative integer with an argument of
/// its own is told apart by its second byte, so that byte has to be there.
pub open spec fn lead_at(input: Seq<u8>, pos: int) -> Option<Lead> {
    if !(0 <= pos < input.len()) {
        None
    } else if 0x38 <= input[pos] <= 0x3b && pos + 1 >= input.len() {
        None
    } else if input[pos] == 0xf6 {
        Some(Lead::Null)
    } else if input[pos] == 0xff {
        Some(Lead::Break)
    } else {
        Some(Lead::Other)
    }
}

/// The position behind the whole item at `pos`, nested items and all, as
/// `minicbor::Decoder::skip` finds it; `None` where that fails.
pub uninterp spec fn item_end(input: Seq<u8>, pos: int) -> Option<int>;

/// The bytes of an integer of either sign.
pub open spec fn int_bytes(n: int) -> Seq<u8> {
    if n >= 0 {
        head(0, n)
    } else {
        head(1, -1 - n)
    }
}

/// The bytes of a text.
pub open spec fn text_bytes(s: Seq<char>) -> Seq<u8> {
    head(3, encode_utf8(s).len() as int) + encode_utf8(s)
}

/// `minicbor::Decoder::u64` at `pos`: succeeds exactly on an unsigned integer,
/// in any of its five lengths, and moves behind it.
#[verifier::external_body]
pub(crate) fn read_uint(input: &[u8], pos: usize) -> (r: Result<
    (u64, usize),
    minicbor::decode::Error,
>)
    ensures
        match r {
            Ok((n, end)) => uint_item(input@, pos as int) == Some((n as int, end as int)),
            Err(_) => uint_item(input@, pos as int) is None,
        },
{
    let mut d = minicbor::Decoder::new(input);
    d.set_position(pos);
    let n = d.u64()?;
    Ok((n, d.position()))
}

/// `minicbor::Decoder::i64` at `pos`: succeeds exactly on an integer that an
/// `i64` holds, and moves behind it.
#[verifier::external_body]
pub(crate) fn read_int(input: &[u8], pos: usize) -> (r: Result<
    (i64, usize),
    minicbor::decode::Error,
>)
    ensures
        match r {
            Ok((n, end)) => int_item(input@, pos as int) == Some((n as int, end as int)),
            Err(_) => int_item(input@, pos as int) is None,
        },
{
    let mut d = minicbor::Decoder::new(input);
    d.set_position(pos);
    let n = d.i64()?;
    Ok((n, d.position()))
}

/// `minicbor::Decoder::str` at `pos`: succeeds exactly on a text of definite
/// length that is valid UTF-8, and moves behind it.
#[verifier::external_body]
pub(crate) fn read_text(input: &[u8], pos: usize) -> (r: Result<
    (String, usize),
    minicbor::decode::Error,
>)
    ensures
        match r {
            Ok((s, end)) => text_item(input@, pos as int) == Some((s@, end as int)),
            Err(_) => text_item(input@, pos as int) is None,
        },
{
    let mut d = minicbor::Decoder::new(input);
    d.set_position(pos);
    let s = d.str()?;
    Ok((s.to_owned(), d.position()))
}

/// `minicbor::Decoder::array` at `pos`: succeeds exactly on the head of an
/// array, and tells its length unless a break ends it.
#[verifier::external_body]
pub(crate) fn read_array(input: &[u8], pos: usize) -> (r: Result<
    (Option<u64>, usize),
    minicbor::decode::Error,
>)
    ensures
        match r {
            Ok((Some(n), end)) => array_item(input@, pos as int) == Some(
                (Some(n as int), end as int),
            ),
            Ok((None, end)) => array_item(input@, pos as int) == Some((None::<int>, end as int)),
            Err(_) => array_item(input@, pos as int) is None,
        },
{
    let mut d = minicbor::Decoder::new(input);
    d.set_position(pos);
    let n = d.array()?;
    Ok((n, d.position()))
}

/// `minicbor::Decoder::datatype` at `pos`: tells `null` and the break from all
/// other items without moving.
#[verifier::external_body]
pub(crate) fn read_lead(input: &[u8], pos: usize) -> (r: Result<Lead, minicbor::decode::Error>)
    ensures
        match r {
            Ok(lead) => lead_at(input@, pos as int) == Some(lead),
            Err(_) => lead_at(input@, pos as int) is None,
        },
{
    let mut d = minicbor::Decoder::new(input);
    d.set_position(pos);
    match d.datatype()? {
        minicbor::data::Type::Null => Ok(Lead::Null),
        minicbor::data::Type::Break => Ok(Lead::Break),
        _ => Ok(Lead::Other),
    }
}

/// `minicbor::Decoder::skip` at `pos`: where it succeeds it has moved over at
/// least one byte and not past the input; the empty array is one byte long.
/// Which inputs it accepts beyond that is left to the name [`item_end`].
#[verifier::external_body]
pub(crate) fn skip_item(input: &[u8], pos: usize) -> (r: Result<usize, minicbor::decode::Error>)
    ensures
        match r {
            Ok(end) => item_end(input@, pos as int) == Some(end as int) && pos < end
                <= input@.len(),
            Err(_) => item_end(input@, pos as int) is None,
        },
        pos < input@.len() && input@[pos as int] == 0x80 ==> r is Ok && r->Ok_0 == pos + 1,
{
    let mut d = minicbor::Decoder::new(input);
    d.set_position(pos);
    d.skip()?;
    Ok(d.position())
}

/// `minicbor::Encoder::u64`: appends the shortest form of the number.
#[verifier::external_body]
pub(crate) fn write_uint(out: &mut Vec<u8>, n: u64)
    ensures
        final(out)@ == old(out)@ + head(0, n as int),
{
    let _ = minicbor::Encoder::new(out).u64(n);
}

/// `minicbor::Encoder::i64`: appends the shortest form of the number.
#[verifier::external_body]
pub(crate) fn write_int(out: &mut Vec<u8>, n: i64)
    ensures
        final(out)@ == old(out)@ + int_bytes(n as int),
{
    let _ = minicbor::Encoder::new(out).i64(n);
}

/// `minicbor::Encoder::str`: appends the head of a text of definite length and
/// the text in UTF-8.
#[verifier::external_body]
pub(crate) fn write_text(out: &mut Vec<u8>, s: &str)
    ensures
        final(out)@ == old(out)@ + text_bytes(s@),
{
    let _ = minicbor::Encoder::new(out).str(s);
}

/// `minicbor::Encoder::array`: appends the head of an array of `n` items.
#[verifier::external_body]
pub(crate) fn write_array(out: &mut Vec<u8>, n: u64)
    ensures
        final(out)@ == old(out)@ + head(4, n as int),
{
    let _ = minicbor::Encoder::new(out).array(n);
}

/// `minicbor::Encoder::null`: appends the item `null`.
#[verifier::external_body]
pub(crate) fn write_null(out: &mut Vec<u8>)
    ensures
        final(out)@ == old(out)@.push(0xf6u8),
{
    let _ = minicbor::Encoder::new(out).null();
}

/// A head that can be read takes at least one byte and stays in the input.
pub proof fn lemma_argument_progress(input: Seq<u8>, pos: int)
    ensures
        argument(input, pos) matches Some((n, end)) ==> pos < end <= input.len() && 0 <= n
            <= u64::MAX && (input[pos] % 32 >= 24 ==> pos + 2 <= end),
{
    reveal(argument);
    if pos + 9 <= input.len() && pos >= 0 {
        assert(be2_at(input, pos + 1) <= 0xffff);
        assert(be4_at(input, pos + 1) <= 0xffff_ffff);
        assert(be4_at(input, pos + 5) <= 0xffff_ffff);
        assert(be8_at(input, pos + 1) <= u64::MAX);
    }
}

/// A head is never empty, and never longer than nine bytes.
pub proof fn lemma_head_len(major: int, n: int)
    ensures
        1 <= head(major, n).len() <= 9,
        n == 0 ==> head(major, n) == seq![(major * 32) as u8],
{
    reveal(head);
}

/// The argument of a head reads back, whatever stands before and behind it.
pub proof fn lemma_head_reads_back(pre: Seq<u8>, major: int, n: int, post: Seq<u8>)
    requires
        0 <= major < 7,
        0 <= n <= u64::MAX,
    ensures
        argument(pre + head(major, n) + post, pre.len() as int) == Some(
            (n, (pre.len() + head(major, n).len()) as int),
        ),
        has_major(pre + head(major, n) + post, pre.len() as int, major),
        (pre + head(major, n) + post)[pre.len() as int] != 0xf6,
        (pre + head(major, n) + post)[pre.len() as int] != 0xff,
        (pre + head(major, n) + post)[pre.len() as int] != 0x9f,
{
    reveal(head);
    reveal(argument);
    let h = head(major, n);
    let s = pre + h + post;
    let p = pre.len() as int;
    assert(forall|i: int| 0 <= i < h.len() ==> s[p + i] == h[i]);
    assert(s[p] == h[0]);
    assert(s.len() == p + h.len() + post.len());
    if n <= 23 {
        assert(h[0] == major * 32 + n);
    } else if n <= 0xff {
        assert(h[0] == major * 32 + 24);
        assert(s[p + 1] == h[1]);
    } else if n <= 0xffff {
        assert(h[0] == major * 32 + 25);
        assert(h[1] == be2(n)[0] && h[2] == be2(n)[1]);
        assert(s[p + 1] == h[1] && s[p + 2] == h[2]);
    } else if n <= 0xffff_ffff {
        assert(h[0] == major * 32 + 26);
        assert(h.subrange(1, 5) =~= be4(n));
        lemma_be4(s, p + 1, n);
    } else {
        assert(h[0] == major * 32 + 27);
        assert(h.subrange(1, 9) =~= be8(n));
        assert(s.subrange(p + 1, p + 9) =~= be8(n));
        assert(s.subrange(p + 1, p + 5) =~= be4(n / 0x1_0000_0000));
        assert(s.subrange(p + 5, p + 9) =~= be4(n % 0x1_0000_0000));
        lemma_be4(s, p + 1, n / 0x1_0000_0000);
        lemma_be4(s, p + 5, n % 0x1_0000_0000);
    }
}

/// Four bytes read back as the number they were written from.
proof fn lemma_be4(s: Seq<u8>, i: int, n: int)
    requires
        0 <= i,
        i + 4 <= s.len(),
        0 <= n <= 0xffff_ffff,
        forall|k: int| 0 <= k < 4 ==> s[i + k] == be4(n)[k],
    ensures
        be4_at(s, i) == n,
{
    let b = be4(n);
    assert(s[i + 0] == b[0] && s[i + 1] == b[1] && s[i + 2] == b[2] && s[i + 3] == b[3]);
    assert(b[0] == be2(n / 0x1_0000)[0]);
    assert(b[1] == be2(n / 0x1_0000)[1]);
    assert(b[2] == be2(n % 0x1_0000)[0]);
    assert(b[3] == be2(n % 0x1_0000)[1]);
    assert(s[i + 2 + 1] == b[3]);
}

/// A text reads back, whatever stands before and behind it.
pub proof fn lemma_text_reads_back(pre: Seq<u8>, text: Seq<char>, post: Seq<u8>)
    requires
        encode_utf8(text).len() <= u64::MAX,
    ensures
        text_item(pre + text_bytes(text) + post, pre.len() as int) == Some(
            (text, (pre.len() + text_bytes(text).len()) as int),
        ),
        (pre + text_bytes(text) + post)[pre.len() as int] != 0xf6,
        (pre + text_bytes(text) + post)[pre.len() as int] != 0xff,
{
    let bytes = encode_utf8(text);
    let h = head(3, bytes.len() as int);
    let s = pre + text_bytes(text) + post;
    lemma_head_len(3, bytes.len() as int);
    lemma_head_reads_back(pre, 3, bytes.len() as int, bytes + post);
    assert(s =~= pre + h + (bytes + post));
    let start = pre.len() + h.len();
    assert(s.subrange(start as int, (start + bytes.len()) as int) =~= bytes);
    encode_utf8_valid_utf8(text);
    encode_utf8_decode_utf8(text);
}

} // verus!
