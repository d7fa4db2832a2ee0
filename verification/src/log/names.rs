//! The names of a log's files. A segment's files are named after the offset of
//! its first record, in twenty digits, so that they sort by it.

use vstd::prelude::*;
use vstd::string::*;
use vstd::utf8::*;

use crate::text;

verus! {

/// The name of a segment's data file.
pub open spec fn segment_name(base: u64) -> Seq<char> {
    text::ascii(text::digits(base as int, 10, 20)) + ".seg"@
}

/// The name of a segment's index file.
pub open spec fn index_name(base: u64) -> Seq<char> {
    text::ascii(text::digits(base as int, 10, 20)) + ".idx"@
}

/// The name of a segment's data file.
pub fn segment_file_name(base: u64) -> (r: String)
    ensures
        r@ == segment_name(base),
{
    text::padded_decimal(base, 20).concat(".seg")
}

/// The name of a segment's index file.
pub fn index_file_name(base: u64) -> (r: String)
    ensures
        r@ == index_name(base),
{
    text::padded_decimal(base, 20).concat(".idx")
}

/// The base offset in the name of a data file. Only the name that
/// [`segment_file_name`] gives counts: any other file is not a segment's.
pub fn segment_base(name: &str) -> (r: Option<u64>)
    ensures
        match r {
            Some(base) => name@ == segment_name(base),
            None => forall|other: u64| name@ != #[trigger] segment_name(other),
        },
{
    let b = name.as_bytes();
    proof {
        assert forall|base: u64| name@ == #[trigger] segment_name(base) implies b@.len() == 24
            && b@.take(20) == text::digits(base as int, 10, 20) by {
            lemma_segment_name_bytes(base);
        }
    }
    if b.len() != 24 {
        return None;
    }
    let mut value: u128 = 0;
    let mut i: usize = 0;
    proof {
        reveal_with_fuel(text::capacity, 21);
        assert(b@.take(0) =~= seq![]);
    }
    while i < 20
        invariant
            i <= 20,
            b@.len() == 24,
            b@ == encode_utf8(name@),
            value == text::digits_value(b@.take(i as int), 10),
            value < text::capacity(10, i as nat),
            text::capacity(10, i as nat) <= 100_000_000_000_000_000_000,
            i == 20 || text::capacity(10, (i + 1) as nat) <= 100_000_000_000_000_000_000,
            forall|base: u64|
                name@ == #[trigger] segment_name(base) ==> b@.take(20) == text::digits(
                    base as int,
                    10,
                    20,
                ),
        decreases 20 - i,
    {
        let c: u8 = b[i];
        if c < 0x30 || c > 0x39 {
            proof {
                assert forall|base: u64| name@ != #[trigger] segment_name(base) by {
                    if name@ == segment_name(base) {
                        lemma_decimal_digits(base as int, 20);
                        assert(b@.take(20)[i as int] == c);
                    }
                }
            }
            return None;
        }
        proof {
            let upto = b@.take(i + 1);
            assert(upto.drop_last() =~= b@.take(i as int));
            reveal_with_fuel(text::capacity, 22);
        }
        value = value * 10 + (c - 0x30) as u128;
        i = i + 1;
    }
    if value > u64::MAX as u128 {
        proof {
            assert forall|base: u64| name@ != #[trigger] segment_name(base) by {
                if name@ == segment_name(base) {
                    text::lemma_u64_width(base);
                    text::lemma_digits_value(base as int, 10, 20);
                }
            }
        }
        return None;
    }
    let base: u64 = value as u64;
    let canonical = segment_file_name(base);
    if name.to_owned() == canonical {
        Some(base)
    } else {
        proof {
            assert forall|other: u64| name@ != #[trigger] segment_name(other) by {
                if name@ == segment_name(other) {
                    text::lemma_u64_width(other);
                    text::lemma_digits_value(other as int, 10, 20);
                    assert(other == base);
                }
            }
        }
        None
    }
}

/// Decimal digits are decimal digits.
pub proof fn lemma_decimal_digits(n: int, width: nat)
    requires
        0 <= n,
    ensures
        text::digits(n, 10, width).len() == width,
        forall|i: int|
            0 <= i < width ==> 0x30 <= #[trigger] text::digits(n, 10, width)[i] <= 0x39,
    decreases width,
{
    if width > 0 {
        lemma_decimal_digits(n / 10, (width - 1) as nat);
    }
}

/// The bytes of a data file's name.
proof fn lemma_segment_name_bytes(base: u64)
    ensures
        encode_utf8(segment_name(base)).len() == 24,
        encode_utf8(segment_name(base)).take(20) == text::digits(base as int, 10, 20),
{
    reveal_strlit(".seg");
    let d = text::digits(base as int, 10, 20);
    text::lemma_digits_ascii(base as int, 10, 20);
    let b = d + seq![0x2eu8, 0x73u8, 0x65u8, 0x67u8];
    assert(text::ascii(b) =~= segment_name(base));
    text::lemma_ascii(b);
    assert(b.take(20) =~= d);
}

/// Segments with different base offsets have different names.
pub proof fn law_segment_names_differ(a: u64, b: u64)
    requires
        segment_name(a) == segment_name(b),
    ensures
        a == b,
{
    lemma_segment_name_bytes(a);
    lemma_segment_name_bytes(b);
    text::lemma_u64_width(a);
    text::lemma_u64_width(b);
    text::lemma_digits_value(a as int, 10, 20);
    text::lemma_digits_value(b as int, 10, 20);
}

/// The base offset in a name, where the name is a data file's.
pub open spec fn base_in(name: Seq<char>) -> Option<u64> {
    if exists|base: u64| name == #[trigger] segment_name(base) {
        Some(choose|base: u64| name == #[trigger] segment_name(base))
    } else {
        None
    }
}

/// The base offset in a data file's name.
pub proof fn lemma_base_in(name: Seq<char>, base: u64)
    requires
        name == segment_name(base),
    ensures
        base_in(name) == Some(base),
{
    let chosen = choose|b: u64| name == #[trigger] segment_name(b);
    law_segment_names_differ(base, chosen);
}

/// The base offsets in names, in the order of the names.
pub open spec fn bases_in(names: Seq<String>) -> Seq<u64>
    decreases names.len(),
{
    if names.len() == 0 {
        seq![]
    } else {
        match base_in(names.last()@) {
            Some(base) => bases_in(names.drop_last()).push(base),
            None => bases_in(names.drop_last()),
        }
    }
}

/// In ascending order.
pub open spec fn ascending(s: Seq<u64>) -> bool {
    forall|i: int, j: int| 0 <= i <= j < s.len() ==> s[i] <= s[j]
}

/// The base offsets in names, in ascending order.
pub fn segment_bases(names: &Vec<String>) -> (r: Vec<u64>)
    ensures
        ascending(r@),
        r@.to_multiset() == bases_in(names@).to_multiset(),
{
    let mut r: Vec<u64> = Vec::new();
    let mut i: usize = 0;
    assert(names@.take(0) =~= seq![]);
    while i < names.len()
        invariant
            i <= names@.len(),
            ascending(r@),
            r@.to_multiset() == bases_in(names@.take(i as int)).to_multiset(),
        decreases names@.len() - i,
    {
        let ghost upto = names@.take(i + 1);
        proof {
            assert(upto.drop_last() =~= names@.take(i as int));
            assert(upto.last() == names@[i as int]);
        }
        if let Some(base) = segment_base(names[i].as_str()) {
            proof {
                lemma_base_in(names@[i as int]@, base);
                bases_in(names@.take(i as int)).to_multiset_ensures();
            }
            insert_ascending(&mut r, base);
        }
        i = i + 1;
    }
    assert(names@.take(i as int) =~= names@);
    r
}

/// Puts a number where it belongs in an ascending sequence.
fn insert_ascending(v: &mut Vec<u64>, x: u64)
    requires
        ascending(old(v)@),
    ensures
        ascending(final(v)@),
        final(v)@.to_multiset() == old(v)@.to_multiset().insert(x),
{
    let mut at: usize = v.len();
    while at > 0 && v[at - 1] > x
        invariant
            at <= v@.len(),
            v@ == old(v)@,
            ascending(v@),
            forall|i: int| at <= i < v@.len() ==> v@[i] > x,
        decreases at,
    {
        at = at - 1;
    }
    let ghost before = v@;
    v.insert(at, x);
    proof {
        let front = before.take(at as int);
        let back = before.skip(at as int);
        assert(before =~= front + back);
        assert(v@ =~= front.push(x) + back);
        vstd::seq_lib::lemma_multiset_commutative(front, back);
        vstd::seq_lib::lemma_multiset_commutative(front.push(x), back);
        front.to_multiset_ensures();
        assert(v@.to_multiset() =~= before.to_multiset().insert(x));
    }
}

} // verus!
