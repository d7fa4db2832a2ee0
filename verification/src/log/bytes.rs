//! Numbers as bytes, least significant first.

use vstd::prelude::*;

verus! {

/// The four bytes of `n`, least significant first.
#[verifier::opaque]
pub open spec fn le4(n: int) -> Seq<u8> {
    seq![
        (n % 256) as u8,
        (n / 256 % 256) as u8,
        (n / 0x1_0000 % 256) as u8,
        (n / 0x100_0000) as u8,
    ]
}

/// The eight bytes of `n`, least significant first.
#[verifier::opaque]
pub open spec fn le8(n: int) -> Seq<u8> {
    le4(n % 0x1_0000_0000) + le4(n / 0x1_0000_0000)
}

/// The number that the four bytes at `i` spell.
#[verifier::opaque]
pub open spec fn le4_at(s: Seq<u8>, i: int) -> int {
    s[i] + s[i + 1] * 256 + s[i + 2] * 0x1_0000 + s[i + 3] * 0x100_0000
}

/// The number that the eight bytes at `i` spell.
#[verifier::opaque]
pub open spec fn le8_at(s: Seq<u8>, i: int) -> int {
    le4_at(s, i) + le4_at(s, i + 4) * 0x1_0000_0000
}

/// Four bytes are four.
pub broadcast proof fn lemma_le4_len(n: int)
    ensures
        #[trigger] le4(n).len() == 4,
{
    reveal(le4);
}

/// Eight bytes are eight.
pub broadcast proof fn lemma_le8_len(n: int)
    ensures
        #[trigger] le8(n).len() == 8,
{
    reveal(le4);
    reveal(le8);
}

/// How many bytes numbers take.
pub broadcast group group_le_len {
    lemma_le4_len,
    lemma_le8_len,
}

/// Numbers read back from the bytes that they were written to.
pub proof fn lemma_le_read_back(pre: Seq<u8>, n: int, post: Seq<u8>)
    ensures
        0 <= n <= 0xffff_ffff ==> le4_at(pre + le4(n) + post, pre.len() as int) == n,
        0 <= n <= u64::MAX ==> le8_at(pre + le8(n) + post, pre.len() as int) == n,
{
    if 0 <= n <= 0xffff_ffff {
        lemma_le4(pre, n, post);
    }
    if 0 <= n <= u64::MAX {
        lemma_le8(pre, n, post);
    }
}

proof fn lemma_le8(pre: Seq<u8>, n: int, post: Seq<u8>)
    requires
        0 <= n <= u64::MAX,
    ensures
        le8_at(pre + le8(n) + post, pre.len() as int) == n,
{
    broadcast use group_le_len;

    reveal(le8);
    reveal(le8_at);
    let low = n % 0x1_0000_0000;
    let high = n / 0x1_0000_0000;
    let s = pre + le8(n) + post;
    assert(s =~= pre + le4(low) + (le4(high) + post));
    lemma_le4(pre, low, le4(high) + post);
    assert(s =~= (pre + le4(low)) + le4(high) + post);
    lemma_le4(pre + le4(low), high, post);
}

proof fn lemma_le4(pre: Seq<u8>, n: int, post: Seq<u8>)
    requires
        0 <= n <= 0xffff_ffff,
    ensures
        le4_at(pre + le4(n) + post, pre.len() as int) == n,
{
    reveal(le4);
    reveal(le4_at);
    let p = pre.len() as int;
    let b = le4(n);
    let s = pre + b + post;
    assert(s[p] == b[0] && s[p + 1] == b[1] && s[p + 2] == b[2] && s[p + 3] == b[3]);
}

/// A number is read from its own bytes alone.
pub proof fn lemma_le_local(s: Seq<u8>, rest: Seq<u8>, i: int)
    requires
        0 <= i,
    ensures
        i + 4 <= s.len() ==> le4_at(s + rest, i) == le4_at(s, i),
        i + 8 <= s.len() ==> le8_at(s + rest, i) == le8_at(s, i),
{
    reveal(le4_at);
    reveal(le8_at);
}

/// The numbers that bytes spell are in range.
pub proof fn lemma_le_range(s: Seq<u8>, i: int)
    ensures
        0 <= le4_at(s, i) <= 0xffff_ffff,
        0 <= le8_at(s, i) <= u64::MAX,
{
    reveal(le4_at);
    reveal(le8_at);
}

/// Appends the four bytes of a number.
pub fn put_le4(out: &mut Vec<u8>, n: u32)
    ensures
        final(out)@ == old(out)@ + le4(n as int),
{
    reveal(le4);
    out.push((n % 256) as u8);
    out.push((n / 256 % 256) as u8);
    out.push((n / 0x1_0000 % 256) as u8);
    out.push((n / 0x100_0000) as u8);
    assert(out@ =~= old(out)@ + le4(n as int));
}

/// Appends the eight bytes of a number.
pub fn put_le8(out: &mut Vec<u8>, n: u64)
    ensures
        final(out)@ == old(out)@ + le8(n as int),
{
    reveal(le8);
    put_le4(out, (n % 0x1_0000_0000) as u32);
    put_le4(out, (n / 0x1_0000_0000) as u32);
    assert(out@ =~= old(out)@ + le8(n as int));
}

/// Reads four bytes.
pub fn get_le4(s: &[u8], i: usize) -> (r: u32)
    requires
        i + 4 <= s@.len(),
    ensures
        r == le4_at(s@, i as int),
{
    reveal(le4_at);
    assert(s@.len() == s.len());
    s[i] as u32 + s[i + 1] as u32 * 256 + s[i + 2] as u32 * 0x1_0000 + s[i + 3] as u32 * 0x100_0000
}

/// Reads eight bytes.
pub fn get_le8(s: &[u8], i: usize) -> (r: u64)
    requires
        i + 8 <= s@.len(),
    ensures
        r == le8_at(s@, i as int),
{
    reveal(le8_at);
    assert(s@.len() == s.len());
    get_le4(s, i) as u64 + get_le4(s, i + 4) as u64 * 0x1_0000_0000
}

} // verus!
