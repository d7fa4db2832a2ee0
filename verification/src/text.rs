//! Texts: numbers in digits, and bytes as texts.

use vstd::pervasive::unreached;
use vstd::prelude::*;
use vstd::string::*;
use vstd::utf8::*;

verus! {

/// `String::from_utf8`: succeeds exactly on valid UTF-8, and the text is then
/// the one that the bytes spell.
#[verifier::external_body]
pub(crate) fn text_of_utf8(bytes: Vec<u8>) -> (r: Option<String>)
    ensures
        match r {
            Some(s) => valid_utf8(bytes@) && s@ == decode_utf8(bytes@),
            None => !valid_utf8(bytes@),
        },
{
    String::from_utf8(bytes).ok()
}

/// The text that ASCII bytes spell.
pub open spec fn ascii(b: Seq<u8>) -> Seq<char> {
    Seq::new(b.len(), |i: int| b[i] as char)
}

/// All bytes are ASCII.
pub open spec fn all_ascii(b: Seq<u8>) -> bool {
    forall|i: int| 0 <= i < b.len() ==> #[trigger] b[i] < 0x80
}

/// ASCII bytes are the UTF-8 form of the text that they spell.
pub proof fn lemma_ascii(b: Seq<u8>)
    requires
        all_ascii(b),
    ensures
        encode_utf8(ascii(b)) == b,
        valid_utf8(b),
        decode_utf8(b) == ascii(b),
{
    let s = ascii(b);
    assert(is_ascii_chars(s));
    is_ascii_chars_encode_utf8(s);
    assert(encode_utf8(s) =~= b);
    encode_utf8_valid_utf8(s);
    encode_utf8_decode_utf8(s);
}

/// The text that ASCII bytes spell.
pub fn ascii_string(bytes: Vec<u8>) -> (r: String)
    requires
        all_ascii(bytes@),
    ensures
        r@ == ascii(bytes@),
{
    proof {
        lemma_ascii(bytes@);
    }
    match text_of_utf8(bytes) {
        Some(s) => s,
        None => unreached(),
    }
}

/// The ASCII byte of a digit in a base up to sixteen.
pub open spec fn digit(d: int) -> u8 {
    if d < 10 {
        (0x30 + d) as u8
    } else {
        (0x61 + d - 10) as u8
    }
}

/// The number `n` in exactly `width` digits of `base`, leading zeros and all;
/// what does not fit is cut off at the front.
pub open spec fn digits(n: int, base: int, width: nat) -> Seq<u8>
    decreases width,
{
    if width == 0 {
        seq![]
    } else {
        digits(n / base, base, (width - 1) as nat).push(digit(n % base))
    }
}

/// How many decimal digits a number has.
pub open spec fn decimal_width(n: int) -> nat
    decreases n,
{
    if n < 10 {
        1
    } else {
        decimal_width(n / 10) + 1
    }
}

/// The number in decimal digits, without leading zeros.
pub open spec fn decimal(n: int) -> Seq<char> {
    ascii(digits(n, 10, decimal_width(n)))
}

/// The number that digits of `base` spell.
pub open spec fn digits_value(b: Seq<u8>, base: int) -> int
    decreases b.len(),
{
    if b.len() == 0 {
        0
    } else {
        digits_value(b.drop_last(), base) * base + digit_value(b.last())
    }
}

/// The value of a digit byte.
pub open spec fn digit_value(b: u8) -> int {
    if b < 0x3a {
        b - 0x30
    } else {
        b - 0x61 + 10
    }
}

/// The power `base` to the `width`: the first number that does not fit.
pub open spec fn capacity(base: int, width: nat) -> int
    decreases width,
{
    if width == 0 {
        1
    } else {
        capacity(base, (width - 1) as nat) * base
    }
}

/// Digits are ASCII, as many as asked for.
pub proof fn lemma_digits_ascii(n: int, base: int, width: nat)
    requires
        0 <= n,
        2 <= base <= 16,
    ensures
        digits(n, base, width).len() == width,
        all_ascii(digits(n, base, width)),
    decreases width,
{
    if width > 0 {
        assert(n / base >= 0) by (nonlinear_arith)
            requires
                0 <= n,
                2 <= base,
        ;
        lemma_digits_ascii(n / base, base, (width - 1) as nat);
        assert(0 <= n % base < base) by (nonlinear_arith)
            requires
                2 <= base,
        ;
    }
}

/// A number that fits reads back from its digits.
pub proof fn lemma_digits_value(n: int, base: int, width: nat)
    requires
        2 <= base <= 16,
        0 <= n < capacity(base, width),
    ensures
        digits_value(digits(n, base, width), base) == n,
    decreases width,
{
    if width > 0 {
        let c = capacity(base, (width - 1) as nat);
        assert(0 <= n / base < c && (n / base) * base + n % base == n && 0 <= n % base < base)
            by (nonlinear_arith)
            requires
                0 <= n < c * base,
                2 <= base,
        ;
        lemma_digits_value(n / base, base, (width - 1) as nat);
        let b = digits(n, base, width);
        assert(b.drop_last() =~= digits(n / base, base, (width - 1) as nat));
        assert(digit_value(digit(n % base)) == n % base);
    }
}

/// A number below a power of ten has no more digits than the power has zeros.
pub proof fn lemma_decimal_width(n: int, width: nat)
    requires
        0 <= n < capacity(10, width),
        width >= 1,
    ensures
        1 <= decimal_width(n) <= width,
        n < capacity(10, decimal_width(n)),
    decreases width,
{
    if n >= 10 {
        assert(width >= 2) by {
            reveal_with_fuel(capacity, 2);
        }
        lemma_decimal_width(n / 10, (width - 1) as nat);
    } else {
        reveal_with_fuel(capacity, 2);
    }
}

/// Every `u64` has at most twenty digits.
pub proof fn lemma_u64_width(n: u64)
    ensures
        1 <= decimal_width(n as int) <= 20,
        n < capacity(10, decimal_width(n as int)),
        n < capacity(10, 20),
{
    reveal_with_fuel(capacity, 21);
    lemma_decimal_width(n as int, 20);
}

/// The digits of a number, by writing them from the last to the first.
fn digits_of(n: u128, base: u128, width: usize) -> (r: Vec<u8>)
    requires
        2 <= base <= 16,
    ensures
        r@ == digits(n as int, base as int, width as nat),
{
    let mut reversed: Vec<u8> = Vec::new();
    let mut rest: u128 = n;
    let mut i: usize = 0;
    while i < width
        invariant
            2 <= base <= 16,
            i <= width,
            reversed@.len() == i,
            digits(n as int, base as int, width as nat) == digits(
                rest as int,
                base as int,
                (width - i) as nat,
            ) + reversed@.reverse(),
        decreases width - i,
    {
        let d: u128 = rest % base;
        let b: u8 = if d < 10 {
            0x30 + d as u8
        } else {
            0x61 + (d as u8 - 10)
        };
        let ghost before = reversed@;
        reversed.push(b);
        assert(reversed@.reverse() =~= seq![b] + before.reverse());
        assert(digits(rest as int, base as int, (width - i) as nat) == digits(
            rest as int / base as int,
            base as int,
            (width - i - 1) as nat,
        ).push(b));
        rest = rest / base;
        i = i + 1;
        assert(digits(n as int, base as int, width as nat) =~= digits(
            rest as int,
            base as int,
            (width - i) as nat,
        ) + reversed@.reverse());
    }
    let mut r: Vec<u8> = Vec::new();
    let ghost all = reversed@.reverse();
    assert(digits(n as int, base as int, width as nat) =~= all);
    while reversed.len() > 0
        invariant
            r@.len() + reversed@.len() == all.len(),
            r@ =~= all.take(r@.len() as int),
            reversed@ =~= all.skip(r@.len() as int).reverse(),
        decreases reversed@.len(),
    {
        if let Some(b) = reversed.pop() {
            assert(b == all[r@.len() as int]);
            r.push(b);
        }
    }
    r
}

/// The number in exactly `width` hexadecimal digits.
pub fn hex_digits(n: u128, width: usize) -> (r: Vec<u8>)
    ensures
        r@ == digits(n as int, 16, width as nat),
{
    digits_of(n, 16, width)
}

/// The number in exactly `width` decimal digits.
pub fn padded_decimal(n: u64, width: usize) -> (r: String)
    ensures
        r@ == ascii(digits(n as int, 10, width as nat)),
{
    let b = digits_of(n as u128, 10, width);
    proof {
        lemma_digits_ascii(n as int, 10, width as nat);
    }
    ascii_string(b)
}

/// The number in decimal digits.
pub fn decimal_string(n: u64) -> (r: String)
    ensures
        r@ == decimal(n as int),
{
    let mut width: usize = 1;
    let mut rest: u64 = n;
    proof {
        lemma_u64_width(n);
    }
    while rest >= 10
        invariant
            width + decimal_width(rest as int) == 1 + decimal_width(n as int),
            decimal_width(n as int) <= 20,
            width >= 1,
        decreases rest,
    {
        rest = rest / 10;
        width = width + 1;
    }
    padded_decimal(n, width)
}

} // verus!
