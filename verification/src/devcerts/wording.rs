//! What the words of a command line come to.

use vstd::prelude::*;
use vstd::utf8::*;

use crate::devcerts;
use crate::devcerts::issue;
use crate::devcerts::issue::{Issued, IssuedBundle, SanError};
use crate::devcerts::{
    Args, ArgsError, ArgsModel, BundlePems, BundlePlan, CertRole, Command, DaysFault,
    ExtendedUsage, KeyUsage, SanEntry, SanModel, ValueOption,
};

verus! {

/// Whether bytes are decimal digits.
pub open spec fn all_digits(b: Seq<u8>) -> bool {
    forall|i: int| 0 <= i < b.len() ==> 0x30 <= #[trigger] b[i] <= 0x39
}

/// The number that decimal digits spell.
pub open spec fn number(b: Seq<u8>) -> int
    decreases b.len(),
{
    if b.len() == 0 {
        0
    } else {
        number(b.drop_last()) * 10 + (b.last() - 0x30)
    }
}

/// The digits of a number of days: what stands behind a plus sign, if there is one.
pub open spec fn unsigned(b: Seq<u8>) -> Seq<u8> {
    if b.len() > 0 && b[0] == 0x2b {
        b.skip(1)
    } else {
        b
    }
}

/// More digits make no smaller number.
proof fn lemma_number_grows(b: Seq<u8>, i: int)
    requires
        all_digits(b),
        0 <= i <= b.len(),
    ensures
        0 <= number(b.take(i)) <= number(b),
    decreases b.len(),
{
    if i == b.len() {
        assert(b.take(i) =~= b);
        if i > 0 {
            assert(all_digits(b.drop_last()));
            lemma_number_grows(b.drop_last(), i - 1);
            assert(0x30 <= b[i - 1]);
        }
    } else {
        assert(all_digits(b.drop_last()));
        lemma_number_grows(b.drop_last(), i);
        assert(b.drop_last().take(i) =~= b.take(i));
        assert(0x30 <= b[b.len() - 1]);
    }
}

/// The digits from one on.
proof fn lemma_digits(b: Seq<u8>, from: int, i: int)
    requires
        0 <= from <= i <= b.len(),
        all_digits(b.subrange(from, i)),
        0 <= number(b.subrange(from, i)) <= u32::MAX,
    ensures
        ({
            let d = b.skip(from);
            match devcerts::digits_from(b, i, number(b.subrange(from, i))) {
                Ok(n) => all_digits(d) && n == number(d),
                Err(DaysFault::InvalidDigit) => !all_digits(d),
                Err(DaysFault::TooLarge) => !all_digits(d) || number(d) > u32::MAX,
                Err(DaysFault::Empty) => false,
            }
        }),
    decreases b.len() - i,
{
    let d = b.skip(from);
    if i == b.len() {
        assert(b.subrange(from, i) =~= d);
    } else if b[i] < 0x30 || b[i] > 0x39 {
        assert(d[i - from] == b[i]);
    } else {
        let more = b.subrange(from, i + 1);
        assert(more.drop_last() =~= b.subrange(from, i));
        assert(all_digits(more)) by {
            assert forall|k: int| 0 <= k < more.len() implies 0x30 <= #[trigger] more[k] <= 0x39 by {
                if k < i - from {
                    assert(more[k] == b.subrange(from, i)[k]);
                }
            }
        }
        if number(more) <= u32::MAX {
            lemma_digits(b, from, i + 1);
        } else if all_digits(d) {
            lemma_number_grows(d, i + 1 - from);
            assert(d.take(i + 1 - from) =~= more);
        }
    }
}

/// A number of days is decimal digits, one at least, behind a plus sign or not, and
/// is what they spell, as long as that fits in 32 bits.
pub proof fn law_days(s: &str, r: Result<u32, DaysFault>)
    requires
        call_ensures(devcerts::parse_days, (s,), r),
    ensures
        ({
            let d = unsigned(encode_utf8(s@));
            match r {
                Ok(n) => d.len() > 0 && all_digits(d) && number(d) == n,
                Err(DaysFault::Empty) => encode_utf8(s@).len() == 0,
                Err(DaysFault::InvalidDigit) => encode_utf8(s@).len() > 0 && (d.len() == 0
                    || !all_digits(d)),
                Err(DaysFault::TooLarge) => d.len() > 0 && (!all_digits(d) || number(d)
                    > 0xffff_ffff),
            }
        }),
{
    let b = encode_utf8(s@);
    if b.len() > 0 {
        let from: int = if b[0] == 0x2b {
            1
        } else {
            0
        };
        assert(b.subrange(from, from) =~= seq![]);
        assert(number(b.subrange(from, from)) == 0);
        lemma_digits(b, from, from);
        assert(b.skip(0) =~= b);
    }
}

/// The value that an option has: the last one that is given to it, or none.
pub open spec fn last_value(words: Seq<Seq<char>>, name: Seq<char>) -> Option<Seq<char>>
    decreases words.len(),
{
    if words.len() < 2 {
        None
    } else if words[words.len() - 2] == name {
        Some(words[words.len() - 1])
    } else {
        last_value(words.take(words.len() - 2), name)
    }
}

/// Whether words are options with their values, and each number of days is one.
pub open spec fn are_pairs(words: Seq<Seq<char>>) -> bool {
    &&& words.len() % 2 == 0
    &&& forall|i: int|
        0 <= i < words.len() && i % 2 == 0 ==> is_option(#[trigger] words[i])
    &&& forall|i: int|
        0 <= i < words.len() - 1 && i % 2 == 0 && #[trigger] words[i] == "--days"@ ==> is_number(
            words[i + 1],
        )
}

/// Whether a word is an option that takes a value.
pub open spec fn is_option(word: Seq<char>) -> bool {
    word == "--out"@ || word == "--server-san"@ || word == "--server-cn"@ || word == "--client-cn"@
        || word == "--days"@
}

/// Whether a word is a number that fits in 32 bits.
pub open spec fn is_number(word: Seq<char>) -> bool {
    let d = unsigned(encode_utf8(word));
    d.len() > 0 && all_digits(d) && number(d) <= 0xffff_ffff
}

/// The words that mean something are different ones.
proof fn lemma_words_differ()
    ensures
        "--out"@ != "--server-san"@,
        "--out"@ != "--server-cn"@,
        "--out"@ != "--client-cn"@,
        "--out"@ != "--days"@,
        "--server-san"@ != "--server-cn"@,
        "--server-san"@ != "--client-cn"@,
        "--server-san"@ != "--days"@,
        "--server-cn"@ != "--client-cn"@,
        "--server-cn"@ != "--days"@,
        "--client-cn"@ != "--days"@,
        forall|w: Seq<char>| #[trigger] is_option(w) ==> w != "-h"@ && w != "--help"@,
{
    reveal_strlit("--out");
    reveal_strlit("--server-san");
    reveal_strlit("--server-cn");
    reveal_strlit("--client-cn");
    reveal_strlit("--days");
    reveal_strlit("-h");
    reveal_strlit("--help");
    assert("--out"@[2] == 'o' && "--days"@[2] == 'd' && "--client-cn"@[2] == 'c');
    assert("--server-cn"@[9] == 'c' && "--server-san"@[9] == 's');
    assert("--server-cn"@[2] == 's' && "--server-san"@[2] == 's' && "--help"@[2] == 'h');
    assert("-h"@.len() == 2);
}

/// What the options so far come to.
pub open spec fn read_so_far(words: Seq<Seq<char>>, m: ArgsModel) -> bool {
    &&& m.out == last_value(words, "--out"@)
    &&& m.server_san == last_value(words, "--server-san"@)
    &&& m.server_cn == (match last_value(words, "--server-cn"@) {
        Some(s) => s,
        None => "localhost"@,
    })
    &&& m.client_cn == (match last_value(words, "--client-cn"@) {
        Some(s) => s,
        None => "otk-dev-client"@,
    })
    &&& m.days == (match last_value(words, "--days"@) {
        Some(s) => number(unsigned(encode_utf8(s))),
        None => 30,
    })
}

/// A good number of days.
proof fn lemma_good_days(word: Seq<char>)
    requires
        is_number(word),
    ensures
        devcerts::days_value(encode_utf8(word)) matches Ok(n) && n == number(
            unsigned(encode_utf8(word)),
        ),
{
    let b = encode_utf8(word);
    let from: int = if b[0] == 0x2b {
        1
    } else {
        0
    };
    assert(b.subrange(from, from) =~= seq![]);
    assert(number(b.subrange(from, from)) == 0);
    lemma_digits(b, from, from);
    assert(b.skip(0) =~= b);
}

/// The words up to some number are options with their values.
proof fn lemma_pairs(words: Seq<Seq<char>>, n: int) -> (m: ArgsModel)
    requires
        0 <= n <= words.len(),
        are_pairs(words.take(n)),
    ensures
        devcerts::args_from(words, 0, devcerts::default_args()) == devcerts::args_from(words, n, m),
        read_so_far(words.take(n), m),
    decreases n,
{
    lemma_words_differ();
    if n == 0 {
        devcerts::default_args()
    } else {
        let upto = words.take(n);
        let before = words.take(n - 2);
        assert(upto.take(n - 2) =~= before);
        assert(are_pairs(before)) by {
            assert forall|i: int| 0 <= i < before.len() && i % 2 == 0 implies is_option(
                #[trigger] before[i],
            ) by {
                assert(before[i] == upto[i]);
            }
            assert forall|i: int|
                0 <= i < before.len() - 1 && i % 2 == 0 && #[trigger] before[i] == "--days"@
                implies is_number(before[i + 1]) by {
                assert(before[i] == upto[i]);
                assert(before[i + 1] == upto[i + 1]);
            }
        }
        let m = lemma_pairs(words, n - 2);
        let word = words[n - 2];
        let value = words[n - 1];
        assert(is_option(upto[n - 2]));
        assert(upto[n - 2] == word && upto[n - 1] == value);
        if word == "--days"@ {
            assert(is_number(upto[n - 2 + 1]));
            lemma_good_days(value);
        }
        let option = devcerts::option_named(word)->Some_0;
        devcerts::with_value(m, option, value)->Ok_0
    }
}

/// A command line of options with their values issues certificates: each option has
/// the last value that is given to it, or else its default. It has to say where to
/// write.
pub proof fn law_options(args: &Vec<String>, r: Result<Command, ArgsError>)
    requires
        call_ensures(devcerts::parse_args, (args,), r),
        are_pairs(devcerts::words_of(args@)),
    ensures
        ({
            let words = devcerts::words_of(args@);
            match last_value(words, "--out"@) {
                None => r matches Err(ArgsError::OutRequired),
                Some(out) => r matches Ok(Command::Run(a)) && a.out@ == out && a.server_san@ == (
                match last_value(words, "--server-san"@) {
                    Some(s) => s,
                    None => "DNS:localhost,IP:127.0.0.1,IP:::1"@,
                }) && a.server_cn@ == (match last_value(words, "--server-cn"@) {
                    Some(s) => s,
                    None => "localhost"@,
                }) && a.client_cn@ == (match last_value(words, "--client-cn"@) {
                    Some(s) => s,
                    None => "otk-dev-client"@,
                }) && a.days == (match last_value(words, "--days"@) {
                    Some(s) => number(unsigned(encode_utf8(s))),
                    None => 30,
                }),
            }
        }),
{
    let words = devcerts::words_of(args@);
    let n = words.len() as int;
    assert(words.take(n) =~= words);
    let m = lemma_pairs(words, n);
}

/// The first word behind good options that is none decides: a word that asks for
/// help gives help, and any other is an error that names it. An option at the end
/// lacks its value.
pub proof fn law_first_odd_word(args: &Vec<String>, n: int, r: Result<Command, ArgsError>)
    requires
        call_ensures(devcerts::parse_args, (args,), r),
        0 <= n < args@.len(),
        are_pairs(devcerts::words_of(args@).take(n)),
    ensures
        ({
            let word = args@[n]@;
            &&& word == "-h"@ || word == "--help"@ ==> r == Ok::<Command, ArgsError>(Command::Help)
            &&& word != "-h"@ && word != "--help"@ && !is_option(word) ==> (r matches Err(
                ArgsError::Unknown(s),
            ) && s@ == word)
            &&& is_option(word) && n + 1 == args@.len() ==> (r matches Err(
                ArgsError::MissingValue(o),
            ) && word == match o {
                ValueOption::Out => "--out"@,
                ValueOption::ServerSan => "--server-san"@,
                ValueOption::ServerCn => "--server-cn"@,
                ValueOption::ClientCn => "--client-cn"@,
                ValueOption::Days => "--days"@,
            })
            &&& word == "--days"@ && n + 1 < args@.len() && !is_number(args@[n + 1]@) ==> r matches
                Err(ArgsError::Days(_))
        }),
{
    let words = devcerts::words_of(args@);
    let m = lemma_pairs(words, n);
    lemma_words_differ();
    assert(words[n] == args@[n]@);
    if n + 1 < args@.len() {
        let value = args@[n + 1]@;
        assert(words[n + 1] == value);
        if words[n] == "--days"@ && !is_number(value) {
            assert(is_option(words[n]));
            assert(devcerts::option_named(words[n]) == Some(ValueOption::Days));
            let b = encode_utf8(value);
            if b.len() > 0 {
                let from: int = if b[0] == 0x2b {
                    1
                } else {
                    0
                };
                assert(b.subrange(from, from) =~= seq![]);
                assert(number(b.subrange(from, from)) == 0);
                lemma_digits(b, from, from);
                assert(b.skip(0) =~= b);
            }
        }
    }
}

/// Where the first such character stands.
proof fn lemma_find(s: Seq<char>, c: char, i: int, at: int)
    requires
        0 <= i <= at <= s.len(),
        forall|k: int| i <= k < at ==> #[trigger] s[k] != c,
        at < s.len() ==> s[at] == c,
    ensures
        devcerts::find(s, c, i) == at,
    decreases at - i,
{
    if i < at {
        assert(s[i] != c);
        lemma_find(s, c, i + 1, at);
    }
}

/// A list goes on in the same way, whatever it began with.
proof fn lemma_sans_from_behind(a: Seq<char>, b: Seq<char>, i: int)
    requires
        0 <= i <= b.len(),
    ensures
        devcerts::sans_from(a + b, a.len() + i) == devcerts::sans_from(b, i),
    decreases b.len() - i,
{
    let s = a + b;
    let n = a.len() as int;
    lemma_find_behind(a, b, ',', i);
    let comma = devcerts::find(b, ',', i);
    lemma_find_range(b, ',', i);
    assert(s.subrange(n + i, n + comma) =~= b.subrange(i, comma));
    if comma < b.len() {
        lemma_sans_from_behind(a, b, comma + 1);
    }
}

/// A character is found where it stands.
proof fn lemma_find_range(s: Seq<char>, c: char, i: int)
    requires
        0 <= i <= s.len(),
    ensures
        i <= devcerts::find(s, c, i) <= s.len(),
        forall|k: int| i <= k < devcerts::find(s, c, i) ==> #[trigger] s[k] != c,
        devcerts::find(s, c, i) < s.len() ==> s[devcerts::find(s, c, i)] == c,
    decreases s.len() - i,
{
    if i < s.len() && s[i] != c {
        lemma_find_range(s, c, i + 1);
    }
}

/// What stands before does not matter.
proof fn lemma_find_behind(a: Seq<char>, b: Seq<char>, c: char, i: int)
    requires
        0 <= i <= b.len(),
    ensures
        devcerts::find(a + b, c, a.len() + i) == a.len() + devcerts::find(b, c, i),
    decreases b.len() - i,
{
    assert((a + b).len() == a.len() + b.len());
    if i < b.len() {
        assert((a + b)[a.len() + i] == b[i]);
        if b[i] != c {
            lemma_find_behind(a, b, c, i + 1);
        }
    }
}

/// A list with a comma in it is the two lists.
proof fn lemma_sans_cut(a: Seq<char>, b: Seq<char>, i: int)
    requires
        0 <= i <= a.len(),
    ensures
        devcerts::sans_from(a + seq![','] + b, i) == devcerts::sans_from(a, i)
            + devcerts::sans_from(b, 0),
    decreases a.len() - i,
{
    let s = a + seq![','] + b;
    let front = a + seq![','];
    let n = a.len() as int;
    lemma_find_range(a, ',', i);
    let comma = devcerts::find(a, ',', i);
    assert forall|k: int| i <= k < comma implies #[trigger] s[k] != ',' by {
        assert(s[k] == a[k]);
    }
    assert(s[comma] == ',');
    lemma_find(s, ',', i, comma);
    assert(s.subrange(i, comma) =~= a.subrange(i, comma));
    let entry = devcerts::trimmed(a.subrange(i, comma));
    if comma < n {
        lemma_sans_cut(a, b, comma + 1);
        assert((seq![devcerts::san_of(entry)] + devcerts::sans_from(a, comma + 1))
            + devcerts::sans_from(b, 0) =~= seq![devcerts::san_of(entry)] + (devcerts::sans_from(
            a,
            comma + 1,
        ) + devcerts::sans_from(b, 0)));
    } else {
        lemma_sans_from_behind(front, b, 0);
        assert((seq![devcerts::san_of(entry)] + seq![]) + devcerts::sans_from(b, 0) =~= seq![
            devcerts::san_of(entry),
        ] + devcerts::sans_from(b, 0));
        assert(seq![] + devcerts::sans_from(b, 0) =~= devcerts::sans_from(b, 0));
    }
}

/// A comma cuts a list in two: its entries are those before the comma and then those
/// behind it.
pub proof fn law_commas_separate(
    a: &str,
    b: &str,
    both: &str,
    ra: Vec<SanEntry>,
    rb: Vec<SanEntry>,
    r: Vec<SanEntry>,
)
    requires
        both@ == a@ + seq![','] + b@,
        call_ensures(devcerts::parse_sans, (a,), ra),
        call_ensures(devcerts::parse_sans, (b,), rb),
        call_ensures(devcerts::parse_sans, (both,), r),
    ensures
        devcerts::san_models(r@) == devcerts::san_models(ra@) + devcerts::san_models(rb@),
{
    lemma_sans_cut(a@, b@, 0);
}

/// White space at the ends is cut off.
proof fn lemma_trimmed(before: Seq<char>, entry: Seq<char>, behind: Seq<char>)
    requires
        forall|i: int| 0 <= i < before.len() ==> devcerts::is_white(#[trigger] before[i]),
        forall|i: int| 0 <= i < behind.len() ==> devcerts::is_white(#[trigger] behind[i]),
        entry.len() > 0,
        !devcerts::is_white(entry[0]),
        !devcerts::is_white(entry.last()),
    ensures
        devcerts::trimmed(before + entry + behind) == entry,
{
    let s = before + entry + behind;
    let i = before.len() as int;
    let j = i + entry.len();
    lemma_front(s, 0, i);
    lemma_back(s, i, s.len() as int, j);
    assert(s.subrange(i, j) =~= entry);
}

proof fn lemma_front(s: Seq<char>, i: int, to: int)
    requires
        0 <= i <= to < s.len(),
        forall|k: int| i <= k < to ==> devcerts::is_white(#[trigger] s[k]),
        !devcerts::is_white(s[to]),
    ensures
        devcerts::white_front(s, i) == to,
    decreases to - i,
{
    if i < to {
        assert(devcerts::is_white(s[i]));
        lemma_front(s, i + 1, to);
    }
}

proof fn lemma_back(s: Seq<char>, i: int, j: int, to: int)
    requires
        0 <= i < to <= j <= s.len(),
        forall|k: int| to <= k < j ==> devcerts::is_white(#[trigger] s[k]),
        !devcerts::is_white(s[to - 1]),
    ensures
        devcerts::white_back(s, i, j) == to,
    decreases j - to,
{
    if to < j {
        assert(devcerts::is_white(s[j - 1]));
        lemma_back(s, i, j - 1, to);
    }
}

/// Whether a text is a word, but for the case of its letters.
pub open spec fn is_kind(s: Seq<char>, word: Seq<char>) -> bool {
    s.len() == word.len() && forall|i: int|
        0 <= i < s.len() ==> #[trigger] s[i] == word[i] || (s[i] as int == word[i] as int + 32
            && 'A' <= word[i] <= 'Z')
}

/// An entry without commas is a name where it begins with `DNS:` and is ASCII behind
/// that, and an address where it begins with `IP:`, in any case of these letters; white
/// space around it does not count. A list of white space has no entry.
pub proof fn law_one_entry(
    raw: &str,
    before: Seq<char>,
    kind: Seq<char>,
    value: Seq<char>,
    behind: Seq<char>,
    r: Vec<SanEntry>,
)
    requires
        call_ensures(devcerts::parse_sans, (raw,), r),
        raw@ == before + (kind + seq![':'] + value) + behind,
        forall|i: int| 0 <= i < raw@.len() ==> #[trigger] raw@[i] != ',',
        forall|i: int| 0 <= i < before.len() ==> devcerts::is_white(#[trigger] before[i]),
        forall|i: int| 0 <= i < behind.len() ==> devcerts::is_white(#[trigger] behind[i]),
        is_kind(kind, "DNS"@) || is_kind(kind, "IP"@),
        value.len() > 0,
        !devcerts::is_white(value.last()),
    ensures
        r@.len() == 1,
        is_kind(kind, "IP"@) ==> (r@[0] matches SanEntry::Ip(s) && s@ == value),
        is_kind(kind, "DNS"@) && (forall|i: int|
            0 <= i < value.len() ==> (#[trigger] value[i] as int) < 128) ==> (r@[0] matches
            SanEntry::Dns(s) && s@ == value),
        is_kind(kind, "DNS"@) && !(forall|i: int|
            0 <= i < value.len() ==> (#[trigger] value[i] as int) < 128) ==> (r@[0] matches
            SanEntry::NonAsciiDns(s) && s@ == value),
{
    reveal_strlit("DNS");
    reveal_strlit("IP");
    let entry = kind + seq![':'] + value;
    let n = raw@.len() as int;
    lemma_find(raw@, ',', 0, n);
    assert(raw@.subrange(0, n) =~= raw@);
    assert("DNS"@[0] == 'D' && "DNS"@[1] == 'N' && "DNS"@[2] == 'S');
    assert("IP"@[0] == 'I' && "IP"@[1] == 'P');
    assert(entry[0] == kind[0]);
    assert(entry.last() == value.last());
    lemma_trimmed(before, entry, behind);
    let k = kind.len() as int;
    assert forall|i: int| 0 <= i < k implies #[trigger] entry[i] != ':' by {
        assert(entry[i] == kind[i]);
    }
    assert(entry[k] == ':');
    lemma_find(entry, ':', 0, k);
    assert(entry.take(k) =~= kind);
    assert(entry.skip(k + 1) =~= value);
    if is_kind(kind, "DNS"@) {
        assert(devcerts::uppercase(kind) =~= "DNS"@);
    } else {
        assert(devcerts::uppercase(kind) =~= "IP"@);
    }
    assert("DNS"@.len() != "IP"@.len());
    let all = devcerts::san_models(r@);
    assert(all =~= seq![devcerts::san_of(entry)]);
    assert(all.len() == r@.len());
    assert(all[0] == r@[0]@);
}

/// Certificates are good for as many times 86400 seconds as days are asked for, as
/// far as the time can be told.
pub proof fn law_expiry(now_secs: u64, days: u32, r: u64)
    requires
        call_ensures(devcerts::expiry_secs, (now_secs, days), r),
    ensures
        now_secs + days * 86_400 <= u64::MAX ==> r == now_secs + days * 86_400,
        now_secs + days * 86_400 > u64::MAX ==> r == u64::MAX,
{
}

/// An authority's key signs certificates and lists of revoked ones, and makes
/// signatures; a leaf's key makes signatures and enciphers keys. A server's
/// certificate is shown by servers only, a client's by clients only, and an
/// authority's by nobody.
pub proof fn law_usages(role: CertRole, usages: Vec<KeyUsage>, extended: Option<ExtendedUsage>)
    requires
        call_ensures(CertRole::key_usages, (role,), usages),
        call_ensures(CertRole::extended_usage, (role,), extended),
    ensures
        usages@.contains(KeyUsage::KeyCertSign) <==> role == CertRole::Authority,
        usages@.contains(KeyUsage::CrlSign) <==> role == CertRole::Authority,
        usages@.contains(KeyUsage::DigitalSignature),
        usages@.contains(KeyUsage::KeyEncipherment) <==> role != CertRole::Authority,
        extended == match role {
            CertRole::Authority => None::<ExtendedUsage>,
            CertRole::Server => Some(ExtendedUsage::ServerAuth),
            CertRole::Client => Some(ExtendedUsage::ClientAuth),
        },
{
    if role == CertRole::Authority {
        assert(usages@[0] == KeyUsage::KeyCertSign && usages@[1] == KeyUsage::CrlSign && usages@[2]
            == KeyUsage::DigitalSignature);
    } else {
        assert(usages@[0] == KeyUsage::DigitalSignature && usages@[1] == KeyUsage::KeyEncipherment);
    }
    let one = devcerts::extended_of(role);
    match extended {
        Some(usage) => {
            assert(one[0] == usage && one.len() == 1);
        },
        None => {
            assert(one.len() == 0);
        },
    }
}

/// The server's certificate has the server's common name and its names and addresses;
/// the client's has the client's common name; each side has its own authority.
pub proof fn law_bundle(args: Args, plan: BundlePlan, pems: BundlePems, files: Vec<(String, String)>)
    requires
        call_ensures(devcerts::plan_bundle, (&args,), plan),
        call_ensures(devcerts::bundle_files, (&pems,), files),
    ensures
        plan.server_ca.role == CertRole::Authority,
        plan.client_ca.role == CertRole::Authority,
        plan.server_leaf.role == CertRole::Server,
        plan.client_leaf.role == CertRole::Client,
        plan.server_ca.common_name@ == "otk-dev-server-ca"@,
        plan.client_ca.common_name@ == "otk-dev-client-ca"@,
        plan.server_leaf.common_name@ == args.server_cn@,
        plan.client_leaf.common_name@ == args.client_cn@,
        plan.server_leaf.server_names,
        !plan.server_ca.server_names,
        !plan.client_ca.server_names,
        !plan.client_leaf.server_names,
        holds(files@, "server-ca.pem"@, pems.server_ca.cert@),
        holds(files@, "server-ca-key.pem"@, pems.server_ca.key@),
        holds(files@, "server-cert.pem"@, pems.server_leaf.cert@),
        holds(files@, "server-key.pem"@, pems.server_leaf.key@),
        holds(files@, "server-chain.pem"@, pems.server_leaf.cert@ + pems.server_ca.cert@),
        holds(files@, "client-ca.pem"@, pems.client_ca.cert@),
        holds(files@, "client-ca-key.pem"@, pems.client_ca.key@),
        holds(files@, "client-cert.pem"@, pems.client_leaf.cert@),
        holds(files@, "client-key.pem"@, pems.client_leaf.key@),
        files@.len() == 9,
{
    assert(is_named(files@[0], "server-ca.pem"@, pems.server_ca.cert@));
    assert(is_named(files@[1], "server-ca-key.pem"@, pems.server_ca.key@));
    assert(is_named(files@[2], "server-cert.pem"@, pems.server_leaf.cert@));
    assert(is_named(files@[3], "server-key.pem"@, pems.server_leaf.key@));
    assert(is_named(
        files@[4],
        "server-chain.pem"@,
        pems.server_leaf.cert@ + pems.server_ca.cert@,
    ));
    assert(is_named(files@[5], "client-ca.pem"@, pems.client_ca.cert@));
    assert(is_named(files@[6], "client-ca-key.pem"@, pems.client_ca.key@));
    assert(is_named(files@[7], "client-cert.pem"@, pems.client_leaf.cert@));
    assert(is_named(files@[8], "client-key.pem"@, pems.client_leaf.key@));
}

/// Whether a file has this name and this content.
pub open spec fn is_named(f: (String, String), name: Seq<char>, content: Seq<char>) -> bool {
    f.0@ == name && f.1@ == content
}

/// Whether there is a file with this name and this content.
pub open spec fn holds(files: Seq<(String, String)>, name: Seq<char>, content: Seq<char>) -> bool {
    exists|i: int| 0 <= i < files.len() && is_named(#[trigger] files[i], name, content)
}

/// Whether a leaf is what it has to be: no authority, under its own common name, good
/// for one side only, and signed by the authority of its side.
pub open spec fn is_leaf(
    leaf: Issued,
    ca: Issued,
    name: Seq<char>,
    side: ExtendedUsage,
    not_after: int,
) -> bool {
    let c = issue::cert_model(leaf.cert());
    &&& !c.facts.authority
    &&& c.facts.common_name == name
    &&& c.facts.extended == seq![side]
    &&& c.facts.usages == seq![KeyUsage::DigitalSignature, KeyUsage::KeyEncipherment]
    &&& c.facts.not_after == not_after
    &&& c.subject_key == issue::public_key(leaf.key())
    &&& c.signer_key == issue::public_key(ca.key())
    &&& c.issuer == issue::cert_model(ca.cert()).facts.common_name
}

/// Whether an authority is what it has to be: one that signed itself, under its own
/// name, and is shown by nobody.
pub open spec fn is_authority(ca: Issued, name: Seq<char>, not_after: int) -> bool {
    let c = issue::cert_model(ca.cert());
    &&& c.facts.authority
    &&& c.facts.common_name == name
    &&& c.facts.names.len() == 0
    &&& c.facts.extended.len() == 0
    &&& c.facts.usages == seq![KeyUsage::KeyCertSign, KeyUsage::CrlSign, KeyUsage::DigitalSignature]
    &&& c.facts.not_after == not_after
    &&& c.subject_key == issue::public_key(ca.key())
    &&& c.signer_key == issue::public_key(ca.key())
    &&& c.issuer == name
}

/// A bundle that is issued has two authorities that signed themselves, and a leaf of
/// each side that the authority of that side signed. All expire after the days that
/// were asked for. Only the server's leaf has names, one for each entry of the list,
/// in order. In PEM each certificate stands with its own key.
pub proof fn law_issued_bundle(
    args: Args,
    names: Vec<SanEntry>,
    now_secs: u64,
    bundle: IssuedBundle,
    pems: BundlePems,
)
    requires
        call_ensures(
            issue::issue_bundle,
            (&args, &names, now_secs),
            Ok::<IssuedBundle, String>(bundle),
        ),
        call_ensures(issue::bundle_pems, (&bundle,), pems),
    ensures
        ({
            let end = now_secs + args.days * 86_400;
            let san = issue::cert_model(bundle.server_leaf.cert()).facts.names;
            &&& is_authority(bundle.server_ca, "otk-dev-server-ca"@, end)
            &&& is_authority(bundle.client_ca, "otk-dev-client-ca"@, end)
            &&& is_leaf(
                bundle.server_leaf,
                bundle.server_ca,
                args.server_cn@,
                ExtendedUsage::ServerAuth,
                end,
            )
            &&& is_leaf(
                bundle.client_leaf,
                bundle.client_ca,
                args.client_cn@,
                ExtendedUsage::ClientAuth,
                end,
            )
            &&& issue::cert_model(bundle.client_leaf.cert()).facts.names.len() == 0
            &&& san.len() == names@.len()
            &&& forall|i: int|
                0 <= i < san.len() ==> is_certified(#[trigger] san[i], names@[i])
        }),
        pems.server_ca.cert@ == issue::cert_pem(bundle.server_ca.cert()),
        pems.server_ca.key@ == issue::key_pem(bundle.server_ca.key()),
        pems.server_leaf.cert@ == issue::cert_pem(bundle.server_leaf.cert()),
        pems.server_leaf.key@ == issue::key_pem(bundle.server_leaf.key()),
        pems.client_ca.cert@ == issue::cert_pem(bundle.client_ca.cert()),
        pems.client_ca.key@ == issue::key_pem(bundle.client_ca.key()),
        pems.client_leaf.cert@ == issue::cert_pem(bundle.client_leaf.cert()),
        pems.client_leaf.key@ == issue::key_pem(bundle.client_leaf.key()),
{
    let san = issue::cert_model(bundle.server_leaf.cert()).facts.names;
    let es = devcerts::san_models(names@);
    assert forall|i: int| 0 <= i < san.len() implies is_certified(#[trigger] san[i], names@[i]) by {
        assert(es[i] == names@[i]@);
    }
}

/// Whether a certificate has an entry: a name as it was written, an address in the
/// form in which addresses are displayed.
pub open spec fn is_certified(san: SanModel, entry: SanEntry) -> bool {
    match entry {
        SanEntry::Dns(s) => san == SanModel::Dns(s@),
        SanEntry::Ip(s) => san == SanModel::Ip(issue::address_form(s@)),
        _ => true,
    }
}

/// A list can be used where it has an entry, and every entry is a name or an address:
/// then its entries are what they are in the list, in order. Otherwise it is refused,
/// and so is one with an address that is none.
pub proof fn law_usable_lists(
    list: &str,
    entries: Vec<SanEntry>,
    r: Result<Vec<SanEntry>, SanError>,
)
    requires
        call_ensures(devcerts::parse_sans, (list,), entries),
        call_ensures(issue::server_names, (list,), r),
    ensures
        match r {
            Ok(names) => {
                &&& entries@.len() > 0
                &&& devcerts::san_models(names@) == devcerts::san_models(entries@)
                &&& forall|i: int|
                    0 <= i < entries@.len() ==> (#[trigger] entries@[i] is Dns || entries@[i] is Ip)
            },
            Err(_) => entries@.len() == 0 || exists|i: int|
                0 <= i < entries@.len() && !(#[trigger] entries@[i] is Dns),
        },
        entries@.len() == 0 ==> r matches Err(SanError::Empty),
{
    let es = devcerts::san_models(entries@);
    assert(es.len() == entries@.len());
    let faults = issue::address_faults(es);
    lemma_list(es, faults, 0);
    assert forall|i: int| 0 <= i < entries@.len() implies (es[i] is Dns <==> #[trigger] entries@[i]
        is Dns) && (es[i] is Ip <==> entries@[i] is Ip) by {
        assert(es[i] == entries@[i]@);
    }
    if r is Err && es.len() > 0 {
        let i = choose|i: int| 0 <= i < es.len() && !(#[trigger] es[i] is Dns);
        assert(!(entries@[i] is Dns));
    }
}

/// A list of names has no fault, and one without a fault has only names and addresses.
proof fn lemma_list(es: Seq<SanModel>, addresses: Seq<Option<Seq<char>>>, from: int)
    requires
        0 <= from <= es.len(),
    ensures
        issue::first_entry_fault(es, addresses, from) is None ==> forall|i: int|
            from <= i < es.len() ==> (#[trigger] es[i] is Dns || es[i] is Ip),
        issue::first_entry_fault(es, addresses, from) is Some ==> exists|i: int|
            from <= i < es.len() && !(#[trigger] es[i] is Dns),
    decreases es.len() - from,
{
    if from < es.len() {
        lemma_list(es, addresses, from + 1);
        if issue::entry_fault(es[from], addresses[from]) is Some {
            assert(!(es[from] is Dns));
        } else if issue::first_entry_fault(es, addresses, from + 1) is Some {
            let i = choose|i: int| from + 1 <= i < es.len() && !(#[trigger] es[i] is Dns);
            assert(!(es[i] is Dns));
        }
    }
}

} // verus!
