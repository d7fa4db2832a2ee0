//! Certificates for trying things out: what the command line says, which
//! certificates are issued, and which files they go to.

pub mod issue;
pub mod wording;

use vstd::prelude::*;
use vstd::string::*;
use vstd::utf8::*;

verus! {

/// How the command is used.
pub const USAGE: &'static str = "otk-devcerts -- generate a complete TLS + mTLS cert bundle for Open Timekeeping dev workflows.\n\nUsage:\n  otk-devcerts --out <DIR> [OPTIONS]\n\nOptions:\n  --out <DIR>           Output directory. Created if it does not exist;\n                        files inside are overwritten.\n  --server-san <LIST>   Comma-separated server SANs. Each entry is\n                        `DNS:<name>` or `IP:<addr>`. Default:\n                        \"DNS:localhost,IP:127.0.0.1,IP:::1\".\n  --server-cn <NAME>    Server leaf cert CN. Default: \"localhost\".\n  --client-cn <NAME>    Client leaf cert CN. Default: \"otk-dev-client\".\n  --days <N>            Validity period for every cert, in days. Default: 30.\n  -h, --help            Print this help.\n";

/// An option that takes a value.
#[derive(Debug, Clone, Copy, PartialEq, Eq, Structural)]
pub enum ValueOption {
    Out,
    ServerSan,
    ServerCn,
    ClientCn,
    Days,
}

/// What is wrong with a number of days.
#[derive(Debug, Clone, Copy, PartialEq, Eq, Structural)]
pub enum DaysFault {
    Empty,
    InvalidDigit,
    TooLarge,
}

/// What is wrong with a command line.
#[derive(Debug)]
pub enum ArgsError {
    /// An option stands at the end, without its value.
    MissingValue(ValueOption),
    /// The number of days is none.
    Days(DaysFault),
    /// There is no such option.
    Unknown(String),
    /// It does not say where to write.
    OutRequired,
}

/// What a command line asks for.
#[derive(Debug)]
pub struct Args {
    /// The directory to write to.
    pub out: String,
    /// The names and addresses of the server, as they were written.
    pub server_san: String,
    pub server_cn: String,
    pub client_cn: String,
    /// For how many days the certificates are good.
    pub days: u32,
}

/// What a command line asks for.
#[derive(Debug)]
pub enum Command {
    /// To be told how the command is used.
    Help,
    /// To issue certificates.
    Run(Args),
}

/// What a command line asks for, as far as it was read.
#[verifier::ext_equal]
pub struct ArgsModel {
    pub out: Option<Seq<char>>,
    pub server_san: Option<Seq<char>>,
    pub server_cn: Seq<char>,
    pub client_cn: Seq<char>,
    pub days: u32,
}

/// What is wrong with a command line, as a model.
#[verifier::ext_equal]
pub enum ArgsFault {
    MissingValue(ValueOption),
    Days(DaysFault),
    Unknown(Seq<char>),
    OutRequired,
}

impl View for ArgsError {
    type V = ArgsFault;

    open spec fn view(&self) -> ArgsFault {
        match self {
            ArgsError::MissingValue(o) => ArgsFault::MissingValue(*o),
            ArgsError::Days(e) => ArgsFault::Days(*e),
            ArgsError::Unknown(s) => ArgsFault::Unknown(s@),
            ArgsError::OutRequired => ArgsFault::OutRequired,
        }
    }
}

/// A command line that says nothing.
pub open spec fn default_args() -> ArgsModel {
    ArgsModel {
        out: None,
        server_san: None,
        server_cn: "localhost"@,
        client_cn: "otk-dev-client"@,
        days: 30,
    }
}

/// The names and addresses of a server, where nothing else is said.
pub open spec fn default_sans() -> Seq<char> {
    "DNS:localhost,IP:127.0.0.1,IP:::1"@
}

/// The option that a word names, if it takes a value.
pub open spec fn option_named(word: Seq<char>) -> Option<ValueOption> {
    if word == "--out"@ {
        Some(ValueOption::Out)
    } else if word == "--server-san"@ {
        Some(ValueOption::ServerSan)
    } else if word == "--server-cn"@ {
        Some(ValueOption::ServerCn)
    } else if word == "--client-cn"@ {
        Some(ValueOption::ClientCn)
    } else if word == "--days"@ {
        Some(ValueOption::Days)
    } else {
        None
    }
}

/// Whether a word asks for help.
pub open spec fn asks_help(word: Seq<char>) -> bool {
    word == "-h"@ || word == "--help"@
}

/// A command line after an option and its value.
pub open spec fn with_value(m: ArgsModel, option: ValueOption, value: Seq<char>) -> Result<
    ArgsModel,
    ArgsFault,
> {
    match option {
        ValueOption::Out => Ok(ArgsModel { out: Some(value), ..m }),
        ValueOption::ServerSan => Ok(ArgsModel { server_san: Some(value), ..m }),
        ValueOption::ServerCn => Ok(ArgsModel { server_cn: value, ..m }),
        ValueOption::ClientCn => Ok(ArgsModel { client_cn: value, ..m }),
        ValueOption::Days => match days_value(encode_utf8(value)) {
            Ok(days) => Ok(ArgsModel { days, ..m }),
            Err(e) => Err(ArgsFault::Days(e)),
        },
    }
}

/// What the words from number `i` on ask for, after `m`: `None` for help. The
/// first thing that is wrong, or that asks for help, decides.
pub open spec fn args_from(words: Seq<Seq<char>>, i: int, m: ArgsModel) -> Result<
    Option<ArgsModel>,
    ArgsFault,
>
    decreases words.len() - i,
{
    if !(0 <= i < words.len()) {
        if m.out is None {
            Err(ArgsFault::OutRequired)
        } else {
            Ok(Some(m))
        }
    } else if asks_help(words[i]) {
        Ok(None)
    } else {
        match option_named(words[i]) {
            None => Err(ArgsFault::Unknown(words[i])),
            Some(option) => if i + 1 >= words.len() {
                Err(ArgsFault::MissingValue(option))
            } else {
                match with_value(m, option, words[i + 1]) {
                    Err(e) => Err(e),
                    Ok(next) => args_from(words, i + 2, next),
                }
            },
        }
    }
}

/// The words of a command line.
pub open spec fn words_of(args: Seq<String>) -> Seq<Seq<char>> {
    Seq::new(args.len(), |i: int| args[i]@)
}

/// Whether what a command line asks for is this.
pub open spec fn asks_for(c: Command, m: Option<ArgsModel>) -> bool {
    match (c, m) {
        (Command::Help, None) => true,
        (Command::Run(a), Some(m)) => m.out == Some(a.out@) && a.server_san@ == (
        match m.server_san {
            Some(s) => s,
            None => default_sans(),
        }) && a.server_cn@ == m.server_cn && a.client_cn@ == m.client_cn && a.days == m.days,
        _ => false,
    }
}

/// Whether two texts are the same.
fn same_text(a: &str, b: &str) -> (r: bool)
    ensures
        r == (a@ == b@),
{
    a.to_owned() == b.to_owned()
}

/// The option that a word names, if it takes a value.
fn option_of(word: &str) -> (r: Option<ValueOption>)
    ensures
        r == option_named(word@),
{
    if same_text(word, "--out") {
        Some(ValueOption::Out)
    } else if same_text(word, "--server-san") {
        Some(ValueOption::ServerSan)
    } else if same_text(word, "--server-cn") {
        Some(ValueOption::ServerCn)
    } else if same_text(word, "--client-cn") {
        Some(ValueOption::ClientCn)
    } else if same_text(word, "--days") {
        Some(ValueOption::Days)
    } else {
        None
    }
}

/// What a command line asks for, without the name of the command.
pub fn parse_args(args: &Vec<String>) -> (r: Result<Command, ArgsError>)
    ensures
        match r {
            Ok(c) => args_from(words_of(args@), 0, default_args()) is Ok && asks_for(
                c,
                args_from(words_of(args@), 0, default_args())->Ok_0,
            ),
            Err(e) => args_from(words_of(args@), 0, default_args()) == Err::<
                Option<ArgsModel>,
                ArgsFault,
            >(e@),
        },
{
    let ghost words = words_of(args@);
    let ghost mut m = default_args();
    let mut out: Option<String> = None;
    let mut server_san: Option<String> = None;
    let mut server_cn: String = "localhost".to_owned();
    let mut client_cn: String = "otk-dev-client".to_owned();
    let mut days: u32 = 30;
    let mut i: usize = 0;
    while i < args.len()
        invariant
            i <= args@.len(),
            words == words_of(args@),
            m.out == (match out {
                Some(s) => Some(s@),
                None => None,
            }),
            m.server_san == (match server_san {
                Some(s) => Some(s@),
                None => None,
            }),
            m.server_cn == server_cn@,
            m.client_cn == client_cn@,
            m.days == days,
            args_from(words, 0, default_args()) == args_from(words, i as int, m),
        decreases args@.len() - i,
    {
        let word = args[i].as_str();
        assert(words[i as int] == word@);
        if same_text(word, "-h") || same_text(word, "--help") {
            return Ok(Command::Help);
        }
        let option = match option_of(word) {
            Some(option) => option,
            None => {
                return Err(ArgsError::Unknown(word.to_owned()));
            },
        };
        if i + 1 >= args.len() {
            return Err(ArgsError::MissingValue(option));
        }
        let value = args[i + 1].as_str();
        assert(words[i + 1] == value@);
        match option {
            ValueOption::Out => {
                out = Some(value.to_owned());
            },
            ValueOption::ServerSan => {
                server_san = Some(value.to_owned());
            },
            ValueOption::ServerCn => {
                server_cn = value.to_owned();
            },
            ValueOption::ClientCn => {
                client_cn = value.to_owned();
            },
            ValueOption::Days => match parse_days(value) {
                Ok(n) => {
                    days = n;
                },
                Err(e) => {
                    return Err(ArgsError::Days(e));
                },
            },
        }
        proof {
            m = with_value(m, option, value@)->Ok_0;
        }
        assert(args@.len() == args.len());
        i = i + 2;
    }
    match out {
        None => Err(ArgsError::OutRequired),
        Some(out) => {
            let server_san = match server_san {
                Some(s) => s,
                None => "DNS:localhost,IP:127.0.0.1,IP:::1".to_owned(),
            };
            Ok(Command::Run(Args { out, server_san, server_cn, client_cn, days }))
        },
    }
}

/// The number that the digits from number `i` on spell, behind `v`.
pub open spec fn digits_from(b: Seq<u8>, i: int, v: int) -> Result<u32, DaysFault>
    decreases b.len() - i,
{
    if !(0 <= i < b.len()) {
        Ok(v as u32)
    } else if b[i] < 0x30 || b[i] > 0x39 {
        Err(DaysFault::InvalidDigit)
    } else if v * 10 + (b[i] - 0x30) > u32::MAX {
        Err(DaysFault::TooLarge)
    } else {
        digits_from(b, i + 1, v * 10 + (b[i] - 0x30))
    }
}

/// The number that a text spells: decimal digits, with a plus sign or not.
pub open spec fn days_value(b: Seq<u8>) -> Result<u32, DaysFault> {
    if b.len() == 0 {
        Err(DaysFault::Empty)
    } else if b[0] == 0x2b {
        if b.len() == 1 {
            Err(DaysFault::InvalidDigit)
        } else {
            digits_from(b, 1, 0)
        }
    } else {
        digits_from(b, 0, 0)
    }
}

/// The number that a text spells.
pub fn parse_days(s: &str) -> (r: Result<u32, DaysFault>)
    ensures
        r == days_value(encode_utf8(s@)),
{
    let b = s.as_bytes();
    if b.len() == 0 {
        return Err(DaysFault::Empty);
    }
    let mut i: usize = 0;
    if b[0] == 0x2b {
        if b.len() == 1 {
            return Err(DaysFault::InvalidDigit);
        }
        i = 1;
    }
    let mut v: u64 = 0;
    while i < b.len()
        invariant
            i <= b@.len(),
            b@ == encode_utf8(s@),
            v <= u32::MAX,
            days_value(b@) == digits_from(b@, i as int, v as int),
        decreases b@.len() - i,
    {
        let c: u8 = b[i];
        if c < 0x30 || c > 0x39 {
            return Err(DaysFault::InvalidDigit);
        }
        let next: u64 = v * 10 + (c - 0x30) as u64;
        if next > u32::MAX as u64 {
            return Err(DaysFault::TooLarge);
        }
        v = next;
        i = i + 1;
    }
    Ok(v as u32)
}

impl DaysFault {
    /// The sentence for the fault.
    pub open spec fn text(self) -> Seq<char> {
        match self {
            DaysFault::Empty => "cannot parse integer from empty string"@,
            DaysFault::InvalidDigit => "invalid digit found in string"@,
            DaysFault::TooLarge => "number too large to fit in target type"@,
        }
    }

    /// A sentence that tells a person what is wrong.
    pub fn message(&self) -> (r: &'static str)
        ensures
            r@ == self.text(),
    {
        match self {
            DaysFault::Empty => "cannot parse integer from empty string",
            DaysFault::InvalidDigit => "invalid digit found in string",
            DaysFault::TooLarge => "number too large to fit in target type",
        }
    }
}

impl ValueOption {
    /// The option as it is written.
    pub open spec fn text(self) -> Seq<char> {
        match self {
            ValueOption::Out => "--out"@,
            ValueOption::ServerSan => "--server-san"@,
            ValueOption::ServerCn => "--server-cn"@,
            ValueOption::ClientCn => "--client-cn"@,
            ValueOption::Days => "--days"@,
        }
    }

    /// The option as it is written.
    pub fn name(&self) -> (r: &'static str)
        ensures
            r@ == self.text(),
    {
        match self {
            ValueOption::Out => "--out",
            ValueOption::ServerSan => "--server-san",
            ValueOption::ServerCn => "--server-cn",
            ValueOption::ClientCn => "--client-cn",
            ValueOption::Days => "--days",
        }
    }
}

impl ArgsError {
    /// The sentence for the error.
    pub open spec fn text(&self) -> Seq<char> {
        match self@ {
            ArgsFault::MissingValue(o) => o.text() + " requires a value"@,
            ArgsFault::Days(e) => "--days: "@ + e.text(),
            ArgsFault::Unknown(s) => "unknown argument: "@ + s,
            ArgsFault::OutRequired => "--out is required"@,
        }
    }

    /// A sentence that tells a person what is wrong.
    pub fn message(&self) -> (r: String)
        ensures
            r@ == self.text(),
    {
        match self {
            ArgsError::MissingValue(o) => o.name().to_owned().concat(" requires a value"),
            ArgsError::Days(e) => "--days: ".to_owned().concat(e.message()),
            ArgsError::Unknown(s) => "unknown argument: ".to_owned().concat(s.as_str()),
            ArgsError::OutRequired => "--out is required".to_owned(),
        }
    }
}

/// An entry in a list of names and addresses.
#[derive(Debug)]
pub enum SanEntry {
    /// A name.
    Dns(String),
    /// A name that is not ASCII, as a name in a certificate has to be.
    NonAsciiDns(String),
    /// An address, as it was written.
    Ip(String),
    /// An entry that does not say what it is.
    NoKind(String),
    /// An entry of another kind; the kind is in upper case.
    UnknownKind { kind: String, entry: String },
}

/// An entry, as a model.
#[verifier::ext_equal]
pub enum SanModel {
    Dns(Seq<char>),
    NonAsciiDns(Seq<char>),
    Ip(Seq<char>),
    NoKind(Seq<char>),
    UnknownKind(Seq<char>, Seq<char>),
}

impl View for SanEntry {
    type V = SanModel;

    open spec fn view(&self) -> SanModel {
        match self {
            SanEntry::Dns(s) => SanModel::Dns(s@),
            SanEntry::NonAsciiDns(s) => SanModel::NonAsciiDns(s@),
            SanEntry::Ip(s) => SanModel::Ip(s@),
            SanEntry::NoKind(s) => SanModel::NoKind(s@),
            SanEntry::UnknownKind { kind, entry } => SanModel::UnknownKind(kind@, entry@),
        }
    }
}

/// Whether a character is white space, by Unicode.
pub open spec fn is_white(c: char) -> bool {
    0x9 <= c as int <= 0xd || c as int == 0x20 || c as int == 0x85 || c as int == 0xa0 || c as int
        == 0x1680 || 0x2000 <= c as int <= 0x200a || c as int == 0x2028 || c as int == 0x2029
        || c as int == 0x202f || c as int == 0x205f || c as int == 0x3000
}

fn white(c: char) -> (r: bool)
    ensures
        r == is_white(c),
{
    let n: u32 = c as u32;
    (0x9 <= n && n <= 0xd) || n == 0x20 || n == 0x85 || n == 0xa0 || n == 0x1680 || (0x2000 <= n
        && n <= 0x200a) || n == 0x2028 || n == 0x2029 || n == 0x202f || n == 0x205f || n == 0x3000
}

/// Where the first character from `i` on that is `c` stands; the length of the
/// text where there is none.
pub open spec fn find(s: Seq<char>, c: char, i: int) -> int
    decreases s.len() - i,
{
    if 0 <= i < s.len() && s[i] != c {
        find(s, c, i + 1)
    } else {
        i
    }
}

/// Where the text from `i` on begins, without white space.
pub open spec fn white_front(s: Seq<char>, i: int) -> int
    decreases s.len() - i,
{
    if 0 <= i < s.len() && is_white(s[i]) {
        white_front(s, i + 1)
    } else {
        i
    }
}

/// Where the text from `i` to before `j` ends, without white space.
pub open spec fn white_back(s: Seq<char>, i: int, j: int) -> int
    decreases j - i,
{
    if i < j <= s.len() && 0 <= i && is_white(s[j - 1]) {
        white_back(s, i, j - 1)
    } else {
        j
    }
}

/// A text without the white space at both ends.
pub open spec fn trimmed(s: Seq<char>) -> Seq<char> {
    let i = white_front(s, 0);
    s.subrange(i, white_back(s, i, s.len() as int))
}

/// A character in upper case, as far as it is ASCII.
pub open spec fn upper(c: char) -> char {
    if 'a' <= c <= 'z' {
        ((c as int) - 32) as char
    } else {
        c
    }
}

/// A text in upper case, as far as it is ASCII.
pub open spec fn uppercase(s: Seq<char>) -> Seq<char> {
    Seq::new(s.len(), |i: int| upper(s[i]))
}

/// Whether a text is ASCII.
pub open spec fn all_ascii(s: Seq<char>) -> bool {
    forall|i: int| 0 <= i < s.len() ==> (#[trigger] s[i] as int) < 128
}

/// What an entry says.
pub open spec fn san_of(entry: Seq<char>) -> SanModel {
    let colon = find(entry, ':', 0);
    if colon >= entry.len() {
        SanModel::NoKind(entry)
    } else {
        let kind = uppercase(entry.take(colon));
        let value = entry.skip(colon + 1);
        if kind == "DNS"@ {
            if all_ascii(value) {
                SanModel::Dns(value)
            } else {
                SanModel::NonAsciiDns(value)
            }
        } else if kind == "IP"@ {
            SanModel::Ip(value)
        } else {
            SanModel::UnknownKind(kind, entry)
        }
    }
}

/// What the list says from character `i` on: its entries stand between commas,
/// and empty ones do not count.
pub open spec fn sans_from(s: Seq<char>, i: int) -> Seq<SanModel>
    decreases s.len() - i,
{
    if !(0 <= i <= s.len()) {
        seq![]
    } else {
        let comma = find(s, ',', i);
        let entry = trimmed(s.subrange(i, comma));
        let rest = if comma < s.len() && comma >= i {
            sans_from(s, comma + 1)
        } else {
            seq![]
        };
        if entry.len() == 0 {
            rest
        } else {
            seq![san_of(entry)] + rest
        }
    }
}

/// The models of entries.
pub open spec fn san_models(s: Seq<SanEntry>) -> Seq<SanModel> {
    Seq::new(s.len(), |i: int| s[i]@)
}

/// Where the first such character from `i` on stands.
fn find_char(s: &str, len: usize, c: char, i: usize) -> (r: usize)
    requires
        len == s@.len(),
        i <= len,
    ensures
        r == find(s@, c, i as int),
        i <= r <= len,
{
    let mut k: usize = i;
    while k < len && s.get_char(k) != c
        invariant
            len == s@.len(),
            i <= k <= len,
            find(s@, c, i as int) == find(s@, c, k as int),
        decreases len - k,
    {
        k = k + 1;
    }
    k
}

/// A text without the white space at both ends.
fn trim<'a>(s: &'a str) -> (r: &'a str)
    ensures
        r@ == trimmed(s@),
{
    let len: usize = s.unicode_len();
    let mut i: usize = 0;
    while i < len && white(s.get_char(i))
        invariant
            len == s@.len(),
            i <= len,
            white_front(s@, 0) == white_front(s@, i as int),
        decreases len - i,
    {
        i = i + 1;
    }
    let mut j: usize = len;
    while i < j && white(s.get_char(j - 1))
        invariant
            len == s@.len(),
            i <= j <= len,
            white_back(s@, i as int, len as int) == white_back(s@, i as int, j as int),
        decreases j,
    {
        j = j - 1;
    }
    s.substring_char(i, j)
}

/// Whether a text is ASCII.
fn ascii_only(s: &str) -> (r: bool)
    ensures
        r == all_ascii(s@),
{
    let len: usize = s.unicode_len();
    let mut i: usize = 0;
    while i < len
        invariant
            len == s@.len(),
            i <= len,
            forall|k: int| 0 <= k < i ==> (#[trigger] s@[k] as int) < 128,
        decreases len - i,
    {
        let c = s.get_char(i);
        if c as u32 >= 128 {
            assert(s@[i as int] as int >= 128);
            return false;
        }
        i = i + 1;
    }
    true
}

/// A text in upper case, as far as it is ASCII.
fn to_upper(s: &str) -> (r: String)
    ensures
        r@ == uppercase(s@),
{
    let capital = "ABCDEFGHIJKLMNOPQRSTUVWXYZ";
    let len: usize = s.unicode_len();
    let mut out: String = "".to_owned();
    let mut i: usize = 0;
    proof {
        reveal_strlit("");
        reveal_strlit("ABCDEFGHIJKLMNOPQRSTUVWXYZ");
        assert(out@ =~= uppercase(s@).take(0));
    }
    while i < len
        invariant
            len == s@.len(),
            i <= len,
            capital@ == "ABCDEFGHIJKLMNOPQRSTUVWXYZ"@,
            out@ == uppercase(s@).take(i as int),
        decreases len - i,
    {
        let c = s.get_char(i);
        let n: u32 = c as u32;
        let piece = if 97 <= n && n <= 122 {
            proof {
                reveal_strlit("ABCDEFGHIJKLMNOPQRSTUVWXYZ");
            }
            let at: usize = (n - 97) as usize;
            capital.substring_char(at, at + 1)
        } else {
            s.substring_char(i, i + 1)
        };
        proof {
            assert(piece@ =~= seq![upper(c)]);
            assert(uppercase(s@).take(i + 1) =~= uppercase(s@).take(i as int) + piece@);
        }
        out.append(piece);
        i = i + 1;
    }
    assert(uppercase(s@).take(i as int) =~= uppercase(s@));
    out
}

/// What an entry says.
fn parse_entry(entry: &str) -> (r: SanEntry)
    ensures
        r@ == san_of(entry@),
{
    let len: usize = entry.unicode_len();
    let colon: usize = find_char(entry, len, ':', 0);
    if colon >= len {
        return SanEntry::NoKind(entry.to_owned());
    }
    let kind = to_upper(entry.substring_char(0, colon));
    let value = entry.substring_char(colon + 1, len);
    proof {
        assert(entry@.subrange(0, colon as int) =~= entry@.take(colon as int));
        assert(value@ =~= entry@.skip(colon + 1));
    }
    if same_text(kind.as_str(), "DNS") {
        if ascii_only(value) {
            SanEntry::Dns(value.to_owned())
        } else {
            SanEntry::NonAsciiDns(value.to_owned())
        }
    } else if same_text(kind.as_str(), "IP") {
        SanEntry::Ip(value.to_owned())
    } else {
        SanEntry::UnknownKind { kind, entry: entry.to_owned() }
    }
}

/// The entries of a list of names and addresses.
pub fn parse_sans(raw: &str) -> (r: Vec<SanEntry>)
    ensures
        san_models(r@) == sans_from(raw@, 0),
{
    let len: usize = raw.unicode_len();
    let mut out: Vec<SanEntry> = Vec::new();
    let mut i: usize = 0;
    assert(san_models(out@) + sans_from(raw@, 0) =~= sans_from(raw@, 0));
    loop
        invariant_except_break
            len == raw@.len(),
            i <= len,
            san_models(out@) + sans_from(raw@, i as int) == sans_from(raw@, 0),
        ensures
            san_models(out@) == sans_from(raw@, 0),
        decreases len - i,
    {
        let comma: usize = find_char(raw, len, ',', i);
        let entry = trim(raw.substring_char(i, comma));
        let ghost rest = if comma < len {
            sans_from(raw@, comma + 1)
        } else {
            seq![]
        };
        if entry.unicode_len() > 0 {
            let ghost before = out@;
            out.push(parse_entry(entry));
            proof {
                assert(san_models(out@) =~= san_models(before).push(san_of(entry@)));
                assert(san_models(before) + (seq![san_of(entry@)] + rest) =~= san_models(out@)
                    + rest);
            }
        }
        if comma >= len {
            assert(san_models(out@) + rest =~= san_models(out@));
            break ;
        }
        i = comma + 1;
    }
    out
}

/// When certificates expire that are good for some days from now on, in seconds
/// since the Unix epoch.
pub fn expiry_secs(now_secs: u64, days: u32) -> (r: u64)
    ensures
        r == (if now_secs + days * 86_400 > u64::MAX {
            u64::MAX as int
        } else {
            now_secs + days * 86_400
        }),
{
    let lifetime: u64 = days as u64 * 86_400;
    if lifetime > u64::MAX - now_secs {
        u64::MAX
    } else {
        now_secs + lifetime
    }
}

/// What a certificate is for.
#[derive(Debug, Clone, Copy, PartialEq, Eq, Structural)]
pub enum CertRole {
    /// It signs other certificates.
    Authority,
    /// A server shows it.
    Server,
    /// A client shows it.
    Client,
}

/// What a key may be used for.
#[derive(Debug, Clone, Copy, PartialEq, Eq, Structural)]
pub enum KeyUsage {
    KeyCertSign,
    CrlSign,
    DigitalSignature,
    KeyEncipherment,
}

/// What a certificate may be shown for.
#[derive(Debug, Clone, Copy, PartialEq, Eq, Structural)]
pub enum ExtendedUsage {
    ServerAuth,
    ClientAuth,
}

/// A certificate to be issued.
#[derive(Debug)]
pub struct CertPlan {
    pub role: CertRole,
    pub common_name: String,
    /// Whether it has the names and addresses of the server.
    pub server_names: bool,
}

/// The certificates to be issued: an authority and a leaf for the server, and
/// others for the client, so that neither side's authority vouches for the
/// other.
#[derive(Debug)]
pub struct BundlePlan {
    pub server_ca: CertPlan,
    pub server_leaf: CertPlan,
    pub client_ca: CertPlan,
    pub client_leaf: CertPlan,
}

/// What the key of a certificate may be used for.
pub open spec fn usages_of(role: CertRole) -> Seq<KeyUsage> {
    match role {
        CertRole::Authority => seq![
            KeyUsage::KeyCertSign,
            KeyUsage::CrlSign,
            KeyUsage::DigitalSignature,
        ],
        _ => seq![KeyUsage::DigitalSignature, KeyUsage::KeyEncipherment],
    }
}

/// What a certificate may be shown for.
pub open spec fn extended_of(role: CertRole) -> Seq<ExtendedUsage> {
    match role {
        CertRole::Authority => seq![],
        CertRole::Server => seq![ExtendedUsage::ServerAuth],
        CertRole::Client => seq![ExtendedUsage::ClientAuth],
    }
}

impl CertRole {
    /// What the key of such a certificate may be used for.
    pub fn key_usages(self) -> (r: Vec<KeyUsage>)
        ensures
            r@ == usages_of(self),
    {
        match self {
            CertRole::Authority => vec![
                KeyUsage::KeyCertSign,
                KeyUsage::CrlSign,
                KeyUsage::DigitalSignature,
            ],
            _ => vec![KeyUsage::DigitalSignature, KeyUsage::KeyEncipherment],
        }
    }

    /// What such a certificate may be shown for; an authority's is not shown.
    pub fn extended_usage(self) -> (r: Option<ExtendedUsage>)
        ensures
            extended_of(self) == match r {
                Some(usage) => seq![usage],
                None => seq![],
            },
    {
        match self {
            CertRole::Authority => None,
            CertRole::Server => Some(ExtendedUsage::ServerAuth),
            CertRole::Client => Some(ExtendedUsage::ClientAuth),
        }
    }
}

/// The certificates that a command line asks for.
pub fn plan_bundle(args: &Args) -> (r: BundlePlan)
    ensures
        r.server_ca.role == CertRole::Authority,
        r.server_ca.common_name@ == "otk-dev-server-ca"@,
        !r.server_ca.server_names,
        r.server_leaf.role == CertRole::Server,
        r.server_leaf.common_name@ == args.server_cn@,
        r.server_leaf.server_names,
        r.client_ca.role == CertRole::Authority,
        r.client_ca.common_name@ == "otk-dev-client-ca"@,
        !r.client_ca.server_names,
        r.client_leaf.role == CertRole::Client,
        r.client_leaf.common_name@ == args.client_cn@,
        !r.client_leaf.server_names,
{
    BundlePlan {
        server_ca: CertPlan {
            role: CertRole::Authority,
            common_name: "otk-dev-server-ca".to_owned(),
            server_names: false,
        },
        server_leaf: CertPlan {
            role: CertRole::Server,
            common_name: args.server_cn.clone(),
            server_names: true,
        },
        client_ca: CertPlan {
            role: CertRole::Authority,
            common_name: "otk-dev-client-ca".to_owned(),
            server_names: false,
        },
        client_leaf: CertPlan {
            role: CertRole::Client,
            common_name: args.client_cn.clone(),
            server_names: false,
        },
    }
}

/// A certificate and its key, in PEM.
#[derive(Debug)]
pub struct IssuedPem {
    pub cert: String,
    pub key: String,
}

/// All certificates that were issued.
#[derive(Debug)]
pub struct BundlePems {
    pub server_ca: IssuedPem,
    pub server_leaf: IssuedPem,
    pub client_ca: IssuedPem,
    pub client_leaf: IssuedPem,
}

/// A file of this name with this content.
pub open spec fn is_file(f: (String, String), name: Seq<char>, content: Seq<char>) -> bool {
    f.0@ == name && f.1@ == content
}

/// The files of a bundle, by name and content, in the order in which they are
/// written.
pub fn bundle_files(pems: &BundlePems) -> (r: Vec<(String, String)>)
    ensures
        r@.len() == 9,
        is_file(r@[0], "server-ca.pem"@, pems.server_ca.cert@),
        is_file(r@[1], "server-ca-key.pem"@, pems.server_ca.key@),
        is_file(r@[2], "server-cert.pem"@, pems.server_leaf.cert@),
        is_file(r@[3], "server-key.pem"@, pems.server_leaf.key@),
        is_file(r@[4], "server-chain.pem"@, pems.server_leaf.cert@ + pems.server_ca.cert@),
        is_file(r@[5], "client-ca.pem"@, pems.client_ca.cert@),
        is_file(r@[6], "client-ca-key.pem"@, pems.client_ca.key@),
        is_file(r@[7], "client-cert.pem"@, pems.client_leaf.cert@),
        is_file(r@[8], "client-key.pem"@, pems.client_leaf.key@),
{
    let mut files: Vec<(String, String)> = Vec::new();
    files.push(("server-ca.pem".to_owned(), pems.server_ca.cert.clone()));
    files.push(("server-ca-key.pem".to_owned(), pems.server_ca.key.clone()));
    files.push(("server-cert.pem".to_owned(), pems.server_leaf.cert.clone()));
    files.push(("server-key.pem".to_owned(), pems.server_leaf.key.clone()));
    files.push(
        (
            "server-chain.pem".to_owned(),
            pems.server_leaf.cert.clone().concat(pems.server_ca.cert.as_str()),
        ),
    );
    files.push(("client-ca.pem".to_owned(), pems.client_ca.cert.clone()));
    files.push(("client-ca-key.pem".to_owned(), pems.client_ca.key.clone()));
    files.push(("client-cert.pem".to_owned(), pems.client_leaf.cert.clone()));
    files.push(("client-key.pem".to_owned(), pems.client_leaf.key.clone()));
    files
}

} // verus!
