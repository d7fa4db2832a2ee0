//! The CBOR form of OTK values, by their schema.
//!
//! [`Tree`] is the mathematical model of a value: what its CBOR form says.
//! [`encoding`] is the bytes of a model, [`parse`] what bytes mean for a
//! [`Kind`]. [`lemma_parse_encoding`] ties the two: parsing an encoding gives
//! the model back.

use vstd::prelude::*;
use vstd::utf8::*;

use crate::cbor;
use crate::cbor::Lead;
use crate::schema;
use crate::text;
use crate::schema::{Field, Kind, Shape};

verus! {

/// The model of an OTK value.
#[verifier::ext_equal]
pub enum Tree {
    /// An optional field that is not set.
    Nothing,
    Text(Seq<char>),
    Uint(int),
    Int(int),
    Octets(Seq<u8>),
    List(Seq<Tree>),
    Record(Seq<Tree>),
    Choice(int, Seq<Tree>),
}

/// An OTK value taken apart for writing, or just read.
pub enum Node {
    Nothing,
    Text(String),
    Uint(u64),
    Int(i64),
    Octets(Vec<u8>),
    List(Vec<Node>),
    Record(Vec<Node>),
    Choice(u8, Vec<Node>),
}

/// Why bytes are not the CBOR form of a value. Positions are counted from the
/// first byte.
#[derive(Debug, Clone, Copy, PartialEq, Eq, Structural)]
pub enum DecodeFault {
    /// The item at this position is cut short, of the wrong type, or out of
    /// range.
    Malformed(u64),
    /// The choice at this position is not an array of two items.
    NotAChoice(u64),
    /// The variant number of a choice, at this position, is one that the schema
    /// does not have.
    UnknownVariant(i64, u64),
    /// A record that ends before the required field of this number.
    MissingValue(u8),
}

/// A number with its sign, in decimal digits.
pub open spec fn signed_decimal(n: int) -> Seq<char> {
    if n < 0 {
        "-"@ + text::decimal(-n)
    } else {
        text::decimal(n)
    }
}

/// A number with its sign, in decimal digits.
fn signed_decimal_string(n: i64) -> (r: String)
    ensures
        r@ == signed_decimal(n as int),
{
    if n < 0 {
        let size: u64 = (-1 - n) as u64 + 1;
        "-".to_owned().concat(text::decimal_string(size).as_str())
    } else {
        text::decimal_string(n as u64)
    }
}

impl DecodeFault {
    /// The sentence for the error.
    pub open spec fn text(self) -> Seq<char> {
        match self {
            DecodeFault::Malformed(at) => "malformed CBOR item at position "@ + text::decimal(
                at as int,
            ),
            DecodeFault::NotAChoice(at) => "decode error at position "@ + text::decimal(at as int)
                + ": expected enum (2-element array)"@,
            DecodeFault::UnknownVariant(n, at) => "unknown enum variant "@ + signed_decimal(
                n as int,
            ) + " at position "@ + text::decimal(at as int),
            DecodeFault::MissingValue(i) => "missing value at index "@ + text::decimal(i as int),
        }
    }

    /// A sentence that tells a person what is wrong.
    pub fn message(&self) -> (r: String)
        ensures
            r@ == self.text(),
    {
        match *self {
            DecodeFault::Malformed(at) => "malformed CBOR item at position ".to_owned().concat(
                text::decimal_string(at).as_str(),
            ),
            DecodeFault::NotAChoice(at) => "decode error at position ".to_owned().concat(
                text::decimal_string(at).as_str(),
            ).concat(": expected enum (2-element array)"),
            DecodeFault::UnknownVariant(n, at) => "unknown enum variant ".to_owned().concat(
                signed_decimal_string(n).as_str(),
            ).concat(" at position ").concat(text::decimal_string(at).as_str()),
            DecodeFault::MissingValue(i) => "missing value at index ".to_owned().concat(
                text::decimal_string(i as u64).as_str(),
            ),
        }
    }
}

impl Node {
    /// The model of the value.
    pub open spec fn tree(self) -> Tree
        decreases self,
    {
        match self {
            Node::Nothing => Tree::Nothing,
            Node::Text(s) => Tree::Text(s@),
            Node::Uint(n) => Tree::Uint(n as int),
            Node::Int(n) => Tree::Int(n as int),
            Node::Octets(b) => Tree::Octets(b@),
            Node::List(v) => Tree::List(
                Seq::new(
                    v@.len(),
                    |i: int|
                        if 0 <= i < v@.len() {
                            v@[i].tree()
                        } else {
                            Tree::Nothing
                        },
                ),
            ),
            Node::Record(v) => Tree::Record(
                Seq::new(
                    v@.len(),
                    |i: int|
                        if 0 <= i < v@.len() {
                            v@[i].tree()
                        } else {
                            Tree::Nothing
                        },
                ),
            ),
            Node::Choice(n, v) => Tree::Choice(
                n as int,
                Seq::new(
                    v@.len(),
                    |i: int|
                        if 0 <= i < v@.len() {
                            v@[i].tree()
                        } else {
                            Tree::Nothing
                        },
                ),
            ),
        }
    }
}

/// The models of a sequence of values.
pub open spec fn trees(v: Seq<Node>) -> Seq<Tree> {
    Seq::new(v.len(), |i: int| v[i].tree())
}

/// The model of a value with parts is made of the models of its parts.
pub proof fn lemma_trees(node: Node)
    ensures
        node matches Node::List(v) ==> node.tree() == Tree::List(trees(v@)),
        node matches Node::Record(v) ==> node.tree() == Tree::Record(trees(v@)),
        node matches Node::Choice(n, v) ==> node.tree() == Tree::Choice(n as int, trees(v@)),
{
    match node {
        Node::List(v) => {
            assert(node.tree()->List_0 =~= trees(v@));
        },
        Node::Record(v) => {
            assert(node.tree()->Record_0 =~= trees(v@));
        },
        Node::Choice(n, v) => {
            assert(node.tree()->Choice_1 =~= trees(v@));
        },
        _ => {},
    }
}

/// How many of the first `n` fields of a record are written: all up to the
/// last that is set.
pub open spec fn used(ts: Seq<Tree>, n: int) -> int
    decreases n,
{
    if n <= 0 {
        0
    } else if ts[n - 1] is Nothing {
        used(ts, n - 1)
    } else {
        n
    }
}

/// The first `n` bytes of a byte string, each as a CBOR integer.
pub open spec fn octets_encoding(b: Seq<u8>, n: int) -> Seq<u8>
    decreases n,
{
    if n <= 0 {
        seq![]
    } else {
        octets_encoding(b, n - 1) + cbor::head(0, b[n - 1] as int)
    }
}

/// The CBOR form of a value.
pub open spec fn encoding(t: Tree) -> Seq<u8>
    decreases t, 0int,
{
    match t {
        Tree::Nothing => seq![0xf6u8],
        Tree::Text(s) => cbor::text_bytes(s),
        Tree::Uint(n) => cbor::head(0, n),
        Tree::Int(n) => cbor::int_bytes(n),
        Tree::Octets(b) => cbor::head(4, b.len() as int) + octets_encoding(b, b.len() as int),
        Tree::List(ts) => cbor::head(4, ts.len() as int) + encodings(ts, ts.len() as int),
        Tree::Record(ts) => {
            let n = used(ts, ts.len() as int);
            cbor::head(4, n) + encodings(ts, n)
        },
        Tree::Choice(v, ts) => {
            let n = used(ts, ts.len() as int);
            cbor::head(4, 2) + cbor::int_bytes(v) + (cbor::head(4, n) + encodings(ts, n))
        },
    }
}

/// The CBOR forms of the first `n` values, one behind the other.
pub open spec fn encodings(ts: Seq<Tree>, n: int) -> Seq<u8>
    decreases ts, n,
{
    if n <= 0 || n > ts.len() {
        seq![]
    } else {
        encodings(ts, n - 1) + encoding(ts[n - 1])
    }
}

/// What stands at a place in an array.
pub enum Step {
    /// The input ends, or what stands there is no item.
    Broken,
    /// Another item.
    Item,
    /// The end of the array, with the position behind it.
    End(int),
}

/// What stands at place `i` of an array of `count` items, where `None` means
/// that a break ends it.
pub open spec fn step(count: Option<int>, i: int, input: Seq<u8>, pos: int) -> Step {
    match count {
        Some(n) => if i < n {
            Step::Item
        } else {
            Step::End(pos)
        },
        None => match cbor::lead_at(input, pos) {
            None => Step::Broken,
            Some(Lead::Break) => Step::End(pos + 1),
            Some(_) => Step::Item,
        },
    }
}

/// The position behind the item at `pos`, whatever the item is.
pub open spec fn skipped(input: Seq<u8>, pos: int) -> Option<int> {
    if 0 <= pos < input.len() && input[pos] == 0x80 {
        Some(pos + 1)
    } else {
        match cbor::item_end(input, pos) {
            Some(end) if pos < end <= input.len() => Some(end),
            _ => None,
        }
    }
}

/// What the bytes at `pos` mean as a value of `kind`: the value and the
/// position behind it.
pub open spec fn parse(kind: Kind, input: Seq<u8>, pos: int) -> Result<(Tree, int), DecodeFault>
    decreases schema::rank(kind), 2int, 0int,
    via parse_decreases
{
    match schema::shape(kind) {
        Shape::Text => match cbor::text_item(input, pos) {
            Some((s, end)) => Ok((Tree::Text(s), end)),
            None => Err(DecodeFault::Malformed(pos as u64)),
        },
        Shape::Uint(max) => match cbor::uint_item(input, pos) {
            Some((n, end)) if n <= max => Ok((Tree::Uint(n), end)),
            _ => Err(DecodeFault::Malformed(pos as u64)),
        },
        Shape::Int(min, max) => match cbor::int_item(input, pos) {
            Some((n, end)) if min <= n <= max => Ok((Tree::Int(n), end)),
            _ => Err(DecodeFault::Malformed(pos as u64)),
        },
        Shape::Octets => match cbor::array_item(input, pos) {
            Some((count, start)) => match parse_octets(count, seq![], input, start) {
                Ok((b, end)) => Ok((Tree::Octets(b), end)),
                Err(e) => Err(e),
            },
            None => Err(DecodeFault::Malformed(pos as u64)),
        },
        Shape::List(item) => match cbor::array_item(input, pos) {
            Some((count, start)) => match parse_list(item, count, seq![], input, start) {
                Ok((ts, end)) => Ok((Tree::List(ts), end)),
                Err(e) => Err(e),
            },
            None => Err(DecodeFault::Malformed(pos as u64)),
        },
        Shape::Record => match parse_record(kind, 0, input, pos) {
            Ok((ts, end)) => Ok((Tree::Record(ts), end)),
            Err(e) => Err(e),
        },
        Shape::Choice(variants) => match cbor::array_item(input, pos) {
            None => Err(DecodeFault::Malformed(pos as u64)),
            Some((Some(n), start)) if n == 2 => match cbor::int_item(input, start) {
                None => Err(DecodeFault::Malformed(start as u64)),
                Some((v, body)) => if !(0 <= v < variants) {
                    Err(DecodeFault::UnknownVariant(v as i64, start as u64))
                } else if schema::fields(kind, v).len() == 0 {
                    match skipped(input, body) {
                        Some(end) => Ok((Tree::Choice(v, seq![]), end)),
                        None => Err(DecodeFault::Malformed(body as u64)),
                    }
                } else {
                    match parse_record(kind, v, input, body) {
                        Ok((ts, end)) => Ok((Tree::Choice(v, ts), end)),
                        Err(e) => Err(e),
                    }
                },
            },
            Some(_) => Err(DecodeFault::NotAChoice(pos as u64)),
        },
    }
}

/// The bytes of a byte string that is written as an array of integers. `b`
/// holds those that were read before `pos`.
pub open spec fn parse_octets(
    count: Option<int>,
    b: Seq<u8>,
    input: Seq<u8>,
    pos: int,
) -> Result<(Seq<u8>, int), DecodeFault>
    decreases input.len() - pos,
{
    match step(count, b.len() as int, input, pos) {
        Step::Broken => Err(DecodeFault::Malformed(pos as u64)),
        Step::End(end) => Ok((b, end)),
        Step::Item => match cbor::uint_item(input, pos) {
            Some((n, next)) if n <= 0xff && pos < next <= input.len() => parse_octets(
                count,
                b.push(n as u8),
                input,
                next,
            ),
            _ => Err(DecodeFault::Malformed(pos as u64)),
        },
    }
}

/// The items of a list. `ts` holds those that were read before `pos`.
pub open spec fn parse_list(
    item: Kind,
    count: Option<int>,
    ts: Seq<Tree>,
    input: Seq<u8>,
    pos: int,
) -> Result<(Seq<Tree>, int), DecodeFault>
    decreases schema::rank(item), 3int, input.len() - pos,
{
    match step(count, ts.len() as int, input, pos) {
        Step::Broken => Err(DecodeFault::Malformed(pos as u64)),
        Step::End(end) => Ok((ts, end)),
        Step::Item => match parse(item, input, pos) {
            Err(e) => Err(e),
            Ok((t, next)) => if pos < next <= input.len() {
                parse_list(item, count, ts.push(t), input, next)
            } else {
                Err(DecodeFault::Malformed(pos as u64))
            },
        },
    }
}

/// The fields of the record at `pos`.
pub open spec fn parse_record(kind: Kind, variant: int, input: Seq<u8>, pos: int) -> Result<
    (Seq<Tree>, int),
    DecodeFault,
>
    decreases schema::rank(kind), 1int, 0int,
{
    match cbor::array_item(input, pos) {
        None => Err(DecodeFault::Malformed(pos as u64)),
        Some((count, start)) => parse_fields(kind, variant, count, 0, seq![], input, start),
    }
}

/// The field at `pos`.
pub open spec fn parse_field(kind: Kind, optional: bool, input: Seq<u8>, pos: int) -> Result<
    (Tree, int),
    DecodeFault,
>
    decreases schema::rank(kind), 3int, 0int,
{
    if optional && cbor::lead_at(input, pos) is None {
        Err(DecodeFault::Malformed(pos as u64))
    } else if optional && cbor::lead_at(input, pos) == Some(Lead::Null) {
        Ok((Tree::Nothing, pos + 1))
    } else {
        parse(kind, input, pos)
    }
}

/// The fields of a record from place `i` on. `ts` holds those that were read
/// before `pos`. Items behind the last field are passed over.
pub open spec fn parse_fields(
    kind: Kind,
    variant: int,
    count: Option<int>,
    i: int,
    ts: Seq<Tree>,
    input: Seq<u8>,
    pos: int,
) -> Result<(Seq<Tree>, int), DecodeFault>
    decreases schema::rank(kind), 0int, (if pos <= input.len() { input.len() - pos } else { 0 }),
    via parse_fields_decreases
{
    match step(count, i, input, pos) {
        Step::Broken => Err(DecodeFault::Malformed(pos as u64)),
        Step::End(end) => match fill(schema::fields(kind, variant), ts) {
            Ok(all) => Ok((all, end)),
            Err(e) => Err(e),
        },
        Step::Item => if 0 <= i < schema::fields(kind, variant).len() {
            let f = schema::fields(kind, variant)[i];
            match parse_field(f.kind, f.optional, input, pos) {
                Err(e) => Err(e),
                Ok((t, next)) => if pos < next <= input.len() {
                    parse_fields(kind, variant, count, i + 1, ts.push(t), input, next)
                } else {
                    Err(DecodeFault::Malformed(pos as u64))
                },
            }
        } else {
            match skipped(input, pos) {
                None => Err(DecodeFault::Malformed(pos as u64)),
                Some(next) => if pos < next <= input.len() {
                    parse_fields(kind, variant, count, i + 1, ts, input, next)
                } else {
                    Err(DecodeFault::Malformed(pos as u64))
                },
            }
        },
    }
}

/// A record that ended after the fields `ts`: the optional ones that are
/// missing are not set, and a required one must not be missing.
pub open spec fn fill(fs: Seq<Field>, ts: Seq<Tree>) -> Result<Seq<Tree>, DecodeFault>
    decreases fs.len() - ts.len(),
{
    if ts.len() >= fs.len() {
        Ok(ts)
    } else if fs[ts.len() as int].optional {
        fill(fs, ts.push(Tree::Nothing))
    } else {
        Err(DecodeFault::MissingValue(ts.len() as u8))
    }
}

#[via_fn]
proof fn parse_decreases(kind: Kind, input: Seq<u8>, pos: int) {
    schema::lemma_rank(kind, 0);
}

#[via_fn]
proof fn parse_fields_decreases(
    kind: Kind,
    variant: int,
    count: Option<int>,
    i: int,
    ts: Seq<Tree>,
    input: Seq<u8>,
    pos: int,
) {
    schema::lemma_rank(kind, variant);
}

/// Whether a model is one of a value of `kind`.
pub open spec fn conforms(t: Tree, kind: Kind) -> bool
    decreases schema::rank(kind), 1int,
    via conforms_decreases
{
    match schema::shape(kind) {
        Shape::Text => t is Text,
        Shape::Uint(max) => t matches Tree::Uint(n) && 0 <= n <= max,
        Shape::Int(min, max) => t matches Tree::Int(n) && min <= n <= max,
        Shape::Octets => t is Octets,
        Shape::List(item) => t matches Tree::List(ts) && (forall|i: int|
            0 <= i < ts.len() ==> conforms(#[trigger] ts[i], item)),
        Shape::Record => t matches Tree::Record(ts) && fields_conform(kind, 0, ts),
        Shape::Choice(variants) => t matches Tree::Choice(v, ts) && 0 <= v < variants
            && fields_conform(kind, v, ts),
    }
}

/// Whether models are those of the fields of a record.
pub open spec fn fields_conform(kind: Kind, variant: int, ts: Seq<Tree>) -> bool
    decreases schema::rank(kind), 0int,
    via fields_conform_decreases
{
    let fs = schema::fields(kind, variant);
    &&& ts.len() == fs.len()
    &&& forall|i: int|
        0 <= i < fs.len() ==> (fs[i].optional && ts[i] is Nothing) || conforms(
            #[trigger] ts[i],
            fs[i].kind,
        )
}

#[via_fn]
proof fn conforms_decreases(t: Tree, kind: Kind) {
    schema::lemma_rank(kind, 0);
}

#[via_fn]
proof fn fields_conform_decreases(kind: Kind, variant: int, ts: Seq<Tree>) {
    schema::lemma_rank(kind, variant);
}

/// Whether the lengths in a model can be written: CBOR has 64 bits for each.
pub open spec fn fits(t: Tree) -> bool
    decreases t,
{
    match t {
        Tree::Nothing => true,
        Tree::Text(s) => encode_utf8(s).len() <= u64::MAX,
        Tree::Uint(n) => 0 <= n <= u64::MAX,
        Tree::Int(n) => i64::MIN <= n <= i64::MAX,
        Tree::Octets(b) => b.len() <= u64::MAX,
        Tree::List(ts) => ts.len() <= u64::MAX && (forall|i: int|
            0 <= i < ts.len() ==> fits(#[trigger] ts[i])),
        Tree::Record(ts) => ts.len() <= u64::MAX && (forall|i: int|
            0 <= i < ts.len() ==> fits(#[trigger] ts[i])),
        Tree::Choice(v, ts) => 0 <= v <= i64::MAX && ts.len() <= u64::MAX && (forall|i: int|
            0 <= i < ts.len() ==> fits(#[trigger] ts[i])),
    }
}

/// A value that can be read takes at least one byte, stays in the input, and
/// is of the kind that was asked for.
pub proof fn lemma_parse_progress(kind: Kind, input: Seq<u8>, pos: int)
    requires
        0 <= pos,
    ensures
        parse(kind, input, pos) matches Ok((t, end)) ==> pos < end <= input.len() && conforms(
            t,
            kind,
        ),
    decreases schema::rank(kind), 2int, 0int,
{
    cbor::lemma_argument_progress(input, pos);
    schema::lemma_rank(kind, 0);
    match schema::shape(kind) {
        Shape::Octets => {
            if let Some((count, start)) = cbor::array_item(input, pos) {
                lemma_octets_progress(count, seq![], input, start);
            }
        },
        Shape::List(item) => {
            if let Some((count, start)) = cbor::array_item(input, pos) {
                lemma_list_progress(item, count, seq![], input, start);
            }
        },
        Shape::Record => {
            lemma_record_progress(kind, 0, input, pos);
        },
        Shape::Choice(_) => {
            if let Some((_, start)) = cbor::array_item(input, pos) {
                cbor::lemma_argument_progress(input, start);
                if let Some((v, body)) = cbor::int_item(input, start) {
                    assert(schema::fields(kind, v).len() == 0 ==> fields_conform(kind, v, seq![]));
                    lemma_record_progress(kind, v, input, body);
                }
            }
        },
        _ => {},
    }
}

proof fn lemma_octets_progress(count: Option<int>, b: Seq<u8>, input: Seq<u8>, pos: int)
    requires
        0 <= pos <= input.len(),
    ensures
        parse_octets(count, b, input, pos) matches Ok((all, end)) ==> pos <= end <= input.len(),
    decreases input.len() - pos,
{
    if step(count, b.len() as int, input, pos) is Item {
        if let Some((n, next)) = cbor::uint_item(input, pos) {
            if n <= 0xff && pos < next <= input.len() {
                lemma_octets_progress(count, b.push(n as u8), input, next);
            }
        }
    }
}

proof fn lemma_list_progress(
    item: Kind,
    count: Option<int>,
    ts: Seq<Tree>,
    input: Seq<u8>,
    pos: int,
)
    requires
        0 <= pos <= input.len(),
        forall|i: int| 0 <= i < ts.len() ==> conforms(#[trigger] ts[i], item),
    ensures
        parse_list(item, count, ts, input, pos) matches Ok((all, end)) ==> pos <= end
            <= input.len() && (forall|i: int|
            0 <= i < all.len() ==> conforms(#[trigger] all[i], item)),
    decreases schema::rank(item), 3int, input.len() - pos,
{
    if step(count, ts.len() as int, input, pos) is Item {
        lemma_parse_progress(item, input, pos);
        if let Ok((t, next)) = parse(item, input, pos) {
            lemma_list_progress(item, count, ts.push(t), input, next);
        }
    }
}

proof fn lemma_record_progress(kind: Kind, variant: int, input: Seq<u8>, pos: int)
    requires
        0 <= pos,
    ensures
        parse_record(kind, variant, input, pos) matches Ok((ts, end)) ==> pos < end <= input.len()
            && fields_conform(kind, variant, ts),
    decreases schema::rank(kind), 1int, 0int,
{
    cbor::lemma_argument_progress(input, pos);
    if let Some((count, start)) = cbor::array_item(input, pos) {
        lemma_fields_progress(kind, variant, count, 0, seq![], input, start);
    }
}

proof fn lemma_fields_progress(
    kind: Kind,
    variant: int,
    count: Option<int>,
    i: int,
    ts: Seq<Tree>,
    input: Seq<u8>,
    pos: int,
)
    requires
        0 <= pos <= input.len(),
        0 <= i,
        ts.len() == (if i <= schema::fields(kind, variant).len() {
            i
        } else {
            schema::fields(kind, variant).len() as int
        }),
        fields_conform_upto(kind, variant, ts),
    ensures
        parse_fields(kind, variant, count, i, ts, input, pos) matches Ok((all, end)) ==> pos <= end
            <= input.len() && fields_conform(kind, variant, all),
    decreases schema::rank(kind), 0int, input.len() - pos,
{
    let fs = schema::fields(kind, variant);
    schema::lemma_rank(kind, variant);
    match step(count, i, input, pos) {
        Step::Broken => {},
        Step::End(_) => {
            lemma_fill_conforms(kind, variant, ts);
        },
        Step::Item => {
            if i < fs.len() {
                let f = fs[i];
                lemma_parse_progress(f.kind, input, pos);
                if let Ok((t, next)) = parse_field(f.kind, f.optional, input, pos) {
                    assert(fields_conform_upto(kind, variant, ts.push(t)));
                    lemma_fields_progress(
                        kind,
                        variant,
                        count,
                        i + 1,
                        ts.push(t),
                        input,
                        next,
                    );
                }
            } else if let Some(next) = skipped(input, pos) {
                lemma_fields_progress(kind, variant, count, i + 1, ts, input, next);
            }
        },
    }
}

/// Whether models are those of the first fields of a record.
spec fn fields_conform_upto(kind: Kind, variant: int, ts: Seq<Tree>) -> bool {
    let fs = schema::fields(kind, variant);
    &&& ts.len() <= fs.len()
    &&& forall|i: int|
        0 <= i < ts.len() ==> (fs[i].optional && ts[i] is Nothing) || conforms(
            #[trigger] ts[i],
            fs[i].kind,
        )
}

proof fn lemma_fill_conforms(kind: Kind, variant: int, ts: Seq<Tree>)
    requires
        fields_conform_upto(kind, variant, ts),
    ensures
        fill(schema::fields(kind, variant), ts) matches Ok(all) ==> fields_conform(
            kind,
            variant,
            all,
        ),
    decreases schema::fields(kind, variant).len() - ts.len(),
{
    let fs = schema::fields(kind, variant);
    if ts.len() < fs.len() && fs[ts.len() as int].optional {
        lemma_fill_conforms(kind, variant, ts.push(Tree::Nothing));
    }
}

/// An array length as the spec functions take it.
pub open spec fn as_count(count: Option<u64>) -> Option<int> {
    match count {
        Some(n) => Some(n as int),
        None => None,
    }
}

/// What stands at place `i` of an array.
enum Place {
    Item,
    End(usize),
}

/// Looks at place `i` of an array.
fn look(count: Option<u64>, i: u64, input: &[u8], pos: usize) -> (r: Result<Place, DecodeFault>)
    requires
        pos <= input@.len(),
    ensures
        match r {
            Ok(Place::Item) => step(as_count(count), i as int, input@, pos as int) is Item,
            Ok(Place::End(end)) => step(as_count(count), i as int, input@, pos as int)
                == Step::End(end as int),
            Err(e) => step(as_count(count), i as int, input@, pos as int) is Broken && e
                == DecodeFault::Malformed(pos as u64),
        },
{
    assert(input@.len() == input.len());
    match count {
        Some(n) => if i < n {
            Ok(Place::Item)
        } else {
            Ok(Place::End(pos))
        },
        None => match cbor::read_lead(input, pos) {
            Err(_) => Err(DecodeFault::Malformed(pos as u64)),
            Ok(Lead::Break) => Ok(Place::End(pos + 1)),
            Ok(_) => Ok(Place::Item),
        },
    }
}

/// Passes over the item at `pos`.
fn pass_over(input: &[u8], pos: usize) -> (r: Result<usize, DecodeFault>)
    ensures
        match r {
            Ok(end) => skipped(input@, pos as int) == Some(end as int),
            Err(e) => skipped(input@, pos as int) is None && e == DecodeFault::Malformed(pos as u64),
        },
{
    match cbor::skip_item(input, pos) {
        Ok(end) => Ok(end),
        Err(_) => Err(DecodeFault::Malformed(pos as u64)),
    }
}

/// Whether a result of reading is the one that the schema asks for.
pub open spec fn reads_as(
    r: Result<(Node, usize), DecodeFault>,
    expected: Result<(Tree, int), DecodeFault>,
) -> bool {
    match r {
        Ok((node, end)) => expected == Ok::<(Tree, int), DecodeFault>((node.tree(), end as int)),
        Err(e) => expected == Err::<(Tree, int), DecodeFault>(e),
    }
}

/// Whether a result of reading several values is the one that the schema asks
/// for.
pub open spec fn all_read_as(
    r: Result<(Vec<Node>, usize), DecodeFault>,
    expected: Result<(Seq<Tree>, int), DecodeFault>,
) -> bool {
    match r {
        Ok((nodes, end)) => expected == Ok::<(Seq<Tree>, int), DecodeFault>(
            (trees(nodes@), end as int),
        ),
        Err(e) => expected == Err::<(Seq<Tree>, int), DecodeFault>(e),
    }
}

/// Reads the value of `kind` at `pos`.
pub fn decode_node(kind: Kind, input: &[u8], pos: usize) -> (r: Result<
    (Node, usize),
    DecodeFault,
>)
    requires
        pos <= input@.len(),
    ensures
        reads_as(r, parse(kind, input@, pos as int)),
        r matches Ok((node, end)) ==> pos < end <= input@.len() && conforms(node.tree(), kind),
    decreases schema::rank(kind), 2int,
{
    proof {
        lemma_parse_progress(kind, input@, pos as int);
        cbor::lemma_argument_progress(input@, pos as int);
        schema::lemma_rank(kind, 0);
    }
    match schema::shape_of(kind) {
        Shape::Text => match cbor::read_text(input, pos) {
            Ok((s, end)) => Ok((Node::Text(s), end)),
            Err(_) => Err(DecodeFault::Malformed(pos as u64)),
        },
        Shape::Uint(max) => match cbor::read_uint(input, pos) {
            Ok((n, end)) => if n <= max {
                Ok((Node::Uint(n), end))
            } else {
                Err(DecodeFault::Malformed(pos as u64))
            },
            Err(_) => Err(DecodeFault::Malformed(pos as u64)),
        },
        Shape::Int(min, max) => match cbor::read_int(input, pos) {
            Ok((n, end)) => if min <= n && n <= max {
                Ok((Node::Int(n), end))
            } else {
                Err(DecodeFault::Malformed(pos as u64))
            },
            Err(_) => Err(DecodeFault::Malformed(pos as u64)),
        },
        Shape::Octets => match cbor::read_array(input, pos) {
            Ok((count, start)) => match decode_octets(count, input, start) {
                Ok((b, end)) => Ok((Node::Octets(b), end)),
                Err(e) => Err(e),
            },
            Err(_) => Err(DecodeFault::Malformed(pos as u64)),
        },
        Shape::List(item) => match cbor::read_array(input, pos) {
            Ok((count, start)) => match decode_list(item, count, input, start) {
                Ok((nodes, end)) => {
                    let node = Node::List(nodes);
                    proof {
                        lemma_trees(node);
                    }
                    Ok((node, end))
                },
                Err(e) => Err(e),
            },
            Err(_) => Err(DecodeFault::Malformed(pos as u64)),
        },
        Shape::Record => match decode_record(kind, 0, input, pos) {
            Ok((nodes, end)) => {
                let node = Node::Record(nodes);
                proof {
                    lemma_trees(node);
                }
                Ok((node, end))
            },
            Err(e) => Err(e),
        },
        Shape::Choice(variants) => decode_choice(kind, variants, input, pos),
    }
}

/// Reads the choice at `pos`.
fn decode_choice(kind: Kind, variants: u8, input: &[u8], pos: usize) -> (r: Result<
    (Node, usize),
    DecodeFault,
>)
    requires
        pos <= input@.len(),
        schema::shape(kind) == Shape::Choice(variants),
    ensures
        reads_as(r, parse(kind, input@, pos as int)),
    decreases schema::rank(kind), 1int,
{
    let (count, start) = match cbor::read_array(input, pos) {
        Ok(found) => found,
        Err(_) => {
            return Err(DecodeFault::Malformed(pos as u64));
        },
    };
    match count {
        Some(2) => {},
        _ => {
            return Err(DecodeFault::NotAChoice(pos as u64));
        },
    }
    proof {
        cbor::lemma_argument_progress(input@, pos as int);
        cbor::lemma_argument_progress(input@, start as int);
    }
    let (v, body) = match cbor::read_int(input, start) {
        Ok(found) => found,
        Err(_) => {
            return Err(DecodeFault::Malformed(start as u64));
        },
    };
    if v < 0 || v >= variants as i64 {
        return Err(DecodeFault::UnknownVariant(v, start as u64));
    }
    let fs = schema::fields_of(kind, v as u8);
    if fs.len() == 0 {
        match pass_over(input, body) {
            Ok(end) => {
                let nodes: Vec<Node> = Vec::new();
                let node = Node::Choice(v as u8, nodes);
                proof {
                    lemma_trees(node);
                }
                assert(trees(nodes@) == Seq::<Tree>::empty());
                Ok((node, end))
            },
            Err(e) => Err(e),
        }
    } else {
        match decode_record(kind, v as u8, input, body) {
            Ok((nodes, end)) => {
                let node = Node::Choice(v as u8, nodes);
                proof {
                    lemma_trees(node);
                }
                Ok((node, end))
            },
            Err(e) => Err(e),
        }
    }
}

/// Reads the bytes of a byte string behind its array head.
fn decode_octets(count: Option<u64>, input: &[u8], start: usize) -> (r: Result<
    (Vec<u8>, usize),
    DecodeFault,
>)
    requires
        start <= input@.len(),
    ensures
        match r {
            Ok((b, end)) => parse_octets(as_count(count), seq![], input@, start as int) == Ok::<
                (Seq<u8>, int),
                DecodeFault,
            >((b@, end as int)),
            Err(e) => parse_octets(as_count(count), seq![], input@, start as int) == Err::<
                (Seq<u8>, int),
                DecodeFault,
            >(e),
        },
{
    let mut b: Vec<u8> = Vec::new();
    let mut pos: usize = start;
    loop
        invariant
            start <= pos <= input@.len(),
            b@.len() <= pos - start,
            parse_octets(as_count(count), seq![], input@, start as int) == parse_octets(
                as_count(count),
                b@,
                input@,
                pos as int,
            ),
        decreases input@.len() - pos,
    {
        match look(count, b.len() as u64, input, pos) {
            Err(e) => {
                return Err(e);
            },
            Ok(Place::End(end)) => {
                return Ok((b, end));
            },
            Ok(Place::Item) => match cbor::read_uint(input, pos) {
                Ok((n, next)) => {
                    proof {
                        cbor::lemma_argument_progress(input@, pos as int);
                    }
                    if n > 0xff {
                        return Err(DecodeFault::Malformed(pos as u64));
                    }
                    b.push(n as u8);
                    pos = next;
                },
                Err(_) => {
                    return Err(DecodeFault::Malformed(pos as u64));
                },
            },
        }
    }
}

/// Reads the items of a list behind its array head.
fn decode_list(item: Kind, count: Option<u64>, input: &[u8], start: usize) -> (r: Result<
    (Vec<Node>, usize),
    DecodeFault,
>)
    requires
        start <= input@.len(),
    ensures
        all_read_as(r, parse_list(item, as_count(count), seq![], input@, start as int)),
    decreases schema::rank(item), 3int,
{
    let mut nodes: Vec<Node> = Vec::new();
    let mut pos: usize = start;
    assert(trees(nodes@) == Seq::<Tree>::empty());
    loop
        invariant
            start <= pos <= input@.len(),
            nodes@.len() <= pos - start,
            parse_list(item, as_count(count), seq![], input@, start as int) == parse_list(
                item,
                as_count(count),
                trees(nodes@),
                input@,
                pos as int,
            ),
        decreases input@.len() - pos,
    {
        match look(count, nodes.len() as u64, input, pos) {
            Err(e) => {
                return Err(e);
            },
            Ok(Place::End(end)) => {
                return Ok((nodes, end));
            },
            Ok(Place::Item) => match decode_node(item, input, pos) {
                Ok((node, next)) => {
                    let ghost before = nodes@;
                    nodes.push(node);
                    assert(trees(nodes@) == trees(before).push(node.tree()));
                    pos = next;
                },
                Err(e) => {
                    return Err(e);
                },
            },
        }
    }
}

/// Reads the field at `pos`.
fn decode_field(f: Field, input: &[u8], pos: usize) -> (r: Result<(Node, usize), DecodeFault>)
    requires
        pos <= input@.len(),
    ensures
        reads_as(r, parse_field(f.kind, f.optional, input@, pos as int)),
        r matches Ok((_, end)) ==> pos < end <= input@.len(),
    decreases schema::rank(f.kind), 3int,
{
    assert(input@.len() == input.len());
    if f.optional {
        match cbor::read_lead(input, pos) {
            Err(_) => {
                return Err(DecodeFault::Malformed(pos as u64));
            },
            Ok(Lead::Null) => {
                return Ok((Node::Nothing, pos + 1));
            },
            Ok(_) => {},
        }
    }
    decode_node(f.kind, input, pos)
}

/// Reads the fields of the record at `pos`.
fn decode_record(kind: Kind, variant: u8, input: &[u8], pos: usize) -> (r: Result<
    (Vec<Node>, usize),
    DecodeFault,
>)
    requires
        pos <= input@.len(),
    ensures
        all_read_as(r, parse_record(kind, variant as int, input@, pos as int)),
    decreases schema::rank(kind), 0int,
{
    let (count, start) = match cbor::read_array(input, pos) {
        Ok(found) => found,
        Err(_) => {
            return Err(DecodeFault::Malformed(pos as u64));
        },
    };
    proof {
        cbor::lemma_argument_progress(input@, pos as int);
        schema::lemma_rank(kind, variant as int);
    }
    let fs = schema::fields_of(kind, variant);
    let mut nodes: Vec<Node> = Vec::new();
    let mut at: usize = start;
    let mut i: u64 = 0;
    assert(trees(nodes@) == Seq::<Tree>::empty());
    loop
        invariant
            start <= at <= input@.len(),
            i <= at - start,
            fs@ == schema::fields(kind, variant as int),
            fs@.len() <= 12,
            nodes@.len() == if i <= fs@.len() {
                i as int
            } else {
                fs@.len() as int
            },
            forall|k: int|
                0 <= k < fs@.len() ==> schema::rank((#[trigger] fs@[k]).kind) < schema::rank(kind),
            parse_record(kind, variant as int, input@, pos as int) == parse_fields(
                kind,
                variant as int,
                as_count(count),
                i as int,
                trees(nodes@),
                input@,
                at as int,
            ),
        decreases input@.len() - at,
    {
        match look(count, i, input, at) {
            Err(e) => {
                return Err(e);
            },
            Ok(Place::End(end)) => {
                return match fill_nodes(&fs, nodes) {
                    Ok(all) => Ok((all, end)),
                    Err(e) => Err(e),
                };
            },
            Ok(Place::Item) => if i < fs.len() as u64 {
                match decode_field(fs[i as usize], input, at) {
                    Ok((node, next)) => {
                        let ghost before = nodes@;
                        nodes.push(node);
                        assert(trees(nodes@) == trees(before).push(node.tree()));
                        at = next;
                    },
                    Err(e) => {
                        return Err(e);
                    },
                }
            } else {
                match pass_over(input, at) {
                    Ok(next) => {
                        at = next;
                    },
                    Err(e) => {
                        return Err(e);
                    },
                }
            },
        }
        i = i + 1;
    }
}

/// Sets the fields of a record that the input left out.
fn fill_nodes(fs: &Vec<Field>, nodes: Vec<Node>) -> (r: Result<Vec<Node>, DecodeFault>)
    requires
        fs@.len() <= 12,
    ensures
        match r {
            Ok(all) => fill(fs@, trees(nodes@)) == Ok::<Seq<Tree>, DecodeFault>(trees(all@)),
            Err(e) => fill(fs@, trees(nodes@)) == Err::<Seq<Tree>, DecodeFault>(e),
        },
{
    let ghost given = trees(nodes@);
    let mut all = nodes;
    while all.len() < fs.len()
        invariant
            fs@.len() <= 12,
            given == trees(nodes@),
            fill(fs@, given) == fill(fs@, trees(all@)),
        decreases fs@.len() - all@.len(),
    {
        if !fs[all.len()].optional {
            return Err(DecodeFault::MissingValue(all.len() as u8));
        }
        let ghost before = all@;
        all.push(Node::Nothing);
        assert(trees(all@) == trees(before).push(Tree::Nothing));
    }
    Ok(all)
}

/// How many fields of a record are written.
fn used_len(nodes: &Vec<Node>) -> (n: usize)
    ensures
        n <= nodes@.len(),
        n == used(trees(nodes@), nodes@.len() as int),
        forall|i: int| n <= i < nodes@.len() ==> (#[trigger] trees(nodes@)[i]) is Nothing,
{
    let mut n: usize = nodes.len();
    while n > 0
        invariant
            n <= nodes@.len(),
            used(trees(nodes@), n as int) == used(trees(nodes@), nodes@.len() as int),
            forall|i: int| n <= i < nodes@.len() ==> (#[trigger] trees(nodes@)[i]) is Nothing,
        decreases n,
    {
        match &nodes[n - 1] {
            Node::Nothing => {},
            _ => {
                return n;
            },
        }
        n = n - 1;
    }
    n
}

/// Appends the CBOR form of a value.
pub fn encode_node(node: &Node, out: &mut Vec<u8>)
    ensures
        final(out)@ == old(out)@ + encoding(node.tree()),
        fits(node.tree()),
    decreases node, 0int,
{
    proof {
        lemma_trees(*node);
    }
    match node {
        Node::Nothing => {
            cbor::write_null(out);
            assert(old(out)@.push(0xf6u8) == old(out)@ + seq![0xf6u8]);
        },
        Node::Text(s) => {
            cbor::write_text(out, s.as_str());
            let bytes = s.as_str().as_bytes();
            assert(bytes@.len() == bytes.len());
            assert(fits(node.tree()));
        },
        Node::Uint(n) => {
            cbor::write_uint(out, *n);
        },
        Node::Int(n) => {
            cbor::write_int(out, *n);
        },
        Node::Octets(b) => {
            cbor::write_array(out, b.len() as u64);
            encode_octets(b, out);
            assert(out@ == old(out)@ + encoding(node.tree()));
            assert(b@.len() == b.len());
            assert(fits(node.tree()));
        },
        Node::List(nodes) => {
            cbor::write_array(out, nodes.len() as u64);
            encode_nodes(nodes, nodes.len(), out);
            assert(out@ == old(out)@ + encoding(node.tree()));
            assert(fits(node.tree()));
        },
        Node::Record(nodes) => {
            encode_record(nodes, out);
            assert(nodes@.len() == nodes.len());
            assert(fits(node.tree()));
        },
        Node::Choice(variant, nodes) => {
            cbor::write_array(out, 2);
            cbor::write_int(out, *variant as i64);
            encode_record(nodes, out);
            assert(out@ == old(out)@ + encoding(node.tree()));
            assert(nodes@.len() == nodes.len());
            assert(fits(node.tree()));
        },
    }
}

/// Appends the CBOR form of a record's fields.
fn encode_record(nodes: &Vec<Node>, out: &mut Vec<u8>)
    ensures
        final(out)@ == old(out)@ + (cbor::head(4, used(trees(nodes@), nodes@.len() as int))
            + encodings(trees(nodes@), used(trees(nodes@), nodes@.len() as int))),
        forall|i: int| 0 <= i < nodes@.len() ==> fits(#[trigger] trees(nodes@)[i]),
    decreases nodes, 2int,
{
    let n: usize = used_len(nodes);
    cbor::write_array(out, n as u64);
    encode_nodes(nodes, n, out);
    assert(out@ =~= old(out)@ + (cbor::head(4, n as int) + encodings(trees(nodes@), n as int)));
    assert(fits(Tree::Nothing));
}

/// Appends bytes as CBOR integers.
fn encode_octets(b: &Vec<u8>, out: &mut Vec<u8>)
    ensures
        final(out)@ == old(out)@ + octets_encoding(b@, b@.len() as int),
{
    let mut i: usize = 0;
    assert(out@ == old(out)@ + octets_encoding(b@, 0));
    while i < b.len()
        invariant
            i <= b@.len(),
            out@ == old(out)@ + octets_encoding(b@, i as int),
        decreases b@.len() - i,
    {
        cbor::write_uint(out, b[i] as u64);
        i = i + 1;
        assert(out@ == old(out)@ + octets_encoding(b@, i as int));
    }
}

/// Appends the CBOR forms of the first `n` values.
fn encode_nodes(nodes: &Vec<Node>, n: usize, out: &mut Vec<u8>)
    requires
        n <= nodes@.len(),
    ensures
        final(out)@ == old(out)@ + encodings(trees(nodes@), n as int),
        forall|i: int| 0 <= i < n ==> fits(#[trigger] trees(nodes@)[i]),
    decreases nodes, 1int,
{
    let mut i: usize = 0;
    assert(out@ == old(out)@ + encodings(trees(nodes@), 0));
    while i < n
        invariant
            i <= n <= nodes@.len(),
            out@ == old(out)@ + encodings(trees(nodes@), i as int),
            forall|k: int| 0 <= k < i ==> fits(#[trigger] trees(nodes@)[k]),
        decreases n - i,
    {
        encode_node(&nodes[i], out);
        i = i + 1;
        assert(out@ == old(out)@ + encodings(trees(nodes@), i as int));
    }
}

/// The first values' encodings are a prefix of more values' encodings.
proof fn lemma_encodings_prefix(ts: Seq<Tree>, k: int, n: int)
    requires
        0 <= k <= n <= ts.len(),
    ensures
        encodings(ts, k).len() <= encodings(ts, n).len(),
        encodings(ts, k) == encodings(ts, n).take(encodings(ts, k).len() as int),
    decreases n - k,
{
    if k < n {
        lemma_encodings_prefix(ts, k, n - 1);
        assert(encodings(ts, n) == encodings(ts, n - 1) + encoding(ts[n - 1]));
    }
    assert(encodings(ts, k) =~= encodings(ts, n).take(encodings(ts, k).len() as int));
}

proof fn lemma_octets_prefix(b: Seq<u8>, k: int, n: int)
    requires
        0 <= k <= n <= b.len(),
    ensures
        octets_encoding(b, k).len() <= octets_encoding(b, n).len(),
        octets_encoding(b, k) == octets_encoding(b, n).take(octets_encoding(b, k).len() as int),
    decreases n - k,
{
    if k < n {
        lemma_octets_prefix(b, k, n - 1);
        assert(octets_encoding(b, n) == octets_encoding(b, n - 1) + cbor::head(
            0,
            b[n - 1] as int,
        ));
    }
    assert(octets_encoding(b, k) =~= octets_encoding(b, n).take(
        octets_encoding(b, k).len() as int,
    ));
}

/// Reading the CBOR form of a value gives the value back, wherever in the
/// input it stands.
pub proof fn lemma_parse_encoding(kind: Kind, t: Tree, pre: Seq<u8>, post: Seq<u8>)
    requires
        conforms(t, kind),
        fits(t),
    ensures
        parse(kind, pre + encoding(t) + post, pre.len() as int) == Ok::<(Tree, int), DecodeFault>(
            (t, (pre.len() + encoding(t).len()) as int),
        ),
        cbor::lead_at(pre + encoding(t) + post, pre.len() as int) == Some(Lead::Other),
    decreases schema::rank(kind), 2int, 0int,
{
    let s = pre + encoding(t) + post;
    schema::lemma_rank(kind, 0);
    match schema::shape(kind) {
        Shape::Text | Shape::Uint(_) | Shape::Int(_, _) => {
            lemma_parse_scalar(kind, t, pre, post);
        },
        Shape::Octets => {
            let b = t->Octets_0;
            let h = cbor::head(4, b.len() as int);
            let body = octets_encoding(b, b.len() as int);
            assert(s =~= pre + h + (body + post));
            cbor::lemma_head_reads_back(pre, 4, b.len() as int, body + post);
            assert(s =~= (pre + h) + body + post);
            lemma_parse_octets(b, 0, pre + h, post);
            assert(b.take(0) =~= seq![]);
        },
        Shape::List(item) => {
            let ts = t->List_0;
            let h = cbor::head(4, ts.len() as int);
            let body = encodings(ts, ts.len() as int);
            assert(s =~= pre + h + (body + post));
            cbor::lemma_head_reads_back(pre, 4, ts.len() as int, body + post);
            assert(s =~= (pre + h) + body + post);
            lemma_parse_list(item, ts, 0, pre + h, post);
            assert(ts.take(0) =~= seq![]);
        },
        Shape::Record => {
            lemma_parse_record(kind, 0, t->Record_0, pre, post);
        },
        Shape::Choice(_) => {
            lemma_parse_choice(kind, t, pre, post);
        },
    }
}

proof fn lemma_parse_scalar(kind: Kind, t: Tree, pre: Seq<u8>, post: Seq<u8>)
    requires
        schema::shape(kind) is Text || schema::shape(kind) is Uint || schema::shape(kind) is Int,
        conforms(t, kind),
        fits(t),
    ensures
        parse(kind, pre + encoding(t) + post, pre.len() as int) == Ok::<(Tree, int), DecodeFault>(
            (t, (pre.len() + encoding(t).len()) as int),
        ),
        cbor::lead_at(pre + encoding(t) + post, pre.len() as int) == Some(Lead::Other),
{
    let s = pre + encoding(t) + post;
    let p = pre.len() as int;
    match schema::shape(kind) {
        Shape::Text => {
            cbor::lemma_text_reads_back(pre, t->Text_0, post);
            cbor::lemma_argument_progress(s, p);
        },
        Shape::Uint(_) => {
            cbor::lemma_head_reads_back(pre, 0, t->Uint_0, post);
        },
        Shape::Int(_, _) => {
            let n = t->Int_0;
            if n >= 0 {
                cbor::lemma_head_reads_back(pre, 0, n, post);
            } else {
                cbor::lemma_head_reads_back(pre, 1, -1 - n, post);
                cbor::lemma_head_len(1, -1 - n);
                cbor::lemma_argument_progress(s, p);
            }
        },
        _ => {},
    }
}

proof fn lemma_parse_choice(kind: Kind, t: Tree, pre: Seq<u8>, post: Seq<u8>)
    requires
        schema::shape(kind) is Choice,
        conforms(t, kind),
        fits(t),
    ensures
        parse(kind, pre + encoding(t) + post, pre.len() as int) == Ok::<(Tree, int), DecodeFault>(
            (t, (pre.len() + encoding(t).len()) as int),
        ),
        cbor::lead_at(pre + encoding(t) + post, pre.len() as int) == Some(Lead::Other),
    decreases schema::rank(kind), 1int, 1int,
{
    let s = pre + encoding(t) + post;
    let p = pre.len() as int;
    let v = t->Choice_0;
    let ts = t->Choice_1;
    let n = used(ts, ts.len() as int);
    assert(fields_conform(kind, v, ts));
    lemma_used(ts, ts.len() as int);
    let number = cbor::int_bytes(v);
    let record = cbor::head(4, n) + encodings(ts, n);
    let two = cbor::head(4, 2);
    let before = pre + two + number;
    assert(encoding(t) == two + number + record);
    assert(s =~= pre + two + (number + record + post));
    cbor::lemma_head_reads_back(pre, 4, 2, number + record + post);
    cbor::lemma_head_len(4, 2);
    let q = (p + two.len()) as int;
    assert(cbor::array_item(s, p) == Some((Some(2int), q)));
    assert(s =~= (pre + two) + number + (record + post));
    cbor::lemma_head_reads_back(pre + two, 0, v, record + post);
    assert(cbor::int_item(s, q) == Some((v, before.len() as int)));
    assert(s =~= before + record + post);
    assert(cbor::lead_at(s, p) == Some(Lead::Other));
    if schema::fields(kind, v).len() == 0 {
        cbor::lemma_head_len(4, 0);
        assert(record =~= seq![0x80u8]);
        assert(s[before.len() as int] == 0x80);
        assert(skipped(s, before.len() as int) == Some((before.len() + 1) as int));
        assert(ts =~= seq![]);
    } else {
        lemma_parse_record(kind, v, ts, before, post);
    }
}

proof fn lemma_parse_octets(b: Seq<u8>, k: int, pre: Seq<u8>, post: Seq<u8>)
    requires
        0 <= k <= b.len(),
    ensures
        parse_octets(
            Some(b.len() as int),
            b.take(k),
            pre + octets_encoding(b, b.len() as int) + post,
            (pre.len() + octets_encoding(b, k).len()) as int,
        ) == Ok::<(Seq<u8>, int), DecodeFault>(
            (b, (pre.len() + octets_encoding(b, b.len() as int).len()) as int),
        ),
    decreases b.len() - k,
{
    let n = b.len() as int;
    let s = pre + octets_encoding(b, n) + post;
    if k == n {
        assert(b.take(k) =~= b);
    } else {
        let before = pre + octets_encoding(b, k);
        let this = cbor::head(0, b[k] as int);
        lemma_octets_prefix(b, k, n);
        lemma_octets_prefix(b, k + 1, n);
        assert(octets_encoding(b, k + 1) == octets_encoding(b, k) + this);
        let after = s.skip((before.len() + this.len()) as int);
        assert(s =~= before + this + after) by {
            assert(octets_encoding(b, n).take(octets_encoding(b, k + 1).len() as int)
                =~= octets_encoding(b, k) + this);
            assert forall|i: int| 0 <= i < before.len() + this.len() implies s[i] == (before
                + this)[i] by {
                if i >= pre.len() {
                    assert(s[i] == octets_encoding(b, n)[i - pre.len()]);
                    assert(octets_encoding(b, k + 1)[i - pre.len()] == octets_encoding(b, n).take(
                        octets_encoding(b, k + 1).len() as int,
                    )[i - pre.len()]);
                }
            }
        }
        cbor::lemma_head_reads_back(before, 0, b[k] as int, after);
        cbor::lemma_argument_progress(s, before.len() as int);
        assert(b.take(k).push(b[k]) =~= b.take(k + 1));
        lemma_parse_octets(b, k + 1, pre, post);
    }
}

/// Splits the encodings of a sequence of values at the one with number `k`.
proof fn lemma_split_encodings(ts: Seq<Tree>, k: int, n: int, pre: Seq<u8>, post: Seq<u8>)
    requires
        0 <= k < n <= ts.len(),
    ensures
        ({
            let s = pre + encodings(ts, n) + post;
            let before = pre + encodings(ts, k);
            let after = s.skip((before.len() + encoding(ts[k]).len()) as int);
            &&& s == before + encoding(ts[k]) + after
            &&& encodings(ts, k + 1) == encodings(ts, k) + encoding(ts[k])
        }),
{
    let s = pre + encodings(ts, n) + post;
    let before = pre + encodings(ts, k);
    let this = encoding(ts[k]);
    lemma_encodings_prefix(ts, k, n);
    lemma_encodings_prefix(ts, k + 1, n);
    assert(encodings(ts, k + 1) == encodings(ts, k) + this);
    let after = s.skip((before.len() + this.len()) as int);
    assert forall|i: int| 0 <= i < before.len() + this.len() implies s[i] == (before + this)[i] by {
        if i >= pre.len() {
            assert(s[i] == encodings(ts, n)[i - pre.len()]);
            assert(encodings(ts, k + 1)[i - pre.len()] == encodings(ts, n).take(
                encodings(ts, k + 1).len() as int,
            )[i - pre.len()]);
        }
    }
    assert(s =~= before + this + after);
}

proof fn lemma_parse_list(item: Kind, ts: Seq<Tree>, k: int, pre: Seq<u8>, post: Seq<u8>)
    requires
        0 <= k <= ts.len(),
        forall|i: int| 0 <= i < ts.len() ==> conforms(#[trigger] ts[i], item),
        forall|i: int| 0 <= i < ts.len() ==> fits(#[trigger] ts[i]),
    ensures
        parse_list(
            item,
            Some(ts.len() as int),
            ts.take(k),
            pre + encodings(ts, ts.len() as int) + post,
            (pre.len() + encodings(ts, k).len()) as int,
        ) == Ok::<(Seq<Tree>, int), DecodeFault>(
            (ts, (pre.len() + encodings(ts, ts.len() as int).len()) as int),
        ),
    decreases schema::rank(item), 3int, ts.len() - k,
{
    let n = ts.len() as int;
    let s = pre + encodings(ts, n) + post;
    if k == n {
        assert(ts.take(k) =~= ts);
    } else {
        let before = pre + encodings(ts, k);
        let this = encoding(ts[k]);
        let after = s.skip((before.len() + this.len()) as int);
        lemma_split_encodings(ts, k, n, pre, post);
        assert(conforms(ts[k], item) && fits(ts[k]));
        lemma_parse_encoding(item, ts[k], before, after);
        lemma_parse_progress(item, s, before.len() as int);
        assert(ts.take(k).push(ts[k]) =~= ts.take(k + 1));
        lemma_parse_list(item, ts, k + 1, pre, post);
    }
}

/// Behind the last written field of a record nothing is set.
proof fn lemma_used(ts: Seq<Tree>, n: int)
    requires
        0 <= n <= ts.len(),
    ensures
        0 <= used(ts, n) <= n,
        forall|i: int| used(ts, n) <= i < n ==> (#[trigger] ts[i]) is Nothing,
    decreases n,
{
    if n > 0 {
        lemma_used(ts, n - 1);
    }
}

proof fn lemma_fill(kind: Kind, variant: int, ts: Seq<Tree>, k: int)
    requires
        fields_conform(kind, variant, ts),
        0 <= k <= ts.len(),
        forall|i: int| k <= i < ts.len() ==> (#[trigger] ts[i]) is Nothing,
    ensures
        fill(schema::fields(kind, variant), ts.take(k)) == Ok::<Seq<Tree>, DecodeFault>(ts),
    decreases ts.len() - k,
{
    if k == ts.len() {
        assert(ts.take(k) =~= ts);
    } else {
        let f = schema::fields(kind, variant)[k];
        assert(ts[k] is Nothing);
        assert(!conforms(ts[k], f.kind));
        assert(ts.take(k).push(Tree::Nothing) =~= ts.take(k + 1));
        lemma_fill(kind, variant, ts, k + 1);
    }
}

proof fn lemma_parse_record(
    kind: Kind,
    variant: int,
    ts: Seq<Tree>,
    pre: Seq<u8>,
    post: Seq<u8>,
)
    requires
        fields_conform(kind, variant, ts),
        forall|i: int| 0 <= i < ts.len() ==> fits(#[trigger] ts[i]),
    ensures
        ({
            let n = used(ts, ts.len() as int);
            let body = cbor::head(4, n) + encodings(ts, n);
            let s = pre + body + post;
            &&& parse_record(kind, variant, s, pre.len() as int) == Ok::<
                (Seq<Tree>, int),
                DecodeFault,
            >((ts, (pre.len() + body.len()) as int))
            &&& cbor::lead_at(s, pre.len() as int) == Some(Lead::Other)
        }),
    decreases schema::rank(kind), 1int, 0int,
{
    let n = used(ts, ts.len() as int);
    let h = cbor::head(4, n);
    let s = pre + (h + encodings(ts, n)) + post;
    schema::lemma_rank(kind, variant);
    lemma_used(ts, ts.len() as int);
    assert(s =~= pre + h + (encodings(ts, n) + post));
    cbor::lemma_head_reads_back(pre, 4, n, encodings(ts, n) + post);
    assert(s =~= (pre + h) + encodings(ts, n) + post);
    assert(ts.take(0) =~= seq![]);
    lemma_parse_fields(kind, variant, ts, 0, pre + h, post);
}

proof fn lemma_parse_fields(
    kind: Kind,
    variant: int,
    ts: Seq<Tree>,
    k: int,
    pre: Seq<u8>,
    post: Seq<u8>,
)
    requires
        fields_conform(kind, variant, ts),
        forall|i: int| 0 <= i < ts.len() ==> fits(#[trigger] ts[i]),
        0 <= k <= used(ts, ts.len() as int),
    ensures
        ({
            let n = used(ts, ts.len() as int);
            let s = pre + encodings(ts, n) + post;
            parse_fields(
                kind,
                variant,
                Some(n),
                k,
                ts.take(k),
                s,
                (pre.len() + encodings(ts, k).len()) as int,
            ) == Ok::<(Seq<Tree>, int), DecodeFault>(
                (ts, (pre.len() + encodings(ts, n).len()) as int),
            )
        }),
    decreases schema::rank(kind), 0int, ts.len() - k,
{
    let n = used(ts, ts.len() as int);
    let s = pre + encodings(ts, n) + post;
    let fs = schema::fields(kind, variant);
    schema::lemma_rank(kind, variant);
    lemma_used(ts, ts.len() as int);
    if k == n {
        lemma_fill(kind, variant, ts, k);
    } else {
        let before = pre + encodings(ts, k);
        let this = encoding(ts[k]);
        let after = s.skip((before.len() + this.len()) as int);
        let f = fs[k];
        lemma_split_encodings(ts, k, n, pre, post);
        assert(fits(ts[k]));
        assert((f.optional && ts[k] is Nothing) || conforms(ts[k], f.kind));
        if ts[k] is Nothing {
            assert(!conforms(ts[k], f.kind));
            assert(s[before.len() as int] == this[0]);
        } else {
            lemma_parse_encoding(f.kind, ts[k], before, after);
            lemma_parse_progress(f.kind, s, before.len() as int);
        }
        assert(parse_field(f.kind, f.optional, s, before.len() as int) == Ok::<
            (Tree, int),
            DecodeFault,
        >((ts[k], (before.len() + this.len()) as int)));
        assert(ts.take(k).push(ts[k]) =~= ts.take(k + 1));
        lemma_parse_fields(kind, variant, ts, k + 1, pre, post);
    }
}

/// The first fields are written the same, whatever follows them.
proof fn lemma_first_fields(a: Seq<Tree>, b: Seq<Tree>, n: int)
    requires
        0 <= n <= a.len(),
        n <= b.len(),
        forall|i: int| 0 <= i < n ==> #[trigger] a[i] == b[i],
    ensures
        used(a, n) == used(b, n),
        0 <= used(a, n) <= n,
        encodings(a, n) == encodings(b, n),
    decreases n,
{
    if n > 0 {
        assert(a[n - 1] == b[n - 1]);
        lemma_first_fields(a, b, n - 1);
    }
}

/// A last field that is not set leaves no trace in a record.
pub proof fn lemma_unset_last_field(ts: Seq<Tree>)
    ensures
        encoding(Tree::Record(ts.push(Tree::Nothing))) == encoding(Tree::Record(ts)),
{
    let longer = ts.push(Tree::Nothing);
    let n = ts.len() as int;
    lemma_first_fields(longer, ts, n);
    lemma_first_fields(longer, ts, used(ts, n));
}

/// An item that begins like an unsigned integer, but for the major type in its
/// three high bits.
pub open spec fn with_major(uint: Seq<u8>, major: int) -> Seq<u8> {
    uint.update(0, (uint[0] + 32 * major) as u8)
}

/// A number in two bytes, most significant first.
pub open spec fn two_bytes(n: int) -> Seq<u8> {
    seq![(n / 256) as u8, (n % 256) as u8]
}

/// The bytes of numbers: the shortest form there is, most significant byte
/// first. A negative number is written as how far it lies below -1.
pub proof fn law_number_bytes(n: int)
    requires
        0 <= n <= u64::MAX,
    ensures
        n < 24 ==> encoding(Tree::Uint(n)) == seq![n as u8],
        24 <= n < 256 ==> encoding(Tree::Uint(n)) == seq![0x18u8, n as u8],
        256 <= n < 65_536 ==> encoding(Tree::Uint(n)) == seq![0x19u8] + two_bytes(n),
        65_536 <= n < 4_294_967_296 ==> encoding(Tree::Uint(n)) == seq![0x1au8] + two_bytes(
            n / 65_536,
        ) + two_bytes(n % 65_536),
        4_294_967_296 <= n ==> ({
            let (high, low) = (n / 4_294_967_296, n % 4_294_967_296);
            encoding(Tree::Uint(n)) == seq![0x1bu8] + two_bytes(high / 65_536) + two_bytes(
                high % 65_536,
            ) + two_bytes(low / 65_536) + two_bytes(low % 65_536)
        }),
        encoding(Tree::Int(n)) == encoding(Tree::Uint(n)),
        encoding(Tree::Int(-1 - n)) == with_major(encoding(Tree::Uint(n)), 1),
{
    reveal(cbor::head);
    let uint = encoding(Tree::Uint(n));
    if n < 256 {
    } else if n < 65_536 {
        assert(uint =~= seq![0x19u8] + two_bytes(n));
    } else if n < 4_294_967_296 {
        assert(uint =~= seq![0x1au8] + two_bytes(n / 65_536) + two_bytes(n % 65_536));
    } else {
        let (high, low) = (n / 4_294_967_296, n % 4_294_967_296);
        assert(cbor::be8(n) == cbor::be4(high) + cbor::be4(low));
        assert(uint =~= seq![0x1bu8] + two_bytes(high / 65_536) + two_bytes(high % 65_536)
            + two_bytes(low / 65_536) + two_bytes(low % 65_536));
    }
    assert(cbor::head(1, n) =~= with_major(cbor::head(0, n), 1));
}

/// The bytes of a text: its length in UTF-8, and then the text in UTF-8. What is
/// not set is `null`.
pub proof fn law_text_bytes(s: Seq<char>)
    ensures
        encoding(Tree::Text(s)) == with_major(
            encoding(Tree::Uint(encode_utf8(s).len() as int)),
            3,
        ) + encode_utf8(s),
        encoding(Tree::Nothing) == seq![0xf6u8],
{
    reveal(cbor::head);
    let n = encode_utf8(s).len() as int;
    assert(encoding(Tree::Text(s)) =~= with_major(encoding(Tree::Uint(n)), 3) + encode_utf8(s));
}

/// The bytes of a list: how many items there are, and then the items, each behind
/// those before it.
pub proof fn law_list_bytes(ts: Seq<Tree>, t: Tree)
    ensures
        encoding(Tree::List(seq![])) == seq![0x80u8],
        ({
            let size = |n: int| with_major(encoding(Tree::Uint(n)), 4);
            let before = encoding(Tree::List(ts));
            let n = ts.len() as int;
            &&& size(n).is_prefix_of(before)
            &&& encoding(Tree::List(ts.push(t))) == size(n + 1) + before.skip(
                size(n).len() as int,
            ) + encoding(t)
        }),
{
    reveal(cbor::head);
    let n = ts.len() as int;
    let all = ts.push(t);
    lemma_first_fields(all, ts, n);
    assert(encoding(Tree::List(seq![])) =~= seq![0x80u8]);
    let size = |n: int| with_major(encoding(Tree::Uint(n)), 4);
    assert(size(n) =~= cbor::head(4, n));
    assert(size(n + 1) =~= cbor::head(4, n + 1));
    let before = encoding(Tree::List(ts));
    assert(before.skip(size(n).len() as int) =~= encodings(ts, n));
    assert(encodings(all, n + 1) == encodings(all, n) + encoding(t));
    assert(encoding(Tree::List(all)) =~= size(n + 1) + encodings(ts, n) + encoding(t));
}

/// The bytes of a record are those of the list of its fields, without the unset
/// ones at the end; a byte string is a list of numbers; and a choice is an array
/// of two items, its number and the record of its fields.
pub proof fn law_record_bytes(ts: Seq<Tree>, v: int, b: Seq<u8>)
    ensures
        ts.len() > 0 && !(ts.last() is Nothing) ==> encoding(Tree::Record(ts)) == encoding(
            Tree::List(ts),
        ),
        encoding(Tree::Record(ts.push(Tree::Nothing))) == encoding(Tree::Record(ts)),
        encoding(Tree::Record(seq![])) == seq![0x80u8],
        encoding(Tree::Octets(b)) == encoding(Tree::List(numbers(b))),
        encoding(Tree::Choice(v, ts)) == seq![0x82u8] + encoding(Tree::Int(v)) + encoding(
            Tree::Record(ts),
        ),
{
    reveal(cbor::head);
    lemma_unset_last_field(ts);
    assert(encoding(Tree::Record(seq![])) =~= seq![0x80u8]);
    lemma_octets_are_numbers(b, b.len() as int);
    assert(encoding(Tree::Choice(v, ts)) =~= seq![0x82u8] + encoding(Tree::Int(v)) + encoding(
        Tree::Record(ts),
    ));
}

/// Bytes as numbers.
pub open spec fn numbers(b: Seq<u8>) -> Seq<Tree> {
    Seq::new(b.len(), |i: int| Tree::Uint(b[i] as int))
}

proof fn lemma_octets_are_numbers(b: Seq<u8>, n: int)
    requires
        0 <= n <= b.len(),
    ensures
        octets_encoding(b, n) == encodings(numbers(b), n),
    decreases n,
{
    if n > 0 {
        lemma_octets_are_numbers(b, n - 1);
        let ts = numbers(b);
        assert(ts[n - 1] == Tree::Uint(b[n - 1] as int));
        assert(encoding(ts[n - 1]) == cbor::head(0, b[n - 1] as int));
        assert(encodings(ts, n) == encodings(ts, n - 1) + encoding(ts[n - 1]));
    }
}

/// The first fields of a record are read one by one, whether the record says how
/// many items it has or ends with a break.
pub proof fn lemma_fields_are_read(
    kind: Kind,
    ts: Seq<Tree>,
    count: Option<int>,
    k: int,
    n: int,
    pre: Seq<u8>,
    post: Seq<u8>,
)
    requires
        fields_conform(kind, 0, ts),
        forall|i: int| 0 <= i < ts.len() ==> fits(#[trigger] ts[i]),
        0 <= k <= n <= ts.len(),
        count matches Some(c) ==> n <= c,
    ensures
        ({
            let s = pre + encodings(ts, n) + post;
            parse_fields(
                kind,
                0,
                count,
                k,
                ts.take(k),
                s,
                (pre.len() + encodings(ts, k).len()) as int,
            ) == parse_fields(
                kind,
                0,
                count,
                n,
                ts.take(n),
                s,
                (pre.len() + encodings(ts, n).len()) as int,
            )
        }),
    decreases n - k,
{
    let s = pre + encodings(ts, n) + post;
    let fs = schema::fields(kind, 0);
    if k < n {
        let before = pre + encodings(ts, k);
        let this = encoding(ts[k]);
        let after = s.skip((before.len() + this.len()) as int);
        let f = fs[k];
        lemma_split_encodings(ts, k, n, pre, post);
        assert(fits(ts[k]));
        assert((f.optional && ts[k] is Nothing) || conforms(ts[k], f.kind));
        if ts[k] is Nothing {
            assert(!conforms(ts[k], f.kind));
            assert(s[before.len() as int] == this[0]);
        } else {
            lemma_parse_encoding(f.kind, ts[k], before, after);
            lemma_parse_progress(f.kind, s, before.len() as int);
        }
        assert(parse_field(f.kind, f.optional, s, before.len() as int) == Ok::<
            (Tree, int),
            DecodeFault,
        >((ts[k], (before.len() + this.len()) as int)));
        assert(step(count, k, s, before.len() as int) == Step::Item);
        assert(ts.take(k).push(ts[k]) =~= ts.take(k + 1));
        lemma_fields_are_read(kind, ts, count, k + 1, n, pre, post);
    }
}

/// An item behind the last field of a record is passed over.
pub proof fn lemma_more_items(kind: Kind, ts: Seq<Tree>, post: Seq<u8>)
    requires
        schema::shape(kind) == Shape::Record,
        fields_conform(kind, 0, ts),
        ts.len() < u64::MAX,
        forall|i: int| 0 <= i < ts.len() ==> fits(#[trigger] ts[i]),
    ensures
        ({
            let n = ts.len() as int;
            let s = cbor::head(4, n + 1) + encodings(ts, n) + post;
            match skipped(s, s.len() - post.len()) {
                Some(end) => parse(kind, s, 0) == Ok::<(Tree, int), DecodeFault>(
                    (Tree::Record(ts), end),
                ),
                None => parse(kind, s, 0) is Err,
            }
        }),
{
    let n = ts.len() as int;
    let h = cbor::head(4, n + 1);
    let s = h + encodings(ts, n) + post;
    let at = s.len() - post.len();
    assert(s =~= seq![] + h + (encodings(ts, n) + post));
    cbor::lemma_head_reads_back(seq![], 4, n + 1, encodings(ts, n) + post);
    assert(ts.take(0) =~= seq![]);
    lemma_fields_are_read(kind, ts, Some(n + 1), 0, n, h, post);
    assert(ts.take(n) =~= ts);
    assert(fill(schema::fields(kind, 0), ts) == Ok::<Seq<Tree>, DecodeFault>(ts));
    if let Some(end) = skipped(s, at) {
        assert(parse_fields(kind, 0, Some(n + 1), n, ts, s, at) == parse_fields(
            kind,
            0,
            Some(n + 1),
            n + 1,
            ts,
            s,
            end,
        ));
    }
}

/// A record that ends with a break reads the same.
pub proof fn lemma_open_ended(kind: Kind, ts: Seq<Tree>, post: Seq<u8>)
    requires
        schema::shape(kind) == Shape::Record,
        fields_conform(kind, 0, ts),
        forall|i: int| 0 <= i < ts.len() ==> fits(#[trigger] ts[i]),
    ensures
        parse(
            kind,
            seq![0x9fu8] + encodings(ts, ts.len() as int) + (seq![0xffu8] + post),
            0,
        ) matches Ok((t, _)) && t == Tree::Record(ts),
{
    let n = ts.len() as int;
    let h = seq![0x9fu8];
    let s = h + encodings(ts, n) + (seq![0xffu8] + post);
    assert(s[0] == 0x9f);
    assert(ts.take(0) =~= seq![]);
    lemma_fields_are_read(kind, ts, None, 0, n, h, seq![0xffu8] + post);
    assert(ts.take(n) =~= ts);
    assert(s[(1 + encodings(ts, n).len()) as int] == 0xff);
    assert(fill(schema::fields(kind, 0), ts) == Ok::<Seq<Tree>, DecodeFault>(ts));
}

/// A record that ends before a field that it must have is refused for that field.
pub proof fn lemma_too_short(kind: Kind, ts: Seq<Tree>, n: int, post: Seq<u8>)
    requires
        schema::shape(kind) == Shape::Record,
        fields_conform(kind, 0, ts),
        forall|i: int| 0 <= i < ts.len() ==> fits(#[trigger] ts[i]),
        0 <= n < ts.len() <= 255,
        !schema::fields(kind, 0)[n].optional,
    ensures
        parse(kind, cbor::head(4, n) + encodings(ts, n) + post, 0) == Err::<
            (Tree, int),
            DecodeFault,
        >(DecodeFault::MissingValue(n as u8)),
{
    let h = cbor::head(4, n);
    let s = h + encodings(ts, n) + post;
    assert(s =~= seq![] + h + (encodings(ts, n) + post));
    cbor::lemma_head_reads_back(seq![], 4, n, encodings(ts, n) + post);
    assert(ts.take(0) =~= seq![]);
    lemma_fields_are_read(kind, ts, Some(n), 0, n, h, post);
}

} // verus!
