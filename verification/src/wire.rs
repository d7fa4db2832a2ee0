//! Values with a CBOR form.

use vstd::pervasive::unreached;
use vstd::prelude::*;

use crate::codec;
use crate::codec::{DecodeFault, Node, Tree};
use crate::schema;
use crate::schema::{Field, Kind};

verus! {

/// Whether a model is one that a field may have.
pub open spec fn field_conforms(t: Tree, field: Field) -> bool {
    (field.optional && t is Nothing) || codec::conforms(t, field.kind)
}

/// A value that has a CBOR form.
pub trait Wire: Sized {
    /// The field that a value of this type is.
    spec fn field() -> Field;

    /// The model of the value.
    spec fn tree(&self) -> Tree;

    /// A value's model is one of its field.
    proof fn lemma_conforms(&self)
        ensures
            field_conforms(self.tree(), Self::field()),
    ;

    /// The kind of the field.
    fn kind() -> (r: Kind)
        ensures
            r == Self::field().kind,
    ;

    /// Takes the value apart.
    fn to_node(&self) -> (r: Node)
        ensures
            r.tree() == self.tree(),
    ;

    /// Puts a value together.
    fn from_node(node: Node) -> (r: Self)
        requires
            field_conforms(node.tree(), Self::field()),
        ensures
            r.tree() == node.tree(),
    ;
}

/// The CBOR form of a value. Reading it back gives a value with the same
/// model, whatever bytes follow.
pub fn to_vec<T: Wire>(value: &T) -> (r: Vec<u8>)
    ensures
        r@ == codec::encoding(value.tree()),
        !T::field().optional ==> forall|rest: Seq<u8>|
            codec::parse(T::field().kind, #[trigger] (r@ + rest), 0) == Ok::<
                (Tree, int),
                DecodeFault,
            >((value.tree(), r@.len() as int)),
{
    let node = value.to_node();
    let mut out: Vec<u8> = Vec::new();
    codec::encode_node(&node, &mut out);
    proof {
        value.lemma_conforms();
        if !T::field().optional {
            assert forall|rest: Seq<u8>|
                codec::parse(T::field().kind, #[trigger] (out@ + rest), 0) == Ok::<
                    (Tree, int),
                    DecodeFault,
                >((value.tree(), out@.len() as int)) by {
                codec::lemma_parse_encoding(T::field().kind, value.tree(), seq![], rest);
                assert(seq![] + codec::encoding(value.tree()) + rest =~= out@ + rest);
            }
        }
    }
    out
}

/// The value whose CBOR form the input starts with.
pub fn decode<T: Wire>(input: &[u8]) -> (r: Result<T, DecodeFault>)
    ensures
        match r {
            Ok(value) => codec::parse(T::field().kind, input@, 0) matches Ok((t, _)) && t
                == value.tree(),
            Err(e) => codec::parse(T::field().kind, input@, 0) == Err::<(Tree, int), DecodeFault>(
                e,
            ),
        },
{
    match codec::decode_node(T::kind(), input, 0) {
        Ok((node, _)) => Ok(T::from_node(node)),
        Err(e) => Err(e),
    }
}

/// What `to_vec` writes, `decode` reads: the CBOR form of a value is read as
/// that value.
pub proof fn law_decode_of_to_vec<T: Wire>(value: &T)
    requires
        !T::field().optional,
        codec::fits(value.tree()),
    ensures
        codec::parse(T::field().kind, codec::encoding(value.tree()), 0) == Ok::<
            (Tree, int),
            DecodeFault,
        >((value.tree(), codec::encoding(value.tree()).len() as int)),
{
    value.lemma_conforms();
    codec::lemma_parse_encoding(T::field().kind, value.tree(), seq![], seq![]);
    assert(seq![] + codec::encoding(value.tree()) + seq![] =~= codec::encoding(value.tree()));
}

/// Takes the last part of a value.
pub(crate) fn take_last(parts: &mut Vec<Node>) -> (r: Node)
    requires
        old(parts)@.len() > 0,
    ensures
        r == old(parts)@.last(),
        final(parts)@ == old(parts)@.drop_last(),
{
    match parts.pop() {
        Some(node) => node,
        None => unreached(),
    }
}

impl Wire for u8 {
    open spec fn field() -> Field {
        schema::req(Kind::U8)
    }

    open spec fn tree(&self) -> Tree {
        Tree::Uint(*self as int)
    }

    proof fn lemma_conforms(&self) {
        reveal(schema::shape);
    }

    fn kind() -> (r: Kind) {
        Kind::U8
    }

    fn to_node(&self) -> (r: Node) {
        Node::Uint(*self as u64)
    }

    fn from_node(node: Node) -> (r: Self) {
        reveal(schema::shape);
        match node {
            Node::Uint(n) => n as u8,
            _ => unreached(),
        }
    }
}

impl Wire for u32 {
    open spec fn field() -> Field {
        schema::req(Kind::U32)
    }

    open spec fn tree(&self) -> Tree {
        Tree::Uint(*self as int)
    }

    proof fn lemma_conforms(&self) {
        reveal(schema::shape);
    }

    fn kind() -> (r: Kind) {
        Kind::U32
    }

    fn to_node(&self) -> (r: Node) {
        Node::Uint(*self as u64)
    }

    fn from_node(node: Node) -> (r: Self) {
        reveal(schema::shape);
        match node {
            Node::Uint(n) => n as u32,
            _ => unreached(),
        }
    }
}

impl Wire for u64 {
    open spec fn field() -> Field {
        schema::req(Kind::U64)
    }

    open spec fn tree(&self) -> Tree {
        Tree::Uint(*self as int)
    }

    proof fn lemma_conforms(&self) {
        reveal(schema::shape);
    }

    fn kind() -> (r: Kind) {
        Kind::U64
    }

    fn to_node(&self) -> (r: Node) {
        Node::Uint(*self)
    }

    fn from_node(node: Node) -> (r: Self) {
        reveal(schema::shape);
        match node {
            Node::Uint(n) => n,
            _ => unreached(),
        }
    }
}

impl Wire for i16 {
    open spec fn field() -> Field {
        schema::req(Kind::I16)
    }

    open spec fn tree(&self) -> Tree {
        Tree::Int(*self as int)
    }

    proof fn lemma_conforms(&self) {
        reveal(schema::shape);
    }

    fn kind() -> (r: Kind) {
        Kind::I16
    }

    fn to_node(&self) -> (r: Node) {
        Node::Int(*self as i64)
    }

    fn from_node(node: Node) -> (r: Self) {
        reveal(schema::shape);
        match node {
            Node::Int(n) => n as i16,
            _ => unreached(),
        }
    }
}

impl Wire for String {
    open spec fn field() -> Field {
        schema::req(Kind::Text)
    }

    open spec fn tree(&self) -> Tree {
        Tree::Text(self@)
    }

    proof fn lemma_conforms(&self) {
        reveal(schema::shape);
    }

    fn kind() -> (r: Kind) {
        Kind::Text
    }

    fn to_node(&self) -> (r: Node) {
        Node::Text(self.clone())
    }

    fn from_node(node: Node) -> (r: Self) {
        reveal(schema::shape);
        match node {
            Node::Text(s) => s,
            _ => unreached(),
        }
    }
}

impl Wire for Vec<u8> {
    open spec fn field() -> Field {
        schema::req(Kind::Octets)
    }

    open spec fn tree(&self) -> Tree {
        Tree::Octets(self@)
    }

    proof fn lemma_conforms(&self) {
        reveal(schema::shape);
    }

    fn kind() -> (r: Kind) {
        Kind::Octets
    }

    fn to_node(&self) -> (r: Node) {
        Node::Octets(self.clone())
    }

    fn from_node(node: Node) -> (r: Self) {
        reveal(schema::shape);
        match node {
            Node::Octets(b) => b,
            _ => unreached(),
        }
    }
}

impl<T: Wire> Wire for Option<T> {
    open spec fn field() -> Field {
        schema::opt(T::field().kind)
    }

    open spec fn tree(&self) -> Tree {
        match self {
            Some(value) => value.tree(),
            None => Tree::Nothing,
        }
    }

    proof fn lemma_conforms(&self) {
        if let Some(value) = self {
            value.lemma_conforms();
        }
    }

    fn kind() -> (r: Kind) {
        T::kind()
    }

    fn to_node(&self) -> (r: Node) {
        match self {
            Some(value) => value.to_node(),
            None => Node::Nothing,
        }
    }

    fn from_node(node: Node) -> (r: Self) {
        match node {
            Node::Nothing => None,
            _ => {
                assert(!(node.tree() is Nothing));
                Some(T::from_node(node))
            },
        }
    }
}

} // verus!
