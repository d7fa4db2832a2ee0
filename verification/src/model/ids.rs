//! Identifiers. Each is an opaque text with a type of its own, so that one
//! cannot be passed where another belongs.

use vstd::pervasive::unreached;
use vstd::prelude::*;

use crate::codec::{Node, Tree};
use crate::schema;
use crate::schema::{Field, Kind};
use crate::wire::Wire;

verus! {

/// Identifies a detector: one sensing device at a timing point.
#[derive(Debug, PartialEq, Eq, Hash)]
pub struct DetectorId(String);

impl View for DetectorId {
    type V = Seq<char>;

    closed spec fn view(&self) -> Seq<char> {
        self.0@
    }
}

impl DetectorId {
    /// The identifier with the given text.
    pub fn new(s: &str) -> (r: Self)
        ensures
            r@ == s@,
    {
        Self(s.to_owned())
    }

    /// The text of the identifier.
    pub fn as_str(&self) -> (r: &str)
        ensures
            r@ == self@,
    {
        self.0.as_str()
    }

    /// Whether two identifiers have the same text.
    pub fn same(&self, other: &Self) -> (r: bool)
        ensures
            r == (self@ == other@),
    {
        self.0 == other.0
    }
}

impl Clone for DetectorId {
    fn clone(&self) -> (r: Self)
        ensures
            r == *self,
    {
        Self(self.0.clone())
    }
}

impl vstd::std_specs::convert::FromSpecImpl<String> for DetectorId {
    open spec fn obeys_from_spec() -> bool {
        true
    }

    closed spec fn from_spec(s: String) -> Self {
        Self(s)
    }
}

impl From<String> for DetectorId {
    fn from(s: String) -> (r: Self)
        ensures
            r@ == s@,
    {
        Self(s)
    }
}

impl<'a> vstd::std_specs::convert::FromSpecImpl<&'a str> for DetectorId {
    open spec fn obeys_from_spec() -> bool {
        false
    }

    open spec fn from_spec(s: &'a str) -> Self {
        arbitrary()
    }
}

impl<'a> From<&'a str> for DetectorId {
    fn from(s: &'a str) -> (r: Self)
        ensures
            r@ == s@,
    {
        Self(s.to_owned())
    }
}

impl Wire for DetectorId {
    open spec fn field() -> Field {
        schema::req(Kind::Text)
    }

    open spec fn tree(&self) -> Tree {
        Tree::Text(self@)
    }

    proof fn lemma_conforms(&self) {
        reveal(schema::shape);
    }

    fn kind() -> (r: Kind) {
        Kind::Text
    }

    fn to_node(&self) -> (r: Node) {
        Node::Text(self.0.clone())
    }

    fn from_node(node: Node) -> (r: Self) {
        reveal(schema::shape);
        match node {
            Node::Text(s) => Self(s),
            _ => unreached(),
        }
    }
}

/// Identifies a timing point: a place on the course where subjects are timed.
#[derive(Debug, PartialEq, Eq, Hash)]
pub struct TimingPointId(String);

impl View for TimingPointId {
    type V = Seq<char>;

    closed spec fn view(&self) -> Seq<char> {
        self.0@
    }
}

impl TimingPointId {
    /// The identifier with the given text.
    pub fn new(s: &str) -> (r: Self)
        ensures
            r@ == s@,
    {
        Self(s.to_owned())
    }

    /// The text of the identifier.
    pub fn as_str(&self) -> (r: &str)
        ensures
            r@ == self@,
    {
        self.0.as_str()
    }

    /// Whether two identifiers have the same text.
    pub fn same(&self, other: &Self) -> (r: bool)
        ensures
            r == (self@ == other@),
    {
        self.0 == other.0
    }
}

impl Clone for TimingPointId {
    fn clone(&self) -> (r: Self)
        ensures
            r == *self,
    {
        Self(self.0.clone())
    }
}

impl vstd::std_specs::convert::FromSpecImpl<String> for TimingPointId {
    open spec fn obeys_from_spec() -> bool {
        true
    }

    closed spec fn from_spec(s: String) -> Self {
        Self(s)
    }
}

impl From<String> for TimingPointId {
    fn from(s: String) -> (r: Self)
        ensures
            r@ == s@,
    {
        Self(s)
    }
}

impl<'a> vstd::std_specs::convert::FromSpecImpl<&'a str> for TimingPointId {
    open spec fn obeys_from_spec() -> bool {
        false
    }

    open spec fn from_spec(s: &'a str) -> Self {
        arbitrary()
    }
}

impl<'a> From<&'a str> for TimingPointId {
    fn from(s: &'a str) -> (r: Self)
        ensures
            r@ == s@,
    {
        Self(s.to_owned())
    }
}

impl Wire for TimingPointId {
    open spec fn field() -> Field {
        schema::req(Kind::Text)
    }

    open spec fn tree(&self) -> Tree {
        Tree::Text(self@)
    }

    proof fn lemma_conforms(&self) {
        reveal(schema::shape);
    }

    fn kind() -> (r: Kind) {
        Kind::Text
    }

    fn to_node(&self) -> (r: Node) {
        Node::Text(self.0.clone())
    }

    fn from_node(node: Node) -> (r: Self) {
        reveal(schema::shape);
        match node {
            Node::Text(s) => Self(s),
            _ => unreached(),
        }
    }
}

/// Identifies a timed subject, such as a transponder or a start number.
#[derive(Debug, PartialEq, Eq, Hash)]
pub struct SubjectId(String);

impl View for SubjectId {
    type V = Seq<char>;

    closed spec fn view(&self) -> Seq<char> {
        self.0@
    }
}

impl SubjectId {
    /// The identifier with the given text.
    pub fn new(s: &str) -> (r: Self)
        ensures
            r@ == s@,
    {
        Self(s.to_owned())
    }

    /// The text of the identifier.
    pub fn as_str(&self) -> (r: &str)
        ensures
            r@ == self@,
    {
        self.0.as_str()
    }

    /// Whether two identifiers have the same text.
    pub fn same(&self, other: &Self) -> (r: bool)
        ensures
            r == (self@ == other@),
    {
        self.0 == other.0
    }
}

impl Clone for SubjectId {
    fn clone(&self) -> (r: Self)
        ensures
            r == *self,
    {
        Self(self.0.clone())
    }
}

impl vstd::std_specs::convert::FromSpecImpl<String> for SubjectId {
    open spec fn obeys_from_spec() -> bool {
        true
    }

    closed spec fn from_spec(s: String) -> Self {
        Self(s)
    }
}

impl From<String> for SubjectId {
    fn from(s: String) -> (r: Self)
        ensures
            r@ == s@,
    {
        Self(s)
    }
}

impl<'a> vstd::std_specs::convert::FromSpecImpl<&'a str> for SubjectId {
    open spec fn obeys_from_spec() -> bool {
        false
    }

    open spec fn from_spec(s: &'a str) -> Self {
        arbitrary()
    }
}

impl<'a> From<&'a str> for SubjectId {
    fn from(s: &'a str) -> (r: Self)
        ensures
            r@ == s@,
    {
        Self(s.to_owned())
    }
}

impl Wire for SubjectId {
    open spec fn field() -> Field {
        schema::req(Kind::Text)
    }

    open spec fn tree(&self) -> Tree {
        Tree::Text(self@)
    }

    proof fn lemma_conforms(&self) {
        reveal(schema::shape);
    }

    fn kind() -> (r: Kind) {
        Kind::Text
    }

    fn to_node(&self) -> (r: Node) {
        Node::Text(self.0.clone())
    }

    fn from_node(node: Node) -> (r: Self) {
        reveal(schema::shape);
        match node {
            Node::Text(s) => Self(s),
            _ => unreached(),
        }
    }
}

/// Identifies the timebase that a timestamp was taken from.
#[derive(Debug, PartialEq, Eq, Hash)]
pub struct TimebaseId(String);

impl View for TimebaseId {
    type V = Seq<char>;

    closed spec fn view(&self) -> Seq<char> {
        self.0@
    }
}

impl TimebaseId {
    /// The identifier with the given text.
    pub fn new(s: &str) -> (r: Self)
        ensures
            r@ == s@,
    {
        Self(s.to_owned())
    }

    /// The text of the identifier.
    pub fn as_str(&self) -> (r: &str)
        ensures
            r@ == self@,
    {
        self.0.as_str()
    }

    /// Whether two identifiers have the same text.
    pub fn same(&self, other: &Self) -> (r: bool)
        ensures
            r == (self@ == other@),
    {
        self.0 == other.0
    }
}

impl Clone for TimebaseId {
    fn clone(&self) -> (r: Self)
        ensures
            r == *self,
    {
        Self(self.0.clone())
    }
}

impl vstd::std_specs::convert::FromSpecImpl<String> for TimebaseId {
    open spec fn obeys_from_spec() -> bool {
        true
    }

    closed spec fn from_spec(s: String) -> Self {
        Self(s)
    }
}

impl From<String> for TimebaseId {
    fn from(s: String) -> (r: Self)
        ensures
            r@ == s@,
    {
        Self(s)
    }
}

impl<'a> vstd::std_specs::convert::FromSpecImpl<&'a str> for TimebaseId {
    open spec fn obeys_from_spec() -> bool {
        false
    }

    open spec fn from_spec(s: &'a str) -> Self {
        arbitrary()
    }
}

impl<'a> From<&'a str> for TimebaseId {
    fn from(s: &'a str) -> (r: Self)
        ensures
            r@ == s@,
    {
        Self(s.to_owned())
    }
}

impl Wire for TimebaseId {
    open spec fn field() -> Field {
        schema::req(Kind::Text)
    }

    open spec fn tree(&self) -> Tree {
        Tree::Text(self@)
    }

    proof fn lemma_conforms(&self) {
        reveal(schema::shape);
    }

    fn kind() -> (r: Kind) {
        Kind::Text
    }

    fn to_node(&self) -> (r: Node) {
        Node::Text(self.0.clone())
    }

    fn from_node(node: Node) -> (r: Self) {
        reveal(schema::shape);
        match node {
            Node::Text(s) => Self(s),
            _ => unreached(),
        }
    }
}

/// Identifies a single detection.
#[derive(Debug, PartialEq, Eq, Hash)]
pub struct DetectionId(String);

impl View for DetectionId {
    type V = Seq<char>;

    closed spec fn view(&self) -> Seq<char> {
        self.0@
    }
}

impl DetectionId {
    /// The identifier with the given text.
    pub fn new(s: &str) -> (r: Self)
        ensures
            r@ == s@,
    {
        Self(s.to_owned())
    }

    /// The text of the identifier.
    pub fn as_str(&self) -> (r: &str)
        ensures
            r@ == self@,
    {
        self.0.as_str()
    }

    /// Whether two identifiers have the same text.
    pub fn same(&self, other: &Self) -> (r: bool)
        ensures
            r == (self@ == other@),
    {
        self.0 == other.0
    }
}

impl Clone for DetectionId {
    fn clone(&self) -> (r: Self)
        ensures
            r == *self,
    {
        Self(self.0.clone())
    }
}

impl vstd::std_specs::convert::FromSpecImpl<String> for DetectionId {
    open spec fn obeys_from_spec() -> bool {
        true
    }

    closed spec fn from_spec(s: String) -> Self {
        Self(s)
    }
}

impl From<String> for DetectionId {
    fn from(s: String) -> (r: Self)
        ensures
            r@ == s@,
    {
        Self(s)
    }
}

impl<'a> vstd::std_specs::convert::FromSpecImpl<&'a str> for DetectionId {
    open spec fn obeys_from_spec() -> bool {
        false
    }

    open spec fn from_spec(s: &'a str) -> Self {
        arbitrary()
    }
}

impl<'a> From<&'a str> for DetectionId {
    fn from(s: &'a str) -> (r: Self)
        ensures
            r@ == s@,
    {
        Self(s.to_owned())
    }
}

impl Wire for DetectionId {
    open spec fn field() -> Field {
        schema::req(Kind::Text)
    }

    open spec fn tree(&self) -> Tree {
        Tree::Text(self@)
    }

    proof fn lemma_conforms(&self) {
        reveal(schema::shape);
    }

    fn kind() -> (r: Kind) {
        Kind::Text
    }

    fn to_node(&self) -> (r: Node) {
        Node::Text(self.0.clone())
    }

    fn from_node(node: Node) -> (r: Self) {
        reveal(schema::shape);
        match node {
            Node::Text(s) => Self(s),
            _ => unreached(),
        }
    }
}

/// Identifies a single crossing.
#[derive(Debug, PartialEq, Eq, Hash)]
pub struct CrossingId(String);

impl View for CrossingId {
    type V = Seq<char>;

    closed spec fn view(&self) -> Seq<char> {
        self.0@
    }
}

impl CrossingId {
    /// The identifier with the given text.
    pub fn new(s: &str) -> (r: Self)
        ensures
            r@ == s@,
    {
        Self(s.to_owned())
    }

    /// The text of the identifier.
    pub fn as_str(&self) -> (r: &str)
        ensures
            r@ == self@,
    {
        self.0.as_str()
    }

    /// Whether two identifiers have the same text.
    pub fn same(&self, other: &Self) -> (r: bool)
        ensures
            r == (self@ == other@),
    {
        self.0 == other.0
    }
}

impl Clone for CrossingId {
    fn clone(&self) -> (r: Self)
        ensures
            r == *self,
    {
        Self(self.0.clone())
    }
}

impl vstd::std_specs::convert::FromSpecImpl<String> for CrossingId {
    open spec fn obeys_from_spec() -> bool {
        true
    }

    closed spec fn from_spec(s: String) -> Self {
        Self(s)
    }
}

impl From<String> for CrossingId {
    fn from(s: String) -> (r: Self)
        ensures
            r@ == s@,
    {
        Self(s)
    }
}

impl<'a> vstd::std_specs::convert::FromSpecImpl<&'a str> for CrossingId {
    open spec fn obeys_from_spec() -> bool {
        false
    }

    open spec fn from_spec(s: &'a str) -> Self {
        arbitrary()
    }
}

impl<'a> From<&'a str> for CrossingId {
    fn from(s: &'a str) -> (r: Self)
        ensures
            r@ == s@,
    {
        Self(s.to_owned())
    }
}

impl Wire for CrossingId {
    open spec fn field() -> Field {
        schema::req(Kind::Text)
    }

    open spec fn tree(&self) -> Tree {
        Tree::Text(self@)
    }

    proof fn lemma_conforms(&self) {
        reveal(schema::shape);
    }

    fn kind() -> (r: Kind) {
        Kind::Text
    }

    fn to_node(&self) -> (r: Node) {
        Node::Text(self.0.clone())
    }

    fn from_node(node: Node) -> (r: Self) {
        reveal(schema::shape);
        match node {
            Node::Text(s) => Self(s),
            _ => unreached(),
        }
    }
}

/// Identifies a stream of messages.
#[derive(Debug, PartialEq, Eq, Hash)]
pub struct StreamId(String);

impl View for StreamId {
    type V = Seq<char>;

    closed spec fn view(&self) -> Seq<char> {
        self.0@
    }
}

impl StreamId {
    /// The identifier with the given text.
    pub fn new(s: &str) -> (r: Self)
        ensures
            r@ == s@,
    {
        Self(s.to_owned())
    }

    /// The text of the identifier.
    pub fn as_str(&self) -> (r: &str)
        ensures
            r@ == self@,
    {
        self.0.as_str()
    }

    /// Whether two identifiers have the same text.
    pub fn same(&self, other: &Self) -> (r: bool)
        ensures
            r == (self@ == other@),
    {
        self.0 == other.0
    }
}

impl Clone for StreamId {
    fn clone(&self) -> (r: Self)
        ensures
            r == *self,
    {
        Self(self.0.clone())
    }
}

impl vstd::std_specs::convert::FromSpecImpl<String> for StreamId {
    open spec fn obeys_from_spec() -> bool {
        true
    }

    closed spec fn from_spec(s: String) -> Self {
        Self(s)
    }
}

impl From<String> for StreamId {
    fn from(s: String) -> (r: Self)
        ensures
            r@ == s@,
    {
        Self(s)
    }
}

impl<'a> vstd::std_specs::convert::FromSpecImpl<&'a str> for StreamId {
    open spec fn obeys_from_spec() -> bool {
        false
    }

    open spec fn from_spec(s: &'a str) -> Self {
        arbitrary()
    }
}

impl<'a> From<&'a str> for StreamId {
    fn from(s: &'a str) -> (r: Self)
        ensures
            r@ == s@,
    {
        Self(s.to_owned())
    }
}

impl Wire for StreamId {
    open spec fn field() -> Field {
        schema::req(Kind::Text)
    }

    open spec fn tree(&self) -> Tree {
        Tree::Text(self@)
    }

    proof fn lemma_conforms(&self) {
        reveal(schema::shape);
    }

    fn kind() -> (r: Kind) {
        Kind::Text
    }

    fn to_node(&self) -> (r: Node) {
        Node::Text(self.0.clone())
    }

    fn from_node(node: Node) -> (r: Self) {
        reveal(schema::shape);
        match node {
            Node::Text(s) => Self(s),
            _ => unreached(),
        }
    }
}

/// Identifies the operator who made a manual entry.
#[derive(Debug, PartialEq, Eq, Hash)]
pub struct OperatorId(String);

impl View for OperatorId {
    type V = Seq<char>;

    closed spec fn view(&self) -> Seq<char> {
        self.0@
    }
}

impl OperatorId {
    /// The identifier with the given text.
    pub fn new(s: &str) -> (r: Self)
        ensures
            r@ == s@,
    {
        Self(s.to_owned())
    }

    /// The text of the identifier.
    pub fn as_str(&self) -> (r: &str)
        ensures
            r@ == self@,
    {
        self.0.as_str()
    }

    /// Whether two identifiers have the same text.
    pub fn same(&self, other: &Self) -> (r: bool)
        ensures
            r == (self@ == other@),
    {
        self.0 == other.0
    }
}

impl Clone for OperatorId {
    fn clone(&self) -> (r: Self)
        ensures
            r == *self,
    {
        Self(self.0.clone())
    }
}

impl vstd::std_specs::convert::FromSpecImpl<String> for OperatorId {
    open spec fn obeys_from_spec() -> bool {
        true
    }

    closed spec fn from_spec(s: String) -> Self {
        Self(s)
    }
}

impl From<String> for OperatorId {
    fn from(s: String) -> (r: Self)
        ensures
            r@ == s@,
    {
        Self(s)
    }
}

impl<'a> vstd::std_specs::convert::FromSpecImpl<&'a str> for OperatorId {
    open spec fn obeys_from_spec() -> bool {
        false
    }

    open spec fn from_spec(s: &'a str) -> Self {
        arbitrary()
    }
}

impl<'a> From<&'a str> for OperatorId {
    fn from(s: &'a str) -> (r: Self)
        ensures
            r@ == s@,
    {
        Self(s.to_owned())
    }
}

impl Wire for OperatorId {
    open spec fn field() -> Field {
        schema::req(Kind::Text)
    }

    open spec fn tree(&self) -> Tree {
        Tree::Text(self@)
    }

    proof fn lemma_conforms(&self) {
        reveal(schema::shape);
    }

    fn kind() -> (r: Kind) {
        Kind::Text
    }

    fn to_node(&self) -> (r: Node) {
        Node::Text(self.0.clone())
    }

    fn from_node(node: Node) -> (r: Self) {
        reveal(schema::shape);
        match node {
            Node::Text(s) => Self(s),
            _ => unreached(),
        }
    }
}

/// Identifies the producer of a message.
#[derive(Debug, PartialEq, Eq, Hash)]
pub struct ProducerId(String);

impl View for ProducerId {
    type V = Seq<char>;

    closed spec fn view(&self) -> Seq<char> {
        self.0@
    }
}

impl ProducerId {
    /// The identifier with the given text.
    pub fn new(s: &str) -> (r: Self)
        ensures
            r@ == s@,
    {
        Self(s.to_owned())
    }

    /// The text of the identifier.
    pub fn as_str(&self) -> (r: &str)
        ensures
            r@ == self@,
    {
        self.0.as_str()
    }

    /// Whether two identifiers have the same text.
    pub fn same(&self, other: &Self) -> (r: bool)
        ensures
            r == (self@ == other@),
    {
        self.0 == other.0
    }
}

impl Clone for ProducerId {
    fn clone(&self) -> (r: Self)
        ensures
            r == *self,
    {
        Self(self.0.clone())
    }
}

impl vstd::std_specs::convert::FromSpecImpl<String> for ProducerId {
    open spec fn obeys_from_spec() -> bool {
        true
    }

    closed spec fn from_spec(s: String) -> Self {
        Self(s)
    }
}

impl From<String> for ProducerId {
    fn from(s: String) -> (r: Self)
        ensures
            r@ == s@,
    {
        Self(s)
    }
}

impl<'a> vstd::std_specs::convert::FromSpecImpl<&'a str> for ProducerId {
    open spec fn obeys_from_spec() -> bool {
        false
    }

    open spec fn from_spec(s: &'a str) -> Self {
        arbitrary()
    }
}

impl<'a> From<&'a str> for ProducerId {
    fn from(s: &'a str) -> (r: Self)
        ensures
            r@ == s@,
    {
        Self(s.to_owned())
    }
}

impl Wire for ProducerId {
    open spec fn field() -> Field {
        schema::req(Kind::Text)
    }

    open spec fn tree(&self) -> Tree {
        Tree::Text(self@)
    }

    proof fn lemma_conforms(&self) {
        reveal(schema::shape);
    }

    fn kind() -> (r: Kind) {
        Kind::Text
    }

    fn to_node(&self) -> (r: Node) {
        Node::Text(self.0.clone())
    }

    fn from_node(node: Node) -> (r: Self) {
        reveal(schema::shape);
        match node {
            Node::Text(s) => Self(s),
            _ => unreached(),
        }
    }
}

/// Links a request to its reply.
#[derive(Debug, PartialEq, Eq, Hash)]
pub struct CorrelationId(String);

impl View for CorrelationId {
    type V = Seq<char>;

    closed spec fn view(&self) -> Seq<char> {
        self.0@
    }
}

impl CorrelationId {
    /// The identifier with the given text.
    pub fn new(s: &str) -> (r: Self)
        ensures
            r@ == s@,
    {
        Self(s.to_owned())
    }

    /// The text of the identifier.
    pub fn as_str(&self) -> (r: &str)
        ensures
            r@ == self@,
    {
        self.0.as_str()
    }

    /// Whether two identifiers have the same text.
    pub fn same(&self, other: &Self) -> (r: bool)
        ensures
            r == (self@ == other@),
    {
        self.0 == other.0
    }
}

impl Clone for CorrelationId {
    fn clone(&self) -> (r: Self)
        ensures
            r == *self,
    {
        Self(self.0.clone())
    }
}

impl vstd::std_specs::convert::FromSpecImpl<String> for CorrelationId {
    open spec fn obeys_from_spec() -> bool {
        true
    }

    closed spec fn from_spec(s: String) -> Self {
        Self(s)
    }
}

impl From<String> for CorrelationId {
    fn from(s: String) -> (r: Self)
        ensures
            r@ == s@,
    {
        Self(s)
    }
}

impl<'a> vstd::std_specs::convert::FromSpecImpl<&'a str> for CorrelationId {
    open spec fn obeys_from_spec() -> bool {
        false
    }

    open spec fn from_spec(s: &'a str) -> Self {
        arbitrary()
    }
}

impl<'a> From<&'a str> for CorrelationId {
    fn from(s: &'a str) -> (r: Self)
        ensures
            r@ == s@,
    {
        Self(s.to_owned())
    }
}

impl Wire for CorrelationId {
    open spec fn field() -> Field {
        schema::req(Kind::Text)
    }

    open spec fn tree(&self) -> Tree {
        Tree::Text(self@)
    }

    proof fn lemma_conforms(&self) {
        reveal(schema::shape);
    }

    fn kind() -> (r: Kind) {
        Kind::Text
    }

    fn to_node(&self) -> (r: Node) {
        Node::Text(self.0.clone())
    }

    fn from_node(node: Node) -> (r: Self) {
        reveal(schema::shape);
        match node {
            Node::Text(s) => Self(s),
            _ => unreached(),
        }
    }
}

} // verus!
