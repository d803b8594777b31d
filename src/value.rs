//! The value tree: one node per BER element, and the encoder.

use vstd::prelude::*;

use crate::bytes::{
    be_bytes, lemma_be_bytes_len, min_width, pattern, pattern_of, push_be, signed_width,
    signed_width_of,
};
use crate::timestamp::{utc_text, Timestamp};

verus! {

pub const TAG_SEQUENCE: u8 = 0x30;

pub const TAG_INTEGER: u8 = 0x02;

pub const TAG_OID: u8 = 0x06;

pub const TAG_OCTET_STRING: u8 = 0x04;

pub const TAG_UTC_TIME: u8 = 0x17;

pub const TAG_APPLICATION: u8 = 0x41;

/// What went wrong while decoding, or while reading a node as a kind it is not.
#[derive(Clone, Copy, Debug, PartialEq, Eq, Structural)]
pub enum AsnError {
    /// A read would run past the end of the buffer or of the enclosing element.
    TruncatedInput,
    /// A tag of the context-specific or private class.
    UnsupportedClass,
    /// A path that the registry does not know.
    UnknownOID,
    /// A UTC-time payload that is not a real time in the text form.
    MalformedTimestamp,
    /// A node read as a kind that it is not.
    TypeMismatch,
    /// A record blob that ends inside a field.
    TruncatedRecord,
    /// A part of the file that must be there is missing or ill-formed.
    MissingRequiredField,
    /// Sequences nested deeper than the decoder follows.
    NestingTooDeep,
    /// A length, integer or arc wider than 64 bits.
    Oversized,
}

/// The kinds of node, as the low five bits of a universal tag select them.
#[derive(Clone, Copy, Debug, PartialEq, Eq, Structural)]
pub enum Type {
    Sequence,
    Integer,
    OID,
    OctetString,
    Application,
    UTCTime,
    Unknown,
}

/// The kind that tag number `id` stands for.
pub open spec fn type_of(id: u8) -> Type {
    if id == 0x10 {
        Type::Sequence
    } else if id == 0x02 {
        Type::Integer
    } else if id == 0x06 {
        Type::OID
    } else if id == 0x04 {
        Type::OctetString
    } else if id == 0x41 {
        Type::Application
    } else if id == 0x17 {
        Type::UTCTime
    } else {
        Type::Unknown
    }
}

impl Type {
    /// The kind that tag number `id` stands for.
    pub fn from_id(id: u8) -> (r: Type)
        ensures
            r == type_of(id),
    {
        match id {
            0x10 => Type::Sequence,
            0x02 => Type::Integer,
            0x06 => Type::OID,
            0x04 => Type::OctetString,
            0x41 => Type::Application,
            0x17 => Type::UTCTime,
            _ => Type::Unknown,
        }
    }
}

impl From<u8> for Type {
    fn from(id: u8) -> (r: Type) {
        Type::from_id(id)
    }
}

impl vstd::std_specs::convert::FromSpecImpl<u8> for Type {
    open spec fn obeys_from_spec() -> bool {
        true
    }

    open spec fn from_spec(id: u8) -> Type {
        type_of(id)
    }
}

/// A decoded element.
#[derive(Debug, PartialEq, Eq)]
pub enum ASN {
    Sequence(Sequence),
    Integer(Integer),
    OID(AsnOID),
    OctetString(OctetString),
    UTCTime(UTCTime),
    Application(Application),
    Unknown(Unknown),
}

/// An ordered list of child elements.
#[derive(Debug, PartialEq, Eq)]
pub struct Sequence {
    pub content: Vec<ASN>,
}

/// A signed integer of at most 64 bits.
#[derive(Clone, Copy, Debug, PartialEq, Eq, Structural)]
pub struct Integer {
    pub content: i64,
}

/// An object identifier: its arcs in order.
#[derive(Clone, Debug, PartialEq, Eq)]
pub struct AsnOID {
    pub content: Vec<i64>,
}

/// Raw bytes under the octet-string tag.
#[derive(Clone, Debug, PartialEq, Eq)]
pub struct OctetString {
    pub content: Vec<u8>,
}

/// A timestamp under the UTC-time tag.
#[derive(Clone, Copy, Debug, PartialEq, Eq, Structural)]
pub struct UTCTime {
    pub content: Timestamp,
}

/// Raw bytes under the vendor application tag.
#[derive(Clone, Debug, PartialEq, Eq)]
pub struct Application {
    pub content: Vec<u8>,
}

/// Raw bytes under a universal tag that has no node of its own; the tag byte
/// is kept so that the element is written back as it came.
#[derive(Clone, Debug, PartialEq, Eq)]
pub struct Unknown {
    pub tag: u8,
    pub content: Vec<u8>,
}

/// The mathematical value of a node.
pub enum Tree {
    Sequence(Seq<Tree>),
    Integer(i64),
    OID(Seq<i64>),
    OctetString(Seq<u8>),
    UTCTime(Timestamp),
    Application(Seq<u8>),
    Unknown(u8, Seq<u8>),
}

impl ASN {
    pub open spec fn view(&self) -> Tree
        decreases self,
    {
        match self {
            ASN::Sequence(q) => Tree::Sequence(
                Seq::new(
                    q.content@.len(),
                    |i: int|
                        if 0 <= i < q.content@.len() {
                            q.content@[i].view()
                        } else {
                            Tree::Integer(0)
                        },
                ),
            ),
            ASN::Integer(i) => Tree::Integer(i.content),
            ASN::OID(o) => Tree::OID(o.content@),
            ASN::OctetString(o) => Tree::OctetString(o.content@),
            ASN::UTCTime(u) => Tree::UTCTime(u.content),
            ASN::Application(a) => Tree::Application(a.content@),
            ASN::Unknown(u) => Tree::Unknown(u.tag, u.content@),
        }
    }
}

// ---------------------------------------------------------------------------
// The encoding, stated
/// The integer payload: the shortest big-endian two's complement form.
pub open spec fn int_payload(v: i64) -> Seq<u8> {
    be_bytes(pattern(v as int, signed_width(v as int)), signed_width(v as int))
}

/// The length bytes: one byte up to 127, else `0x80 | k` and `k` big-endian
/// bytes, `k` being 1, 2, 4 or 8.
pub open spec fn length_prefix(n: nat) -> Seq<u8> {
    if n <= 127 {
        seq![n as u8]
    } else {
        seq![(0x80 + min_width(n)) as u8] + be_bytes(n, min_width(n))
    }
}

/// Tag, length, payload.
pub open spec fn tlv(tag: u8, payload: Seq<u8>) -> Seq<u8> {
    seq![tag] + length_prefix(payload.len()) + payload
}

/// Base-128 groups above the last one, each with the continuation bit set.
pub open spec fn arc_high(x: nat) -> Seq<u8>
    decreases x,
{
    if x == 0 {
        Seq::empty()
    } else {
        arc_high(x / 128).push((x % 128 + 128) as u8)
    }
}

/// One arc after the first two: base 128, most significant group first,
/// the continuation bit on every byte but the last.
pub open spec fn arc_bytes(a: int) -> Seq<u8> {
    arc_high((a as nat) / 128).push(((a as nat) % 128) as u8)
}

/// The arcs after the first two, one after another.
pub open spec fn arcs_bytes(s: Seq<i64>) -> Seq<u8>
    decreases s.len(),
{
    if s.len() == 0 {
        Seq::empty()
    } else {
        arc_bytes(s[0] as int) + arcs_bytes(s.drop_first())
    }
}

/// The object-identifier payload: `arc0 * 40 + arc1`, then the other arcs.
pub open spec fn oid_payload(a: Seq<i64>) -> Seq<u8> {
    seq![(a[0] * 40 + a[1]) as u8] + arcs_bytes(a.subrange(2, a.len() as int))
}

/// An object identifier that the encoder can write: two arcs or more, the first
/// two packed into one byte, none negative.
pub open spec fn oid_wf(a: Seq<i64>) -> bool {
    &&& a.len() >= 2
    &&& 0 <= a[0]
    &&& 0 <= a[1] < 40
    &&& a[0] * 40 + a[1] < 256
    &&& forall|i: int| 2 <= i < a.len() ==> a[i] >= 0
}

/// The bytes of a node.
pub open spec fn enc(node: ASN) -> Seq<u8>
    decreases node,
{
    match node {
        ASN::Sequence(q) => tlv(TAG_SEQUENCE, enc_list(q.content@)),
        ASN::Integer(i) => tlv(TAG_INTEGER, int_payload(i.content)),
        ASN::OID(o) => tlv(TAG_OID, oid_payload(o.content@)),
        ASN::OctetString(o) => tlv(TAG_OCTET_STRING, o.content@),
        ASN::UTCTime(u) => tlv(TAG_UTC_TIME, utc_text(u.content)),
        ASN::Application(a) => tlv(TAG_APPLICATION, a.content@),
        ASN::Unknown(u) => tlv(u.tag, u.content@),
    }
}

/// The bytes of nodes one after another.
pub open spec fn enc_list(s: Seq<ASN>) -> Seq<u8>
    decreases s,
{
    if s.len() == 0 {
        Seq::empty()
    } else {
        enc(s[0]) + enc_list(s.drop_first())
    }
}

/// A tree that the encoder can write: every object identifier well formed,
/// every timestamp a real time.
pub open spec fn wf(node: ASN) -> bool
    decreases node,
{
    match node {
        ASN::Sequence(q) => wf_list(q.content@),
        ASN::OID(o) => oid_wf(o.content@),
        ASN::UTCTime(u) => u.content.valid(),
        _ => true,
    }
}

pub open spec fn wf_list(s: Seq<ASN>) -> bool
    decreases s,
{
    if s.len() == 0 {
        true
    } else {
        wf(s[0]) && wf_list(s.drop_first())
    }
}

// ---------------------------------------------------------------------------
// Facts about the stated encoding
pub proof fn lemma_enc_list_push(s: Seq<ASN>, x: ASN)
    ensures
        enc_list(s.push(x)) == enc_list(s) + enc(x),
    decreases s.len(),
{
    if s.len() == 0 {
        assert(s.push(x).drop_first() =~= Seq::<ASN>::empty());
        assert(s.push(x)[0] == x);
        assert(enc_list(Seq::<ASN>::empty()) == Seq::<u8>::empty());
        assert(enc_list(s.push(x)) =~= enc(x));
    } else {
        assert(s.push(x).drop_first() =~= s.drop_first().push(x));
        lemma_enc_list_push(s.drop_first(), x);
        assert(enc_list(s.push(x)) =~= enc_list(s) + enc(x));
    }
}

pub proof fn lemma_wf_list(s: Seq<ASN>)
    ensures
        wf_list(s) <==> forall|i: int| 0 <= i < s.len() ==> wf(#[trigger] s[i]),
    decreases s.len(),
{
    if s.len() > 0 {
        lemma_wf_list(s.drop_first());
        if wf_list(s) {
            assert forall|i: int| 0 <= i < s.len() implies wf(#[trigger] s[i]) by {
                if i > 0 {
                    assert(s[i] == s.drop_first()[i - 1]);
                }
            }
        }
        if forall|i: int| 0 <= i < s.len() ==> wf(#[trigger] s[i]) {
            assert(wf(s[0]));
            assert forall|i: int| 0 <= i < s.drop_first().len() implies wf(
                #[trigger] s.drop_first()[i],
            ) by {
                assert(wf(s[i + 1]));
            }
        }
    }
}

pub proof fn lemma_arcs_bytes_push(s: Seq<i64>, a: i64)
    ensures
        arcs_bytes(s.push(a)) == arcs_bytes(s) + arc_bytes(a as int),
    decreases s.len(),
{
    if s.len() == 0 {
        assert(s.push(a).drop_first() =~= Seq::<i64>::empty());
        assert(s.push(a)[0] == a);
        assert(arcs_bytes(Seq::<i64>::empty()) == Seq::<u8>::empty());
        assert(arcs_bytes(s.push(a)) =~= arc_bytes(a as int));
    } else {
        assert(s.push(a).drop_first() =~= s.drop_first().push(a));
        lemma_arcs_bytes_push(s.drop_first(), a);
        assert(arcs_bytes(s.push(a)) =~= arcs_bytes(s) + arc_bytes(a as int));
    }
}

// ---------------------------------------------------------------------------
// The encoder
/// Appends `src` to `out`.
pub fn append_bytes(out: &mut Vec<u8>, src: &Vec<u8>)
    ensures
        final(out)@ == old(out)@ + src@,
{
    let mut i: usize = 0;
    while i < src.len()
        invariant
            i <= src@.len(),
            out@ == old(out)@ + src@.subrange(0, i as int),
        decreases src@.len() - i,
    {
        out.push(src[i]);
        i += 1;
        assert(out@ =~= old(out)@ + src@.subrange(0, i as int));
    }
    assert(src@.subrange(0, src@.len() as int) =~= src@);
}

/// 1, 2, 4 or 8: the fewest of those bytes that hold `x`.
pub fn width_of(x: u64) -> (w: usize)
    ensures
        w as nat == min_width(x as nat),
{
    if x < 0x100 {
        1
    } else if x < 0x1_0000 {
        2
    } else if x < 0x1_0000_0000 {
        4
    } else {
        8
    }
}

/// Puts the length of everything after the tag byte right after the tag.
fn insert_length(bytes: &mut Vec<u8>)
    requires
        old(bytes)@.len() >= 1,
    ensures
        final(bytes)@ == tlv(old(bytes)@[0], old(bytes)@.drop_first()),
{
    let length = bytes.len() - 1;
    let mut out: Vec<u8> = Vec::new();
    out.push(bytes[0]);
    if length > 0x7F {
        let w = width_of(length as u64);
        out.push((0x80 + w) as u8);
        push_be(&mut out, length as u64, w);
    } else {
        out.push(length as u8);
    }
    let mut i: usize = 1;
    while i < bytes.len()
        invariant
            1 <= i <= bytes@.len(),
            bytes@ == old(bytes)@,
            out@ == seq![old(bytes)@[0]] + length_prefix((bytes@.len() - 1) as nat)
                + bytes@.subrange(1, i as int),
        decreases bytes@.len() - i,
    {
        out.push(bytes[i]);
        i += 1;
        assert(out@ =~= seq![old(bytes)@[0]] + length_prefix((bytes@.len() - 1) as nat)
            + bytes@.subrange(1, i as int));
    }
    assert(bytes@.subrange(1, bytes@.len() as int) =~= old(bytes)@.drop_first());
    *bytes = out;
}

fn push_arc_high(out: &mut Vec<u8>, x: u64)
    ensures
        final(out)@ == old(out)@ + arc_high(x as nat),
    decreases x,
{
    if x > 0 {
        push_arc_high(out, x / 128);
        out.push((x % 128 + 128) as u8);
        assert(out@ =~= old(out)@ + arc_high(x as nat));
    } else {
        assert(out@ =~= old(out)@ + arc_high(x as nat));
    }
}

fn push_arc(out: &mut Vec<u8>, a: i64)
    requires
        a >= 0,
    ensures
        final(out)@ == old(out)@ + arc_bytes(a as int),
{
    let x = a as u64;
    push_arc_high(out, x / 128);
    out.push((x % 128) as u8);
    assert(out@ =~= old(out)@ + arc_bytes(a as int));
}

/// The behaviour that every kind of node shares: becoming a tree node, and
/// being written out as bytes.
pub trait StructASN: Sized {
    /// The node that this value is.
    spec fn as_node(&self) -> ASN;

    fn to_asn(self) -> (r: ASN)
        ensures
            r == self.as_node(),
    ;

    fn encode(&self) -> (r: Vec<u8>)
        requires
            wf(self.as_node()),
        ensures
            r@ == enc(self.as_node()),
    ;
}

/// Whether the encoder can write `a` as an object identifier.
pub fn oid_is_wf(a: &Vec<i64>) -> (r: bool)
    ensures
        r == oid_wf(a@),
{
    if a.len() < 2 || a[0] < 0 || a[1] < 0 || a[1] >= 40 || a[0] > 6 || a[0] * 40 + a[1] >= 256 {
        return false;
    }
    let mut i: usize = 2;
    while i < a.len()
        invariant
            2 <= i <= a@.len(),
            forall|j: int| 2 <= j < i ==> a@[j] >= 0,
        decreases a@.len() - i,
    {
        if a[i] < 0 {
            return false;
        }
        i += 1;
    }
    true
}

/// Whether the encoder can write the tree: its object identifiers well formed
/// and its timestamps real times.
pub fn is_wf(node: &ASN) -> (r: bool)
    ensures
        r == wf(*node),
    decreases node,
{
    match node {
        ASN::Sequence(q) => children_wf(q),
        ASN::OID(o) => oid_is_wf(&o.content),
        ASN::UTCTime(u) => u.content.is_valid(),
        _ => true,
    }
}

fn children_wf(q: &Sequence) -> (r: bool)
    ensures
        r == wf_list(q.content@),
    decreases q,
{
    proof {
        lemma_wf_list(q.content@);
    }
    let mut i: usize = 0;
    while i < q.content.len()
        invariant
            i <= q.content@.len(),
            wf_list(q.content@) <==> forall|j: int| 0 <= j < q.content@.len() ==> wf(#[trigger] q.content@[j]),
            forall|j: int| 0 <= j < i ==> wf(#[trigger] q.content@[j]),
        decreases q.content@.len() - i,
    {
        if !is_wf(&q.content[i]) {
            return false;
        }
        i += 1;
    }
    true
}

/// The bytes of a node.
pub fn encode_node(node: &ASN) -> (r: Vec<u8>)
    requires
        wf(*node),
    ensures
        r@ == enc(*node),
    decreases node,
{
    match node {
        ASN::Sequence(q) => encode_sequence(q),
        ASN::Integer(a) => a.encode(),
        ASN::OID(a) => a.encode(),
        ASN::OctetString(a) => a.encode(),
        ASN::UTCTime(a) => a.encode(),
        ASN::Application(a) => a.encode(),
        ASN::Unknown(a) => a.encode(),
    }
}

fn encode_sequence(q: &Sequence) -> (r: Vec<u8>)
    requires
        wf_list(q.content@),
    ensures
        r@ == tlv(TAG_SEQUENCE, enc_list(q.content@)),
    decreases q,
{
    let mut bytes: Vec<u8> = Vec::new();
    bytes.push(TAG_SEQUENCE);
    proof {
        lemma_wf_list(q.content@);
    }
    let mut i: usize = 0;
    while i < q.content.len()
        invariant
            i <= q.content@.len(),
            forall|j: int| 0 <= j < q.content@.len() ==> wf(#[trigger] q.content@[j]),
            bytes@ == seq![TAG_SEQUENCE] + enc_list(q.content@.subrange(0, i as int)),
        decreases q.content@.len() - i,
    {
        let child = encode_node(&q.content[i]);
        append_bytes(&mut bytes, &child);
        proof {
            lemma_enc_list_push(q.content@.subrange(0, i as int), q.content@[i as int]);
            assert(q.content@.subrange(0, i + 1) =~= q.content@.subrange(0, i as int).push(
                q.content@[i as int],
            ));
        }
        i += 1;
    }
    assert(q.content@.subrange(0, q.content@.len() as int) =~= q.content@);
    assert(bytes@.drop_first() =~= enc_list(q.content@));
    assert(bytes@[0] == TAG_SEQUENCE);
    insert_length(&mut bytes);
    bytes
}

impl StructASN for ASN {
    open spec fn as_node(&self) -> ASN {
        *self
    }

    fn to_asn(self) -> (r: ASN) {
        self
    }

    fn encode(&self) -> (r: Vec<u8>) {
        encode_node(self)
    }
}

impl StructASN for Sequence {
    open spec fn as_node(&self) -> ASN {
        ASN::Sequence(*self)
    }

    fn to_asn(self) -> (r: ASN) {
        ASN::Sequence(self)
    }

    fn encode(&self) -> (r: Vec<u8>) {
        encode_sequence(self)
    }
}

impl StructASN for Integer {
    open spec fn as_node(&self) -> ASN {
        ASN::Integer(*self)
    }

    fn to_asn(self) -> (r: ASN) {
        ASN::Integer(self)
    }

    fn encode(&self) -> (r: Vec<u8>) {
        let mut bytes: Vec<u8> = Vec::new();
        bytes.push(TAG_INTEGER);
        let u = pattern_of(self.content);
        let w = signed_width_of(self.content);
        push_be(&mut bytes, u, w);
        proof {
            lemma_be_bytes_len(u as nat, w as nat);
        }
        insert_length(&mut bytes);
        bytes
    }
}

impl StructASN for AsnOID {
    open spec fn as_node(&self) -> ASN {
        ASN::OID(*self)
    }

    fn to_asn(self) -> (r: ASN) {
        ASN::OID(self)
    }

    fn encode(&self) -> (r: Vec<u8>) {
        let a = &self.content;
        let mut bytes: Vec<u8> = Vec::new();
        bytes.push(TAG_OID);
        bytes.push((a[0] * 40 + a[1]) as u8);
        let mut i: usize = 2;
        while i < a.len()
            invariant
                2 <= i <= a@.len(),
                oid_wf(a@),
                bytes@ == seq![TAG_OID, (a@[0] * 40 + a@[1]) as u8] + arcs_bytes(
                    a@.subrange(2, i as int),
                ),
            decreases a@.len() - i,
        {
            push_arc(&mut bytes, a[i]);
            proof {
                lemma_arcs_bytes_push(a@.subrange(2, i as int), a@[i as int]);
                assert(a@.subrange(2, i + 1) =~= a@.subrange(2, i as int).push(a@[i as int]));
            }
            i += 1;
        }
        insert_length(&mut bytes);
        assert(bytes@ =~= enc(self.as_node()));
        bytes
    }
}

/// Tag byte, then a copy of `content`, then the length put in after the tag.
fn encode_raw(tag: u8, content: &Vec<u8>) -> (r: Vec<u8>)
    ensures
        r@ == tlv(tag, content@),
{
    let mut bytes: Vec<u8> = Vec::new();
    bytes.push(tag);
    append_bytes(&mut bytes, content);
    insert_length(&mut bytes);
    assert(seq![tag] + content@ =~= seq![tag].add(content@));
    assert((seq![tag] + content@).drop_first() =~= content@);
    bytes
}

impl StructASN for OctetString {
    open spec fn as_node(&self) -> ASN {
        ASN::OctetString(*self)
    }

    fn to_asn(self) -> (r: ASN) {
        ASN::OctetString(self)
    }

    fn encode(&self) -> (r: Vec<u8>) {
        encode_raw(TAG_OCTET_STRING, &self.content)
    }
}

impl StructASN for UTCTime {
    open spec fn as_node(&self) -> ASN {
        ASN::UTCTime(*self)
    }

    fn to_asn(self) -> (r: ASN) {
        ASN::UTCTime(self)
    }

    fn encode(&self) -> (r: Vec<u8>) {
        let text = self.content.to_text();
        encode_raw(TAG_UTC_TIME, &text)
    }
}

impl StructASN for Application {
    open spec fn as_node(&self) -> ASN {
        ASN::Application(*self)
    }

    fn to_asn(self) -> (r: ASN) {
        ASN::Application(self)
    }

    fn encode(&self) -> (r: Vec<u8>) {
        encode_raw(TAG_APPLICATION, &self.content)
    }
}

impl StructASN for Unknown {
    open spec fn as_node(&self) -> ASN {
        ASN::Unknown(*self)
    }

    fn to_asn(self) -> (r: ASN) {
        ASN::Unknown(self)
    }

    fn encode(&self) -> (r: Vec<u8>) {
        encode_raw(self.tag, &self.content)
    }
}

impl ASN {
    /// The node as a Sequence; a type mismatch for any other kind.
    pub fn get_sequence(&self) -> (r: Result<&Sequence, AsnError>)
        ensures
            match r {
                Ok(x) => *self == ASN::Sequence(*x),
                Err(e) => e == AsnError::TypeMismatch && !(*self is Sequence),
            },
    {
        match self {
            ASN::Sequence(x) => Ok(x),
            _ => Err(AsnError::TypeMismatch),
        }
    }

    /// The node as a Sequence to change in place; a type mismatch for any other kind.
    pub fn get_sequence_mut(&mut self) -> (r: Result<&mut Sequence, AsnError>)
        ensures
            match r {
                Ok(x) => *old(self) == ASN::Sequence(*x) && *final(self) == ASN::Sequence(*final(x)),
                Err(e) => e == AsnError::TypeMismatch && !(*old(self) is Sequence) && *final(self) == *old(self),
            },
    {
        match self {
            ASN::Sequence(x) => Ok(x),
            _ => Err(AsnError::TypeMismatch),
        }
    }

    /// The node taken as a Sequence; a type mismatch for any other kind.
    pub fn into_sequence(self) -> (r: Result<Sequence, AsnError>)
        ensures
            match r {
                Ok(x) => self == ASN::Sequence(x),
                Err(e) => e == AsnError::TypeMismatch && !(self is Sequence),
            },
    {
        match self {
            ASN::Sequence(x) => Ok(x),
            _ => Err(AsnError::TypeMismatch),
        }
    }

    /// The node as an Integer; a type mismatch for any other kind.
    pub fn get_integer(&self) -> (r: Result<&Integer, AsnError>)
        ensures
            match r {
                Ok(x) => *self == ASN::Integer(*x),
                Err(e) => e == AsnError::TypeMismatch && !(*self is Integer),
            },
    {
        match self {
            ASN::Integer(x) => Ok(x),
            _ => Err(AsnError::TypeMismatch),
        }
    }

    /// The node as an Integer to change in place; a type mismatch for any other kind.
    pub fn get_integer_mut(&mut self) -> (r: Result<&mut Integer, AsnError>)
        ensures
            match r {
                Ok(x) => *old(self) == ASN::Integer(*x) && *final(self) == ASN::Integer(*final(x)),
                Err(e) => e == AsnError::TypeMismatch && !(*old(self) is Integer) && *final(self) == *old(self),
            },
    {
        match self {
            ASN::Integer(x) => Ok(x),
            _ => Err(AsnError::TypeMismatch),
        }
    }

    /// The node taken as an Integer; a type mismatch for any other kind.
    pub fn into_integer(self) -> (r: Result<Integer, AsnError>)
        ensures
            match r {
                Ok(x) => self == ASN::Integer(x),
                Err(e) => e == AsnError::TypeMismatch && !(self is Integer),
            },
    {
        match self {
            ASN::Integer(x) => Ok(x),
            _ => Err(AsnError::TypeMismatch),
        }
    }

    /// The node as an AsnOID; a type mismatch for any other kind.
    pub fn get_oid(&self) -> (r: Result<&AsnOID, AsnError>)
        ensures
            match r {
                Ok(x) => *self == ASN::OID(*x),
                Err(e) => e == AsnError::TypeMismatch && !(*self is OID),
            },
    {
        match self {
            ASN::OID(x) => Ok(x),
            _ => Err(AsnError::TypeMismatch),
        }
    }

    /// The node as an AsnOID to change in place; a type mismatch for any other kind.
    pub fn get_oid_mut(&mut self) -> (r: Result<&mut AsnOID, AsnError>)
        ensures
            match r {
                Ok(x) => *old(self) == ASN::OID(*x) && *final(self) == ASN::OID(*final(x)),
                Err(e) => e == AsnError::TypeMismatch && !(*old(self) is OID) && *final(self) == *old(self),
            },
    {
        match self {
            ASN::OID(x) => Ok(x),
            _ => Err(AsnError::TypeMismatch),
        }
    }

    /// The node taken as an AsnOID; a type mismatch for any other kind.
    pub fn into_oid(self) -> (r: Result<AsnOID, AsnError>)
        ensures
            match r {
                Ok(x) => self == ASN::OID(x),
                Err(e) => e == AsnError::TypeMismatch && !(self is OID),
            },
    {
        match self {
            ASN::OID(x) => Ok(x),
            _ => Err(AsnError::TypeMismatch),
        }
    }

    /// The node as an OctetString; a type mismatch for any other kind.
    pub fn get_octet_string(&self) -> (r: Result<&OctetString, AsnError>)
        ensures
            match r {
                Ok(x) => *self == ASN::OctetString(*x),
                Err(e) => e == AsnError::TypeMismatch && !(*self is OctetString),
            },
    {
        match self {
            ASN::OctetString(x) => Ok(x),
            _ => Err(AsnError::TypeMismatch),
        }
    }

    /// The node as an OctetString to change in place; a type mismatch for any other kind.
    pub fn get_octet_string_mut(&mut self) -> (r: Result<&mut OctetString, AsnError>)
        ensures
            match r {
                Ok(x) => *old(self) == ASN::OctetString(*x) && *final(self) == ASN::OctetString(*final(x)),
                Err(e) => e == AsnError::TypeMismatch && !(*old(self) is OctetString) && *final(self) == *old(self),
            },
    {
        match self {
            ASN::OctetString(x) => Ok(x),
            _ => Err(AsnError::TypeMismatch),
        }
    }

    /// The node taken as an OctetString; a type mismatch for any other kind.
    pub fn into_octet_string(self) -> (r: Result<OctetString, AsnError>)
        ensures
            match r {
                Ok(x) => self == ASN::OctetString(x),
                Err(e) => e == AsnError::TypeMismatch && !(self is OctetString),
            },
    {
        match self {
            ASN::OctetString(x) => Ok(x),
            _ => Err(AsnError::TypeMismatch),
        }
    }

    /// The node as an UTCTime; a type mismatch for any other kind.
    pub fn get_utc_time(&self) -> (r: Result<&UTCTime, AsnError>)
        ensures
            match r {
                Ok(x) => *self == ASN::UTCTime(*x),
                Err(e) => e == AsnError::TypeMismatch && !(*self is UTCTime),
            },
    {
        match self {
            ASN::UTCTime(x) => Ok(x),
            _ => Err(AsnError::TypeMismatch),
        }
    }

    /// The node as an UTCTime to change in place; a type mismatch for any other kind.
    pub fn get_utc_time_mut(&mut self) -> (r: Result<&mut UTCTime, AsnError>)
        ensures
            match r {
                Ok(x) => *old(self) == ASN::UTCTime(*x) && *final(self) == ASN::UTCTime(*final(x)),
                Err(e) => e == AsnError::TypeMismatch && !(*old(self) is UTCTime) && *final(self) == *old(self),
            },
    {
        match self {
            ASN::UTCTime(x) => Ok(x),
            _ => Err(AsnError::TypeMismatch),
        }
    }

    /// The node taken as an UTCTime; a type mismatch for any other kind.
    pub fn into_utc_time(self) -> (r: Result<UTCTime, AsnError>)
        ensures
            match r {
                Ok(x) => self == ASN::UTCTime(x),
                Err(e) => e == AsnError::TypeMismatch && !(self is UTCTime),
            },
    {
        match self {
            ASN::UTCTime(x) => Ok(x),
            _ => Err(AsnError::TypeMismatch),
        }
    }

    /// The node as an Application; a type mismatch for any other kind.
    pub fn get_application(&self) -> (r: Result<&Application, AsnError>)
        ensures
            match r {
                Ok(x) => *self == ASN::Application(*x),
                Err(e) => e == AsnError::TypeMismatch && !(*self is Application),
            },
    {
        match self {
            ASN::Application(x) => Ok(x),
            _ => Err(AsnError::TypeMismatch),
        }
    }

    /// The node as an Application to change in place; a type mismatch for any other kind.
    pub fn get_application_mut(&mut self) -> (r: Result<&mut Application, AsnError>)
        ensures
            match r {
                Ok(x) => *old(self) == ASN::Application(*x) && *final(self) == ASN::Application(*final(x)),
                Err(e) => e == AsnError::TypeMismatch && !(*old(self) is Application) && *final(self) == *old(self),
            },
    {
        match self {
            ASN::Application(x) => Ok(x),
            _ => Err(AsnError::TypeMismatch),
        }
    }

    /// The node taken as an Application; a type mismatch for any other kind.
    pub fn into_application(self) -> (r: Result<Application, AsnError>)
        ensures
            match r {
                Ok(x) => self == ASN::Application(x),
                Err(e) => e == AsnError::TypeMismatch && !(self is Application),
            },
    {
        match self {
            ASN::Application(x) => Ok(x),
            _ => Err(AsnError::TypeMismatch),
        }
    }

    /// The node as an Unknown; a type mismatch for any other kind.
    pub fn get_unknown(&self) -> (r: Result<&Unknown, AsnError>)
        ensures
            match r {
                Ok(x) => *self == ASN::Unknown(*x),
                Err(e) => e == AsnError::TypeMismatch && !(*self is Unknown),
            },
    {
        match self {
            ASN::Unknown(x) => Ok(x),
            _ => Err(AsnError::TypeMismatch),
        }
    }

    /// The node as an Unknown to change in place; a type mismatch for any other kind.
    pub fn get_unknown_mut(&mut self) -> (r: Result<&mut Unknown, AsnError>)
        ensures
            match r {
                Ok(x) => *old(self) == ASN::Unknown(*x) && *final(self) == ASN::Unknown(*final(x)),
                Err(e) => e == AsnError::TypeMismatch && !(*old(self) is Unknown) && *final(self) == *old(self),
            },
    {
        match self {
            ASN::Unknown(x) => Ok(x),
            _ => Err(AsnError::TypeMismatch),
        }
    }

    /// The node taken as an Unknown; a type mismatch for any other kind.
    pub fn into_unknown(self) -> (r: Result<Unknown, AsnError>)
        ensures
            match r {
                Ok(x) => self == ASN::Unknown(x),
                Err(e) => e == AsnError::TypeMismatch && !(self is Unknown),
            },
    {
        match self {
            ASN::Unknown(x) => Ok(x),
            _ => Err(AsnError::TypeMismatch),
        }
    }

}

impl Sequence {
    /// An empty sequence.
    pub fn new() -> (r: Self)
        ensures
            r.content@.len() == 0,
    {
        Sequence { content: Vec::new() }
    }

    /// The number of children.
    pub fn len(&self) -> (r: usize)
        ensures
            r == self.content@.len(),
    {
        self.content.len()
    }

    /// Appends a child.
    pub fn push(&mut self, val: ASN)
        ensures
            final(self).content@ == old(self).content@.push(val),
    {
        self.content.push(val);
    }

    /// The child at `idx`, where there is one.
    pub fn get(&self, idx: usize) -> (r: Option<&ASN>)
        ensures
            match r {
                Some(x) => idx < self.content@.len() && *x == self.content@[idx as int],
                None => idx >= self.content@.len(),
            },
    {
        if idx < self.content.len() {
            Some(&self.content[idx])
        } else {
            None
        }
    }

    /// Puts `val` in place of the child at `idx` and gives back that child;
    /// where `idx` is the length, `val` is handed straight back.
    pub fn replace(&mut self, idx: usize, val: ASN) -> (r: ASN)
        requires
            idx <= old(self).content@.len(),
        ensures
            idx < old(self).content@.len() ==> r == old(self).content@[idx as int]
                && final(self).content@ == old(self).content@.update(idx as int, val),
            idx == old(self).content@.len() ==> r == val && final(self).content@ == old(
                self,
            ).content@,
    {
        self.content.push(val);
        let r = self.content.swap_remove(idx);
        proof {
            if idx < old(self).content@.len() {
                assert(self.content@ =~= old(self).content@.update(idx as int, val));
            } else {
                assert(self.content@ =~= old(self).content@);
            }
        }
        r
    }
}

impl Integer {
    pub fn new(content: i64) -> (r: Self)
        ensures
            r.content == content,
    {
        Integer { content }
    }

    pub fn set(&mut self, val: i64)
        ensures
            final(self).content == val,
    {
        self.content = val;
    }

    pub fn value(&self) -> (r: i64)
        ensures
            r == self.content,
    {
        self.content
    }
}

/// The decimal digits of `n`, in ASCII.
pub open spec fn decimal(n: nat) -> Seq<u8>
    decreases n,
{
    if n < 10 {
        seq![(48 + n) as u8]
    } else {
        decimal(n / 10).push((48 + n % 10) as u8)
    }
}

/// An arc in decimal, with a minus sign where it is negative.
pub open spec fn arc_text(v: int) -> Seq<u8> {
    if v < 0 {
        seq![45u8] + decimal((-v) as nat)
    } else {
        decimal(v as nat)
    }
}

/// The arcs in decimal, joined by dots.
pub open spec fn dotted(a: Seq<i64>) -> Seq<u8>
    decreases a.len(),
{
    if a.len() == 0 {
        Seq::empty()
    } else if a.len() == 1 {
        arc_text(a[0] as int)
    } else {
        dotted(a.drop_last()) + seq![46u8] + arc_text(a.last() as int)
    }
}

fn push_decimal(out: &mut Vec<u8>, n: u64)
    ensures
        final(out)@ == old(out)@ + decimal(n as nat),
    decreases n,
{
    if n >= 10 {
        push_decimal(out, n / 10);
    }
    out.push((48 + n % 10) as u8);
    assert(out@ =~= old(out)@ + decimal(n as nat));
}

impl AsnOID {
    /// The path in dotted decimal form, as ASCII text.
    pub fn stringfy(&self) -> (r: Vec<u8>)
        ensures
            r@ == dotted(self.content@),
    {
        let a = &self.content;
        let mut out: Vec<u8> = Vec::new();
        let mut i: usize = 0;
        while i < a.len()
            invariant
                i <= a@.len(),
                out@ == dotted(a@.subrange(0, i as int)),
            decreases a@.len() - i,
        {
            let ghost before = out@;
            if i > 0 {
                out.push(46);
            }
            let v = a[i];
            if v < 0 {
                out.push(45);
                let m: u64 = (-(v + 1)) as u64 + 1;
                push_decimal(&mut out, m);
            } else {
                push_decimal(&mut out, v as u64);
            }
            proof {
                let s = a@.subrange(0, i + 1);
                assert(s.drop_last() =~= a@.subrange(0, i as int));
                assert(s.last() == v);
                if i == 0 {
                    assert(out@ =~= dotted(s));
                } else {
                    assert(out@ =~= dotted(s));
                }
            }
            i += 1;
        }
        assert(a@.subrange(0, a@.len() as int) =~= a@);
        out
    }

    pub fn new(content: Vec<i64>) -> (r: Self)
        ensures
            r.content == content,
    {
        AsnOID { content }
    }
}

impl OctetString {
    pub fn new(content: Vec<u8>) -> (r: Self)
        ensures
            r.content == content,
    {
        OctetString { content }
    }
}

impl UTCTime {
    pub fn new(content: Timestamp) -> (r: Self)
        ensures
            r.content == content,
    {
        UTCTime { content }
    }
}

impl Application {
    pub fn new(content: Vec<u8>) -> (r: Self)
        ensures
            r.content == content,
    {
        Application { content }
    }
}

impl Unknown {
    /// Raw bytes under the universal tag byte `tag`.
    pub fn new(tag: u8, content: Vec<u8>) -> (r: Self)
        ensures
            r.tag == tag && r.content == content,
    {
        Unknown { tag, content }
    }
}

} // verus!
