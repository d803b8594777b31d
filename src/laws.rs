//! What holds across the encoder and the decoder.

use vstd::prelude::*;

use crate::bytes::{
    be_bytes, lemma_be_bytes_len, lemma_be_round_trip, lemma_min_width_fits, min_width,
};
use crate::decode::{
    arc_len, decode_spec, groups_value, int_value, lemma_arc_len_scan, lemma_groups_bound,
    parse_arcs, parse_length, parse_list, parse_node, parse_oid, parse_payload, pow128, views,
    MAX_DEPTH,
};
use crate::timestamp::lemma_utc_text_round_trip;
use crate::value::{
    arc_bytes, arc_high, arcs_bytes, enc, enc_list, int_payload, length_prefix, lemma_wf_list,
    oid_payload, oid_wf, tlv, type_of, wf, wf_list, Tree, Type, ASN, TAG_APPLICATION,
};

verus! {

/// A tree that decodes back to itself when it starts at nesting `depth`:
/// sequences nest no deeper than the decoder follows, and an unknown node's
/// tag is a universal tag that has no node of its own.
pub open spec fn decodable(node: ASN, depth: nat) -> bool
    decreases node,
{
    match node {
        ASN::Sequence(q) => depth < MAX_DEPTH && decodable_list(q.content@, depth + 1),
        ASN::Unknown(u) => u.tag < 64 && type_of(u.tag % 32) == Type::Unknown,
        _ => true,
    }
}

pub open spec fn decodable_list(s: Seq<ASN>, depth: nat) -> bool
    decreases s,
{
    if s.len() == 0 {
        true
    } else {
        decodable(s[0], depth) && decodable_list(s.drop_first(), depth)
    }
}

proof fn lemma_length_round_trip(tag: u8, p: Seq<u8>, rest: Seq<u8>)
    requires
        p.len() < 0x1_0000_0000_0000_0000,
    ensures
        ({
            let s = tlv(tag, p) + rest;
            let h = 1 + length_prefix(p.len()).len();
            &&& parse_length(s) == Ok::<(nat, nat), crate::value::AsnError>((p.len(), h as nat))
            &&& s[0] == tag
            &&& s.subrange(h as int, (h + p.len()) as int) == p
            &&& h + p.len() == tlv(tag, p).len()
        }),
{
    let s = tlv(tag, p) + rest;
    let n = p.len();
    if n > 127 {
        let w = min_width(n);
        lemma_min_width_fits(n);
        lemma_be_bytes_len(n, w);
        lemma_be_round_trip(n, w);
        assert(s.subrange(2, (2 + w) as int) =~= be_bytes(n, w));
    }
    let h = 1 + length_prefix(n).len();
    assert(s.subrange(h as int, (h + n) as int) =~= p);
}

proof fn lemma_arc_high(x: nat, m: nat)
    requires
        x < pow128(m),
    ensures
        groups_value(arc_high(x)) == x,
        arc_high(x).len() <= m,
        forall|i: int| 0 <= i < arc_high(x).len() ==> arc_high(x)[i] >= 128,
    decreases x,
{
    if x > 0 {
        assert(m > 0);
        assert(x / 128 < pow128((m - 1) as nat));
        lemma_arc_high(x / 128, (m - 1) as nat);
        assert(arc_high(x).drop_last() =~= arc_high(x / 128));
    }
}

proof fn lemma_arc_round_trip(a: i64, rest: Seq<u8>)
    requires
        a >= 0,
    ensures
        arc_len(arc_bytes(a as int) + rest) == arc_bytes(a as int).len(),
        1 <= arc_bytes(a as int).len() <= 9,
        groups_value(arc_bytes(a as int)) == a,
{
    let x = (a as nat) / 128;
    reveal_with_fuel(pow128, 10);
    lemma_arc_high(x, 8);
    let b = arc_bytes(a as int);
    let t = b + rest;
    assert forall|i: int| 0 <= i < arc_high(x).len() implies t[i] >= 128 by {
        assert(t[i] == arc_high(x)[i]);
    }
    lemma_arc_len_scan(t, arc_high(x).len());
    assert(b.drop_last() =~= arc_high(x));
}

proof fn lemma_arcs_round_trip(s: Seq<i64>)
    requires
        forall|i: int| 0 <= i < s.len() ==> s[i] >= 0,
    ensures
        parse_arcs(arcs_bytes(s)) == Ok::<Seq<i64>, crate::value::AsnError>(s),
    decreases s.len(),
{
    if s.len() > 0 {
        let b = arc_bytes(s[0] as int);
        let tail = arcs_bytes(s.drop_first());
        let all = arcs_bytes(s);
        lemma_arc_round_trip(s[0], tail);
        lemma_arcs_round_trip(s.drop_first());
        let k = b.len();
        assert(all == b + tail);
        assert(arc_len(all) == k);
        assert(all.subrange(0, k as int) =~= b);
        assert(groups_value(all.subrange(0, k as int)) as i64 == s[0]);
        assert(all.subrange(k as int, all.len() as int) =~= tail);
        assert(seq![s[0]] + s.drop_first() =~= s);
        assert(all.len() > 0);
        assert(parse_arcs(all.subrange(k as int, all.len() as int)) == Ok::<
            Seq<i64>,
            crate::value::AsnError,
        >(s.drop_first()));
        assert(parse_arcs(all) == Ok::<Seq<i64>, crate::value::AsnError>(
            seq![groups_value(all.subrange(0, k as int)) as i64] + s.drop_first(),
        ));
    } else {
        assert(arcs_bytes(s) =~= Seq::<u8>::empty());
        assert(s =~= Seq::<i64>::empty());
    }
}

proof fn lemma_oid_round_trip(a: Seq<i64>)
    requires
        oid_wf(a),
    ensures
        parse_oid(oid_payload(a)) == Ok::<Seq<i64>, crate::value::AsnError>(a),
{
    let tail = a.subrange(2, a.len() as int);
    lemma_arcs_round_trip(tail);
    let p = oid_payload(a);
    assert(p.drop_first() =~= arcs_bytes(tail));
    assert(seq![a[0], a[1]] + tail =~= a);
}

proof fn lemma_int_round_trip(v: i64)
    ensures
        int_payload(v).len() <= 8,
        int_value(int_payload(v)) == v,
{
    let n = crate::bytes::signed_width(v as int);
    let u = crate::bytes::pattern(v as int, n);
    crate::bytes::lemma_signed_round_trip(v as int);
    lemma_be_bytes_len(u, n);
    lemma_be_round_trip(u, n);
}

/// The bytes of a tree, followed by anything, decode to the tree and take
/// exactly its bytes.
#[verifier::rlimit(40)]
pub proof fn lemma_node_round_trip(t: ASN, rest: Seq<u8>, depth: nat)
    requires
        wf(t),
        decodable(t, depth),
        enc(t).len() < 0x1_0000_0000_0000_0000,
    ensures
        parse_node(enc(t) + rest, depth) == Ok::<(Tree, nat), crate::value::AsnError>(
            (t@, enc(t).len()),
        ),
    decreases t,
{
    let (tag, p) = match t {
        ASN::Sequence(q) => (crate::value::TAG_SEQUENCE, enc_list(q.content@)),
        ASN::Integer(i) => (crate::value::TAG_INTEGER, int_payload(i.content)),
        ASN::OID(o) => (crate::value::TAG_OID, oid_payload(o.content@)),
        ASN::OctetString(o) => (crate::value::TAG_OCTET_STRING, o.content@),
        ASN::UTCTime(u) => (crate::value::TAG_UTC_TIME, crate::timestamp::utc_text(u.content)),
        ASN::Application(a) => (TAG_APPLICATION, a.content@),
        ASN::Unknown(u) => (u.tag, u.content@),
    };
    assert(enc(t) == tlv(tag, p));
    lemma_length_round_trip(tag, p, rest);
    match t {
        ASN::Sequence(q) => {
            lemma_list_round_trip(q.content@, depth + 1);
            match t@ {
                Tree::Sequence(v) => {
                    assert(v =~= views(q.content@));
                },
                _ => {},
            }
        },
        ASN::Integer(i) => {
            lemma_int_round_trip(i.content);
        },
        ASN::OID(o) => {
            lemma_oid_round_trip(o.content@);
        },
        ASN::UTCTime(u) => {
            lemma_utc_text_round_trip(u.content);
        },
        _ => {},
    }
}

/// The bytes of nodes one after another decode to those nodes.
pub proof fn lemma_list_round_trip(s: Seq<ASN>, depth: nat)
    requires
        wf_list(s),
        decodable_list(s, depth),
        enc_list(s).len() < 0x1_0000_0000_0000_0000,
    ensures
        parse_list(enc_list(s), depth) == Ok::<Seq<Tree>, crate::value::AsnError>(views(s)),
    decreases s,
{
    if s.len() == 0 {
        assert(views(s) =~= Seq::<Tree>::empty());
    } else {
        let head = enc(s[0]);
        let tail = enc_list(s.drop_first());
        let all = enc_list(s);
        lemma_node_round_trip(s[0], tail, depth);
        lemma_list_round_trip(s.drop_first(), depth);
        assert(all.subrange(head.len() as int, all.len() as int) =~= tail);
        assert(seq![s[0]@] + views(s.drop_first()) =~= views(s));
    }
}

/// Decoding the bytes of a well-formed tree gives the tree back.
pub proof fn law_round_trip(t: ASN)
    requires
        wf(t),
        decodable(t, 0),
        enc(t).len() < 0x1_0000_0000_0000_0000,
    ensures
        decode_spec(enc(t)) == Ok::<Option<Tree>, crate::value::AsnError>(Some(t@)),
{
    lemma_node_round_trip(t, Seq::empty(), 0);
    assert(enc(t) + Seq::<u8>::empty() =~= enc(t));
}

/// A tree that the decoder can give at nesting `depth`: its object
/// identifiers and timestamps are well formed, its unknown nodes carry a
/// universal tag without a node of its own, and it nests no deeper than the
/// decoder follows.
pub open spec fn tree_ok(t: Tree, depth: nat) -> bool
    decreases t,
{
    match t {
        Tree::Sequence(c) => depth < MAX_DEPTH && forall|i: int|
            0 <= i < c.len() ==> tree_ok(#[trigger] c[i], depth + 1),
        Tree::OID(a) => oid_wf(a),
        Tree::UTCTime(ts) => ts.valid(),
        Tree::Unknown(tag, _) => tag < 64 && type_of(tag % 32) == Type::Unknown,
        _ => true,
    }
}

proof fn lemma_arcs_nonneg(s: Seq<u8>)
    requires
        parse_arcs(s) is Ok,
    ensures
        forall|i: int| 0 <= i < parse_arcs(s)->Ok_0.len() ==> #[trigger] parse_arcs(s)->Ok_0[i] >= 0,
    decreases s.len(),
{
    if s.len() > 0 {
        let k = arc_len(s);
        let rest = s.subrange(k as int, s.len() as int);
        lemma_arcs_nonneg(rest);
        let g = s.subrange(0, k as int);
        lemma_groups_bound(g);
        reveal_with_fuel(pow128, 10);
        crate::decode::lemma_pow128_mono(g.len(), 9);
        let v = groups_value(g);
        assert(v < 0x8000_0000_0000_0000);
        assert((v as i64) as int == v);
        let r = parse_arcs(s)->Ok_0;
        assert forall|i: int| 0 <= i < r.len() implies #[trigger] r[i] >= 0 by {
            if i > 0 {
                assert(r[i] == parse_arcs(rest)->Ok_0[i - 1]);
            }
        }
    }
}

proof fn lemma_parsed_oid_wf(p: Seq<u8>)
    requires
        parse_oid(p) is Ok,
    ensures
        oid_wf(parse_oid(p)->Ok_0),
{
    lemma_arcs_nonneg(p.drop_first());
    let a = parse_oid(p)->Ok_0;
    let r = parse_arcs(p.drop_first())->Ok_0;
    assert forall|i: int| 2 <= i < a.len() implies a[i] >= 0 by {
        assert(a[i] == r[i - 2]);
    }
}

/// What the decoder gives is a tree it can decode again.
pub proof fn lemma_parsed_node_ok(s: Seq<u8>, depth: nat)
    requires
        parse_node(s, depth) is Ok,
    ensures
        tree_ok(parse_node(s, depth)->Ok_0.0, depth),
    decreases s.len(), 0nat,
{
    let (n, h) = parse_length(s)->Ok_0;
    let p = s.subrange(h as int, (h + n) as int);
    lemma_parsed_payload_ok(s[0], p, depth);
}

proof fn lemma_parsed_payload_ok(tag: u8, p: Seq<u8>, depth: nat)
    requires
        parse_payload(tag, p, depth) is Ok,
    ensures
        tree_ok(parse_payload(tag, p, depth)->Ok_0, depth),
    decreases p.len(), 2nat,
{
    if tag / 64 == 0 {
        match type_of(tag % 32) {
            Type::Sequence => {
                lemma_parsed_list_ok(p, depth + 1);
            },
            Type::OID => {
                lemma_parsed_oid_wf(p);
            },
            _ => {},
        }
    }
}

proof fn lemma_parsed_list_ok(s: Seq<u8>, depth: nat)
    requires
        parse_list(s, depth) is Ok,
    ensures
        forall|i: int|
            0 <= i < parse_list(s, depth)->Ok_0.len() ==> tree_ok(
                #[trigger] parse_list(s, depth)->Ok_0[i],
                depth,
            ),
    decreases s.len(), 1nat,
{
    if s.len() > 0 {
        lemma_parsed_node_ok(s, depth);
        let (t, k) = parse_node(s, depth)->Ok_0;
        let rest = s.subrange(k as int, s.len() as int);
        lemma_parsed_list_ok(rest, depth);
        let c = parse_list(s, depth)->Ok_0;
        assert forall|i: int| 0 <= i < c.len() implies tree_ok(#[trigger] c[i], depth) by {
            if i > 0 {
                assert(c[i] == parse_list(rest, depth)->Ok_0[i - 1]);
            }
        }
    }
}

proof fn lemma_decodable_list(s: Seq<ASN>, depth: nat)
    ensures
        decodable_list(s, depth) <==> forall|i: int|
            0 <= i < s.len() ==> decodable(#[trigger] s[i], depth),
    decreases s.len(),
{
    if s.len() > 0 {
        lemma_decodable_list(s.drop_first(), depth);
        if decodable_list(s, depth) {
            assert forall|i: int| 0 <= i < s.len() implies decodable(#[trigger] s[i], depth) by {
                if i > 0 {
                    assert(s[i] == s.drop_first()[i - 1]);
                }
            }
        }
        if forall|i: int| 0 <= i < s.len() ==> decodable(#[trigger] s[i], depth) {
            assert(decodable(s[0], depth));
            assert forall|i: int| 0 <= i < s.drop_first().len() implies decodable(
                #[trigger] s.drop_first()[i],
                depth,
            ) by {
                assert(decodable(s[i + 1], depth));
            }
        }
    }
}

/// A node whose value the decoder can give is one the encoder can write and
/// the decoder read back.
pub proof fn lemma_ok_tree_node(a: ASN, depth: nat)
    requires
        tree_ok(a@, depth),
    ensures
        wf(a),
        decodable(a, depth),
    decreases a,
{
    if let ASN::Sequence(q) = a {
        let c = q.content@;
        assert forall|i: int| 0 <= i < c.len() implies wf(#[trigger] c[i]) && decodable(
            c[i],
            depth + 1,
        ) by {
            match a@ {
                Tree::Sequence(v) => {
                    assert(v[i] == c[i]@);
                    assert(tree_ok(v[i], depth + 1));
                },
                _ => {},
            }
            lemma_ok_tree_node(c[i], depth + 1);
        }
        lemma_wf_list(c);
        lemma_decodable_list(c, depth + 1);
    }
}

/// Two nodes with the same value have the same bytes.
pub proof fn lemma_enc_of_view(a: ASN, b: ASN)
    requires
        a@ == b@,
    ensures
        enc(a) == enc(b),
    decreases a,
{
    match (a, b) {
        (ASN::Sequence(qa), ASN::Sequence(qb)) => {
            let ca = qa.content@;
            let cb = qb.content@;
            match (a@, b@) {
                (Tree::Sequence(va), Tree::Sequence(vb)) => {
                    assert(va.len() == ca.len());
                    assert(vb.len() == cb.len());
                    assert forall|i: int| 0 <= i < ca.len() implies #[trigger] ca[i]@ == cb[i]@ by {
                        assert(va[i] == ca[i]@);
                        assert(vb[i] == cb[i]@);
                    }
                },
                _ => {},
            }
            lemma_enc_list_of_views(ca, cb);
        },
        _ => {},
    }
}

proof fn lemma_enc_list_of_views(ca: Seq<ASN>, cb: Seq<ASN>)
    requires
        ca.len() == cb.len(),
        forall|i: int| 0 <= i < ca.len() ==> #[trigger] ca[i]@ == cb[i]@,
    ensures
        enc_list(ca) == enc_list(cb),
    decreases ca,
{
    if ca.len() > 0 {
        lemma_enc_of_view(ca[0], cb[0]);
        assert forall|i: int| 0 <= i < ca.drop_first().len() implies #[trigger] ca.drop_first()[i]@
            == cb.drop_first()[i]@ by {
            assert(ca[i + 1]@ == cb[i + 1]@);
        }
        lemma_enc_list_of_views(ca.drop_first(), cb.drop_first());
    }
}

/// Every tree the decoder gives from a buffer decodes back to itself from its
/// bytes; and a buffer that is the bytes of such a tree is written back byte
/// for byte.
pub proof fn law_decoded_round_trip(s: Seq<u8>, a: ASN)
    requires
        decode_spec(s) == Ok::<Option<Tree>, crate::value::AsnError>(Some(a@)),
        enc(a).len() < 0x1_0000_0000_0000_0000,
    ensures
        wf(a),
        decode_spec(enc(a)) == Ok::<Option<Tree>, crate::value::AsnError>(Some(a@)),
{
    lemma_parsed_node_ok(s, 0);
    lemma_ok_tree_node(a, 0);
    law_round_trip(a);
}

/// A buffer that is the bytes of a tree is written back byte for byte by
/// encoding what it decodes to.
pub proof fn law_canonical_bytes(t: ASN, a: ASN)
    requires
        wf(t),
        decodable(t, 0),
        enc(t).len() < 0x1_0000_0000_0000_0000,
        decode_spec(enc(t)) == Ok::<Option<Tree>, crate::value::AsnError>(Some(a@)),
    ensures
        enc(a) == enc(t),
{
    law_round_trip(t);
    lemma_enc_of_view(a, t);
}

} // verus!
