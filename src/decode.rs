//! The decoder: a forward-only cursor that turns bytes into a value tree.

use vstd::prelude::*;

use crate::bytes::{be_value, lemma_be_value_bound, read_be, signed_read, signed_read_of};
use crate::timestamp::{parse_utc, Timestamp};
use crate::value::{
    type_of, Application, AsnError, AsnOID, Integer, OctetString, Sequence, Tree, Type, UTCTime,
    Unknown, ASN,
};

verus! {

/// How deep sequences may nest under the root before decoding gives up.
pub const MAX_DEPTH: usize = 64;

// ---------------------------------------------------------------------------
// The decoding, stated
/// The length field after the tag at `s[0]`: the payload length and the
/// number of bytes that tag and length take.
pub open spec fn parse_length(s: Seq<u8>) -> Result<(nat, nat), AsnError> {
    if s.len() < 2 {
        Err(AsnError::TruncatedInput)
    } else if s[1] < 128 {
        Ok((s[1] as nat, 2))
    } else if s[1] - 128 > 8 {
        Err(AsnError::Oversized)
    } else if 2 + (s[1] - 128) > s.len() {
        Err(AsnError::TruncatedInput)
    } else {
        Ok((be_value(s.subrange(2, 2 + (s[1] - 128))), (2 + (s[1] - 128)) as nat))
    }
}

/// An integer payload of at most 8 bytes, read as a big-endian two's
/// complement number of its own width; an empty payload is 0.
pub open spec fn int_value(p: Seq<u8>) -> i64 {
    signed_read(be_value(p), p.len()) as i64
}

/// How many bytes the first arc in `s` takes: up to and including the first
/// byte without the continuation bit; 0 where there is none.
pub open spec fn arc_len(s: Seq<u8>) -> nat
    decreases s.len(),
{
    if s.len() == 0 {
        0
    } else if s[0] < 128 {
        1
    } else {
        let k = arc_len(s.drop_first());
        if k == 0 {
            0
        } else {
            k + 1
        }
    }
}

/// The number that base-128 groups spell, the continuation bits left out.
pub open spec fn groups_value(s: Seq<u8>) -> nat
    decreases s.len(),
{
    if s.len() == 0 {
        0
    } else {
        groups_value(s.drop_last()) * 128 + (s.last() % 128) as nat
    }
}

/// The arcs after the first two.
pub open spec fn parse_arcs(s: Seq<u8>) -> Result<Seq<i64>, AsnError>
    decreases s.len(),
{
    if s.len() == 0 {
        Ok(Seq::empty())
    } else {
        let k = arc_len(s);
        if k == 0 || k > s.len() {
            Err(AsnError::TruncatedInput)
        } else if k > 9 {
            Err(AsnError::Oversized)
        } else {
            match parse_arcs(s.subrange(k as int, s.len() as int)) {
                Ok(r) => Ok(seq![groups_value(s.subrange(0, k as int)) as i64] + r),
                Err(e) => Err(e),
            }
        }
    }
}

/// An object-identifier payload: the first byte holds two arcs.
pub open spec fn parse_oid(p: Seq<u8>) -> Result<Seq<i64>, AsnError> {
    if p.len() == 0 {
        Err(AsnError::TruncatedInput)
    } else {
        match parse_arcs(p.drop_first()) {
            Ok(r) => Ok(seq![(p[0] / 40) as i64, (p[0] % 40) as i64] + r),
            Err(e) => Err(e),
        }
    }
}

/// The node that payload `p` under tag byte `tag` stands for.
pub open spec fn parse_payload(tag: u8, p: Seq<u8>, depth: nat) -> Result<Tree, AsnError>
    decreases p.len(), 2nat,
{
    if tag / 64 >= 2 {
        Err(AsnError::UnsupportedClass)
    } else if tag / 64 == 1 {
        Ok(Tree::Application(p))
    } else {
        match type_of(tag % 32) {
            Type::Sequence => {
                if depth >= MAX_DEPTH {
                    Err(AsnError::NestingTooDeep)
                } else {
                    match parse_list(p, depth + 1) {
                        Ok(c) => Ok(Tree::Sequence(c)),
                        Err(e) => Err(e),
                    }
                }
            },
            Type::Integer => {
                if p.len() > 8 {
                    Err(AsnError::Oversized)
                } else {
                    Ok(Tree::Integer(int_value(p)))
                }
            },
            Type::OID => match parse_oid(p) {
                Ok(a) => Ok(Tree::OID(a)),
                Err(e) => Err(e),
            },
            Type::OctetString => Ok(Tree::OctetString(p)),
            Type::UTCTime => match parse_utc(p) {
                Some(t) => Ok(Tree::UTCTime(t)),
                None => Err(AsnError::MalformedTimestamp),
            },
            _ => Ok(Tree::Unknown(tag, p)),
        }
    }
}

/// The element at the front of `s`, and how many bytes it takes.
pub open spec fn parse_node(s: Seq<u8>, depth: nat) -> Result<(Tree, nat), AsnError>
    decreases s.len(), 0nat,
{
    match parse_length(s) {
        Err(e) => Err(e),
        Ok((n, h)) => {
            if h + n > s.len() {
                Err(AsnError::TruncatedInput)
            } else {
                match parse_payload(s[0], s.subrange(h as int, (h + n) as int), depth) {
                    Ok(t) => Ok((t, h + n)),
                    Err(e) => Err(e),
                }
            }
        },
    }
}

/// The elements that fill `s` exactly, one after another.
pub open spec fn parse_list(s: Seq<u8>, depth: nat) -> Result<Seq<Tree>, AsnError>
    decreases s.len(), 1nat,
{
    if s.len() == 0 {
        Ok(Seq::empty())
    } else {
        match parse_node(s, depth) {
            Err(e) => Err(e),
            Ok((t, k)) => {
                if k == 0 || k > s.len() {
                    Err(AsnError::TruncatedInput)
                } else {
                    match parse_list(s.subrange(k as int, s.len() as int), depth) {
                        Ok(r) => Ok(seq![t] + r),
                        Err(e) => Err(e),
                    }
                }
            },
        }
    }
}

/// What a whole buffer decodes to: nothing for an empty one, else the element
/// at its front.
pub open spec fn decode_spec(s: Seq<u8>) -> Result<Option<Tree>, AsnError> {
    if s.len() == 0 {
        Ok(None)
    } else {
        match parse_node(s, 0) {
            Ok((t, _)) => Ok(Some(t)),
            Err(e) => Err(e),
        }
    }
}

/// The views of nodes.
pub open spec fn views(s: Seq<ASN>) -> Seq<Tree> {
    Seq::new(s.len(), |i: int| s[i]@)
}

pub open spec fn node_matches(
    r: Result<(ASN, usize), AsnError>,
    s: Result<(Tree, nat), AsnError>,
) -> bool {
    match (r, s) {
        (Ok((a, k)), Ok((t, n))) => a@ == t && k as nat == n,
        (Err(e1), Err(e2)) => e1 == e2,
        _ => false,
    }
}

pub open spec fn list_matches(r: Result<Vec<ASN>, AsnError>, s: Result<Seq<Tree>, AsnError>) -> bool {
    match (r, s) {
        (Ok(a), Ok(t)) => views(a@) == t,
        (Err(e1), Err(e2)) => e1 == e2,
        _ => false,
    }
}

pub open spec fn arcs_matches(r: Result<Vec<i64>, AsnError>, s: Result<Seq<i64>, AsnError>) -> bool {
    match (r, s) {
        (Ok(a), Ok(t)) => a@ == t,
        (Err(e1), Err(e2)) => e1 == e2,
        _ => false,
    }
}

/// 128 raised to `n`.
pub open spec fn pow128(n: nat) -> nat
    decreases n,
{
    if n == 0 {
        1
    } else {
        128 * pow128((n - 1) as nat)
    }
}

pub proof fn lemma_groups_bound(t: Seq<u8>)
    ensures
        groups_value(t) < pow128(t.len()),
    decreases t.len(),
{
    if t.len() > 0 {
        lemma_groups_bound(t.drop_last());
        let p = pow128((t.len() - 1) as nat);
        let v = groups_value(t.drop_last());
        let b = (t.last() % 128) as nat;
        assert(v * 128 + b < 128 * p) by (nonlinear_arith)
            requires v < p, b < 128;
    }
}

/// Where the first byte without the continuation bit stands decides the
/// length of the first arc.
pub proof fn lemma_arc_len_scan(t: Seq<u8>, m: nat)
    requires
        m <= t.len(),
        forall|x: int| 0 <= x < m ==> t[x] >= 128,
    ensures
        m == t.len() ==> arc_len(t) == 0,
        m < t.len() && t[m as int] < 128 ==> arc_len(t) == m + 1,
    decreases m,
{
    if m > 0 {
        lemma_arc_len_scan(t.drop_first(), (m - 1) as nat);
    }
}

// ---------------------------------------------------------------------------
// The decoder
/// A copy of `s[a..b]`.
pub fn copy_range(s: &[u8], a: usize, b: usize) -> (v: Vec<u8>)
    requires
        a <= b <= s@.len(),
    ensures
        v@ == s@.subrange(a as int, b as int),
{
    let mut v: Vec<u8> = Vec::new();
    let mut i: usize = a;
    while i < b
        invariant
            a <= i <= b <= s@.len(),
            v@ == s@.subrange(a as int, i as int),
        decreases b - i,
    {
        v.push(s[i]);
        i += 1;
        assert(v@ =~= s@.subrange(a as int, i as int));
    }
    v
}

/// Reads the base-128 groups `s[a..b]` as one number.
fn read_groups(s: &[u8], a: usize, b: usize) -> (r: u64)
    requires
        a <= b <= s@.len(),
        b - a <= 9,
    ensures
        r as nat == groups_value(s@.subrange(a as int, b as int)),
        r < 0x8000_0000_0000_0000,
{
    let mut acc: u64 = 0;
    let mut i: usize = a;
    while i < b
        invariant
            a <= i <= b <= s@.len(),
            b - a <= 9,
            acc as nat == groups_value(s@.subrange(a as int, i as int)),
            acc < pow128((i - a) as nat),
        decreases b - i,
    {
        proof {
            reveal_with_fuel(pow128, 10);
            assert(pow128((i - a) as nat) <= pow128(8)) by {
                lemma_pow128_mono((i - a) as nat, 8);
            }
            assert(s@.subrange(a as int, i + 1).drop_last() =~= s@.subrange(a as int, i as int));
            lemma_groups_bound(s@.subrange(a as int, i + 1));
        }
        acc = acc * 128 + (s[i] % 128) as u64;
        i += 1;
    }
    proof {
        reveal_with_fuel(pow128, 10);
        lemma_pow128_mono((b - a) as nat, 9);
    }
    acc
}

pub proof fn lemma_pow128_mono(a: nat, b: nat)
    requires
        a <= b,
    ensures
        pow128(a) <= pow128(b),
    decreases b,
{
    if a < b {
        lemma_pow128_mono(a, (b - 1) as nat);
    }
}

/// Reads the arcs after the first two from `s[start..end]`.
fn read_arcs(s: &[u8], start: usize, end: usize) -> (r: Result<Vec<i64>, AsnError>)
    requires
        start <= end <= s@.len(),
    ensures
        arcs_matches(r, parse_arcs(s@.subrange(start as int, end as int))),
{
    let mut out: Vec<i64> = Vec::new();
    let mut pos: usize = start;
    while pos < end
        invariant
            start <= pos <= end <= s@.len(),
            parse_arcs(s@.subrange(start as int, end as int)) == match parse_arcs(
                s@.subrange(pos as int, end as int),
            ) {
                Ok(r) => Ok(out@ + r),
                Err(e) => Err(e),
            },
        decreases end - pos,
    {
        let ghost t = s@.subrange(pos as int, end as int);
        let mut j: usize = pos;
        while j < end && s[j] >= 128
            invariant
                pos <= j <= end <= s@.len(),
                forall|x: int| pos <= x < j ==> s@[x] >= 128,
            decreases end - j,
        {
            j += 1;
        }
        proof {
            lemma_arc_len_scan(t, (j - pos) as nat);
        }
        if j == end {
            return Err(AsnError::TruncatedInput);
        }
        let k = j - pos + 1;
        if k > 9 {
            return Err(AsnError::Oversized);
        }
        let v = read_groups(s, pos, j + 1);
        proof {
            assert(t.subrange(0, k as int) =~= s@.subrange(pos as int, j + 1));
            assert(t.subrange(k as int, t.len() as int) =~= s@.subrange(j + 1, end as int));
            match parse_arcs(s@.subrange(j + 1, end as int)) {
                Ok(r) => {
                    assert(out@.push(v as i64) + r =~= out@ + (seq![v as i64] + r));
                },
                Err(e) => {},
            }
        }
        out.push(v as i64);
        pos = j + 1;
    }
    assert(out@ + Seq::<i64>::empty() =~= out@);
    Ok(out)
}

/// Reads the element at the front of `s[start..end]`.
#[verifier::rlimit(40)]
fn read_node(s: &[u8], start: usize, end: usize, depth: usize) -> (r: Result<(ASN, usize), AsnError>)
    requires
        start <= end <= s@.len(),
        depth <= MAX_DEPTH,
    ensures
        node_matches(r, parse_node(s@.subrange(start as int, end as int), depth as nat)),
    decreases end - start, 0int,
{
    let ghost t = s@.subrange(start as int, end as int);
    if end - start < 2 {
        return Err(AsnError::TruncatedInput);
    }
    let tag = s[start];
    let l0 = s[start + 1];
    let mut n: usize = 0;
    let mut h: usize = 2;
    if l0 < 128 {
        n = l0 as usize;
    } else {
        let k = (l0 - 128) as usize;
        if k > 8 {
            return Err(AsnError::Oversized);
        }
        if 2 + k > end - start {
            return Err(AsnError::TruncatedInput);
        }
        let v = read_be(s, start + 2, start + 2 + k);
        assert(s@.subrange(start + 2, start + 2 + k) =~= t.subrange(2, 2 + k));
        if v > (end - start) as u64 {
            return Err(AsnError::TruncatedInput);
        }
        n = v as usize;
        h = 2 + k;
    }
    assert(parse_length(t) == Ok::<(nat, nat), AsnError>((n as nat, h as nat)));
    if n > end - start - h {
        return Err(AsnError::TruncatedInput);
    }
    let ps = start + h;
    let pe = ps + n;
    let k = h + n;
    assert(s@.subrange(ps as int, pe as int) =~= t.subrange(h as int, k as int));
    match read_payload(s, ps, pe, tag, depth) {
        Ok(node) => Ok((node, k)),
        Err(e) => Err(e),
    }
}

/// Reads the payload `s[ps..pe]` under tag byte `tag`.
#[verifier::rlimit(40)]
fn read_payload(s: &[u8], ps: usize, pe: usize, tag: u8, depth: usize) -> (r: Result<ASN, AsnError>)
    requires
        ps <= pe <= s@.len(),
        depth <= MAX_DEPTH,
    ensures
        match (r, parse_payload(tag, s@.subrange(ps as int, pe as int), depth as nat)) {
            (Ok(a), Ok(t)) => a@ == t,
            (Err(e1), Err(e2)) => e1 == e2,
            _ => false,
        },
    decreases pe - ps, 2int,
{
    let n = pe - ps;
    let class = tag / 64;
    if class >= 2 {
        return Err(AsnError::UnsupportedClass);
    }
    if class == 1 {
        let content = copy_range(s, ps, pe);
        return Ok(ASN::Application(Application { content }));
    }
    match Type::from_id(tag % 32) {
        Type::Sequence => {
            if depth >= MAX_DEPTH {
                Err(AsnError::NestingTooDeep)
            } else {
                match read_list(s, ps, pe, depth + 1) {
                    Ok(c) => {
                        let node = ASN::Sequence(Sequence { content: c });
                        proof {
                            match node@ {
                                Tree::Sequence(v) => {
                                    assert(v =~= views(c@));
                                },
                                _ => {},
                            }
                        }
                        Ok(node)
                    },
                    Err(e) => Err(e),
                }
            }
        },
        Type::Integer => {
            if n > 8 {
                Err(AsnError::Oversized)
            } else {
                let v = read_be(s, ps, pe);
                proof {
                    lemma_be_value_bound(s@.subrange(ps as int, pe as int));
                }
                let value = signed_read_of(v, n);
                proof {
                    crate::bytes::lemma_pow256_signed_range(n as nat, v as nat);
                }
                Ok(ASN::Integer(Integer { content: value }))
            }
        },
        Type::OID => {
            if n == 0 {
                Err(AsnError::TruncatedInput)
            } else {
                let first = s[ps];
                match read_arcs(s, ps + 1, pe) {
                    Ok(rest) => {
                        let mut arcs: Vec<i64> = Vec::new();
                        arcs.push((first / 40) as i64);
                        arcs.push((first % 40) as i64);
                        let mut i: usize = 0;
                        while i < rest.len()
                            invariant
                                i <= rest@.len(),
                                arcs@ == seq![(first / 40) as i64, (first % 40) as i64]
                                    + rest@.subrange(0, i as int),
                            decreases rest@.len() - i,
                        {
                            arcs.push(rest[i]);
                            i += 1;
                            assert(arcs@ =~= seq![(first / 40) as i64, (first % 40) as i64]
                                + rest@.subrange(0, i as int));
                        }
                        assert(rest@.subrange(0, rest@.len() as int) =~= rest@);
                        assert(s@.subrange(ps + 1, pe as int) =~= s@.subrange(
                            ps as int,
                            pe as int,
                        ).drop_first());
                        Ok(ASN::OID(AsnOID { content: arcs }))
                    },
                    Err(e) => {
                        assert(s@.subrange(ps + 1, pe as int) =~= s@.subrange(
                            ps as int,
                            pe as int,
                        ).drop_first());
                        Err(e)
                    },
                }
            }
        },
        Type::OctetString => {
            let content = copy_range(s, ps, pe);
            Ok(ASN::OctetString(OctetString { content }))
        },
        Type::UTCTime => {
            let content = copy_range(s, ps, pe);
            match Timestamp::from_text(content.as_slice()) {
                Some(ts) => Ok(ASN::UTCTime(UTCTime { content: ts })),
                None => Err(AsnError::MalformedTimestamp),
            }
        },
        _ => {
            let content = copy_range(s, ps, pe);
            Ok(ASN::Unknown(Unknown { tag, content }))
        },
    }
}

/// Reads the elements that fill `s[start..end]`.
fn read_list(s: &[u8], start: usize, end: usize, depth: usize) -> (r: Result<Vec<ASN>, AsnError>)
    requires
        start <= end <= s@.len(),
        depth <= MAX_DEPTH,
    ensures
        list_matches(r, parse_list(s@.subrange(start as int, end as int), depth as nat)),
    decreases end - start, 1int,
{
    let mut out: Vec<ASN> = Vec::new();
    let mut pos: usize = start;
    while pos < end
        invariant
            start <= pos <= end <= s@.len(),
            depth <= MAX_DEPTH,
            parse_list(s@.subrange(start as int, end as int), depth as nat) == match parse_list(
                s@.subrange(pos as int, end as int),
                depth as nat,
            ) {
                Ok(r) => Ok(views(out@) + r),
                Err(e) => Err(e),
            },
        decreases end - pos,
    {
        let ghost t = s@.subrange(pos as int, end as int);
        match read_node(s, pos, end, depth) {
            Err(e) => {
                return Err(e);
            },
            Ok((node, k)) => {
                if k == 0 || k > end - pos {
                    return Err(AsnError::TruncatedInput);
                }
                proof {
                    assert(t.subrange(k as int, t.len() as int) =~= s@.subrange(
                        pos + k,
                        end as int,
                    ));
                    assert(views(out@.push(node)) =~= views(out@).push(node@));
                    match parse_list(s@.subrange(pos + k, end as int), depth as nat) {
                        Ok(r) => {
                            assert(views(out@).push(node@) + r =~= views(out@) + (seq![node@]
                                + r));
                        },
                        Err(e) => {},
                    }
                }
                out.push(node);
                pos = pos + k;
            },
        }
    }
    assert(views(out@) + Seq::<Tree>::empty() =~= views(out@));
    Ok(out)
}

/// Decodes the element at the front of `bytes`; nothing for an empty buffer.
pub fn decode(bytes: &[u8]) -> (r: Result<Option<ASN>, AsnError>)
    ensures
        match (r, decode_spec(bytes@)) {
            (Ok(Some(a)), Ok(Some(t))) => a@ == t,
            (Ok(None), Ok(None)) => true,
            (Err(e1), Err(e2)) => e1 == e2,
            _ => false,
        },
{
    if bytes.len() == 0 {
        return Ok(None);
    }
    assert(bytes@.subrange(0, bytes@.len() as int) =~= bytes@);
    match read_node(bytes, 0, bytes.len(), 0) {
        Ok((a, _)) => Ok(Some(a)),
        Err(e) => Err(e),
    }
}

/// A forward-only reader over a buffer.
pub struct AsnReader {
    pub reader_idx: usize,
}

impl AsnReader {
    /// A reader at the start of its buffer.
    pub fn new() -> (r: Self)
        ensures
            r.reader_idx == 0,
    {
        AsnReader { reader_idx: 0 }
    }

    /// Decodes the element at the cursor and moves the cursor past it; nothing
    /// where the cursor is at the end. On an error the cursor stays.
    pub fn read_ber(&mut self, file: &[u8]) -> (r: Result<Option<ASN>, AsnError>)
        ensures
            old(self).reader_idx >= file@.len() ==> r == Ok::<Option<ASN>, AsnError>(None)
                && final(self).reader_idx == old(self).reader_idx,
            old(self).reader_idx < file@.len() ==> match (
                r,
                parse_node(file@.subrange(old(self).reader_idx as int, file@.len() as int), 0),
            ) {
                (Ok(Some(a)), Ok((t, k))) => a@ == t && final(self).reader_idx == old(
                    self,
                ).reader_idx + k,
                (Err(e1), Err(e2)) => e1 == e2 && final(self).reader_idx == old(self).reader_idx,
                _ => false,
            },
    {
        if self.reader_idx >= file.len() {
            return Ok(None);
        }
        match read_node(file, self.reader_idx, file.len(), 0) {
            Ok((a, k)) => {
                self.reader_idx = self.reader_idx + k;
                Ok(Some(a))
            },
            Err(e) => Err(e),
        }
    }
}

} // verus!
