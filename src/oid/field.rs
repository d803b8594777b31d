//! The byte layout of one telemetry field inside a record blob.

use vstd::prelude::*;

use crate::bytes::{
    be_bytes, be_value, lemma_be_value_bound, pow256, push_be, read_be,
};
use crate::value::AsnError;

verus! {

/// How many bytes a field takes.
#[derive(Clone, Copy, Debug, PartialEq, Eq, Structural)]
pub enum Width {
    /// The field has no bytes in a record.
    Unsized,
    /// An unsigned big-endian number of this many bytes.
    Fixed(u8),
    /// A two's complement big-endian number of this many bytes.
    Signed(u8),
    /// A count byte, then that many unsigned numbers of this many bytes each.
    Counted(u8),
}

impl Width {
    /// The widths that fields of the schema have.
    pub open spec fn ok(self) -> bool {
        match self {
            Width::Unsized => true,
            Width::Fixed(n) => 1 <= n <= 4,
            Width::Signed(n) => n == 2 || n == 4,
            Width::Counted(n) => 1 <= n <= 3,
        }
    }
}

/// `x` read as a two's complement number of `n` bytes.
pub open spec fn signed_of(x: nat, n: nat) -> int {
    if x >= pow256(n) / 2 {
        x - pow256(n)
    } else {
        x as int
    }
}

/// The unsigned `n`-byte pattern of `v`.
pub open spec fn unsigned_of(v: int, n: nat) -> nat {
    if v < 0 {
        (v + pow256(n)) as nat
    } else {
        v as nat
    }
}

/// The first `c` numbers of `n` bytes each in `t`.
pub open spec fn counted_values(t: Seq<u8>, n: nat, c: nat) -> Seq<int>
    decreases c,
{
    if c == 0 {
        Seq::empty()
    } else {
        counted_values(t, n, (c - 1) as nat).push(
            be_value(t.subrange((c - 1) * n, (c * n) as int)) as int,
        )
    }
}

/// What a field of width `w` at the front of `s` holds, and how many bytes it
/// takes; `None` where `s` ends inside it.
pub open spec fn parse_field(w: Width, s: Seq<u8>) -> Option<(Seq<int>, nat)> {
    match w {
        Width::Unsized => Some((Seq::empty(), 0)),
        Width::Fixed(n) => {
            if s.len() < n {
                None
            } else {
                Some((seq![be_value(s.subrange(0, n as int)) as int], n as nat))
            }
        },
        Width::Signed(n) => {
            if s.len() < n {
                None
            } else {
                Some((seq![signed_of(be_value(s.subrange(0, n as int)), n as nat)], n as nat))
            }
        },
        Width::Counted(n) => {
            if s.len() < 1 {
                None
            } else {
                let k = 1 + s[0] * n;
                if s.len() < k {
                    None
                } else {
                    Some((counted_values(s.subrange(1, k), n as nat, s[0] as nat), k as nat))
                }
            }
        },
    }
}

/// Numbers of `n` bytes each, one after another.
pub open spec fn list_bytes(vals: Seq<int>, n: nat) -> Seq<u8>
    decreases vals.len(),
{
    if vals.len() == 0 {
        Seq::empty()
    } else {
        list_bytes(vals.drop_last(), n) + be_bytes(unsigned_of(vals.last(), n), n)
    }
}

/// The bytes of a field of width `w` holding `vals`.
pub open spec fn field_bytes(w: Width, vals: Seq<int>) -> Seq<u8> {
    match w {
        Width::Unsized => Seq::empty(),
        Width::Fixed(n) => be_bytes(unsigned_of(vals[0], n as nat), n as nat),
        Width::Signed(n) => be_bytes(unsigned_of(vals[0], n as nat), n as nat),
        Width::Counted(n) => seq![(vals.len() % 256) as u8] + list_bytes(vals, n as nat),
    }
}

/// The values fit the field: one number in range for a single number, at
/// most 255 unsigned numbers in range for a counted list.
pub open spec fn fits(w: Width, vals: Seq<int>) -> bool {
    match w {
        Width::Unsized => vals.len() == 0,
        Width::Fixed(n) => vals.len() == 1 && 0 <= vals[0] < pow256(n as nat),
        Width::Signed(n) => vals.len() == 1 && -(pow256(n as nat) / 2) <= vals[0] < pow256(
            n as nat,
        ) / 2,
        Width::Counted(n) => vals.len() <= 255 && forall|i: int|
            0 <= i < vals.len() ==> 0 <= #[trigger] vals[i] < pow256(n as nat),
    }
}

pub open spec fn ints(v: Seq<i64>) -> Seq<int> {
    v.map_values(|x: i64| x as int)
}

pub proof fn lemma_be_bytes_of_value(t: Seq<u8>)
    ensures
        be_bytes(be_value(t), t.len()) == t,
    decreases t.len(),
{
    if t.len() > 0 {
        let x = be_value(t);
        lemma_be_bytes_of_value(t.drop_last());
        assert(x / 256 == be_value(t.drop_last()));
        assert(x % 256 == t.last());
        assert(be_bytes(x, t.len()) =~= t);
    }
}

proof fn lemma_counted_len(t: Seq<u8>, n: nat, c: nat)
    ensures
        counted_values(t, n, c).len() == c,
    decreases c,
{
    if c > 0 {
        lemma_counted_len(t, n, (c - 1) as nat);
    }
}

proof fn lemma_counted_bytes(t: Seq<u8>, n: nat, c: nat)
    requires
        c * n <= t.len(),
        1 <= n <= 3,
    ensures
        list_bytes(counted_values(t, n, c), n) == t.subrange(0, (c * n) as int),
        forall|i: int|
            0 <= i < c ==> 0 <= #[trigger] counted_values(t, n, c)[i] < pow256(n),
    decreases c,
{
    lemma_counted_len(t, n, c);
    if c > 0 {
        let m = (c - 1) as nat;
        assert(m * n + n == c * n) by (nonlinear_arith)
            requires m == c - 1;
        assert(m * n <= c * n) by (nonlinear_arith)
            requires m == c - 1, n >= 1;
        lemma_counted_bytes(t, n, m);
        let vals = counted_values(t, n, c);
        let chunk = t.subrange((m * n) as int, (c * n) as int);
        assert(vals.drop_last() =~= counted_values(t, n, m));
        lemma_be_value_bound(chunk);
        lemma_be_bytes_of_value(chunk);
        assert(t.subrange(0, (c * n) as int) =~= t.subrange(0, (m * n) as int) + chunk);
        assert(chunk.len() == n);
        assert(vals.last() == be_value(chunk) as int);
        assert(unsigned_of(vals.last(), n) == be_value(chunk));
        assert(list_bytes(vals, n) == list_bytes(counted_values(t, n, m), n) + be_bytes(
            be_value(chunk),
            n,
        ));
        assert(be_bytes(be_value(chunk), n) == chunk);
        assert(list_bytes(vals, n) =~= t.subrange(0, (c * n) as int));
        assert forall|i: int| 0 <= i < c implies 0 <= #[trigger] vals[i] < pow256(n) by {
            if i < m {
                assert(vals[i] == counted_values(t, n, m)[i]);
            }
        }
    } else {
        assert(c * n == 0) by (nonlinear_arith)
            requires c == 0;
        assert(t.subrange(0, 0) =~= Seq::<u8>::empty());
        assert(counted_values(t, n, c) =~= Seq::<int>::empty());
        assert(list_bytes(Seq::<int>::empty(), n) =~= Seq::<u8>::empty());
    }
}

/// Writing back what was read from the front of a blob gives the bytes read.
pub proof fn lemma_field_bytes_of_parse(w: Width, s: Seq<u8>)
    requires
        w.ok(),
        parse_field(w, s) is Some,
    ensures
        ({
            let (vals, k) = parse_field(w, s)->Some_0;
            &&& field_bytes(w, vals) == s.subrange(0, k as int)
            &&& fits(w, vals)
            &&& k <= s.len()
        }),
{
    match w {
        Width::Unsized => {
            assert(s.subrange(0, 0) =~= Seq::<u8>::empty());
        },
        Width::Fixed(n) => {
            let t = s.subrange(0, n as int);
            lemma_be_bytes_of_value(t);
            lemma_be_value_bound(t);
        },
        Width::Signed(n) => {
            let t = s.subrange(0, n as int);
            lemma_be_bytes_of_value(t);
            lemma_be_value_bound(t);
            reveal_with_fuel(pow256, 5);
        },
        Width::Counted(n) => {
            let c = s[0] as nat;
            let k = 1 + c * n;
            let t = s.subrange(1, k as int);
            lemma_counted_bytes(t, n as nat, c);
            lemma_counted_len(t, n as nat, c);
            assert(t.subrange(0, (c * n) as int) =~= t);
            assert(s.subrange(0, k as int) =~= seq![s[0]] + t);
        },
    }
}

/// Reads the field of width `w` at `s[pos..]`; gives its values and the
/// position after it.
#[verifier::rlimit(40)]
pub fn read_field(w: Width, s: &[u8], pos: usize) -> (r: Result<(Vec<i64>, usize), AsnError>)
    requires
        pos <= s@.len(),
        w.ok(),
    ensures
        match r {
            Ok((v, np)) => {
                &&& pos <= np <= s@.len()
                &&& parse_field(w, s@.subrange(pos as int, s@.len() as int)) == Some(
                    (ints(v@), (np - pos) as nat),
                )
            },
            Err(e) => {
                &&& e == AsnError::TruncatedRecord
                &&& parse_field(w, s@.subrange(pos as int, s@.len() as int)) is None
            },
        },
{
    let ghost t = s@.subrange(pos as int, s@.len() as int);
    let mut out: Vec<i64> = Vec::new();
    match w {
        Width::Unsized => {
            assert(ints(out@) =~= Seq::<int>::empty());
            Ok((out, pos))
        },
        Width::Fixed(n) => {
            if s.len() - pos < n as usize {
                return Err(AsnError::TruncatedRecord);
            }
            let x = read_be(s, pos, pos + n as usize);
            assert(s@.subrange(pos as int, pos + n) =~= t.subrange(0, n as int));
            proof {
                lemma_be_value_bound(t.subrange(0, n as int));
                reveal_with_fuel(pow256, 5);
            }
            out.push(x as i64);
            assert(ints(out@) =~= seq![x as int]);
            Ok((out, pos + n as usize))
        },
        Width::Signed(n) => {
            if s.len() - pos < n as usize {
                return Err(AsnError::TruncatedRecord);
            }
            let x = read_be(s, pos, pos + n as usize);
            assert(s@.subrange(pos as int, pos + n) =~= t.subrange(0, n as int));
            proof {
                lemma_be_value_bound(t.subrange(0, n as int));
                reveal_with_fuel(pow256, 5);
            }
            let half: u64 = if n == 2 {
                0x8000
            } else {
                0x8000_0000
            };
            let v: i64 = if x >= half {
                x as i64 - 2 * half as i64
            } else {
                x as i64
            };
            out.push(v);
            assert(ints(out@) =~= seq![signed_of(x as nat, n as nat)]);
            Ok((out, pos + n as usize))
        },
        Width::Counted(n) => {
            if s.len() - pos < 1 {
                return Err(AsnError::TruncatedRecord);
            }
            let c = s[pos];
            assert(c as nat * n as nat <= 765) by (nonlinear_arith)
                requires c <= 255, n <= 3;
            let total: usize = 1 + c as usize * n as usize;
            if s.len() - pos < total {
                return Err(AsnError::TruncatedRecord);
            }
            let ghost u = t.subrange(1, total as int);
            let slen = s.len();
            let mut i: usize = 0;
            while i < c as usize
                invariant
                    i <= c,
                    1 <= n <= 3,
                    pos + total <= s@.len(),
                    slen == s@.len(),
                    total == 1 + c * n,
                    u == s@.subrange(pos + 1, pos + total),
                    ints(out@) == counted_values(u, n as nat, i as nat),
                decreases c - i,
            {
                assert(i * n + n <= c * n) by (nonlinear_arith)
                    requires i < c, n >= 1;
                assert(i * n <= 765) by (nonlinear_arith)
                    requires i < c, c <= 255, n <= 3;
                assert(pos + 1 + i * n + n <= s@.len());
                let a = pos + 1 + i * n as usize;
                let x = read_be(s, a, a + n as usize);
                assert(s@.subrange(a as int, a + n) =~= u.subrange(i * n, (i + 1) * n)) by {
                    assert((i + 1) * n == i * n + n) by (nonlinear_arith);
                }
                proof {
                    lemma_be_value_bound(s@.subrange(a as int, a + n));
                    reveal_with_fuel(pow256, 5);
                }
                out.push(x as i64);
                i += 1;
                assert(ints(out@) == counted_values(u, n as nat, i as nat)) by {
                    assert(ints(out@) =~= counted_values(u, n as nat, (i - 1) as nat).push(
                        x as int,
                    ));
                }
            }
            Ok((out, pos + total))
        },
    }
}

/// The values can be written in a field of width `w`: none negative but for a
/// signed number, which is no lower than its width allows.
pub open spec fn writable(w: Width, vals: Seq<int>) -> bool {
    match w {
        Width::Unsized => true,
        Width::Fixed(n) => vals.len() >= 1 && vals[0] >= 0,
        Width::Signed(n) => vals.len() >= 1 && vals[0] >= -(pow256(n as nat) / 2),
        Width::Counted(n) => forall|i: int| 0 <= i < vals.len() ==> #[trigger] vals[i] >= 0,
    }
}

/// Appends the bytes of a field of width `w` holding `vals`.
#[verifier::rlimit(40)]
pub fn write_field(w: Width, vals: &Vec<i64>, out: &mut Vec<u8>)
    requires
        w.ok(),
        writable(w, ints(vals@)),
    ensures
        final(out)@ == old(out)@ + field_bytes(w, ints(vals@)),
{
    match w {
        Width::Unsized => {
            assert(old(out)@ + Seq::<u8>::empty() =~= old(out)@);
        },
        Width::Fixed(n) => {
            assert(ints(vals@)[0] == vals@[0] as int);
            push_be(out, vals[0] as u64, n as usize);
        },
        Width::Signed(n) => {
            assert(ints(vals@)[0] == vals@[0] as int);
            proof {
                reveal_with_fuel(pow256, 5);
            }
            let v = vals[0];
            let x: u64 = if v < 0 {
                if n == 2 {
                    (v + 0x1_0000) as u64
                } else {
                    (v + 0x1_0000_0000) as u64
                }
            } else {
                v as u64
            };
            push_be(out, x, n as usize);
        },
        Width::Counted(n) => {
            out.push((vals.len() % 256) as u8);
            let ghost start = out@;
            let mut i: usize = 0;
            while i < vals.len()
                invariant
                    i <= vals@.len(),
                    1 <= n <= 3,
                    writable(w, ints(vals@)),
                    w == Width::Counted(n),
                    start == old(out)@.push((vals@.len() % 256) as u8),
                    out@ == start + list_bytes(ints(vals@.subrange(0, i as int)), n as nat),
                decreases vals@.len() - i,
            {
                assert(ints(vals@)[i as int] == vals@[i as int] as int);
                push_be(out, vals[i] as u64, n as usize);
                proof {
                    let next = ints(vals@.subrange(0, i + 1));
                    assert(next.drop_last() =~= ints(vals@.subrange(0, i as int)));
                    assert(next.last() == vals@[i as int] as int);
                }
                i += 1;
            }
            assert(vals@.subrange(0, vals@.len() as int) =~= vals@);
            assert(old(out)@ + field_bytes(w, ints(vals@)) =~= start + list_bytes(
                ints(vals@),
                n as nat,
            ));
        },
    }
}

} // verus!
