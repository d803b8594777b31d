//! Big-endian numbers and their byte forms.

use vstd::prelude::*;

verus! {

/// 256 raised to `n`.
pub open spec fn pow256(n: nat) -> nat
    decreases n,
{
    if n == 0 {
        1
    } else {
        256 * pow256((n - 1) as nat)
    }
}

/// The values of 256^n for the widths that fields take.
pub proof fn reveal_pow256()
    ensures
        pow256(0) == 1,
        pow256(1) == 0x100,
        pow256(2) == 0x1_0000,
        pow256(3) == 0x100_0000,
        pow256(4) == 0x1_0000_0000,
{
    reveal_with_fuel(pow256, 5);
}

/// The last `n` bytes of `x` in big-endian order (`x` taken modulo 256^n).
pub open spec fn be_bytes(x: nat, n: nat) -> Seq<u8>
    decreases n,
{
    if n == 0 {
        Seq::empty()
    } else {
        be_bytes(x / 256, (n - 1) as nat).push((x % 256) as u8)
    }
}

/// The number that big-endian bytes `s` spell.
pub open spec fn be_value(s: Seq<u8>) -> nat
    decreases s.len(),
{
    if s.len() == 0 {
        0
    } else {
        be_value(s.drop_last()) * 256 + s.last() as nat
    }
}

/// The fewest bytes, 1 to 8, whose two's complement holds `v`.
pub open spec fn signed_width(v: int) -> nat {
    if -0x80 <= v < 0x80 {
        1
    } else if -0x8000 <= v < 0x8000 {
        2
    } else if -0x80_0000 <= v < 0x80_0000 {
        3
    } else if -0x8000_0000 <= v < 0x8000_0000 {
        4
    } else if -0x80_0000_0000 <= v < 0x80_0000_0000 {
        5
    } else if -0x8000_0000_0000 <= v < 0x8000_0000_0000 {
        6
    } else if -0x80_0000_0000_0000 <= v < 0x80_0000_0000_0000 {
        7
    } else {
        8
    }
}

/// The `n`-byte two's complement pattern of `v`, read as unsigned.
pub open spec fn pattern(v: int, n: nat) -> nat {
    if v < 0 {
        (v + pow256(n)) as nat
    } else {
        v as nat
    }
}

/// An `n`-byte pattern `x` read as a two's complement number; 0 for no bytes.
pub open spec fn signed_read(x: nat, n: nat) -> int {
    if n == 0 {
        0
    } else if x >= pow256(n) / 2 {
        x - pow256(n)
    } else {
        x as int
    }
}

/// Reading back the pattern of a number in its own width gives the number.
pub proof fn lemma_signed_round_trip(v: int)
    requires
        -0x8000_0000_0000_0000 <= v < 0x8000_0000_0000_0000,
    ensures
        1 <= signed_width(v) <= 8,
        pattern(v, signed_width(v)) < pow256(signed_width(v)),
        signed_read(pattern(v, signed_width(v)), signed_width(v)) == v,
{
    reveal_with_fuel(pow256, 9);
}

/// A pattern of at most 8 bytes reads as a number within 64 bits.
pub proof fn lemma_pow256_signed_range(n: nat, x: nat)
    requires
        n <= 8,
        x < pow256(n),
    ensures
        -0x8000_0000_0000_0000 <= signed_read(x, n) < 0x8000_0000_0000_0000,
{
    reveal_with_fuel(pow256, 9);
}

/// 256 raised to `n`, for widths below 8.
pub fn pow256_of(n: usize) -> (r: u64)
    requires
        n <= 7,
    ensures
        r as nat == pow256(n as nat),
{
    proof {
        reveal_with_fuel(pow256, 9);
    }
    if n == 0 {
        1
    } else if n == 1 {
        0x100
    } else if n == 2 {
        0x1_0000
    } else if n == 3 {
        0x100_0000
    } else if n == 4 {
        0x1_0000_0000
    } else if n == 5 {
        0x100_0000_0000
    } else if n == 6 {
        0x1_0000_0000_0000
    } else {
        0x100_0000_0000_0000
    }
}

/// The fewest bytes whose two's complement holds `v`.
pub fn signed_width_of(v: i64) -> (r: usize)
    ensures
        r as nat == signed_width(v as int),
{
    if -0x80 <= v && v < 0x80 {
        1
    } else if -0x8000 <= v && v < 0x8000 {
        2
    } else if -0x80_0000 <= v && v < 0x80_0000 {
        3
    } else if -0x8000_0000 <= v && v < 0x8000_0000 {
        4
    } else if -0x80_0000_0000 <= v && v < 0x80_0000_0000 {
        5
    } else if -0x8000_0000_0000 <= v && v < 0x8000_0000_0000 {
        6
    } else if -0x80_0000_0000_0000 <= v && v < 0x80_0000_0000_0000 {
        7
    } else {
        8
    }
}

/// The `n`-byte pattern of `v`, where `n` is its own width.
pub fn pattern_of(v: i64) -> (r: u64)
    ensures
        r as nat == pattern(v as int, signed_width(v as int)),
{
    proof {
        reveal_with_fuel(pow256, 9);
    }
    let n = signed_width_of(v);
    if v >= 0 {
        v as u64
    } else if n < 8 {
        let p = pow256_of(n);
        (v + p as i64) as u64
    } else {
        ((v + 0x7FFF_FFFF_FFFF_FFFF) + 1) as u64 + 0x8000_0000_0000_0000
    }
}

/// Reads an `n`-byte pattern as a two's complement number.
pub fn signed_read_of(x: u64, n: usize) -> (r: i64)
    requires
        n <= 8,
        (x as nat) < pow256(n as nat),
    ensures
        r as int == signed_read(x as nat, n as nat),
{
    proof {
        reveal_with_fuel(pow256, 9);
    }
    if n == 0 {
        0
    } else if n == 8 {
        if x >= 0x8000_0000_0000_0000 {
            ((x - 0x8000_0000_0000_0000) as i64) - 0x7FFF_FFFF_FFFF_FFFF - 1
        } else {
            x as i64
        }
    } else {
        let p = pow256_of(n);
        if x >= p / 2 {
            x as i64 - p as i64
        } else {
            x as i64
        }
    }
}

/// How many bytes the encoder gives a non-negative number: 1, 2, 4 or 8.
pub open spec fn min_width(x: nat) -> nat {
    if x < 0x100 {
        1
    } else if x < 0x1_0000 {
        2
    } else if x < 0x1_0000_0000 {
        4
    } else {
        8
    }
}

pub proof fn lemma_pow256_pos(n: nat)
    ensures
        pow256(n) >= 1,
    decreases n,
{
    if n > 0 {
        lemma_pow256_pos((n - 1) as nat);
    }
}

pub proof fn lemma_be_bytes_len(x: nat, n: nat)
    ensures
        be_bytes(x, n).len() == n,
    decreases n,
{
    if n > 0 {
        lemma_be_bytes_len(x / 256, (n - 1) as nat);
    }
}

/// Reading back the bytes of a number that fits gives the number.
pub proof fn lemma_be_round_trip(x: nat, n: nat)
    requires
        x < pow256(n),
    ensures
        be_value(be_bytes(x, n)) == x,
    decreases n,
{
    if n > 0 {
        let m = (n - 1) as nat;
        lemma_be_bytes_len(x / 256, m);
        assert(x / 256 < pow256(m)) by (nonlinear_arith)
            requires x < 256 * pow256(m);
        lemma_be_round_trip(x / 256, m);
        let s = be_bytes(x, n);
        assert(s.drop_last() =~= be_bytes(x / 256, m));
    }
}

/// A value read from `n` bytes is below 256^n.
pub proof fn lemma_be_value_bound(s: Seq<u8>)
    ensures
        be_value(s) < pow256(s.len()),
    decreases s.len(),
{
    if s.len() > 0 {
        lemma_be_value_bound(s.drop_last());
        let p = pow256((s.len() - 1) as nat);
        let v = be_value(s.drop_last());
        let b = s.last() as nat;
        assert(v * 256 + b < 256 * p) by (nonlinear_arith)
            requires v < p, b < 256;
    }
}

pub proof fn lemma_min_width_fits(x: nat)
    requires
        x < 0x1_0000_0000_0000_0000,
    ensures
        x < pow256(min_width(x)),
        min_width(x) <= 8,
{
    reveal_with_fuel(pow256, 9);
}

/// Appends the last `n` bytes of `x`, most significant first.
pub fn push_be(out: &mut Vec<u8>, x: u64, n: usize)
    ensures
        final(out)@ == old(out)@ + be_bytes(x as nat, n as nat),
    decreases n,
{
    if n > 0 {
        push_be(out, x / 256, n - 1);
        out.push((x % 256) as u8);
        assert(be_bytes(x as nat, n as nat) == be_bytes((x / 256) as nat, (n - 1) as nat).push(
            (x % 256) as u8,
        ));
    }
}

/// Reads bytes `s[start..end]` as a big-endian number.
pub fn read_be(s: &[u8], start: usize, end: usize) -> (r: u64)
    requires
        start <= end <= s@.len(),
        end - start <= 8,
    ensures
        r as nat == be_value(s@.subrange(start as int, end as int)),
{
    let mut acc: u64 = 0;
    let mut i: usize = start;
    while i < end
        invariant
            start <= i <= end <= s@.len(),
            end - start <= 8,
            acc as nat == be_value(s@.subrange(start as int, i as int)),
        decreases end - i,
    {
        proof {
            lemma_be_value_bound(s@.subrange(start as int, i as int));
            reveal_with_fuel(pow256, 8);
            let k = (i - start) as nat;
            assert(pow256(k) <= pow256(7)) by {
                lemma_pow256_mono(k, 7);
            }
            assert(s@.subrange(start as int, i + 1).drop_last() =~= s@.subrange(start as int, i as int));
        }
        acc = acc * 256 + s[i] as u64;
        i += 1;
    }
    acc
}

pub proof fn lemma_pow256_mono(a: nat, b: nat)
    requires
        a <= b,
    ensures
        pow256(a) <= pow256(b),
    decreases b,
{
    if a < b {
        lemma_pow256_mono(a, (b - 1) as nat);
        lemma_pow256_pos((b - 1) as nat);
    }
}

} // verus!
