//! Little-endian integers, as the binary protocol lays them out.
//!
//! [`le_value`] reads the number a run of bytes holds, least significant byte
//! first, and [`le_bytes`] writes a number in a given number of bytes; the two
//! undo each other ([`lemma_le_roundtrip`], [`lemma_le_bytes_of_value`]).
use vstd::prelude::*;

verus! {

/// The number that bytes hold, least significant first.
pub open spec fn le_value(s: Seq<u8>) -> nat
    decreases s.len(),
{
    if s.len() == 0 {
        0
    } else {
        s[0] as nat + 256 * le_value(s.drop_first())
    }
}

/// `v` written in `n` bytes, least significant first (higher bytes of `v` are
/// dropped).
pub open spec fn le_bytes(v: nat, n: nat) -> Seq<u8>
    decreases n,
{
    if n == 0 {
        seq![]
    } else {
        seq![(v % 256) as u8] + le_bytes(v / 256, (n - 1) as nat)
    }
}

/// 256 to the power `n`.
pub open spec fn pow256(n: nat) -> nat
    decreases n,
{
    if n == 0 {
        1
    } else {
        256 * pow256((n - 1) as nat)
    }
}

pub proof fn lemma_pow256_values()
    ensures
        pow256(2) == 0x1_0000,
        pow256(4) == 0x1_0000_0000,
        pow256(8) == 0x1_0000_0000_0000_0000,
{
    reveal_with_fuel(pow256, 9);
}

pub proof fn lemma_pow256_monotone(a: nat, b: nat)
    requires
        a <= b,
    ensures
        1 <= pow256(a) <= pow256(b),
    decreases b,
{
    if a < b {
        lemma_pow256_monotone(a, (b - 1) as nat);
    } else if b > 0 {
        lemma_pow256_monotone(0, (b - 1) as nat);
    }
}

/// A run of `n` bytes holds a number below `256^n`.
pub proof fn lemma_le_value_bound(s: Seq<u8>)
    ensures
        le_value(s) < pow256(s.len()),
    decreases s.len(),
{
    if s.len() > 0 {
        lemma_le_value_bound(s.drop_first());
        let r = le_value(s.drop_first());
        let p = pow256((s.len() - 1) as nat);
        assert(s[0] as nat + 256 * r < 256 * p) by (nonlinear_arith)
            requires
                r < p,
                s[0] < 256,
        ;
    }
}

pub proof fn lemma_le_bytes_len(v: nat, n: nat)
    ensures
        le_bytes(v, n).len() == n,
    decreases n,
{
    if n > 0 {
        lemma_le_bytes_len(v / 256, (n - 1) as nat);
    }
}

/// Writing a number that fits in `n` bytes and reading it back gives it back.
pub proof fn lemma_le_roundtrip(v: nat, n: nat)
    requires
        v < pow256(n),
    ensures
        le_value(le_bytes(v, n)) == v,
        le_bytes(v, n).len() == n,
    decreases n,
{
    lemma_le_bytes_len(v, n);
    if n > 0 {
        let p = pow256((n - 1) as nat);
        assert(v / 256 < p) by (nonlinear_arith)
            requires
                v < 256 * p,
        ;
        lemma_le_roundtrip(v / 256, (n - 1) as nat);
        let s = le_bytes(v, n);
        assert(s.drop_first() =~= le_bytes(v / 256, (n - 1) as nat));
        assert(v == v % 256 + 256 * (v / 256)) by (nonlinear_arith);
    }
}

/// Reading bytes and writing the number back in as many bytes gives the bytes
/// back.
pub proof fn lemma_le_bytes_of_value(s: Seq<u8>)
    ensures
        le_bytes(le_value(s), s.len()) == s,
    decreases s.len(),
{
    if s.len() > 0 {
        lemma_le_bytes_of_value(s.drop_first());
        let v = le_value(s);
        let r = le_value(s.drop_first());
        assert(v % 256 == s[0] as nat && v / 256 == r) by (nonlinear_arith)
            requires
                v == s[0] as nat + 256 * r,
                s[0] < 256,
        ;
        assert(le_bytes(v, s.len()) =~= s);
    }
}

/// Reads `n` bytes at `pos` as a little-endian number.
pub fn read_le(p: &[u8], pos: usize, n: usize) -> (v: u64)
    requires
        pos + n <= p.len(),
        n <= 8,
    ensures
        v as nat == le_value(p@.subrange(pos as int, pos + n)),
{
    proof {
        lemma_pow256_values();
    }
    let mut acc: u64 = 0;
    let mut i: usize = n;
    while i > 0
        invariant
            pos + n <= p.len(),
            n <= 8,
            0 <= i <= n,
            acc as nat == le_value(p@.subrange(pos + i, pos + n)),
            pow256(8) == 0x1_0000_0000_0000_0000,
        decreases i,
    {
        let ghost rest = p@.subrange(pos + i, pos + n);
        proof {
            lemma_le_value_bound(rest);
            lemma_pow256_monotone((n - i) as nat, 7);
            lemma_pow256_monotone(7, 8);
            assert(pow256(8) == 256 * pow256(7));
        }
        i -= 1;
        let b = p[pos + i];
        assert(p@.subrange(pos + i, pos + n).drop_first() =~= rest);
        let ghost pa = pow256(7);
        assert((acc as nat) * 256 + (b as nat) < 0x1_0000_0000_0000_0000) by (nonlinear_arith)
            requires
                acc < pa,
                256 * pa == 0x1_0000_0000_0000_0000,
                b < 256,
        ;
        acc = acc * 256 + b as u64;
    }
    acc
}

/// Appends `v` written in `n` little-endian bytes.
pub fn push_le(out: &mut Vec<u8>, v: u64, n: usize)
    requires
        n <= 8,
    ensures
        final(out)@ == old(out)@ + le_bytes(v as nat, n as nat),
{
    let mut x: u64 = v;
    let mut i: usize = 0;
    while i < n
        invariant
            0 <= i <= n,
            out@ + le_bytes(x as nat, (n - i) as nat) == old(out)@ + le_bytes(v as nat, n as nat),
        decreases n - i,
    {
        let ghost before = out@;
        out.push((x % 256) as u8);
        assert(out@ + le_bytes((x / 256) as nat, (n - i - 1) as nat) =~= before + le_bytes(x as nat, (n - i) as nat));
        x = x / 256;
        i += 1;
    }
    assert(out@ + le_bytes(x as nat, 0) =~= out@);
}

/// Appends bytes.
pub fn push_bytes(out: &mut Vec<u8>, bytes: &[u8])
    ensures
        final(out)@ == old(out)@ + bytes@,
{
    let mut i: usize = 0;
    while i < bytes.len()
        invariant
            0 <= i <= bytes@.len(),
            out@ == old(out)@ + bytes@.take(i as int),
        decreases bytes@.len() - i,
    {
        out.push(bytes[i]);
        assert(bytes@.take(i + 1) =~= bytes@.take(i as int).push(bytes@[i as int]));
        i += 1;
    }
    assert(bytes@.take(bytes@.len() as int) =~= bytes@);
}

/// The bytes from `pos` to `pos + n`, copied.
pub fn copy_bytes(p: &[u8], pos: usize, n: usize) -> (r: Vec<u8>)
    requires
        pos + n <= p.len(),
    ensures
        r@ == p@.subrange(pos as int, pos + n),
{
    let mut out: Vec<u8> = Vec::new();
    push_bytes(&mut out, vstd::slice::slice_subrange(p, pos, pos + n));
    out
}

} // verus!
