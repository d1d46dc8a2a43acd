//! The Script encoding of pushes: data pushes and minimal integer pushes.

use vstd::prelude::*;

verus! {

/// The little-endian bytes of `n`, without trailing zero bytes.
pub open spec fn le_bytes(n: nat) -> Seq<u8>
    decreases n,
{
    if n == 0 {
        seq![]
    } else {
        seq![(n % 256) as u8] + le_bytes(n / 256)
    }
}

/// The unsigned little-endian value of a byte string.
pub open spec fn le_value(d: Seq<u8>) -> nat
    decreases d.len(),
{
    if d.len() == 0 {
        0
    } else {
        d[0] as nat + 256 * le_value(d.skip(1))
    }
}

/// The minimal Script number encoding of a non-negative integer: little-endian
/// magnitude, with a zero byte appended when the top bit would read as a sign.
pub open spec fn script_num(n: nat) -> Seq<u8> {
    let b = le_bytes(n);
    if b.len() > 0 && b.last() >= 0x80 {
        b.push(0)
    } else {
        b
    }
}

/// A direct push of a short byte string: its length, then the bytes.
pub open spec fn push_data(d: Seq<u8>) -> Seq<u8> {
    seq![d.len() as u8] + d
}

/// The minimal push of a non-negative integer: `OP_0`, `OP_1` .. `OP_16`, or
/// a data push of its Script number encoding.
pub open spec fn push_int(n: nat) -> Seq<u8> {
    if n == 0 {
        seq![0x00u8]
    } else if n <= 16 {
        seq![(0x50 + n) as u8]
    } else {
        push_data(script_num(n))
    }
}

/// Whether a data push of `d` is an integer push that the lexer accepts:
/// the minimal encoding of a number above 16.
pub open spec fn is_minimal_num(d: Seq<u8>) -> bool {
    le_value(d) > 16 && script_num(le_value(d)) == d
}

/// Appends the Script number encoding of `n`.
pub fn push_script_num(n: u64, out: &mut Vec<u8>)
    ensures
        final(out)@ == old(out)@ + script_num(n as nat),
{
    let ghost start = out@;
    let start_len = out.len();
    let mut m: u64 = n;
    while m > 0
        invariant
            start.len() <= out@.len(),
            start_len == start.len(),
            out@.subrange(0, start.len() as int) == start,
            out@.skip(start.len() as int) + le_bytes(m as nat) == le_bytes(n as nat),
        decreases m,
    {
        let ghost before = out@;
        out.push((m % 256) as u8);
        proof {
            assert(le_bytes(m as nat) == seq![(m as nat % 256) as u8] + le_bytes(m as nat / 256));
            assert(out@.skip(start.len() as int) =~= before.skip(start.len() as int).push((m % 256) as u8));
            assert(out@.subrange(0, start.len() as int) =~= before.subrange(0, start.len() as int));
            assert(out@.skip(start.len() as int) + le_bytes((m / 256) as nat)
                =~= before.skip(start.len() as int) + le_bytes(m as nat));
        }
        m = m / 256;
    }
    assert(out@.skip(start.len() as int) =~= le_bytes(n as nat));
    let len = out.len();
    if len > start_len && out[len - 1] >= 0x80 {
        out.push(0);
    }
    assert(out@ =~= start + script_num(n as nat));
}

/// Appends the minimal push of `n`.
pub fn push_int_bytes(n: u64, out: &mut Vec<u8>)
    ensures
        final(out)@ == old(out)@ + push_int(n as nat),
{
    let ghost start = out@;
    if n == 0 {
        out.push(0x00);
    } else if n <= 16 {
        out.push((0x50 + n) as u8);
    } else {
        let mut num: Vec<u8> = Vec::new();
        push_script_num(n, &mut num);
        assert(num@ =~= script_num(n as nat));
        proof {
            lemma_script_num_len(n as nat);
        }
        out.push(num.len() as u8);
        let mut i: usize = 0;
        while i < num.len()
            invariant
                out@ == start + seq![num@.len() as u8] + num@.subrange(0, i as int),
                i <= num@.len(),
            decreases num@.len() - i,
        {
            out.push(num[i]);
            i = i + 1;
            assert(out@ =~= start + seq![num@.len() as u8] + num@.subrange(0, i as int));
        }
        assert(num@.subrange(0, num@.len() as int) =~= num@);
    }
    assert(out@ =~= start + push_int(n as nat));
}

/// Appends a direct push of a short byte string.
pub fn push_data_bytes(d: &[u8], out: &mut Vec<u8>)
    requires
        d@.len() < 76,
    ensures
        final(out)@ == old(out)@ + push_data(d@),
{
    let ghost start = out@;
    out.push(d.len() as u8);
    let mut i: usize = 0;
    while i < d.len()
        invariant
            out@ == start + seq![d@.len() as u8] + d@.subrange(0, i as int),
            i <= d@.len(),
        decreases d@.len() - i,
    {
        out.push(d[i]);
        i = i + 1;
        assert(out@ =~= start + seq![d@.len() as u8] + d@.subrange(0, i as int));
    }
    assert(d@.subrange(0, d@.len() as int) =~= d@);
    assert(out@ =~= start + push_data(d@));
}

/// The little-endian value of at most four bytes.
pub fn read_le(d: &[u8]) -> (r: u64)
    requires
        d@.len() <= 4,
    ensures
        r as nat == le_value(d@),
        r < 0x1_0000_0000,
{
    let mut v: u64 = 0;
    let mut i: usize = d.len();
    while i > 0
        invariant
            i <= d@.len() <= 4,
            v as nat == le_value(d@.skip(i as int)),
            v < pow256(d@.len() - i),
        decreases i,
    {
        let ghost old_v = v;
        proof {
            assert(d@.skip(i - 1).skip(1) =~= d@.skip(i as int));
            assert(d@.skip(i - 1)[0] == d@[i - 1]);
            reveal_with_fuel(pow256, 5);
            assert(v * 256 + d@[i - 1] < pow256(d@.len() - i + 1)) by (nonlinear_arith)
                requires
                    v < pow256(d@.len() - i),
                    pow256(d@.len() - i + 1) == 256 * pow256(d@.len() - i),
                    d@[i - 1] < 256,
            ;
        }
        v = v * 256 + d[i - 1] as u64;
        i = i - 1;
    }
    proof {
        assert(d@.skip(0) =~= d@);
        reveal_with_fuel(pow256, 5);
    }
    v
}

/// Powers of 256.
pub open spec fn pow256(k: int) -> nat
    decreases k,
{
    if k <= 0 {
        1
    } else {
        256 * pow256(k - 1)
    }
}

/// A number's encoding is at most five bytes long when it fits in 64 bits and
/// its value is below 2^32.
pub proof fn lemma_script_num_len(n: nat)
    requires
        n < 0x1_0000_0000_0000_0000,
    ensures
        script_num(n).len() <= 9,
        n > 0 ==> script_num(n).len() > 0,
{
    reveal_with_fuel(pow256, 9);
    lemma_le_bytes_len(n, 8);
}

/// `le_bytes(n)` has at most `k` bytes when `n < 256^k`.
pub proof fn lemma_le_bytes_len(n: nat, k: nat)
    requires
        n < pow256(k as int),
    ensures
        le_bytes(n).len() <= k,
        n > 0 ==> le_bytes(n).len() > 0,
    decreases n,
{
    if n > 0 {
        assert(k > 0);
        assert(n / 256 < pow256(k - 1)) by (nonlinear_arith)
            requires
                n < pow256(k as int),
                pow256(k as int) == 256 * pow256(k - 1),
        ;
        lemma_le_bytes_len(n / 256, (k - 1) as nat);
    }
}

/// Four bytes hold a value below 2^32.
pub proof fn lemma_le_value_bound(d: Seq<u8>)
    requires
        d.len() <= 4,
    ensures
        le_value(d) < 0x1_0000_0000,
{
    lemma_le_value_pow(d);
    reveal_with_fuel(pow256, 5);
    lemma_pow256_mono(d.len() as int, 4);
}

proof fn lemma_le_value_pow(d: Seq<u8>)
    ensures
        le_value(d) < pow256(d.len() as int),
    decreases d.len(),
{
    if d.len() > 0 {
        lemma_le_value_pow(d.skip(1));
        assert(d[0] as nat + 256 * le_value(d.skip(1)) < pow256(d.len() as int)) by (nonlinear_arith)
            requires
                le_value(d.skip(1)) < pow256(d.len() - 1),
                pow256(d.len() as int) == 256 * pow256(d.len() - 1),
                d[0] < 256,
        ;
    }
}

proof fn lemma_pow256_mono(a: int, b: int)
    requires
        0 <= a <= b,
    ensures
        pow256(a) <= pow256(b),
    decreases b - a,
{
    if a < b {
        lemma_pow256_mono(a, b - 1);
    }
}

/// Reading back the little-endian bytes of a number gives the number.
proof fn lemma_le_value_le_bytes(n: nat)
    ensures
        le_value(le_bytes(n)) == n,
    decreases n,
{
    if n > 0 {
        let b = le_bytes(n);
        assert(b.skip(1) =~= le_bytes(n / 256));
        lemma_le_value_le_bytes(n / 256);
        assert(n == (n % 256) + 256 * (n / 256)) by (nonlinear_arith);
    }
}

/// A trailing zero byte does not change the little-endian value.
proof fn lemma_le_value_push_zero(b: Seq<u8>)
    ensures
        le_value(b.push(0)) == le_value(b),
    decreases b.len(),
{
    if b.len() > 0 {
        assert(b.push(0).skip(1) =~= b.skip(1).push(0));
        assert(b.push(0)[0] == b[0]);
        lemma_le_value_push_zero(b.skip(1));
    } else {
        assert(b.push(0).skip(1) =~= Seq::<u8>::empty());
        assert(le_value(Seq::<u8>::empty()) == 0);
        assert(le_value(b) == 0);
    }
}

/// The Script number encoding of a number above 16 is a minimal integer push.
pub proof fn lemma_script_num_minimal(n: nat)
    requires
        n > 16,
    ensures
        le_value(script_num(n)) == n,
        is_minimal_num(script_num(n)),
{
    lemma_le_value_le_bytes(n);
    lemma_le_value_push_zero(le_bytes(n));
}

} // verus!
