//! Fixed-width integer encodings, dictionary order on byte strings, and the
//! small reading and writing helpers that every record format in this crate is
//! built from.

use vstd::prelude::*;

verus! {

/// The `n` low bytes of `x`, least significant first.
pub open spec fn le_bytes(x: nat, n: nat) -> Seq<u8>
    decreases n,
{
    if n == 0 {
        Seq::empty()
    } else {
        seq![(x % 256) as u8] + le_bytes(x / 256, (n - 1) as nat)
    }
}

/// The `n` low bytes of `x`, most significant first.
pub open spec fn be_bytes(x: nat, n: nat) -> Seq<u8>
    decreases n,
{
    if n == 0 {
        Seq::empty()
    } else {
        be_bytes(x / 256, (n - 1) as nat).push((x % 256) as u8)
    }
}

/// The number that a byte string spells, least significant byte first.
pub open spec fn le_value(s: Seq<u8>) -> nat
    decreases s.len(),
{
    if s.len() == 0 {
        0
    } else {
        s[0] as nat + 256 * le_value(s.skip(1))
    }
}

/// The number that a byte string spells, most significant byte first.
pub open spec fn be_value(s: Seq<u8>) -> nat
    decreases s.len(),
{
    if s.len() == 0 {
        0
    } else {
        256 * be_value(s.drop_last()) + s.last() as nat
    }
}

/// 256 to the power `n`.
pub open spec fn pow256(n: nat) -> nat
    decreases n,
{
    if n == 0 {
        1
    } else {
        256 * pow256((n - 1) as nat)
    }
}

/// The eight bytes of `x`, least significant first.
pub open spec fn u64_le(x: u64) -> Seq<u8> {
    le_bytes(x as nat, 8)
}

/// The eight bytes of `x`, most significant first.
pub open spec fn u64_be(x: u64) -> Seq<u8> {
    be_bytes(x as nat, 8)
}

/// The four bytes of `x`, least significant first.
pub open spec fn u32_le(x: u32) -> Seq<u8> {
    le_bytes(x as nat, 4)
}

/// The four bytes of `x`, most significant first.
pub open spec fn u32_be(x: u32) -> Seq<u8> {
    be_bytes(x as nat, 4)
}

pub proof fn lemma_pow256_values()
    ensures
        pow256(4) == 0x1_0000_0000,
        pow256(8) == 0x1_0000_0000_0000_0000,
{
    reveal_with_fuel(pow256, 9);
}

/// A little-endian encoding has the length asked for, and spells the number
/// again when the number fits.
pub proof fn lemma_le_roundtrip(x: nat, n: nat)
    requires
        x < pow256(n),
    ensures
        le_bytes(x, n).len() == n,
        le_value(le_bytes(x, n)) == x,
    decreases n,
{
    if n > 0 {
        lemma_le_roundtrip(x / 256, (n - 1) as nat);
        let s = le_bytes(x, n);
        assert(s.skip(1) =~= le_bytes(x / 256, (n - 1) as nat));
    }
}

/// A big-endian encoding has the length asked for, and spells the number again
/// when the number fits.
pub proof fn lemma_be_roundtrip(x: nat, n: nat)
    requires
        x < pow256(n),
    ensures
        be_bytes(x, n).len() == n,
        be_value(be_bytes(x, n)) == x,
    decreases n,
{
    if n > 0 {
        lemma_be_roundtrip(x / 256, (n - 1) as nat);
        let s = be_bytes(x, n);
        assert(s.drop_last() =~= be_bytes(x / 256, (n - 1) as nat));
    }
}

/// Every byte string is the little-endian encoding of the number it spells.
pub proof fn lemma_le_of_value(s: Seq<u8>)
    ensures
        le_value(s) < pow256(s.len()),
        le_bytes(le_value(s), s.len()) == s,
    decreases s.len(),
{
    if s.len() > 0 {
        lemma_le_of_value(s.skip(1));
        let x = le_value(s);
        assert(x / 256 == le_value(s.skip(1)));
        assert(x % 256 == s[0] as nat);
        assert(le_bytes(x, s.len()) =~= s);
    }
}

/// Every byte string is the big-endian encoding of the number it spells.
pub proof fn lemma_be_of_value(s: Seq<u8>)
    ensures
        be_value(s) < pow256(s.len()),
        be_bytes(be_value(s), s.len()) == s,
    decreases s.len(),
{
    if s.len() > 0 {
        lemma_be_of_value(s.drop_last());
        let x = be_value(s);
        assert(x / 256 == be_value(s.drop_last()));
        assert(x % 256 == s.last() as nat);
        assert(be_bytes(x, s.len()) =~= s);
    }
}

/// `a` comes strictly before `b` in dictionary order on bytes.
pub open spec fn lex_lt(a: Seq<u8>, b: Seq<u8>) -> bool
    decreases a.len(),
{
    if b.len() == 0 {
        false
    } else if a.len() == 0 {
        true
    } else if a[0] != b[0] {
        a[0] < b[0]
    } else {
        lex_lt(a.skip(1), b.skip(1))
    }
}

/// `a` comes before `b` in dictionary order on bytes, or is `b`.
pub open spec fn lex_le(a: Seq<u8>, b: Seq<u8>) -> bool {
    a == b || lex_lt(a, b)
}

/// Of two different byte strings one comes before the other.
pub proof fn lemma_lex_total(a: Seq<u8>, b: Seq<u8>)
    ensures
        a == b || lex_lt(a, b) || lex_lt(b, a),
        !(lex_lt(a, b) && lex_lt(b, a)),
    decreases a.len(),
{
    if a.len() > 0 && b.len() > 0 {
        lemma_lex_total(a.skip(1), b.skip(1));
        if a[0] == b[0] && a.skip(1) == b.skip(1) {
            assert(a =~= seq![a[0]] + a.skip(1));
            assert(b =~= seq![b[0]] + b.skip(1));
        }
    } else if a.len() == 0 && b.len() == 0 {
        assert(a =~= b);
    }
}

/// Behind prefixes of one length, the order of two strings is the order of the
/// prefixes, and that of the rests where the prefixes agree.
pub proof fn lemma_lex_concat(head_a: Seq<u8>, tail_a: Seq<u8>, head_b: Seq<u8>, tail_b: Seq<u8>)
    requires
        head_a.len() == head_b.len(),
    ensures
        lex_lt(head_a + tail_a, head_b + tail_b) <==> (lex_lt(head_a, head_b) || (head_a == head_b && lex_lt(tail_a, tail_b))),
    decreases head_a.len(),
{
    if head_a.len() == 0 {
        assert(head_a + tail_a =~= tail_a);
        assert(head_b + tail_b =~= tail_b);
        assert(head_a =~= head_b);
    } else {
        let a = head_a + tail_a;
        let b = head_b + tail_b;
        assert(a.skip(1) =~= head_a.skip(1) + tail_a);
        assert(b.skip(1) =~= head_b.skip(1) + tail_b);
        lemma_lex_concat(head_a.skip(1), tail_a, head_b.skip(1), tail_b);
        if head_a[0] == head_b[0] {
            if head_a.skip(1) == head_b.skip(1) {
                assert(head_a =~= seq![head_a[0]] + head_a.skip(1));
                assert(head_b =~= seq![head_b[0]] + head_b.skip(1));
            }
        }
    }
}

/// Among big-endian encodings of one length, dictionary order is the order of
/// the numbers.
pub proof fn lemma_be_order(a: Seq<u8>, b: Seq<u8>)
    requires
        a.len() == b.len(),
    ensures
        lex_lt(a, b) <==> be_value(a) < be_value(b),
    decreases a.len(),
{
    if a.len() > 0 {
        let a0 = a.drop_last();
        let b0 = b.drop_last();
        lemma_be_order(a0, b0);
        lemma_be_of_value(a0);
        lemma_be_of_value(b0);
        assert(a =~= a0 + seq![a.last()]);
        assert(b =~= b0 + seq![b.last()]);
        lemma_lex_concat(a0, seq![a.last()], b0, seq![b.last()]);
        let la = seq![a.last()];
        let lb = seq![b.last()];
        assert(lex_lt(la, lb) <==> a.last() < b.last()) by {
            assert(!lex_lt(la.skip(1), lb.skip(1)));
        }
        if a0 != b0 {
            lemma_lex_total(a0, b0);
            assert(be_value(a0) != be_value(b0));
        }
    }
}

/// Big-endian 64-bit encodings are ordered as their numbers are.
pub proof fn lemma_u64_be_order(x: u64, y: u64)
    ensures
        lex_lt(u64_be(x), u64_be(y)) <==> x < y,
        u64_be(x) == u64_be(y) <==> x == y,
        u64_be(x).len() == 8,
{
    lemma_pow256_values();
    lemma_be_roundtrip(x as nat, 8);
    lemma_be_roundtrip(y as nat, 8);
    lemma_be_order(u64_be(x), u64_be(y));
}

/// Appends the little-endian bytes of `x`.
pub fn put_u64_le(out: &mut Vec<u8>, x: u64)
    ensures
        final(out)@ == old(out)@ + u64_le(x),
{
    let ghost before = out@;
    let mut v: u64 = x;
    let mut i: usize = 0;
    while i < 8
        invariant
            i <= 8,
            out@ + le_bytes(v as nat, (8 - i) as nat) == before + le_bytes(x as nat, 8),
        decreases 8 - i,
    {
        let ghost prev = out@;
        out.push((v % 256) as u8);
        proof {
            assert(prev + le_bytes(v as nat, (8 - i) as nat) =~= prev.push((v % 256) as u8)
                + le_bytes((v / 256) as nat, (8 - i - 1) as nat));
        }
        v = v / 256;
        i = i + 1;
    }
    proof {
        assert(out@ + le_bytes(v as nat, 0) =~= out@);
    }
}

/// Appends the little-endian bytes of `x`.
pub fn put_u32_le(out: &mut Vec<u8>, x: u32)
    ensures
        final(out)@ == old(out)@ + u32_le(x),
{
    let ghost before = out@;
    let mut v: u32 = x;
    let mut i: usize = 0;
    while i < 4
        invariant
            i <= 4,
            out@ + le_bytes(v as nat, (4 - i) as nat) == before + le_bytes(x as nat, 4),
        decreases 4 - i,
    {
        let ghost prev = out@;
        out.push((v % 256) as u8);
        proof {
            assert(prev + le_bytes(v as nat, (4 - i) as nat) =~= prev.push((v % 256) as u8)
                + le_bytes((v / 256) as nat, (4 - i - 1) as nat));
        }
        v = v / 256;
        i = i + 1;
    }
    proof {
        assert(out@ + le_bytes(v as nat, 0) =~= out@);
    }
}

/// The big-endian bytes of `x`.
pub fn u64_to_be(x: u64) -> (out: Vec<u8>)
    ensures
        out@ == u64_be(x),
{
    let b7: u8 = (x % 256) as u8;
    let x1: u64 = x / 256;
    let b6: u8 = (x1 % 256) as u8;
    let x2: u64 = x1 / 256;
    let b5: u8 = (x2 % 256) as u8;
    let x3: u64 = x2 / 256;
    let b4: u8 = (x3 % 256) as u8;
    let x4: u64 = x3 / 256;
    let b3: u8 = (x4 % 256) as u8;
    let x5: u64 = x4 / 256;
    let b2: u8 = (x5 % 256) as u8;
    let x6: u64 = x5 / 256;
    let b1: u8 = (x6 % 256) as u8;
    let x7: u64 = x6 / 256;
    let b0: u8 = (x7 % 256) as u8;
    let mut out: Vec<u8> = Vec::new();
    out.push(b0);
    out.push(b1);
    out.push(b2);
    out.push(b3);
    out.push(b4);
    out.push(b5);
    out.push(b6);
    out.push(b7);
    proof {
        reveal_with_fuel(be_bytes, 9);
        assert(out@ =~= u64_be(x));
    }
    out
}

/// The big-endian bytes of `x`.
pub fn u32_to_be(x: u32) -> (out: Vec<u8>)
    ensures
        out@ == u32_be(x),
{
    let b3: u8 = (x % 256) as u8;
    let x1: u32 = x / 256;
    let b2: u8 = (x1 % 256) as u8;
    let x2: u32 = x1 / 256;
    let b1: u8 = (x2 % 256) as u8;
    let x3: u32 = x2 / 256;
    let b0: u8 = (x3 % 256) as u8;
    let mut out: Vec<u8> = Vec::new();
    out.push(b0);
    out.push(b1);
    out.push(b2);
    out.push(b3);
    proof {
        reveal_with_fuel(be_bytes, 5);
        assert(out@ =~= u32_be(x));
    }
    out
}

/// Appends `data`.
pub fn put_bytes(out: &mut Vec<u8>, data: &[u8])
    ensures
        final(out)@ == old(out)@ + data@,
{
    out.extend_from_slice(data);
}

/// A copy of `data[from..to]`.
pub fn copy_range(data: &[u8], from: usize, to: usize) -> (out: Vec<u8>)
    requires
        from <= to <= data.len(),
    ensures
        out@ == data@.subrange(from as int, to as int),
{
    let mut out: Vec<u8> = Vec::new();
    let mut i: usize = from;
    while i < to
        invariant
            from <= i <= to <= data.len(),
            out@ == data@.subrange(from as int, i as int),
        decreases to - i,
    {
        out.push(data[i]);
        i = i + 1;
        proof {
            assert(out@ =~= data@.subrange(from as int, i as int));
        }
    }
    out
}

/// Whether two byte strings are the same.
pub fn bytes_eq(a: &[u8], b: &[u8]) -> (same: bool)
    ensures
        same == (a@ == b@),
{
    if a.len() != b.len() {
        return false;
    }
    let mut i: usize = 0;
    while i < a.len()
        invariant
            i <= a.len(),
            a.len() == b.len(),
            a@.subrange(0, i as int) == b@.subrange(0, i as int),
        decreases a.len() - i,
    {
        if a[i] != b[i] {
            return false;
        }
        i = i + 1;
        proof {
            assert(a@.subrange(0, i as int) =~= a@.subrange(0, i - 1).push(a@[i - 1]));
            assert(b@.subrange(0, i as int) =~= b@.subrange(0, i - 1).push(b@[i - 1]));
        }
    }
    proof {
        assert(a@ =~= a@.subrange(0, i as int));
        assert(b@ =~= b@.subrange(0, i as int));
    }
    true
}

/// The number that the `n` bytes at `pos` spell, least significant first.
pub fn get_le(data: &[u8], pos: usize, n: usize) -> (x: u64)
    requires
        n <= 8,
        pos + n <= data.len(),
    ensures
        x == le_value(data@.subrange(pos as int, pos + n)),
{
    let mut x: u64 = 0;
    let mut i: usize = n;
    proof {
        lemma_pow256_values();
        reveal_with_fuel(pow256, 9);
    }
    while i > 0
        invariant
            i <= n <= 8,
            pos + n <= data.len(),
            x == le_value(data@.subrange(pos + i, pos + n)),
            x < pow256((n - i) as nat),
            pow256(8) == 0x1_0000_0000_0000_0000,
        decreases i,
    {
        i = i - 1;
        proof {
            let s = data@.subrange(pos + i, pos + n);
            assert(s.skip(1) =~= data@.subrange(pos + i + 1, pos + n));
            lemma_pow256_monotonic((n - i) as nat, 8);
        }
        x = x * 256 + data[pos + i] as u64;
    }
    x
}

/// The number that the `n` bytes at `pos` spell, most significant first.
pub fn get_be(data: &[u8], pos: usize, n: usize) -> (x: u64)
    requires
        n <= 8,
        pos + n <= data.len(),
    ensures
        x == be_value(data@.subrange(pos as int, pos + n)),
{
    let mut x: u64 = 0;
    let mut i: usize = 0;
    proof {
        lemma_pow256_values();
        reveal_with_fuel(pow256, 9);
        assert(data@.subrange(pos as int, pos as int) =~= Seq::<u8>::empty());
    }
    while i < n
        invariant
            i <= n <= 8,
            pos + n <= data.len(),
            x == be_value(data@.subrange(pos as int, pos + i)),
            x < pow256(i as nat),
            pow256(8) == 0x1_0000_0000_0000_0000,
        decreases n - i,
    {
        proof {
            let s = data@.subrange(pos as int, pos + i + 1);
            assert(s.drop_last() =~= data@.subrange(pos as int, pos + i));
            lemma_pow256_monotonic((i + 1) as nat, 8);
        }
        x = x * 256 + data[pos + i] as u64;
        i = i + 1;
    }
    x
}

/// Larger exponents give larger powers.
pub proof fn lemma_pow256_monotonic(a: nat, b: nat)
    requires
        a <= b,
    ensures
        pow256(a) <= pow256(b),
        pow256(a) >= 1,
    decreases b,
{
    if a < b {
        lemma_pow256_monotonic(a, (b - 1) as nat);
    } else if a > 0 {
        lemma_pow256_monotonic((a - 1) as nat, (b - 1) as nat);
    }
}

/// The array that holds the `N` bytes of `data`.
pub fn to_array<const N: usize>(data: &[u8]) -> (out: [u8; N])
    requires
        data.len() == N,
    ensures
        out@ == data@,
{
    let mut out: [u8; N] = [0u8; N];
    let mut i: usize = 0;
    while i < N
        invariant
            i <= N,
            data.len() == N,
            out@.len() == N,
            forall|j: int| 0 <= j < i ==> out@[j] == data@[j],
        decreases N - i,
    {
        out[i] = data[i];
        i = i + 1;
    }
    proof {
        assert(out@ =~= data@);
    }
    out
}

} // verus!
