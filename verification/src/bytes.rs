//! Numbers in byte sequences, and copying of byte ranges.
use vstd::prelude::*;

verus! {

/// The number of the two bytes, most significant first.
pub open spec fn be16(hi: u8, lo: u8) -> int {
    hi as int * 0x100 + lo as int
}

/// The number of the four bytes, most significant first.
pub open spec fn be32(a: u8, b: u8, c: u8, d: u8) -> int {
    ((a as int * 0x100 + b as int) * 0x100 + c as int) * 0x100 + d as int
}

/// The two bytes of `n`, most significant first.
pub open spec fn be16_bytes(n: u16) -> Seq<u8> {
    seq![(n / 0x100) as u8, (n % 0x100) as u8]
}

/// The four bytes of `n`, most significant first.
pub open spec fn be32_bytes(n: u32) -> Seq<u8> {
    seq![
        (n / 0x100_0000) as u8,
        (n / 0x1_0000 % 0x100) as u8,
        (n / 0x100 % 0x100) as u8,
        (n % 0x100) as u8,
    ]
}

/// The number that `s` writes in base 256, most significant byte first.
pub open spec fn be_value(s: Seq<u8>) -> nat
    decreases s.len(),
{
    if s.len() == 0 {
        0
    } else {
        be_value(s.drop_last()) * 256 + s.last() as nat
    }
}

/// Reads two bytes, most significant first.
pub fn read_be16(hi: u8, lo: u8) -> (r: u16)
    ensures
        r == be16(hi, lo),
{
    hi as u16 * 0x100 + lo as u16
}

/// Reads four bytes, most significant first.
pub fn read_be32(a: u8, b: u8, c: u8, d: u8) -> (r: u32)
    ensures
        r == be32(a, b, c, d),
{
    ((a as u32 * 0x100 + b as u32) * 0x100 + c as u32) * 0x100 + d as u32
}

/// Appends the two bytes of `n`, most significant first.
pub fn push_be16(out: &mut Vec<u8>, n: u16)
    ensures
        final(out)@ == old(out)@ + be16_bytes(n),
{
    let ghost start = out@;
    out.push((n / 0x100) as u8);
    out.push((n % 0x100) as u8);
    assert(out@ =~= start + be16_bytes(n));
}

/// Appends the four bytes of `n`, most significant first.
pub fn push_be32(out: &mut Vec<u8>, n: u32)
    ensures
        final(out)@ == old(out)@ + be32_bytes(n),
{
    let ghost start = out@;
    out.push((n / 0x100_0000) as u8);
    out.push((n / 0x1_0000 % 0x100) as u8);
    out.push((n / 0x100 % 0x100) as u8);
    out.push((n % 0x100) as u8);
    assert(out@ =~= start + be32_bytes(n));
}

/// Appends the bytes `more`.
pub fn push_bytes(out: &mut Vec<u8>, more: &[u8])
    ensures
        final(out)@ == old(out)@ + more@,
{
    let ghost start = out@;
    let mut i: usize = 0;
    while i < more.len()
        invariant
            i <= more.len(),
            out@ == start + more@.take(i as int),
        decreases more.len() - i,
    {
        out.push(more[i]);
        assert(out@ =~= start + more@.take(i + 1));
        i = i + 1;
    }
    assert(more@.take(more@.len() as int) =~= more@);
}

/// A copy of the bytes from `from` up to `to`.
pub fn copy_range(bytes: &[u8], from: usize, to: usize) -> (r: Vec<u8>)
    requires
        from <= to <= bytes@.len(),
    ensures
        r@ == bytes@.subrange(from as int, to as int),
{
    let mut out: Vec<u8> = Vec::new();
    push_bytes(&mut out, vstd::slice::slice_subrange(bytes, from, to));
    assert(out@ =~= bytes@.subrange(from as int, to as int));
    out
}

/// A copy of all the bytes.
pub fn copy_bytes(bytes: &[u8]) -> (r: Vec<u8>)
    ensures
        r@ == bytes@,
{
    let mut out: Vec<u8> = Vec::new();
    push_bytes(&mut out, bytes);
    assert(out@ =~= bytes@);
    out
}

/// Whether `x` is among `bytes`.
pub fn contains_byte(bytes: &[u8], x: u8) -> (r: bool)
    ensures
        r == bytes@.contains(x),
{
    let mut i: usize = 0;
    while i < bytes.len()
        invariant
            i <= bytes.len(),
            forall|k: int| 0 <= k < i ==> bytes@[k] != x,
        decreases bytes.len() - i,
    {
        if bytes[i] == x {
            assert(bytes@[i as int] == x);
            return true;
        }
        i = i + 1;
    }
    false
}

/// Two bytes survive being written and read back.
pub proof fn lemma_be16_round_trip(n: u16)
    ensures
        be16_bytes(n).len() == 2,
        be16(be16_bytes(n)[0], be16_bytes(n)[1]) == n,
{
}

/// Four bytes survive being written and read back.
pub proof fn lemma_be32_round_trip(n: u32)
    ensures
        be32_bytes(n).len() == 4,
        be32(be32_bytes(n)[0], be32_bytes(n)[1], be32_bytes(n)[2], be32_bytes(n)[3]) == n,
{
}

/// Writing back a number that was read from two bytes gives those bytes.
pub proof fn lemma_be16_written_back(hi: u8, lo: u8)
    ensures
        be16(hi, lo) <= u16::MAX,
        be16_bytes(be16(hi, lo) as u16) == seq![hi, lo],
{
    assert(be16_bytes(be16(hi, lo) as u16) =~= seq![hi, lo]);
}

/// Writing back a number that was read from four bytes gives those bytes.
pub proof fn lemma_be32_written_back(a: u8, b: u8, c: u8, d: u8)
    ensures
        be32(a, b, c, d) <= u32::MAX,
        be32_bytes(be32(a, b, c, d) as u32) == seq![a, b, c, d],
{
    let top = a as int * 0x100 + b as int;
    let upper = top * 0x100 + c as int;
    let n = upper * 0x100 + d as int;
    assert(n == be32(a, b, c, d));
    assert(0 <= top <= 0xFFFF);
    assert(0 <= upper <= 0xFF_FFFF);
    assert(0 <= n <= 0xFFFF_FFFF);
    assert(n % 0x100 == d as int && n / 0x100 == upper);
    assert(upper % 0x100 == c as int && upper / 0x100 == top);
    assert(top % 0x100 == b as int && top / 0x100 == a as int);
    assert(n / 0x1_0000 == n / 0x100 / 0x100);
    assert(n / 0x100_0000 == n / 0x1_0000 / 0x100);
    assert(be32_bytes(n as u32) =~= seq![a, b, c, d]);
}

/// Bytes are weighed from the front: each byte counts 256 times what the byte behind it counts,
/// whether the number is read from two bytes, from four or from any run.
pub proof fn law_the_front_byte_weighs_most(a: u8, b: u8, c: u8, d: u8)
    ensures
        be16(a, b) == 256 * a + b,
        be32(a, b, c, d) == 16_777_216 * a + 65_536 * b + 256 * c + d,
        be_value(Seq::<u8>::empty()) == 0,
        be_value(seq![a]) == a,
        be_value(seq![a, b]) == 256 * a + b,
        be_value(seq![a, b, c, d]) == 16_777_216 * a + 65_536 * b + 256 * c + d,
{
    reveal_with_fuel(be_value, 2);
    assert(seq![a].drop_last() =~= Seq::<u8>::empty());
    assert(seq![a, b].drop_last() =~= seq![a]);
    assert(seq![a, b, c].drop_last() =~= seq![a, b]);
    assert(seq![a, b, c, d].drop_last() =~= seq![a, b, c]);
    assert(seq![a].last() == a);
    assert(be_value(seq![a, b]) == be_value(seq![a]) * 256 + b);
    assert(be_value(seq![a, b, c]) == be_value(seq![a, b]) * 256 + c);
    assert(be_value(seq![a, b, c, d]) == be_value(seq![a, b, c]) * 256 + d);
}

/// The bytes of a number are the number's: the run that is written reads back as the number.
pub proof fn law_a_written_number_reads_back(n: u16, m: u32)
    ensures
        be16_bytes(n).len() == 2,
        be_value(be16_bytes(n)) == n,
        be32_bytes(m).len() == 4,
        be_value(be32_bytes(m)) == m,
{
    lemma_be16_round_trip(n);
    lemma_be32_round_trip(m);
    let s = be16_bytes(n);
    let t = be32_bytes(m);
    law_the_front_byte_weighs_most(s[0], s[1], s[0], s[1]);
    law_the_front_byte_weighs_most(t[0], t[1], t[2], t[3]);
    assert(s =~= seq![s[0], s[1]]);
    assert(t =~= seq![t[0], t[1], t[2], t[3]]);
}

} // verus!
