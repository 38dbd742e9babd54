//! Little-endian 32-bit fields and the additive checksum.

use vstd::prelude::*;

verus! {

/// Byte number `k` of `x`, counted from the least significant: the digit of
/// `x` at place `k` in base 256.
#[verifier::opaque]
pub open spec fn le_byte(x: u32, k: nat) -> u8 {
    if k == 0 {
        (x % 256) as u8
    } else if k == 1 {
        ((x / 256) % 256) as u8
    } else if k == 2 {
        ((x / 65536) % 256) as u8
    } else {
        ((x / 16777216) % 256) as u8
    }
}

/// The four bytes of `x`, least significant first.
pub open spec fn u32_le(x: u32) -> Seq<u8> {
    seq![le_byte(x, 0), le_byte(x, 1), le_byte(x, 2), le_byte(x, 3)]
}

/// The number with the base-256 digits `b0`, `b1`, `b2`, `b3`, least
/// significant first.
#[verifier::opaque]
pub open spec fn le_value(b0: u8, b1: u8, b2: u8, b3: u8) -> u32 {
    (b0 + 256 * b1 + 65536 * b2 + 16777216 * b3) as u32
}

/// The number whose little-endian bytes stand in `s` at `pos .. pos + 4`.
pub open spec fn le_u32_at(s: Seq<u8>, pos: int) -> u32
    recommends
        0 <= pos,
        pos + 4 <= s.len(),
{
    le_value(s[pos], s[pos + 1], s[pos + 2], s[pos + 3])
}

/// The four base-256 digits of a number below 2^32 are its little-endian
/// bytes, and the bytes give the number back.
proof fn lemma_digits(a: u8, b: u8, c: u8, d: u8)
    ensures
        a + 256 * b + 65536 * c + 16777216 * d <= u32::MAX,
        (a + 256 * b + 65536 * c + 16777216 * d) % 256 == a,
        ((a + 256 * b + 65536 * c + 16777216 * d) / 256) % 256 == b,
        ((a + 256 * b + 65536 * c + 16777216 * d) / 65536) % 256 == c,
        ((a + 256 * b + 65536 * c + 16777216 * d) / 16777216) % 256 == d,
{
    let x = a + 256 * b + 65536 * c + 16777216 * d;
    let h1 = b + 256 * c + 65536 * d;
    let h2 = c + 256 * d;
    assert(x == 256 * h1 + a);
    assert(x / 256 == h1 && x % 256 == a);
    assert(x == 65536 * h2 + (a + 256 * b));
    assert(x / 65536 == h2);
    assert(h1 == 256 * h2 + b);
    assert(h1 % 256 == b);
    assert(x == 16777216 * d + (a + 256 * b + 65536 * c));
    assert(x / 16777216 == d);
    assert(h2 % 256 == c);
}

/// A number below 2^32 is the sum of its four base-256 digits.
proof fn lemma_recompose(x: u32)
    ensures
        x == x % 256 + 256 * ((x / 256) % 256) + 65536 * ((x / 65536) % 256) + 16777216 * ((x
            / 16777216) % 256),
{
    let q1 = x / 256;
    let q2 = x / 65536;
    let q3 = x / 16777216;
    assert(q2 == q1 / 256);
    assert(q3 == q2 / 256);
    assert(q3 < 256);
}

/// Writing what was read gives the four bytes again.
pub proof fn lemma_write_read(s: Seq<u8>, pos: int)
    requires
        0 <= pos,
        pos + 4 <= s.len(),
    ensures
        u32_le(le_u32_at(s, pos)) == s.subrange(pos, pos + 4),
{
    reveal(le_byte);
    reveal(le_value);
    lemma_digits(s[pos], s[pos + 1], s[pos + 2], s[pos + 3]);
    assert(u32_le(le_u32_at(s, pos)) =~= s.subrange(pos, pos + 4));
}

/// A field that was written at `pos` is read back from there, whatever
/// surrounds it.
pub proof fn lemma_read_field(s: Seq<u8>, pos: int, x: u32)
    requires
        0 <= pos,
        pos + 4 <= s.len(),
        s.subrange(pos, pos + 4) == u32_le(x),
    ensures
        le_u32_at(s, pos) == x,
{
    let f = s.subrange(pos, pos + 4);
    assert(f[0] == s[pos] && f[1] == s[pos + 1] && f[2] == s[pos + 2] && f[3] == s[pos + 3]);
    reveal(le_byte);
    reveal(le_value);
    lemma_recompose(x);
}

/// The sum of all bytes of `s`, as a natural number.
pub open spec fn byte_sum(s: Seq<u8>) -> nat
    decreases s.len(),
{
    if s.len() == 0 {
        0
    } else {
        byte_sum(s.drop_last()) + s.last() as nat
    }
}

/// The additive checksum of `s`: the sum of its bytes, truncated to 32 bits.
pub open spec fn checksum(s: Seq<u8>) -> u32 {
    (byte_sum(s) % 0x1_0000_0000) as u32
}

/// Replacing one byte moves the byte sum by the difference of the two bytes.
pub proof fn lemma_byte_sum_update(s: Seq<u8>, i: int, v: u8)
    requires
        0 <= i < s.len(),
    ensures
        byte_sum(s.update(i, v)) == byte_sum(s) - s[i] + v,
    decreases s.len(),
{
    if i == s.len() - 1 {
        assert(s.update(i, v).drop_last() =~= s.drop_last());
    } else {
        assert(s.update(i, v).drop_last() =~= s.drop_last().update(i, v));
        lemma_byte_sum_update(s.drop_last(), i, v);
    }
}

/// Appends the little-endian bytes of `x` to `buf`.
pub(crate) fn put_u32_le(buf: &mut Vec<u8>, x: u32)
    ensures
        final(buf)@ == old(buf)@ + u32_le(x),
{
    buf.push((x % 256) as u8);
    buf.push(((x / 256) % 256) as u8);
    buf.push(((x / 65536) % 256) as u8);
    buf.push(((x / 16777216) % 256) as u8);
    proof {
        reveal(le_byte);
    }
    assert(buf@ =~= old(buf)@ + u32_le(x));
}

/// Overwrites the four bytes of `buf` at `pos` with the little-endian bytes
/// of `x`.
pub(crate) fn set_u32_le(buf: &mut Vec<u8>, pos: usize, x: u32)
    requires
        pos + 4 <= old(buf).len(),
    ensures
        final(buf)@ == old(buf)@.subrange(0, pos as int) + u32_le(x) + old(buf)@.subrange(
            pos + 4,
            old(buf)@.len() as int,
        ),
{
    buf.set(pos, (x % 256) as u8);
    buf.set(pos + 1, ((x / 256) % 256) as u8);
    buf.set(pos + 2, ((x / 65536) % 256) as u8);
    buf.set(pos + 3, ((x / 16777216) % 256) as u8);
    proof {
        reveal(le_byte);
    }
    assert(buf@ =~= old(buf)@.subrange(0, pos as int) + u32_le(x) + old(buf)@.subrange(
        pos + 4,
        old(buf)@.len() as int,
    ));
}

/// Appends `bytes` to `buf`.
pub(crate) fn put_bytes(buf: &mut Vec<u8>, bytes: &[u8])
    ensures
        final(buf)@ == old(buf)@ + bytes@,
{
    buf.extend_from_slice(bytes);
    assert(buf@ =~= old(buf)@ + bytes@);
}

/// Reads the little-endian number stored in `buf` at `pos`.
pub(crate) fn get_u32_le(buf: &[u8], pos: usize) -> (x: u32)
    requires
        pos + 4 <= buf@.len(),
    ensures
        x == le_u32_at(buf@, pos as int),
{
    let b0: u32 = buf[pos] as u32;
    let b1: u32 = buf[pos + 1] as u32;
    let b2: u32 = buf[pos + 2] as u32;
    let b3: u32 = buf[pos + 3] as u32;
    proof {
        reveal(le_value);
    }
    b0 + 256 * b1 + 65536 * b2 + 16777216 * b3
}

/// The additive checksum of the first `n` bytes of `buf`.
pub(crate) fn checksum_of_prefix(buf: &[u8], n: usize) -> (sum: u32)
    requires
        n <= buf@.len(),
    ensures
        sum == checksum(buf@.take(n as int)),
{
    let mut sum: u32 = 0;
    let mut i: usize = 0;
    while i < n
        invariant
            i <= n <= buf@.len(),
            sum == checksum(buf@.take(i as int)),
        decreases n - i,
    {
        proof {
            assert(buf@.take(i + 1).drop_last() =~= buf@.take(i as int));
        }
        sum = sum.wrapping_add(buf[i] as u32);
        i += 1;
    }
    sum
}

} // verus!
