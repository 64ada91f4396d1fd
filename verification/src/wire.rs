//! Integers as they travel: little-endian bytes, two's complement.
use vstd::prelude::*;

verus! {

/// The byte that carries `v`.
pub open spec fn i8_byte(v: i8) -> u8 {
    if v >= 0 {
        v as u8
    } else {
        (v + 0x100) as u8
    }
}

/// The signed value that the byte `b` carries.
pub open spec fn byte_i8(b: u8) -> i8 {
    if b < 0x80 {
        b as i8
    } else {
        (b - 0x100) as i8
    }
}

/// The unsigned 16-bit number whose bits are those of `v`.
pub open spec fn bits_of_i16(v: i16) -> u16 {
    if v >= 0 {
        v as u16
    } else {
        (v + 0x1_0000) as u16
    }
}

/// The signed 16-bit number whose bits are those of `n`.
pub open spec fn i16_of_bits(n: u16) -> i16 {
    if n < 0x8000 {
        n as i16
    } else {
        (n - 0x1_0000) as i16
    }
}

/// The unsigned 32-bit number whose bits are those of `v`.
pub open spec fn bits_of_i32(v: i32) -> u32 {
    if v >= 0 {
        v as u32
    } else {
        (v + 0x1_0000_0000) as u32
    }
}

/// The signed 32-bit number whose bits are those of `n`.
pub open spec fn i32_of_bits(n: u32) -> i32 {
    if n < 0x8000_0000 {
        n as i32
    } else {
        (n - 0x1_0000_0000) as i32
    }
}

/// The two bytes of `v`, least significant first.
pub open spec fn i16_bytes(v: i16) -> Seq<u8> {
    let n = bits_of_i16(v) as int;
    seq![(n % 0x100) as u8, (n / 0x100) as u8]
}

/// The 16-bit signed number that starts at index `at`.
pub open spec fn i16_at(s: Seq<u8>, at: int) -> i16 {
    i16_of_bits((s[at] + 0x100 * s[at + 1]) as u16)
}

/// The four bytes of `v`, least significant first.
pub open spec fn i32_bytes(v: i32) -> Seq<u8> {
    let n = bits_of_i32(v) as int;
    seq![
        (n % 0x100) as u8,
        (n / 0x100 % 0x100) as u8,
        (n / 0x1_0000 % 0x100) as u8,
        (n / 0x100_0000) as u8,
    ]
}

/// The 32-bit signed number that starts at index `at`.
pub open spec fn i32_at(s: Seq<u8>, at: int) -> i32 {
    i32_of_bits((s[at] + 0x100 * s[at + 1] + 0x1_0000 * s[at + 2] + 0x100_0000 * s[at + 3]) as u32)
}

/// Reading the two bytes of a number, wherever they stand, gives it back.
pub proof fn i16_read_back(v: i16, s: Seq<u8>, at: int)
    requires
        0 <= at,
        at + 2 <= s.len(),
        s.subrange(at, at + 2) == i16_bytes(v),
    ensures
        i16_at(s, at) == v,
{
    assert(s.subrange(at, at + 2)[0] == s[at]);
    assert(s.subrange(at, at + 2)[1] == s[at + 1]);
}

/// Reading the four bytes of a number, wherever they stand, gives it back.
pub proof fn i32_read_back(v: i32, s: Seq<u8>, at: int)
    requires
        0 <= at,
        at + 4 <= s.len(),
        s.subrange(at, at + 4) == i32_bytes(v),
    ensures
        i32_at(s, at) == v,
{
    let t = s.subrange(at, at + 4);
    assert(t[0] == s[at] && t[1] == s[at + 1] && t[2] == s[at + 2] && t[3] == s[at + 3]);
}

/// Writing the number that two bytes carry gives the same two bytes.
pub proof fn i16_write_back(s: Seq<u8>, at: int)
    requires
        0 <= at,
        at + 2 <= s.len(),
    ensures
        i16_bytes(i16_at(s, at)) == s.subrange(at, at + 2),
{
    assert(i16_bytes(i16_at(s, at)) =~= s.subrange(at, at + 2));
}

/// Writing the number that four bytes carry gives the same four bytes.
pub proof fn i32_write_back(s: Seq<u8>, at: int)
    requires
        0 <= at,
        at + 4 <= s.len(),
    ensures
        i32_bytes(i32_at(s, at)) == s.subrange(at, at + 4),
{
    let (a, b, c, d) = (s[at] as int, s[at + 1] as int, s[at + 2] as int, s[at + 3] as int);
    let n = a + 0x100 * b + 0x1_0000 * c + 0x100_0000 * d;
    assert(bits_of_i32(i32_at(s, at)) == n);
    assert(n / 0x100 == b + 0x100 * c + 0x1_0000 * d && n % 0x100 == a);
    assert(n / 0x1_0000 == c + 0x100 * d);
    assert(n / 0x100_0000 == d);
    assert((b + 0x100 * c + 0x1_0000 * d) % 0x100 == b);
    assert((c + 0x100 * d) % 0x100 == c);
    assert(i32_bytes(i32_at(s, at)) =~= s.subrange(at, at + 4));
}

/// The byte that carries a signed 8-bit value.
pub fn byte_of_i8(v: i8) -> (b: u8)
    ensures
        b == i8_byte(v),
{
    if v >= 0 {
        v as u8
    } else {
        (v as i16 + 0x100) as u8
    }
}

/// The signed value that a byte carries.
pub fn i8_of_byte(b: u8) -> (v: i8)
    ensures
        v == byte_i8(b),
{
    if b < 0x80 {
        b as i8
    } else {
        (b as i16 - 0x100) as i8
    }
}

/// The same 16 bits, read as unsigned.
pub fn i16_to_bits(v: i16) -> (n: u16)
    ensures
        n == bits_of_i16(v),
{
    if v >= 0 {
        v as u16
    } else {
        (v as i32 + 0x1_0000) as u16
    }
}

/// The same 16 bits, read as signed.
pub fn i16_from_bits(n: u16) -> (v: i16)
    ensures
        v == i16_of_bits(n),
{
    if n < 0x8000 {
        n as i16
    } else {
        (n as i32 - 0x1_0000) as i16
    }
}

/// The same 32 bits, read as unsigned.
pub fn i32_to_bits(v: i32) -> (n: u32)
    ensures
        n == bits_of_i32(v),
{
    if v >= 0 {
        v as u32
    } else {
        (v as i64 + 0x1_0000_0000) as u32
    }
}

/// The same 32 bits, read as signed.
pub fn i32_from_bits(n: u32) -> (v: i32)
    ensures
        v == i32_of_bits(n),
{
    if n < 0x8000_0000 {
        n as i32
    } else {
        (n as i64 - 0x1_0000_0000) as i32
    }
}

/// Reads the 16-bit number that starts at index `at`.
pub fn read_i16(bytes: &[u8], at: usize) -> (v: i16)
    requires
        at + 2 <= bytes@.len(),
    ensures
        v == i16_at(bytes@, at as int),
{
    i16_from_bits(bytes[at] as u16 + 0x100 * bytes[at + 1] as u16)
}

/// Reads the 32-bit number that starts at index `at`.
pub fn read_i32(bytes: &[u8], at: usize) -> (v: i32)
    requires
        at + 4 <= bytes@.len(),
    ensures
        v == i32_at(bytes@, at as int),
{
    i32_from_bits(
        bytes[at] as u32 + 0x100 * bytes[at + 1] as u32 + 0x1_0000 * bytes[at + 2] as u32
            + 0x100_0000 * bytes[at + 3] as u32,
    )
}

/// Appends the four bytes of `v`.
pub fn push_i32(out: &mut Vec<u8>, v: i32)
    ensures
        final(out)@ == old(out)@ + i32_bytes(v),
{
    let n: u32 = i32_to_bits(v);
    out.push((n % 0x100) as u8);
    out.push((n / 0x100 % 0x100) as u8);
    out.push((n / 0x1_0000 % 0x100) as u8);
    out.push((n / 0x100_0000) as u8);
    assert(out@ =~= old(out)@ + i32_bytes(v));
}

/// Signed and unsigned numbers with the same bits differ by whole ranges.
pub proof fn same_bits(a: i8, b: u8, c: i16, d: u16, e: i32, f: u32)
    ensures
        i8_byte(a) == (if a >= 0 {
            a as int
        } else {
            a + 0x100
        }),
        byte_i8(b) == (if b < 0x80 {
            b as int
        } else {
            b - 0x100
        }),
        bits_of_i16(c) == (if c >= 0 {
            c as int
        } else {
            c + 0x1_0000
        }),
        i16_of_bits(d) == (if d < 0x8000 {
            d as int
        } else {
            d - 0x1_0000
        }),
        bits_of_i32(e) == (if e >= 0 {
            e as int
        } else {
            e + 0x1_0000_0000
        }),
        i32_of_bits(f) == (if f < 0x8000_0000 {
            f as int
        } else {
            f - 0x1_0000_0000
        }),
{
}

/// A number that is read is the one that its bytes make, least significant first, as a
/// signed number.
pub proof fn read_least_significant_first(s: Seq<u8>, at: int)
    ensures
        ({
            let n = s[at] + 0x100 * s[at + 1];
            i16_at(s, at) == if n < 0x8000 {
                n
            } else {
                n - 0x1_0000
            }
        }),
        ({
            let n = s[at] + 0x100 * s[at + 1] + 0x1_0000 * s[at + 2] + 0x100_0000 * s[at + 3];
            i32_at(s, at) == if n < 0x8000_0000 {
                n
            } else {
                n - 0x1_0000_0000
            }
        }),
{
}

/// A number is written as the bytes that make it, least significant first.
pub proof fn written_least_significant_first(a: i16, b: i32)
    ensures
        i16_bytes(a).len() == 2,
        i16_bytes(a)[0] + 0x100 * i16_bytes(a)[1] == (if a >= 0 {
            a as int
        } else {
            a + 0x1_0000
        }),
        i32_bytes(b).len() == 4,
        i32_bytes(b)[0] + 0x100 * i32_bytes(b)[1] + 0x1_0000 * i32_bytes(b)[2] + 0x100_0000
            * i32_bytes(b)[3] == (if b >= 0 {
            b as int
        } else {
            b + 0x1_0000_0000
        }),
{
    let n = bits_of_i32(b) as int;
    assert(n == n % 0x100 + 0x100 * (n / 0x100 % 0x100) + 0x1_0000 * (n / 0x1_0000 % 0x100)
        + 0x100_0000 * (n / 0x100_0000));
}

} // verus!
