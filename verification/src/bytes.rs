//! Byte classes and counting over byte sequences.
use vstd::arithmetic::power2::{lemma2_to64, pow2};
use vstd::prelude::*;

verus! {

/// ASCII whitespace as the analysis understands it: space, tab, CR, LF.
pub open spec fn is_ws(b: u8) -> bool {
    b == 0x20 || b == 0x09 || b == 0x0D || b == 0x0A
}

/// Printable ASCII (0x20..=0x7E) or whitespace.
pub open spec fn is_printable(b: u8) -> bool {
    (0x20 <= b && b <= 0x7E) || is_ws(b)
}

/// ASCII hexadecimal digit.
pub open spec fn is_hex_digit(b: u8) -> bool {
    (0x30 <= b && b <= 0x39) || (0x41 <= b && b <= 0x46) || (0x61 <= b && b <= 0x66)
}

/// A byte of the base64 alphabet (including the padding `=`) or whitespace.
pub open spec fn is_base64ish(b: u8) -> bool {
    (0x41 <= b && b <= 0x5A) || (0x61 <= b && b <= 0x7A) || (0x30 <= b && b <= 0x39) || b == 0x2B
        || b == 0x2F || b == 0x3D || is_ws(b)
}

/// The classes of bytes that the statistics count.
#[derive(Copy, Clone, Debug, PartialEq, Eq, Structural)]
pub enum ByteClass {
    /// The byte 0x00.
    Zero,
    /// The byte 0xFF.
    Ff,
    /// Printable ASCII or whitespace.
    Printable,
    /// Space, tab, CR or LF.
    Whitespace,
    /// LF.
    Newline,
    /// Base64 alphabet, `=` or whitespace.
    Base64ish,
    /// The padding byte `=`.
    Padding,
    /// Hex digit or whitespace.
    Hexish,
    /// Hex digit.
    HexDigit,
    /// One given byte value.
    Exactly(u8),
    /// Bytes whose bit number `i` (0 = least significant) is set.
    Bit(u8),
}

pub open spec fn in_class(c: ByteClass, b: u8) -> bool {
    match c {
        ByteClass::Zero => b == 0x00,
        ByteClass::Ff => b == 0xFF,
        ByteClass::Printable => is_printable(b),
        ByteClass::Whitespace => is_ws(b),
        ByteClass::Newline => b == 0x0A,
        ByteClass::Base64ish => is_base64ish(b),
        ByteClass::Padding => b == 0x3D,
        ByteClass::Hexish => is_hex_digit(b) || is_ws(b),
        ByteClass::HexDigit => is_hex_digit(b),
        ByteClass::Exactly(v) => b == v,
        ByteClass::Bit(i) => i < 8 && (b >> i) & 1 == 1,
    }
}

/// The byte classes, byte by byte: whitespace is space, tab, CR and LF;
/// printable is 0x20 to 0x7E or whitespace; the base64 alphabet is A-Z,
/// a-z, 0-9, `+`, `/` and `=`; hex digits are 0-9, A-F and a-f.
pub proof fn lemma_byte_classes(b: u8)
    ensures
        in_class(ByteClass::Zero, b) <==> b == 0,
        in_class(ByteClass::Ff, b) <==> b == 255,
        in_class(ByteClass::Whitespace, b) <==> (b == 32 || b == 9 || b == 13 || b == 10),
        in_class(ByteClass::Newline, b) <==> b == 10,
        in_class(ByteClass::Printable, b) <==> (32 <= b <= 126 || b == 9 || b == 13 || b == 10),
        in_class(ByteClass::Padding, b) <==> b == 61,
        in_class(ByteClass::HexDigit, b) <==> (48 <= b <= 57 || 65 <= b <= 70 || 97 <= b <= 102),
        in_class(ByteClass::Hexish, b) <==> (48 <= b <= 57 || 65 <= b <= 70 || 97 <= b <= 102
            || b == 32 || b == 9 || b == 13 || b == 10),
        in_class(ByteClass::Base64ish, b) <==> (65 <= b <= 90 || 97 <= b <= 122 || 48 <= b <= 57
            || b == 43 || b == 47 || b == 61 || b == 32 || b == 9 || b == 13 || b == 10),
        forall|v: u8| in_class(ByteClass::Exactly(v), b) <==> b == v,
        forall|i: u8| #[trigger] in_class(ByteClass::Bit(i), b) <==> (i < 8 && (b as nat / pow2(i as nat)) % 2 == 1),
{
    lemma2_to64();
    assert forall|i: u8| #[trigger] in_class(ByteClass::Bit(i), b) <==> (i < 8 && (b as nat / pow2(
        i as nat,
    )) % 2 == 1) by {
        if i == 0 {
            assert(((b >> 0u8) & 1u8 == 1u8) <==> (b / 1u8) % 2u8 == 1u8) by (bit_vector);
        } else if i == 1 {
            assert(((b >> 1u8) & 1u8 == 1u8) <==> (b / 2u8) % 2u8 == 1u8) by (bit_vector);
        } else if i == 2 {
            assert(((b >> 2u8) & 1u8 == 1u8) <==> (b / 4u8) % 2u8 == 1u8) by (bit_vector);
        } else if i == 3 {
            assert(((b >> 3u8) & 1u8 == 1u8) <==> (b / 8u8) % 2u8 == 1u8) by (bit_vector);
        } else if i == 4 {
            assert(((b >> 4u8) & 1u8 == 1u8) <==> (b / 16u8) % 2u8 == 1u8) by (bit_vector);
        } else if i == 5 {
            assert(((b >> 5u8) & 1u8 == 1u8) <==> (b / 32u8) % 2u8 == 1u8) by (bit_vector);
        } else if i == 6 {
            assert(((b >> 6u8) & 1u8 == 1u8) <==> (b / 64u8) % 2u8 == 1u8) by (bit_vector);
        } else if i == 7 {
            assert(((b >> 7u8) & 1u8 == 1u8) <==> (b / 128u8) % 2u8 == 1u8) by (bit_vector);
        }
    }
}

/// Number of bytes of `s` in class `c`.
pub open spec fn count_class(s: Seq<u8>, c: ByteClass) -> nat
    decreases s.len(),
{
    if s.len() == 0 {
        0
    } else {
        count_class(s.drop_last(), c) + if in_class(c, s.last()) {
            1nat
        } else {
            0nat
        }
    }
}

/// Counting adds up over a concatenation, and a single byte counts once
/// exactly when it is in the class.
pub proof fn lemma_count_class_concat(s: Seq<u8>, t: Seq<u8>, c: ByteClass, b: u8)
    ensures
        count_class(s + t, c) == count_class(s, c) + count_class(t, c),
        count_class(seq![b], c) == if in_class(c, b) {
            1nat
        } else {
            0nat
        },
    decreases t.len(),
{
    assert(seq![b].drop_last() =~= Seq::<u8>::empty());
    assert(count_class(Seq::<u8>::empty(), c) == 0);
    if t.len() == 0 {
        assert(s + t =~= s);
    } else {
        assert((s + t).drop_last() =~= s + t.drop_last());
        lemma_count_class_concat(s, t.drop_last(), c, b);
    }
}

/// Extending a prefix by one byte adds that byte's membership to the count.
pub proof fn lemma_count_class_step(s: Seq<u8>, c: ByteClass, i: int)
    requires
        0 <= i < s.len(),
    ensures
        count_class(s.subrange(0, i + 1), c) == count_class(s.subrange(0, i), c) + if in_class(
            c,
            s[i],
        ) {
            1nat
        } else {
            0nat
        },
{
    assert(s.subrange(0, i + 1).drop_last() =~= s.subrange(0, i));
}

/// A count never exceeds the length.
pub proof fn lemma_count_class_le_len(s: Seq<u8>, c: ByteClass)
    ensures
        count_class(s, c) <= s.len(),
    decreases s.len(),
{
    if s.len() > 0 {
        lemma_count_class_le_len(s.drop_last(), c);
    }
}

/// Whether `b` is in class `c`.
pub fn byte_in_class(c: ByteClass, b: u8) -> (r: bool)
    ensures
        r == in_class(c, b),
{
    let ws = b == 0x20 || b == 0x09 || b == 0x0D || b == 0x0A;
    let hex = (0x30 <= b && b <= 0x39) || (0x41 <= b && b <= 0x46) || (0x61 <= b && b <= 0x66);
    match c {
        ByteClass::Zero => b == 0x00,
        ByteClass::Ff => b == 0xFF,
        ByteClass::Printable => (0x20 <= b && b <= 0x7E) || ws,
        ByteClass::Whitespace => ws,
        ByteClass::Newline => b == 0x0A,
        ByteClass::Base64ish => (0x41 <= b && b <= 0x5A) || (0x61 <= b && b <= 0x7A) || (0x30 <= b
            && b <= 0x39) || b == 0x2B || b == 0x2F || b == 0x3D || ws,
        ByteClass::Padding => b == 0x3D,
        ByteClass::Hexish => hex || ws,
        ByteClass::HexDigit => hex,
        ByteClass::Exactly(v) => b == v,
        ByteClass::Bit(i) => i < 8 && (b >> i) & 1 == 1,
    }
}

/// Number of bytes of `s[start..end]` in class `c`.
pub fn count_in_range(s: &[u8], start: usize, end: usize, c: ByteClass) -> (r: usize)
    requires
        start <= end <= s.len(),
    ensures
        r == count_class(s@.subrange(start as int, end as int), c),
{
    let ghost sub = s@.subrange(start as int, end as int);
    let mut n: usize = 0;
    let mut i: usize = start;
    while i < end
        invariant
            start <= i <= end <= s.len(),
            sub == s@.subrange(start as int, end as int),
            n == count_class(sub.subrange(0, i - start), c),
            n <= i - start,
        decreases end - i,
    {
        proof {
            lemma_count_class_step(sub, c, i - start);
        }
        if byte_in_class(c, s[i]) {
            n = n + 1;
        }
        i = i + 1;
    }
    assert(sub.subrange(0, end - start) =~= sub);
    n
}

} // verus!

verus! {

/// Every byte of class `c1` is also of class `c2`.
pub open spec fn class_within(c1: ByteClass, c2: ByteClass) -> bool {
    forall|b: u8| in_class(c1, b) ==> #[trigger] in_class(c2, b)
}

/// A narrower class never counts more bytes than a wider one.
pub proof fn lemma_count_class_monotone(s: Seq<u8>, c1: ByteClass, c2: ByteClass)
    requires
        class_within(c1, c2),
    ensures
        count_class(s, c1) <= count_class(s, c2),
    decreases s.len(),
{
    if s.len() > 0 {
        lemma_count_class_monotone(s.drop_last(), c1, c2);
        assert(in_class(c1, s.last()) ==> in_class(c2, s.last()));
    }
}

} // verus!
