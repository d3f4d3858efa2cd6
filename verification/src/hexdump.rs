//! Text lines of the hex viewer: address, sixteen hex byte cells and the
//! ASCII column, as ASCII bytes.
use vstd::prelude::*;

verus! {

/// Bytes per hex-viewer line.
pub const BYTES_PER_LINE: usize = 16;

/// Uppercase hexadecimal digit for `n` in 0..16.
pub open spec fn hex_char(n: int) -> u8 {
    if n < 10 {
        (0x30 + n) as u8
    } else {
        (0x41 + n - 10) as u8
    }
}

/// Uppercase hexadecimal digits of `v`, without leading zeros ("0" for 0).
pub open spec fn hex_digits(v: nat) -> Seq<u8>
    decreases v,
{
    if v < 16 {
        seq![hex_char(v as int)]
    } else {
        hex_digits(v / 16).push(hex_char((v % 16) as int))
    }
}

/// `s` with ASCII zeros in front, to at least `width` bytes.
pub open spec fn zero_pad(s: Seq<u8>, width: nat) -> Seq<u8> {
    if s.len() >= width {
        s
    } else {
        Seq::new((width - s.len()) as nat, |_i: int| 0x30u8) + s
    }
}

/// Cell `i` of the hex column: two digits and a space for a byte of the
/// chunk, three spaces past its end; one more space after the eighth cell.
pub open spec fn byte_cell(chunk: Seq<u8>, i: int) -> Seq<u8> {
    (if i < chunk.len() {
        seq![hex_char((chunk[i] / 16) as int), hex_char((chunk[i] % 16) as int), 0x20u8]
    } else {
        seq![0x20u8, 0x20u8, 0x20u8]
    }) + if i == 7 {
        seq![0x20u8]
    } else {
        Seq::<u8>::empty()
    }
}

/// The first `n` cells of the hex column.
pub open spec fn hex_field(chunk: Seq<u8>, n: int) -> Seq<u8>
    decreases n,
{
    if n <= 0 {
        Seq::empty()
    } else {
        hex_field(chunk, n - 1) + byte_cell(chunk, n - 1)
    }
}

/// A byte as shown in the ASCII column: printable ASCII as itself, anything
/// else as '.'.
pub open spec fn ascii_char(b: u8) -> u8 {
    if 0x20 <= b && b <= 0x7E {
        b
    } else {
        0x2Eu8
    }
}

/// The ASCII column: one character per byte, padded with spaces to 16.
pub open spec fn ascii_field(chunk: Seq<u8>) -> Seq<u8> {
    chunk.map_values(|b: u8| ascii_char(b)) + Seq::new(
        (BYTES_PER_LINE - chunk.len()) as nat,
        |_i: int| 0x20u8,
    )
}

/// A hex-viewer line: the address in at least ten uppercase hex digits, two
/// spaces, the hex column, then the ASCII column between bars.
pub open spec fn hex_line(addr: u64, chunk: Seq<u8>) -> Seq<u8> {
    zero_pad(hex_digits(addr as nat), 10) + seq![0x20u8, 0x20u8] + hex_field(
        chunk,
        BYTES_PER_LINE as int,
    ) + seq![0x7Cu8] + ascii_field(chunk) + seq![0x7Cu8]
}

fn hex_digit(n: u8) -> (r: u8)
    requires
        n < 16,
    ensures
        r == hex_char(n as int),
{
    if n < 10 {
        0x30 + n
    } else {
        0x41 + n - 10
    }
}

fn push_hex_digits(out: &mut Vec<u8>, v: u64)
    ensures
        final(out)@ == old(out)@ + hex_digits(v as nat),
    decreases v,
{
    if v >= 16 {
        push_hex_digits(out, v / 16);
    }
    out.push(hex_digit((v % 16) as u8));
    proof {
        if v < 16 {
            assert(v % 16 == v);
        }
    }
    assert(out@ =~= old(out)@ + hex_digits(v as nat));
}

/// The hex-viewer line for the bytes `chunk` (at most 16) shown at address
/// `addr`.
pub fn hex_dump_line(addr: u64, chunk: &[u8]) -> (r: Vec<u8>)
    requires
        chunk.len() <= BYTES_PER_LINE,
    ensures
        r@ == hex_line(addr, chunk@),
{
    let mut digits: Vec<u8> = Vec::new();
    push_hex_digits(&mut digits, addr);
    assert(digits@ =~= hex_digits(addr as nat));

    let mut out: Vec<u8> = Vec::new();
    let mut k: usize = digits.len();
    while k < 10
        invariant
            digits.len() <= k <= 10 || (digits.len() > 10 && k == digits.len()),
            out@ =~= Seq::new((k - digits.len()) as nat, |_i: int| 0x30u8),
        decreases 10 - k,
    {
        out.push(0x30);
        k = k + 1;
    }
    let mut j: usize = 0;
    let ghost pad = out@;
    while j < digits.len()
        invariant
            j <= digits.len(),
            out@ =~= pad + digits@.subrange(0, j as int),
        decreases digits.len() - j,
    {
        out.push(digits[j]);
        j = j + 1;
    }
    assert(out@ =~= zero_pad(hex_digits(addr as nat), 10));
    let ghost prefix = out@;
    out.push(0x20);
    out.push(0x20);
    let ghost before_hex = out@;
    assert(before_hex =~= prefix + seq![0x20u8, 0x20u8]);

    let mut i: usize = 0;
    while i < BYTES_PER_LINE
        invariant
            chunk.len() <= BYTES_PER_LINE,
            i <= BYTES_PER_LINE,
            out@ =~= before_hex + hex_field(chunk@, i as int),
        decreases BYTES_PER_LINE - i,
    {
        let ghost before_cell = out@;
        if i < chunk.len() {
            let b = chunk[i];
            out.push(hex_digit(b / 16));
            out.push(hex_digit(b % 16));
            out.push(0x20);
        } else {
            out.push(0x20);
            out.push(0x20);
            out.push(0x20);
        }
        if i == 7 {
            out.push(0x20);
        }
        assert(out@ =~= before_cell + byte_cell(chunk@, i as int));
        i = i + 1;
    }
    let ghost before_ascii = out@;
    out.push(0x7C);
    let mut m: usize = 0;
    while m < BYTES_PER_LINE
        invariant
            chunk.len() <= BYTES_PER_LINE,
            m <= BYTES_PER_LINE,
            out@ =~= before_ascii + seq![0x7Cu8] + ascii_field(chunk@).subrange(0, m as int),
        decreases BYTES_PER_LINE - m,
    {
        let c = if m < chunk.len() {
            let b = chunk[m];
            if 0x20 <= b && b <= 0x7E {
                b
            } else {
                0x2E
            }
        } else {
            0x20
        };
        out.push(c);
        m = m + 1;
    }
    out.push(0x7C);
    assert(ascii_field(chunk@).subrange(0, BYTES_PER_LINE as int) =~= ascii_field(chunk@));
    assert(out@ =~= hex_line(addr, chunk@));
    out
}

/// Value of an uppercase hexadecimal digit character (0-9, A-F).
pub open spec fn digit_value(c: u8) -> int {
    if 0x30 <= c <= 0x39 {
        c - 0x30
    } else {
        c - 0x41 + 10
    }
}

/// `c` is an uppercase hexadecimal digit character.
pub open spec fn is_upper_hex(c: u8) -> bool {
    (0x30 <= c <= 0x39) || (0x41 <= c <= 0x46)
}

/// The number that the digit characters `s` spell in base 16.
pub open spec fn hex_number(s: Seq<u8>) -> int
    decreases s.len(),
{
    if s.len() == 0 {
        0
    } else {
        hex_number(s.drop_last()) * 16 + digit_value(s.last())
    }
}

pub open spec fn pow16(k: nat) -> int
    decreases k,
{
    if k == 0 {
        1
    } else {
        16 * pow16((k - 1) as nat)
    }
}

proof fn lemma_hex_char(n: int)
    requires
        0 <= n < 16,
    ensures
        is_upper_hex(hex_char(n)),
        digit_value(hex_char(n)) == n,
{
}

proof fn lemma_hex_digits(v: nat, k: nat)
    requires
        k >= 1,
        v < pow16(k),
    ensures
        hex_number(hex_digits(v)) == v,
        hex_digits(v).len() <= k,
        forall|j: int| 0 <= j < hex_digits(v).len() ==> is_upper_hex(#[trigger] hex_digits(v)[j]),
    decreases v,
{
    if v < 16 {
        lemma_hex_char(v as int);
        assert(seq![hex_char(v as int)].drop_last() =~= Seq::<u8>::empty());
        assert(hex_number(Seq::<u8>::empty()) == 0);
    } else {
        assert(k >= 2) by {
            if k == 1 {
                assert(pow16(1) == 16 * pow16(0));
            }
        }
        assert(v / 16 < pow16((k - 1) as nat));
        lemma_hex_digits(v / 16, (k - 1) as nat);
        lemma_hex_char((v % 16) as int);
        let d = hex_digits(v / 16);
        assert(hex_digits(v).drop_last() =~= d);
        assert(hex_digits(v).last() == hex_char((v % 16) as int));
        assert(v == (v / 16) * 16 + v % 16);
    }
}

proof fn lemma_leading_zeros(z: Seq<u8>, s: Seq<u8>)
    requires
        forall|j: int| 0 <= j < z.len() ==> #[trigger] z[j] == 0x30,
    ensures
        hex_number(z + s) == hex_number(s),
    decreases s.len(), z.len(),
{
    if s.len() > 0 {
        assert((z + s).drop_last() =~= z + s.drop_last());
        lemma_leading_zeros(z, s.drop_last());
    } else if z.len() > 0 {
        assert(z + s =~= z);
        let y = z.drop_last();
        assert(y + Seq::<u8>::empty() =~= y);
        lemma_leading_zeros(y, Seq::<u8>::empty());
        assert(hex_number(Seq::<u8>::empty()) == 0);
    } else {
        assert(z + s =~= s);
    }
}

/// Where cell `i` of the hex column starts.
pub open spec fn cell_start(i: int) -> int {
    3 * i + if i >= 8 {
        1int
    } else {
        0int
    }
}

proof fn lemma_hex_field(chunk: Seq<u8>, n: int)
    requires
        0 <= n <= 16,
    ensures
        hex_field(chunk, n).len() == cell_start(n),
        forall|i: int, j: int|
            0 <= i < n && 0 <= j < 3 ==> #[trigger] hex_field(chunk, n)[cell_start(i) + j]
                == byte_cell(chunk, i)[j],
    decreases n,
{
    if n > 0 {
        lemma_hex_field(chunk, n - 1);
    }
}

/// A hex-viewer line, byte by byte, for an address below `16^10`: the
/// address in ten uppercase hex digits that spell its value, two spaces,
/// then for each of the 16 positions a cell of two uppercase hex digits that
/// spell the byte and a space (three spaces past the end of the chunk), one
/// more space after the eighth cell, a bar, the 16 characters of the ASCII
/// column (printable ASCII as itself, other bytes as '.', spaces past the
/// end of the chunk) and a closing bar: 79 bytes in all.
pub proof fn lemma_hex_line_layout(addr: u64, chunk: Seq<u8>, i: int)
    requires
        chunk.len() <= 16,
        addr < 0x100_0000_0000,
        0 <= i < 16,
    ensures
        hex_line(addr, chunk).len() == 79,
        forall|j: int| 0 <= j < 10 ==> is_upper_hex(#[trigger] hex_line(addr, chunk)[j]),
        hex_number(hex_line(addr, chunk).subrange(0, 10)) == addr,
        hex_line(addr, chunk)[10] == 0x20 && hex_line(addr, chunk)[11] == 0x20,
        ({
            let line = hex_line(addr, chunk);
            let p = 12 + 3 * i + if i >= 8 {
                1int
            } else {
                0int
            };
            &&& i < chunk.len() ==> is_upper_hex(line[p]) && is_upper_hex(line[p + 1])
                && digit_value(line[p]) * 16 + digit_value(line[p + 1]) == chunk[i] && line[p + 2]
                == 0x20
            &&& i >= chunk.len() ==> line[p] == 0x20 && line[p + 1] == 0x20 && line[p + 2] == 0x20
            &&& i == 7 ==> line[p + 3] == 0x20
            &&& line[61] == 0x7C
            &&& line[62 + i] == if i < chunk.len() {
                if 0x20 <= chunk[i] <= 0x7E {
                    chunk[i]
                } else {
                    0x2Eu8
                }
            } else {
                0x20u8
            }
            &&& line[78] == 0x7C
        }),
{
    assert(pow16(10) == 0x100_0000_0000) by {
        reveal_with_fuel(pow16, 11);
    }
    lemma_hex_digits(addr as nat, 10);
    let d = hex_digits(addr as nat);
    let z = Seq::new((10 - d.len()) as nat, |_j: int| 0x30u8);
    let a = zero_pad(d, 10);
    assert(a =~= z + d);
    lemma_leading_zeros(z, d);
    lemma_hex_field(chunk, 16);
    let h = hex_field(chunk, 16);
    let asc = ascii_field(chunk);
    let line = hex_line(addr, chunk);
    assert(line == a + seq![0x20u8, 0x20u8] + h + seq![0x7Cu8] + asc + seq![0x7Cu8]);
    assert(a.len() == 10);
    assert(h.len() == 49);
    assert(asc.len() == 16);
    assert(line.subrange(0, 10) =~= a);
    assert forall|j: int| 0 <= j < 10 implies is_upper_hex(#[trigger] line[j]) by {
        assert(line[j] == a[j]);
        if j >= z.len() {
            assert(a[j] == d[j - z.len()]);
        }
    }
    let p = 12 + cell_start(i);
    assert(line[p] == h[cell_start(i)]);
    assert(line[p + 1] == h[cell_start(i) + 1]);
    assert(line[p + 2] == h[cell_start(i) + 2]);
    if i == 7 {
        assert(line[p + 3] == h[cell_start(7) + 3]);
        assert(hex_field(chunk, 8) == hex_field(chunk, 7) + byte_cell(chunk, 7));
        lemma_hex_field(chunk, 7);
        lemma_hex_field(chunk, 8);
        assert(h.subrange(0, cell_start(8)) =~= hex_field(chunk, 8)) by {
            lemma_hex_field_prefix(chunk, 8, 16);
        }
        assert(hex_field(chunk, 8)[cell_start(7) + 3] == byte_cell(chunk, 7)[3]);
    }
    assert(h[cell_start(i) + 0] == byte_cell(chunk, i)[0]);
    assert(h[cell_start(i) + 1] == byte_cell(chunk, i)[1]);
    assert(h[cell_start(i) + 2] == byte_cell(chunk, i)[2]);
    if i < chunk.len() {
        lemma_hex_char((chunk[i] / 16) as int);
        lemma_hex_char((chunk[i] % 16) as int);
        assert(byte_cell(chunk, i)[0] == hex_char((chunk[i] / 16) as int));
        assert(byte_cell(chunk, i)[1] == hex_char((chunk[i] % 16) as int));
    }
    assert(line[62 + i] == asc[i]);
    assert(line[61] == 0x7C);
    assert(line[78] == 0x7C);
    if i < chunk.len() {
        assert(is_upper_hex(line[p]));
        assert(digit_value(line[p]) * 16 + digit_value(line[p + 1]) == chunk[i]);
        assert(line[p + 2] == 0x20);
    } else {
        assert(line[p] == 0x20);
    }
}

proof fn lemma_hex_field_prefix(chunk: Seq<u8>, m: int, n: int)
    requires
        0 <= m <= n <= 16,
    ensures
        hex_field(chunk, n).subrange(0, cell_start(m)) == hex_field(chunk, m),
    decreases n - m,
{
    lemma_hex_field(chunk, m);
    lemma_hex_field(chunk, n);
    if m < n {
        lemma_hex_field_prefix(chunk, m, n - 1);
        lemma_hex_field(chunk, n - 1);
        assert(hex_field(chunk, n).subrange(0, cell_start(m)) =~= hex_field(chunk, n - 1).subrange(
            0,
            cell_start(m),
        ));
    } else {
        assert(hex_field(chunk, n).subrange(0, cell_start(m)) =~= hex_field(chunk, m));
    }
}

} // verus!
