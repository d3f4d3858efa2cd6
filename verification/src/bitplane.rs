//! Bit-plane counting: for each of the eight bit positions, how many bytes of
//! a slice have that bit set.
use vstd::prelude::*;

use crate::bytes::{count_class, count_in_range, ByteClass};

verus! {

/// Average entropy of the eight bit-planes of a byte stream.
#[derive(Copy, Clone, Debug, PartialEq, Eq, Structural)]
pub struct BitPlaneEntropyAnalyzer;

impl BitPlaneEntropyAnalyzer {
    /// For each bit position `i` in 0..8, the number of bytes of `data` whose
    /// bit `i` is set.
    pub fn bit_plane_ones(data: &[u8]) -> (ones: Vec<usize>)
        ensures
            ones@.len() == 8,
            forall|i: int| 0 <= i < 8 ==> #[trigger] ones@[i] == count_class(data@, ByteClass::Bit(i as u8)),
    {
        let mut ones: Vec<usize> = Vec::new();
        let mut i: u8 = 0;
        assert(data@.subrange(0, data.len() as int) =~= data@);
        while i < 8
            invariant
                i <= 8,
                ones@.len() == i,
                data@.subrange(0, data.len() as int) == data@,
                forall|k: int| 0 <= k < i ==> #[trigger] ones@[k] == count_class(data@, ByteClass::Bit(k as u8)),
            decreases 8 - i,
        {
            let n = count_in_range(data, 0, data.len(), ByteClass::Bit(i));
            ones.push(n);
            proof {
                assert(((i as int) as u8) == i);
            }
            i = i + 1;
        }
        ones
    }

    /// Name of the analyzer.
    pub fn name(&self) -> (r: &'static str)
        ensures
            r@ == "Bit-plane entropy"@,
    {
        "Bit-plane entropy"
    }

    /// Chart label of the analyzer.
    pub fn metric_label(&self) -> (r: &'static str)
        ensures
            r@ == "bit entropy (0..1)"@,
    {
        "bit entropy (0..1)"
    }
}

/// Series name of bit-plane `bit`.
pub open spec fn bit_name_spec(bit: usize) -> Seq<char> {
    match bit {
        0 => "bit 0 (LSB)"@,
        1 => "bit 1"@,
        2 => "bit 2"@,
        3 => "bit 3"@,
        4 => "bit 4"@,
        5 => "bit 5"@,
        6 => "bit 6"@,
        7 => "bit 7 (MSB)"@,
        _ => "bit ?"@,
    }
}

/// Series name of bit-plane `bit`; "bit ?" past the eighth plane.
pub fn bit_name(bit: usize) -> (r: &'static str)
    ensures
        r@ == bit_name_spec(bit),
{
    match bit {
        0 => "bit 0 (LSB)",
        1 => "bit 1",
        2 => "bit 2",
        3 => "bit 3",
        4 => "bit 4",
        5 => "bit 5",
        6 => "bit 6",
        7 => "bit 7 (MSB)",
        _ => "bit ?",
    }
}

} // verus!
