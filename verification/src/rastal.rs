use vstd::prelude::*;

verus! {

/// The staff height, in tenths of a millimetre, of each rastal size (Behind
/// Bars, p483). Size 0 is the largest staff, size 8 the smallest.
pub open spec fn rastal_height(rastal: int) -> int {
    if rastal == 0 {
        92
    } else if rastal == 1 {
        79
    } else if rastal == 2 {
        74
    } else if rastal == 3 {
        70
    } else if rastal == 4 {
        65
    } else if rastal == 5 {
        60
    } else if rastal == 6 {
        55
    } else if rastal == 7 {
        48
    } else {
        37
    }
}

/// The staff height, in tenths of a millimetre, of rastal size `rastal`.
/// Only the sizes 0 to 8 exist.
pub fn rastal_staff_height(rastal: u8) -> (tenths_mm: u8)
    requires
        rastal <= 8,
    ensures
        tenths_mm == rastal_height(rastal as int),
{
    match rastal {
        0 => 92,
        1 => 79,
        2 => 74,
        3 => 70,
        4 => 65,
        5 => 60,
        6 => 55,
        7 => 48,
        _ => 37,
    }
}

/// A larger rastal number is a strictly smaller staff.
pub proof fn lemma_rastal_strictly_decreasing(small: int, large: int)
    requires
        0 <= small < large <= 8,
    ensures
        rastal_height(small) > rastal_height(large),
{
}

/// The rastal sizes, written out in tenths of a millimetre: 9.2, 7.9, 7.4,
/// 7.0, 6.5, 6.0, 5.5, 4.8 and 3.7 mm for sizes 0 to 8.
pub proof fn lemma_rastal_table()
    ensures
        rastal_height(0) == 92,
        rastal_height(1) == 79,
        rastal_height(2) == 74,
        rastal_height(3) == 70,
        rastal_height(4) == 65,
        rastal_height(5) == 60,
        rastal_height(6) == 55,
        rastal_height(7) == 48,
        rastal_height(8) == 37,
{
}

} // verus!
