use vstd::prelude::*;

verus! {

/// Whether segment `i` (0 = A, ..., 6 = G) lights up in `pattern`. Bit `i` of the
/// pattern, counted from the lowest bit, stands for segment `i`.
pub open spec fn segment_lit(pattern: u8, i: int) -> bool {
    (pattern >> (i as u8)) & 1 == 1
}

/// The segment pattern of the decimal digit `digit` (bits GFEDCBA).
pub open spec fn spec_digit_pattern(digit: int) -> u8 {
    if digit == 0 {
        0b0111111u8
    } else if digit == 1 {
        0b0000110u8
    } else if digit == 2 {
        0b1011011u8
    } else if digit == 3 {
        0b1001111u8
    } else if digit == 4 {
        0b1100110u8
    } else if digit == 5 {
        0b1101101u8
    } else if digit == 6 {
        0b1111101u8
    } else if digit == 7 {
        0b0000111u8
    } else if digit == 8 {
        0b1111111u8
    } else {
        0b1101111u8
    }
}

/// Looks up the segment pattern of a decimal digit; `None` for values above 9.
pub fn digit_pattern(digit: u8) -> (pattern: Option<u8>)
    ensures
        digit < 10 ==> pattern == Some(spec_digit_pattern(digit as int)),
        digit >= 10 ==> pattern.is_none(),
{
    match digit {
        0 => Some(0b0111111u8),
        1 => Some(0b0000110u8),
        2 => Some(0b1011011u8),
        3 => Some(0b1001111u8),
        4 => Some(0b1100110u8),
        5 => Some(0b1101101u8),
        6 => Some(0b1111101u8),
        7 => Some(0b0000111u8),
        8 => Some(0b1111111u8),
        9 => Some(0b1101111u8),
        _ => None,
    }
}

/// A character that can be shown on the display. Only a limited set is supported.
#[derive(Copy, Clone, Debug, PartialEq, Eq, Structural)]
pub enum DisplayChar {
    C,
    H,
}

impl DisplayChar {
    /// The segment pattern of the character (bits GFEDCBA).
    pub open spec fn spec_pattern(&self) -> u8 {
        match self {
            DisplayChar::C => 0b0111001u8,
            DisplayChar::H => 0b1110110u8,
        }
    }

    /// The segment pattern of the character (bits GFEDCBA).
    pub fn pattern(&self) -> (pattern: u8)
        ensures
            pattern == self.spec_pattern(),
    {
        match self {
            DisplayChar::C => 0b0111001u8,
            DisplayChar::H => 0b1110110u8,
        }
    }
}

} // verus!
