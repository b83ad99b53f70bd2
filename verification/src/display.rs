use vstd::prelude::*;
use crate::glyph::{DisplayChar, digit_pattern, spec_digit_pattern, segment_lit};
use crate::laws::lemma_frame_levels;
use crate::pins::{
    Pin, PinWrite, valid_pin, all_valid, last_level, blank_writes, select_writes, pattern_writes, release_writes, dp_write,
    push_blank, push_pattern, push_select, push_release,
};

verus! {

/// The display index at which the decimal point is shown: one digit after the point.
pub const DECIMAL_LOCATION: u8 = 1;

/// The largest integer the four digits can show.
pub const MAX_INTEGER: u16 = 9999;

/// The largest value in tenths of a number with a decimal point (`999.9`).
pub const MAX_TENTHS: u16 = 9999;

/// The largest value in tenths of a number with a decimal point and a trailing
/// character (`99.9`).
pub const MAX_TENTHS_WITH_CHAR: u16 = 999;

/// Configures the 7 segments of the display by naming which pin drives which segment.
/// ```text
/// ┌────A────┐
/// │         │
/// F         B
/// │         │
/// ├────G────┤
/// │         │
/// E         C
/// │         │
/// └────D────┘  ⬤ DP
/// ```
/// Field names are the lower-case segment names of the 3641AS datasheet.
pub struct SegmentConfiguration<P> {
    pub a: P,
    pub b: P,
    pub c: P,
    pub d: P,
    pub e: P,
    pub f: P,
    pub g: P,
    pub dp: P,
}

impl<P> SegmentConfiguration<P> {
    /// The segment pins in the order the driver numbers them: A to G, then the decimal
    /// point, so that index `i` is segment pin `i` ([`Pin::Segment`]).
    pub fn into_segments(self) -> (segments: [P; 8])
        ensures
            segments@ == seq![self.a, self.b, self.c, self.d, self.e, self.f, self.g, self.dp],
    {
        [self.a, self.b, self.c, self.d, self.e, self.f, self.g, self.dp]
    }
}

/// Errors of the display logic.
#[derive(Copy, Clone, Debug, PartialEq, Eq, Structural)]
pub enum SegmentError {
    /// A digit above 9 was asked for.
    DigitTooLarge(u8),
    /// An integer above 9999 was asked for.
    NumberTooLarge(u16),
    /// A display index above 3 was asked for.
    InvalidDisplayIndex(u8),
}

/// What the display shows. `Float` and `FloatWithChar` hold the number scaled by ten
/// (its value in tenths), so that `12.3` is held as `123`; the decimal point is drawn at
/// a fixed place.
#[derive(Copy, Clone, Debug, PartialEq, Eq, Structural)]
pub enum DisplayNumber {
    Integer(u16),
    Float(u16),
    FloatWithChar { number: u16, char: DisplayChar },
}

/// `10` to the power `n`.
pub open spec fn pow10(n: nat) -> nat
    decreases n,
{
    if n == 0 {
        1
    } else {
        10 * pow10((n - 1) as nat)
    }
}

/// The integer whose decimal digits are drawn: the integer itself, or the value in
/// tenths of a number with a decimal point.
pub open spec fn digits_value(number: DisplayNumber) -> u16 {
    match number {
        DisplayNumber::Integer(n) => n,
        DisplayNumber::Float(n) => n,
        DisplayNumber::FloatWithChar { number, .. } => number,
    }
}

/// Whether a trailing character takes the lowest display index.
pub open spec fn has_char(number: Option<DisplayNumber>) -> bool {
    number matches Some(DisplayNumber::FloatWithChar { .. })
}

/// Whether the number is drawn with a decimal point.
pub open spec fn has_point(number: Option<DisplayNumber>) -> bool {
    number matches Some(DisplayNumber::Float(_)) || has_char(number)
}

/// The positions that are drawn even when they hold a leading zero: the ones digit of an
/// integer (`0` shows as `0`), and the tenths and ones digits of a number with a decimal
/// point (`0.5` shows as `0.5`).
pub open spec fn drawn_positions(number: DisplayNumber) -> int {
    match number {
        DisplayNumber::Integer(_) => 1,
        _ => DECIMAL_LOCATION + 1,
    }
}

/// The decimal digit of the number at `position` (0 = ones, or tenths for a number with
/// a decimal point), or `None` where the position holds a leading zero that is left
/// blank, or where nothing is to be shown.
pub open spec fn digit_at(number: Option<DisplayNumber>, position: int) -> Option<u8> {
    match number {
        None => None,
        Some(n) => {
            let v = digits_value(n) as nat;
            let p = pow10(position as nat);
            if position >= drawn_positions(n) && p > v {
                None
            } else {
                Some(((v / p) % 10) as u8)
            }
        },
    }
}

/// The position in the number that display index `index` shows: the character shifts
/// every digit one index up.
pub open spec fn number_position(number: Option<DisplayNumber>, index: int) -> int {
    if has_char(number) {
        index - 1
    } else {
        index
    }
}

/// The pattern drawn on segments A to G while display index `index` is active; `0`
/// (no segment) for a blank index.
pub open spec fn shown_pattern(number: Option<DisplayNumber>, index: int) -> u8 {
    if has_char(number) && index == 0 {
        match number {
            Some(DisplayNumber::FloatWithChar { char, .. }) => char.spec_pattern(),
            _ => 0,
        }
    } else {
        match digit_at(number, number_position(number, index)) {
            Some(d) => spec_digit_pattern(d as int),
            None => 0,
        }
    }
}

/// Whether the decimal point is lit while display index `index` is active: for a number
/// with a decimal point, at the index of its ones digit.
pub open spec fn shown_point(number: Option<DisplayNumber>, index: int) -> bool {
    &&& has_point(number)
    &&& !(has_char(number) && index == 0)
    &&& number_position(number, index) == DECIMAL_LOCATION
}

/// The level of `pin` while display index `index` is active: only that digit pin is low,
/// segments A to G draw [`shown_pattern`] and the decimal point follows [`shown_point`].
pub open spec fn shown_level(number: Option<DisplayNumber>, index: int, pin: Pin) -> bool {
    match pin {
        Pin::Digit(i) => i != index,
        Pin::Segment(i) => if i == 7 {
            shown_point(number, index)
        } else {
            segment_lit(shown_pattern(number, index), i as int)
        },
    }
}

/// The writes of one refresh step for display index `index`, in the order they are made:
/// every segment is cleared first, so that no segment of the previous digit lights the
/// next one; then only digit `index` is made active; then its segments are drawn.
pub open spec fn frame_writes(number: Option<DisplayNumber>, index: int) -> Seq<PinWrite> {
    blank_writes() + select_writes(index) + glyph_writes(number, index)
}

/// The writes that draw display index `index` once it is the active digit.
pub open spec fn glyph_writes(number: Option<DisplayNumber>, index: int) -> Seq<PinWrite> {
    if has_char(number) && index == 0 {
        match number {
            Some(DisplayNumber::FloatWithChar { char, .. }) => pattern_writes(char.spec_pattern()),
            _ => Seq::empty(),
        }
    } else {
        let position = number_position(number, index);
        let point = if position == DECIMAL_LOCATION && has_point(number) {
            seq![dp_write()]
        } else {
            Seq::empty()
        };
        point + match digit_at(number, position) {
            None => blank_writes(),
            Some(d) => pattern_writes(spec_digit_pattern(d as int)),
        }
    }
}

/// The writes that put the pins in their initial state: every digit inactive, then every
/// segment off.
pub open spec fn init_frame() -> Seq<PinWrite> {
    release_writes() + blank_writes()
}

/// Whether the number fits in the digits it is drawn on: four, or three beside a
/// trailing character.
pub open spec fn value_in_range(number: Option<DisplayNumber>) -> bool {
    match number {
        None => true,
        Some(DisplayNumber::Integer(n)) => n <= MAX_INTEGER,
        Some(DisplayNumber::Float(n)) => n <= MAX_TENTHS,
        Some(DisplayNumber::FloatWithChar { number, .. }) => number <= MAX_TENTHS_WITH_CHAR,
    }
}

/// The state of a 3641AS display driver: what to show, and which digit the next refresh
/// step lights.
///
/// Set the value with [`SevenSegment::show`], [`SevenSegment::show_float`] or
/// [`SevenSegment::show_float_with_char`]. Then refresh the display rapidly (every 2ms is
/// enough): perform the writes of [`SevenSegment::frame`] in order and, when they all went
/// through, call [`SevenSegment::tick`] to move on to the next digit. At a high enough
/// frequency the eye sees all four digits at once.
pub struct SevenSegment {
    /// The number to show, if any.
    number: Option<DisplayNumber>,
    /// The display index that the next refresh step lights (0 = lowest digit).
    current_digit: u8,
}

impl SevenSegment {
    #[verifier::type_invariant]
    spec fn well_formed(&self) -> bool {
        &&& self.current_digit < 4
        &&& value_in_range(self.number)
    }

    /// The number to show, if any.
    pub closed spec fn shown(&self) -> Option<DisplayNumber> {
        self.number
    }

    /// The display index that the next refresh step lights.
    pub closed spec fn current(&self) -> int {
        self.current_digit as int
    }

    /// A driver that shows nothing and starts at the lowest digit.
    pub fn new() -> (display: Self)
        ensures
            display.shown() is None,
            display.current() == 0,
    {
        SevenSegment { number: None, current_digit: 0 }
    }

    /// The writes that set the pins to their initial state (no segment lit): every digit
    /// pin high, then every segment pin low.
    pub fn init_writes() -> (writes: Vec<PinWrite>)
        ensures
            writes@ == init_frame(),
    {
        let mut writes: Vec<PinWrite> = Vec::new();
        push_release(&mut writes);
        push_blank(&mut writes);
        writes
    }

    /// Sets the integer to show. The largest one is `9999`; a larger one is refused with
    /// [`SegmentError::NumberTooLarge`] and leaves the display as it was.
    pub fn show(&mut self, number: u16) -> (result: Result<(), SegmentError>)
        ensures
            number <= MAX_INTEGER ==> result is Ok && final(self).shown() == Some(
                DisplayNumber::Integer(number),
            ),
            number > MAX_INTEGER ==> result == Err::<(), SegmentError>(
                SegmentError::NumberTooLarge(number),
            ) && final(self).shown() == old(self).shown(),
            final(self).current() == old(self).current(),
    {
        proof {
            use_type_invariant(&*self);
        }
        if number > MAX_INTEGER {
            return Err(SegmentError::NumberTooLarge(number));
        }
        self.number = Some(DisplayNumber::Integer(number));
        Ok(())
    }

    /// Sets a number with one digit after the decimal point, given in tenths (`123` shows
    /// `12.3`). The largest one is `9999` (`999.9`).
    pub fn show_float(&mut self, tenths: u16)
        requires
            tenths <= MAX_TENTHS,
        ensures
            final(self).shown() == Some(DisplayNumber::Float(tenths)),
            final(self).current() == old(self).current(),
    {
        proof {
            use_type_invariant(&*self);
        }
        self.number = Some(DisplayNumber::Float(tenths));
    }

    /// Sets a number with one digit after the decimal point, given in tenths, followed by
    /// the character `char` in the lowest digit (`123` with `C` shows `12.3C`). The largest
    /// one is `999` (`99.9`).
    pub fn show_float_with_char(&mut self, tenths: u16, char: DisplayChar)
        requires
            tenths <= MAX_TENTHS_WITH_CHAR,
        ensures
            final(self).shown() == Some(DisplayNumber::FloatWithChar { number: tenths, char }),
            final(self).current() == old(self).current(),
    {
        proof {
            use_type_invariant(&*self);
        }
        self.number = Some(DisplayNumber::FloatWithChar { number: tenths, char });
    }

    /// The decimal digit at position `digit` of what is shown (0 = ones of an integer, or
    /// tenths of a number with a decimal point), or `None` for a leading zero left blank
    /// or when nothing is shown. The ones digit is always drawn, so `0` shows as `0` and
    /// `0.5` as `0.5`.
    pub fn get_digit(&self, digit: u8) -> (result: Option<u8>)
        requires
            self.shown() is None || digit <= 4,
        ensures
            result == digit_at(self.shown(), digit as int),
    {
        // `drawn` counts the lowest positions that are drawn even as a leading zero.
        let (number, drawn) = match self.number {
            None => {
                return None;
            },
            Some(DisplayNumber::Integer(n)) => (n, 1u8),
            Some(DisplayNumber::Float(n)) => (n, DECIMAL_LOCATION + 1),
            Some(DisplayNumber::FloatWithChar { number, .. }) => (number, DECIMAL_LOCATION + 1),
        };
        let divisor = power_of_ten(digit);
        if digit >= drawn && divisor > number {
            None
        } else {
            Some(((number / divisor) % 10) as u8)
        }
    }

    /// The writes that light display index `display_index` with its part of the number.
    /// Once they are made, every pin of the display is at its [`shown_level`] for that
    /// index. Indices above 3 are refused with [`SegmentError::InvalidDisplayIndex`].
    pub fn show_digit(&self, display_index: u8) -> (result: Result<Vec<PinWrite>, SegmentError>)
        ensures
            display_index < 4 ==> (result matches Ok(writes) && writes@ == frame_writes(
                self.shown(),
                display_index as int,
            )),
            display_index < 4 ==> (result matches Ok(writes) && all_valid(writes@)),
            display_index < 4 ==> (result matches Ok(writes) && forall|pin: Pin|
                #[trigger] last_level(writes@, pin) == (if valid_pin(pin) {
                    Some(shown_level(self.shown(), display_index as int, pin))
                } else {
                    None::<bool>
                })),
            display_index >= 4 ==> result == Err::<Vec<PinWrite>, SegmentError>(
                SegmentError::InvalidDisplayIndex(display_index),
            ),
    {
        if display_index >= 4 {
            return Err(SegmentError::InvalidDisplayIndex(display_index));
        }
        proof {
            assert forall|pin: Pin|
                #[trigger] last_level(frame_writes(self.shown(), display_index as int), pin) == (if valid_pin(pin) {
                    Some(shown_level(self.shown(), display_index as int, pin))
                } else {
                    None::<bool>
                }) by {
                lemma_frame_levels(self.shown(), display_index as int, pin);
            }
            lemma_frame_levels(self.shown(), display_index as int, Pin::Digit(0));
        }
        let mut writes: Vec<PinWrite> = Vec::new();
        // Clear the current number first: this avoids "ghosting", where the segments of
        // another digit still light up a little.
        push_blank(&mut writes);
        // Make only the current digit active.
        push_select(&mut writes, display_index);
        let ghost head = writes@;
        assert(head == blank_writes() + select_writes(display_index as int));

        // With a trailing character, the lowest index shows the character and every digit
        // moves one index up.
        let position = match self.number {
            Some(DisplayNumber::FloatWithChar { number: _, char }) => {
                if display_index == 0 {
                    push_pattern(&mut writes, char.pattern());
                    return Ok(writes);
                }
                display_index - 1
            },
            _ => display_index,
        };

        let pointed = match self.number {
            Some(DisplayNumber::Float(_)) => true,
            Some(DisplayNumber::FloatWithChar { .. }) => true,
            _ => false,
        };
        if position == DECIMAL_LOCATION && pointed {
            writes.push(PinWrite { pin: Pin::Segment(7), high: true });
        }

        match self.get_digit(position) {
            // A leading zero is shown as a blank.
            None => push_blank(&mut writes),
            Some(digit) => self.display(&mut writes, digit)?,
        }
        assert(writes@ =~= head + glyph_writes(self.shown(), display_index as int));
        Ok(writes)
    }

    /// Appends the writes that draw the decimal digit `digit`; a digit above 9 is refused
    /// with [`SegmentError::DigitTooLarge`] and nothing is appended.
    pub fn display(&self, out: &mut Vec<PinWrite>, digit: u8) -> (result: Result<(), SegmentError>)
        ensures
            digit < 10 ==> result is Ok && final(out)@ == old(out)@ + pattern_writes(
                spec_digit_pattern(digit as int),
            ),
            digit >= 10 ==> result == Err::<(), SegmentError>(SegmentError::DigitTooLarge(digit))
                && final(out)@ == old(out)@,
    {
        match digit_pattern(digit) {
            None => Err(SegmentError::DigitTooLarge(digit)),
            Some(pattern) => {
                push_pattern(out, pattern);
                Ok(())
            },
        }
    }

    /// The writes of the next refresh step: they light the current display index. Once
    /// they are made, every pin of the display is at its [`shown_level`] for that index.
    pub fn frame(&self) -> (writes: Vec<PinWrite>)
        ensures
            writes@ == frame_writes(self.shown(), self.current()),
            all_valid(writes@),
            forall|pin: Pin|
                #[trigger] last_level(writes@, pin) == (if valid_pin(pin) {
                    Some(shown_level(self.shown(), self.current(), pin))
                } else {
                    None::<bool>
                }),
            0 <= self.current() < 4,
            value_in_range(self.shown()),
    {
        proof {
            use_type_invariant(self);
            assert forall|pin: Pin|
                #[trigger] last_level(frame_writes(self.shown(), self.current()), pin) == (if valid_pin(pin) {
                    Some(shown_level(self.shown(), self.current(), pin))
                } else {
                    None::<bool>
                }) by {
                lemma_frame_levels(self.shown(), self.current(), pin);
            }
            lemma_frame_levels(self.shown(), self.current(), Pin::Digit(0));
        }
        match self.show_digit(self.current_digit) {
            Ok(writes) => writes,
            Err(_) => Vec::new(),
        }
    }

    /// Moves on to the next display index, wrapping from the highest back to the lowest.
    /// Call it once the writes of [`SevenSegment::frame`] have all been made.
    pub fn tick(&mut self)
        ensures
            final(self).current() == (old(self).current() + 1) % 4,
            final(self).shown() == old(self).shown(),
    {
        proof {
            use_type_invariant(&*self);
        }
        self.current_digit = (self.current_digit + 1) % 4;
    }
}

/// `10` to the power `n`, for the positions of a `u16`.
fn power_of_ten(n: u8) -> (p: u16)
    requires
        n <= 4,
    ensures
        p == pow10(n as nat),
        p >= 1,
{
    proof {
        reveal_with_fuel(pow10, 5);
    }
    match n {
        0 => 1,
        1 => 10,
        2 => 100,
        3 => 1000,
        _ => 10000,
    }
}

} // verus!
