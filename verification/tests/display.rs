use seven_segment::{
    digit_pattern, DisplayChar, DisplayNumber, Pin, PinWrite, SegmentConfiguration, SegmentError,
    SevenSegment,
};

/// Stands in for the twelve GPIO pins: it performs the writes of the driver on levels.
struct DisplayFixture {
    display: SevenSegment,
    seg_states: [bool; 8],
    dig_states: [bool; 4],
}

impl DisplayFixture {
    fn new() -> Self {
        let mut fixture = Self {
            display: SevenSegment::new(),
            seg_states: [false; 8],
            dig_states: [false; 4],
        };
        fixture.apply(&SevenSegment::init_writes());
        fixture
    }

    fn apply(&mut self, writes: &[PinWrite]) {
        for w in writes {
            match w.pin {
                Pin::Segment(i) => self.seg_states[i as usize] = w.high,
                Pin::Digit(i) => self.dig_states[i as usize] = w.high,
            }
        }
    }

    fn tick(&mut self) {
        let writes = self.display.frame();
        self.apply(&writes);
        self.display.tick();
    }

    fn assert_digit_active(&self, active: usize) {
        for (i, state) in self.dig_states.iter().enumerate() {
            if i == active {
                assert!(!state, "digit[{}] should be LOW (active)", i);
            } else {
                assert!(state, "digit[{}] should be HIGH (inactive)", i);
            }
        }
    }

    fn assert_segments_match_pattern(&self, pattern: u8) {
        for i in 0..7 {
            let expected = (pattern >> i) & 1 == 1;
            assert_eq!(self.seg_states[i], expected, "segment[{}] (bit {})", i, i);
        }
    }

    fn assert_dp(&self, high: bool) {
        assert_eq!(self.seg_states[7], high, "DP");
    }

    fn assert_blank(&self) {
        for (i, state) in self.seg_states.iter().enumerate() {
            assert!(!state, "segment[{}] should be LOW (blank)", i);
        }
    }
}

fn pattern(digit: u8) -> u8 {
    digit_pattern(digit).unwrap()
}

/// The value in tenths that a number with one decimal is held as.
fn tenths(number: f32) -> u16 {
    (number * 10.0) as u16
}

#[test]
fn test_display_1234() {
    let mut fixture = DisplayFixture::new();
    fixture.display.show(1234).unwrap();

    fixture.tick();
    fixture.assert_digit_active(0);
    fixture.assert_segments_match_pattern(pattern(4));
    fixture.assert_dp(false);

    fixture.tick();
    fixture.assert_digit_active(1);
    fixture.assert_segments_match_pattern(pattern(3));
    fixture.assert_dp(false);

    fixture.tick();
    fixture.assert_digit_active(2);
    fixture.assert_segments_match_pattern(pattern(2));
    fixture.assert_dp(false);

    fixture.tick();
    fixture.assert_digit_active(3);
    fixture.assert_segments_match_pattern(pattern(1));
    fixture.assert_dp(false);
}

#[test]
fn test_display_float() {
    // 12.3 → internal value 123; decimal point at display_index 1
    let mut fixture = DisplayFixture::new();
    fixture.display.show_float(tenths(12.3));

    fixture.tick();
    fixture.assert_digit_active(0);
    fixture.assert_segments_match_pattern(pattern(3));
    fixture.assert_dp(false);

    fixture.tick();
    fixture.assert_digit_active(1);
    fixture.assert_segments_match_pattern(pattern(2));
    fixture.assert_dp(true);

    fixture.tick();
    fixture.assert_digit_active(2);
    fixture.assert_segments_match_pattern(pattern(1));
    fixture.assert_dp(false);

    fixture.tick();
    fixture.assert_digit_active(3);
    fixture.assert_blank();
}

#[test]
fn test_display_float_with_char() {
    // 12.3 with trailing C; digit[0] = C, digits[1-3] = 3/2/1 (shifted), DP at digit[2]
    let mut fixture = DisplayFixture::new();
    fixture.display.show_float_with_char(tenths(12.3), DisplayChar::C);

    fixture.tick();
    fixture.assert_digit_active(0);
    fixture.assert_segments_match_pattern(DisplayChar::C.pattern());
    fixture.assert_dp(false);

    fixture.tick();
    fixture.assert_digit_active(1);
    fixture.assert_segments_match_pattern(pattern(3));
    fixture.assert_dp(false);

    fixture.tick();
    fixture.assert_digit_active(2);
    fixture.assert_segments_match_pattern(pattern(2));
    fixture.assert_dp(true);

    fixture.tick();
    fixture.assert_digit_active(3);
    fixture.assert_segments_match_pattern(pattern(1));
    fixture.assert_dp(false);
}

#[test]
fn digit_patterns_are_the_datasheet_ones() {
    let expected: [u8; 10] = [
        0b0111111, 0b0000110, 0b1011011, 0b1001111, 0b1100110, 0b1101101, 0b1111101, 0b0000111,
        0b1111111, 0b1101111,
    ];
    for d in 0..10u8 {
        assert_eq!(digit_pattern(d), Some(expected[d as usize]));
    }
    assert_eq!(digit_pattern(10), None);
    assert_eq!(digit_pattern(255), None);
}

#[test]
fn char_patterns() {
    assert_eq!(DisplayChar::C.pattern(), 0b0111001);
    assert_eq!(DisplayChar::H.pattern(), 0b1110110);
}

#[test]
fn init_writes_release_digits_then_clear_segments() {
    let writes = SevenSegment::init_writes();
    assert_eq!(writes.len(), 12);
    for i in 0..4u8 {
        assert_eq!(writes[i as usize], PinWrite { pin: Pin::Digit(i), high: true });
    }
    for i in 0..8u8 {
        assert_eq!(writes[4 + i as usize], PinWrite { pin: Pin::Segment(i), high: false });
    }
    let fixture = DisplayFixture::new();
    fixture.assert_blank();
    assert!(fixture.dig_states.iter().all(|s| *s));
}

#[test]
fn show_refuses_numbers_above_9999() {
    let mut display = SevenSegment::new();
    assert_eq!(display.show(42), Ok(()));
    assert_eq!(display.show(10000), Err(SegmentError::NumberTooLarge(10000)));
    assert_eq!(display.show(u16::MAX), Err(SegmentError::NumberTooLarge(u16::MAX)));
    // The refused number leaves the display as it was.
    assert_eq!(display.get_digit(0), Some(2));
    assert_eq!(display.get_digit(1), Some(4));
    assert_eq!(display.get_digit(2), None);
    assert_eq!(display.show(9999), Ok(()));
    for d in 0..4 {
        assert_eq!(display.get_digit(d), Some(9));
    }
}

#[test]
fn show_9999_lights_every_digit_with_nine() {
    let mut fixture = DisplayFixture::new();
    fixture.display.show(9999).unwrap();
    for i in 0..4 {
        fixture.tick();
        fixture.assert_digit_active(i);
        fixture.assert_segments_match_pattern(pattern(9));
        fixture.assert_dp(false);
    }
}

#[test]
fn leading_zeros_are_blank_but_inner_zeros_are_shown() {
    let mut fixture = DisplayFixture::new();
    fixture.display.show(1204).unwrap();
    let expected = [Some(4), Some(0), Some(2), Some(1)];
    for (i, e) in expected.iter().enumerate() {
        fixture.tick();
        fixture.assert_digit_active(i);
        fixture.assert_segments_match_pattern(pattern(e.unwrap()));
    }

    fixture.display.show(7).unwrap();
    fixture.tick();
    fixture.assert_digit_active(0);
    fixture.assert_segments_match_pattern(pattern(7));
    for i in 1..4 {
        fixture.tick();
        fixture.assert_digit_active(i);
        fixture.assert_blank();
    }
}

#[test]
fn zero_shows_a_zero() {
    let mut fixture = DisplayFixture::new();
    fixture.display.show(0).unwrap();
    fixture.tick();
    fixture.assert_digit_active(0);
    fixture.assert_segments_match_pattern(pattern(0));
    fixture.assert_dp(false);
    for i in 1..4 {
        fixture.tick();
        fixture.assert_digit_active(i);
        fixture.assert_blank();
    }
}

#[test]
fn float_zero_shows_zero_point_zero() {
    let mut fixture = DisplayFixture::new();
    fixture.display.show_float(0);
    let dps = [false, true];
    for i in 0..2 {
        fixture.tick();
        fixture.assert_digit_active(i);
        fixture.assert_segments_match_pattern(pattern(0));
        fixture.assert_dp(dps[i]);
    }
    for i in 2..4 {
        fixture.tick();
        fixture.assert_digit_active(i);
        fixture.assert_blank();
    }
}

#[test]
fn nothing_set_shows_nothing() {
    let mut fixture = DisplayFixture::new();
    for i in 0..8 {
        fixture.tick();
        fixture.assert_digit_active(i % 4);
        fixture.assert_blank();
    }
}

#[test]
fn float_below_one_keeps_its_decimal_point() {
    // 0.5 is held as 5 tenths and shows as "0.5": the ones digit is drawn as 0 with the
    // decimal point.
    let mut fixture = DisplayFixture::new();
    fixture.display.show_float(tenths(0.5));
    fixture.tick();
    fixture.assert_segments_match_pattern(pattern(5));
    fixture.assert_dp(false);
    fixture.tick();
    fixture.assert_digit_active(1);
    fixture.assert_segments_match_pattern(pattern(0));
    fixture.assert_dp(true);
    fixture.tick();
    fixture.assert_digit_active(2);
    fixture.assert_blank();
}

#[test]
fn float_with_char_below_one() {
    // 0.5C: C at index 0, 5 at index 1, 0 with the decimal point at index 2.
    let mut fixture = DisplayFixture::new();
    fixture.display.show_float_with_char(tenths(0.5), DisplayChar::C);
    fixture.tick();
    fixture.assert_segments_match_pattern(DisplayChar::C.pattern());
    fixture.assert_dp(false);
    fixture.tick();
    fixture.assert_segments_match_pattern(pattern(5));
    fixture.assert_dp(false);
    fixture.tick();
    fixture.assert_segments_match_pattern(pattern(0));
    fixture.assert_dp(true);
    fixture.tick();
    fixture.assert_digit_active(3);
    fixture.assert_blank();
}

#[test]
fn float_999_9_uses_all_digits() {
    let mut fixture = DisplayFixture::new();
    fixture.display.show_float(tenths(999.9));
    let dps = [false, true, false, false];
    for i in 0..4 {
        fixture.tick();
        fixture.assert_digit_active(i);
        fixture.assert_segments_match_pattern(pattern(9));
        fixture.assert_dp(dps[i]);
    }
}

#[test]
fn float_with_char_h() {
    let mut fixture = DisplayFixture::new();
    fixture.display.show_float_with_char(tenths(5.0), DisplayChar::H);
    fixture.tick();
    fixture.assert_digit_active(0);
    fixture.assert_segments_match_pattern(DisplayChar::H.pattern());
    fixture.assert_dp(false);
    fixture.tick();
    fixture.assert_digit_active(1);
    fixture.assert_segments_match_pattern(pattern(0));
    fixture.assert_dp(false);
    fixture.tick();
    fixture.assert_digit_active(2);
    fixture.assert_segments_match_pattern(pattern(5));
    fixture.assert_dp(true);
    fixture.tick();
    fixture.assert_digit_active(3);
    fixture.assert_blank();
}

#[test]
fn ticks_wrap_after_the_highest_digit() {
    let mut fixture = DisplayFixture::new();
    fixture.display.show(5678).unwrap();
    let expected = [8, 7, 6, 5];
    for round in 0..3 {
        for i in 0..4 {
            fixture.tick();
            fixture.assert_digit_active(i);
            fixture.assert_segments_match_pattern(pattern(expected[i]));
            let _ = round;
        }
    }
}

#[test]
fn show_keeps_the_current_digit() {
    let mut fixture = DisplayFixture::new();
    fixture.display.show(1234).unwrap();
    fixture.tick();
    fixture.tick();
    fixture.display.show(5678).unwrap();
    fixture.tick();
    fixture.assert_digit_active(2);
    fixture.assert_segments_match_pattern(pattern(6));
}

#[test]
fn show_digit_refuses_indices_above_3() {
    let mut display = SevenSegment::new();
    display.show(1234).unwrap();
    assert_eq!(display.show_digit(4), Err(SegmentError::InvalidDisplayIndex(4)));
    assert_eq!(display.show_digit(255), Err(SegmentError::InvalidDisplayIndex(255)));
    assert!(display.show_digit(3).is_ok());
}

#[test]
fn frame_clears_segments_before_selecting_the_digit() {
    let mut display = SevenSegment::new();
    display.show_float(tenths(12.3));
    for index in 0..4u8 {
        let writes = display.show_digit(index).unwrap();
        for i in 0..8u8 {
            assert_eq!(writes[i as usize], PinWrite { pin: Pin::Segment(i), high: false });
        }
        for i in 0..4u8 {
            assert_eq!(
                writes[8 + i as usize],
                PinWrite { pin: Pin::Digit(i), high: i != index }
            );
        }
        assert!(writes[12..].iter().all(|w| matches!(w.pin, Pin::Segment(s) if s < 8)));
    }
}

#[test]
fn frame_for_index_with_decimal_point() {
    let mut display = SevenSegment::new();
    display.show_float(123);
    let writes = display.show_digit(1).unwrap();
    assert_eq!(writes.len(), 8 + 4 + 1 + 7);
    assert_eq!(writes[12], PinWrite { pin: Pin::Segment(7), high: true });
}

#[test]
fn display_refuses_digits_above_9() {
    let display = SevenSegment::new();
    let mut out = Vec::new();
    assert_eq!(display.display(&mut out, 10), Err(SegmentError::DigitTooLarge(10)));
    assert!(out.is_empty());
    assert_eq!(display.display(&mut out, 8), Ok(()));
    assert_eq!(out.len(), 7);
    assert!(out.iter().all(|w| w.high));
}

#[test]
fn get_digit_reads_decimal_positions() {
    let mut display = SevenSegment::new();
    for d in [0u8, 3, 4, 5, 100, 255] {
        assert_eq!(display.get_digit(d), None);
    }
    display.show(9087).unwrap();
    assert_eq!(display.get_digit(0), Some(7));
    assert_eq!(display.get_digit(1), Some(8));
    assert_eq!(display.get_digit(2), Some(0));
    assert_eq!(display.get_digit(3), Some(9));
    assert_eq!(display.get_digit(4), None);
    display.show(0).unwrap();
    assert_eq!(display.get_digit(0), Some(0));
    assert_eq!(display.get_digit(1), None);
    display.show_float(9876);
    assert_eq!(display.get_digit(3), Some(9));
    assert_eq!(display.get_digit(4), None);
    display.show_float(7);
    assert_eq!(display.get_digit(0), Some(7));
    assert_eq!(display.get_digit(1), Some(0));
    assert_eq!(display.get_digit(2), None);
}

#[test]
fn segment_configuration_order() {
    let config = SegmentConfiguration { a: 'a', b: 'b', c: 'c', d: 'd', e: 'e', f: 'f', g: 'g', dp: '.' };
    assert_eq!(config.into_segments(), ['a', 'b', 'c', 'd', 'e', 'f', 'g', '.']);
}

#[test]
fn display_number_variants() {
    let n = DisplayNumber::FloatWithChar { number: 123, char: DisplayChar::C };
    assert_ne!(n, DisplayNumber::Float(123));
    assert_eq!(DisplayNumber::Integer(5), DisplayNumber::Integer(5));
}
