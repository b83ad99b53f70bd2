use vstd::prelude::*;
use vstd::arithmetic::power::pow;
use crate::glyph::{DisplayChar, segment_lit, spec_digit_pattern};
use crate::pins::{
    Pin, PinWrite, valid_pin, all_valid, last_level, blank_writes, select_writes, pattern_writes,
    release_writes, dp_write, lemma_last_level_concat, lemma_last_level_none, lemma_blank_levels,
    lemma_select_levels, lemma_release_levels, lemma_pattern_levels,
};
use crate::display::{
    DisplayNumber, pow10, digits_value, drawn_positions, value_in_range, MAX_TENTHS_WITH_CHAR, has_char, digit_at, number_position, shown_level,
    frame_writes, glyph_writes, init_frame, SevenSegment,
};

verus! {

/// The glyph writes of a refresh step touch no digit pin and only real segment pins.
proof fn lemma_glyph_only_segments(number: Option<DisplayNumber>, index: int)
    ensures
        forall|k: int|
            0 <= k < glyph_writes(number, index).len() ==> (#[trigger] glyph_writes(
                number,
                index,
            )[k].pin matches Pin::Segment(s) && s < 8),
{
    let g = glyph_writes(number, index);
    assert forall|k: int| 0 <= k < g.len() implies (#[trigger] g[k].pin matches Pin::Segment(
        s,
    ) && s < 8) by {
        if has_char(number) && index == 0 {
        } else {
            let position = number_position(number, index);
            let point: Seq<PinWrite> = if position == 1 && (number matches Some(
                DisplayNumber::Float(_),
            ) || has_char(number)) {
                seq![dp_write()]
            } else {
                Seq::empty()
            };
            let rest = match digit_at(number, position) {
                None => blank_writes(),
                Some(d) => pattern_writes(crate::glyph::spec_digit_pattern(d as int)),
            };
            assert(g == point + rest);
            if k < point.len() {
                assert(g[k] == point[k]);
            } else {
                assert(g[k] == rest[k - point.len()]);
            }
        }
    }
}

/// What a refresh step leaves the display showing. Once the writes of the refresh step for
/// display index `index` (0 to 3) are made, whatever the pins were before: digit `index` is
/// the only active digit; segments A to G draw its glyph (the digit of the number at that
/// index, the trailing character, or nothing for a leading zero); the decimal point is lit
/// exactly at the ones digit of a number with a decimal point. Every write goes to one of
/// the twelve pins of the display, and every one of them is written.
pub proof fn lemma_frame_levels(number: Option<DisplayNumber>, index: int, pin: Pin)
    requires
        0 <= index < 4,
    ensures
        all_valid(frame_writes(number, index)),
        last_level(frame_writes(number, index), pin) == (if valid_pin(pin) {
            Some(shown_level(number, index, pin))
        } else {
            None::<bool>
        }),
{
    let b = blank_writes();
    let s = select_writes(index);
    let g = glyph_writes(number, index);
    let w = frame_writes(number, index);
    lemma_glyph_only_segments(number, index);
    assert(w == (b + s) + g);
    assert forall|k: int| 0 <= k < w.len() implies valid_pin(#[trigger] w[k].pin) by {
        if k < b.len() {
            assert(w[k] == b[k]);
        } else if k < b.len() + s.len() {
            assert(w[k] == s[k - b.len()]);
        } else {
            assert(w[k] == g[k - b.len() - s.len()]);
        }
    }
    lemma_last_level_concat(b + s, g, pin);
    lemma_last_level_concat(b, s, pin);
    lemma_blank_levels(pin);
    lemma_select_levels(index, pin);
    assert(0u8 >> 0u8 == 0u8) by (bit_vector);
    match pin {
        Pin::Digit(i) => {
            lemma_last_level_none(g, pin);
        },
        Pin::Segment(i) => {
            if has_char(number) && index == 0 {
                match number {
                    Some(DisplayNumber::FloatWithChar { char, .. }) => {
                        lemma_pattern_levels(char.spec_pattern(), pin);
                    },
                    _ => {},
                }
            } else {
                let position = number_position(number, index);
                let point: Seq<PinWrite> = if position == 1 && (number matches Some(
                    DisplayNumber::Float(_),
                ) || has_char(number)) {
                    seq![dp_write()]
                } else {
                    Seq::empty()
                };
                let rest = match digit_at(number, position) {
                    None => blank_writes(),
                    Some(d) => pattern_writes(crate::glyph::spec_digit_pattern(d as int)),
                };
                assert(g == point + rest);
                lemma_last_level_concat(point, rest, pin);
                lemma_blank_levels(pin);
                match digit_at(number, position) {
                    None => {},
                    Some(d) => {
                        lemma_pattern_levels(crate::glyph::spec_digit_pattern(d as int), pin);
                    },
                }
                if point.len() == 1 {
                    assert(point.drop_last() =~= Seq::<PinWrite>::empty());
                    if i != 7 {
                        lemma_last_level_none(point, pin);
                    }
                } else {
                    lemma_last_level_none(point, pin);
                }
                assert(segment_lit(0u8, i as int) == false) by {
                    let x: u8 = i;
                    assert((0u8 >> x) & 1u8 == 0u8) by (bit_vector);
                }
            }
        },
    }
}

/// The pins after the initial writes: every digit inactive (high) and every segment off
/// (low). Every write goes to one of the twelve pins of the display.
pub proof fn lemma_init_levels(pin: Pin)
    ensures
        all_valid(init_frame()),
        last_level(init_frame(), pin) == (if valid_pin(pin) {
            Some(pin is Digit)
        } else {
            None::<bool>
        }),
{
    let r = release_writes();
    let b = blank_writes();
    let w = init_frame();
    assert forall|k: int| 0 <= k < w.len() implies valid_pin(#[trigger] w[k].pin) by {
        if k < r.len() {
            assert(w[k] == r[k]);
        } else {
            assert(w[k] == b[k - r.len()]);
        }
    }
    lemma_last_level_concat(r, b, pin);
    lemma_release_levels(pin);
    lemma_blank_levels(pin);
}

/// No digit pin changes while a segment could still be lit: in the writes of a refresh
/// step, every write to a digit pin comes after writes that turned all eight segments off
/// and that no later write before it turned on again.
pub proof fn lemma_blank_before_select(number: Option<DisplayNumber>, index: int, k: int, s: u8)
    requires
        0 <= k < frame_writes(number, index).len(),
        frame_writes(number, index)[k].pin is Digit,
        s < 8,
    ensures
        last_level(frame_writes(number, index).take(k), Pin::Segment(s)) == Some(false),
{
    let b = blank_writes();
    let sel = select_writes(index);
    let g = glyph_writes(number, index);
    let w = frame_writes(number, index);
    let pin = Pin::Segment(s);
    lemma_glyph_only_segments(number, index);
    assert(w == (b + sel) + g);
    if k >= b.len() + sel.len() {
        assert(w[k] == g[k - b.len() - sel.len()]);
        assert(false);
    }
    if k < b.len() {
        assert(w[k] == b[k]);
        assert(false);
    }
    let part = sel.take(k - b.len());
    assert(w.take(k) =~= b + part);
    lemma_last_level_concat(b, part, pin);
    lemma_blank_levels(pin);
    assert forall|j: int| 0 <= j < part.len() implies #[trigger] part[j].pin != pin by {
        assert(part[j] == sel[j]);
    }
    lemma_last_level_none(part, pin);
}

/// The digit drawn at display index `index`, counting a blank as zero.
pub open spec fn shown_digit(number: Option<DisplayNumber>, index: int) -> nat {
    match digit_at(number, number_position(number, index)) {
        Some(d) => d as nat,
        None => 0,
    }
}

/// The number that the digits on the display spell, read as a decimal integer (in tenths
/// for a number with a decimal point). A trailing character takes the lowest index and is
/// not part of it.
pub open spec fn spelled_value(number: Option<DisplayNumber>) -> nat {
    if has_char(number) {
        shown_digit(number, 1) + 10 * shown_digit(number, 2) + 100 * shown_digit(number, 3)
    } else {
        shown_digit(number, 0) + 10 * shown_digit(number, 1) + 100 * shown_digit(number, 2)
            + 1000 * shown_digit(number, 3)
    }
}

/// A blank position counts as the zero digit that the quotient has there.
proof fn lemma_digit_is_quotient(number: DisplayNumber, position: int)
    requires
        0 <= position,
    ensures
        (match digit_at(Some(number), position) {
            Some(d) => d as nat,
            None => 0nat,
        }) == (digits_value(number) as nat / pow10(position as nat)) % 10,
{
    let v = digits_value(number) as nat;
    let p = pow10(position as nat);
    lemma_pow10_positive(position as nat);
    if p > v {
        vstd::arithmetic::div_mod::lemma_basic_div(v as int, p as int);
    }
}

/// Every power of ten is at least one.
proof fn lemma_pow10_positive(n: nat)
    ensures
        pow10(n) >= 1,
    decreases n,
{
    if n > 0 {
        lemma_pow10_positive((n - 1) as nat);
    }
}

/// The display spells what it holds: read from the highest index down, the digits shown are
/// the decimal digits of the number. Leading zeros are left blank, except the ones digit of
/// an integer and the ones and tenths digits of a number with a decimal point.
pub proof fn lemma_digits_spell_number(number: DisplayNumber)
    requires
        value_in_range(Some(number)),
    ensures
        spelled_value(Some(number)) == digits_value(number),
        forall|position: int|
            0 <= position < 4 ==> (digit_at(Some(number), position) is None <==> (position
                >= drawn_positions(number) && digits_value(number) < pow10(position as nat))),
{
    reveal_with_fuel(pow10, 5);
    let v = digits_value(number) as nat;
    let n = Some(number);
    assert(pow10(0) == 1);
    assert(pow10(1) == 10);
    assert(pow10(2) == 100);
    assert(pow10(3) == 1000);
    assert(v / 10 / 10 == v / 100) by {
        vstd::arithmetic::div_mod::lemma_div_denominator(v as int, 10, 10);
    }
    assert(v / 100 / 10 == v / 1000) by {
        vstd::arithmetic::div_mod::lemma_div_denominator(v as int, 100, 10);
    }
    assert(v == v % 10 + 10 * (v / 10)) by {
        vstd::arithmetic::div_mod::lemma_fundamental_div_mod(v as int, 10);
    }
    assert(v / 10 == (v / 10) % 10 + 10 * (v / 100)) by {
        vstd::arithmetic::div_mod::lemma_fundamental_div_mod((v / 10) as int, 10);
    }
    assert(v / 100 == (v / 100) % 10 + 10 * (v / 1000)) by {
        vstd::arithmetic::div_mod::lemma_fundamental_div_mod((v / 100) as int, 10);
    }
    lemma_digit_is_quotient(number, 0);
    assert(v / pow10(0) == v);
    lemma_digit_is_quotient(number, 1);
    lemma_digit_is_quotient(number, 2);
    lemma_digit_is_quotient(number, 3);
    if number is FloatWithChar {
        assert(v <= MAX_TENTHS_WITH_CHAR);
        assert(number_position(n, 1) == 0);
        assert(v / 1000 == 0);
        assert(shown_digit(n, 1) == v % 10);
        assert(shown_digit(n, 2) == (v / 10) % 10);
        assert(shown_digit(n, 3) == (v / 100) % 10);
        assert(v / 100 < 10);
    } else {
        assert(v <= 9999);
        assert(number_position(n, 0) == 0);
        assert(v / 1000 < 10);
        assert(shown_digit(n, 0) == v % 10);
        assert(shown_digit(n, 1) == (v / 10) % 10);
        assert(shown_digit(n, 2) == (v / 100) % 10);
        assert(shown_digit(n, 3) == (v / 1000) % 10);
    }
}

/// The display index after `k` refresh steps from index `start`.
pub open spec fn index_after_ticks(start: int, k: nat) -> int
    decreases k,
{
    if k == 0 {
        start
    } else {
        (index_after_ticks(start, (k - 1) as nat) + 1) % 4
    }
}

/// Refreshing lights every digit in turn: from any display index, four refresh steps light
/// four different indices (so each of the four once) and come back to where they started.
pub proof fn lemma_ticks_visit_every_digit(start: int)
    requires
        0 <= start < 4,
    ensures
        index_after_ticks(start, 4) == start,
        forall|k: nat| k <= 4 ==> 0 <= #[trigger] index_after_ticks(start, k) < 4,
        forall|i: nat, j: nat|
            i < j < 4 ==> #[trigger] index_after_ticks(start, i) != #[trigger] index_after_ticks(
                start,
                j,
            ),
{
    reveal_with_fuel(index_after_ticks, 5);
    assert(index_after_ticks(start, 0) == start);
    assert(index_after_ticks(start, 1) == (start + 1) % 4);
    assert(index_after_ticks(start, 2) == (start + 2) % 4);
    assert(index_after_ticks(start, 3) == (start + 3) % 4);
    assert(index_after_ticks(start, 4) == start);
}

/// A refresh step of the driver, as [`SevenSegment::tick`] makes it: the next display index
/// becomes current and what is shown is kept.
pub open spec fn tick_step(before: SevenSegment, after: SevenSegment) -> bool {
    &&& after.current() == (before.current() + 1) % 4
    &&& after.shown() == before.shown()
}

/// A call that sets what to show ([`SevenSegment::show`], [`SevenSegment::show_float`],
/// [`SevenSegment::show_float_with_char`]), refused or not: the current index is kept.
pub open spec fn set_step(before: SevenSegment, after: SevenSegment) -> bool {
    after.current() == before.current()
}

/// The number of refresh steps in a history of calls (`true` for a refresh step).
pub open spec fn count_ticks(ticks: Seq<bool>) -> nat
    decreases ticks.len(),
{
    if ticks.len() == 0 {
        0
    } else {
        count_ticks(ticks.drop_last()) + if ticks.last() {
            1nat
        } else {
            0nat
        }
    }
}

/// Multiplexing over a history of calls. Take the states of a driver from
/// [`SevenSegment::new`] on, each reached from the one before by a refresh step or by a
/// call that sets what to show. After `k` refresh steps the current index is `k % 4`, and
/// the frame made there leaves digit `k % 4` the only active digit: the `k`-th refresh step
/// lights digit `(k - 1) % 4`, so any four consecutive refresh steps light digits 0, 1, 2
/// and 3 once each, in turn, whatever is set in between.
pub proof fn lemma_refresh_history(states: Seq<SevenSegment>, ticks: Seq<bool>)
    requires
        states.len() == ticks.len() + 1,
        states[0].current() == 0,
        forall|i: int|
            0 <= i < ticks.len() ==> (if #[trigger] ticks[i] {
                tick_step(states[i], states[i + 1])
            } else {
                set_step(states[i], states[i + 1])
            }),
    ensures
        states.last().current() == count_ticks(ticks) % 4,
        forall|j: u8|
            j < 4 ==> (#[trigger] shown_level(
                states.last().shown(),
                states.last().current(),
                Pin::Digit(j),
            ) <==> j != count_ticks(ticks) % 4),
    decreases ticks.len(),
{
    if ticks.len() > 0 {
        let n = ticks.len() - 1;
        let prev = states.drop_last();
        let prev_ticks = ticks.drop_last();
        assert forall|i: int| 0 <= i < prev_ticks.len() implies (if #[trigger] prev_ticks[i] {
            tick_step(prev[i], prev[i + 1])
        } else {
            set_step(prev[i], prev[i + 1])
        }) by {
            assert(prev_ticks[i] == ticks[i]);
            assert(prev[i] == states[i]);
            assert(prev[i + 1] == states[i + 1]);
        }
        lemma_refresh_history(prev, prev_ticks);
        assert(prev.last() == states[n]);
        assert(ticks[n] == ticks.last());
        if ticks[n] {
            assert(tick_step(states[n], states[n + 1]));
        } else {
            assert(set_step(states[n], states[n + 1]));
        }
    }
}

/// The decimal powers used by the display agree with the usual exponentiation.
proof fn lemma_pow10_is_pow(k: nat)
    ensures
        pow10(k) == pow(10, k),
    decreases k,
{
    reveal(pow);
    if k > 0 {
        lemma_pow10_is_pow((k - 1) as nat);
    }
}

/// Whether bit `s` of `pattern` is set: segment `s` (0 = A, ..., 6 = G) lights up.
proof fn lemma_blank_pattern(s: u8)
    ensures
        segment_lit(0u8, s as int) == false,
{
    assert((0u8 >> s) & 1u8 == 0u8) by (bit_vector);
}

/// An integer `n` (at most 9999) on the display. Refreshing display index `i` leaves digit
/// `i` the only active digit and the decimal point off; segments A to G draw the decimal
/// digit `(n / 10^i) % 10`, except that index `i > 0` is blank where `n < 10^i` (a leading
/// zero). So `42` shows as `  42`, and `0` as `   0`.
pub proof fn lemma_integer_frame(n: u16, i: int)
    requires
        n <= 9999,
        0 <= i < 4,
    ensures
        forall|j: u8|
            j < 4 ==> #[trigger] last_level(
                frame_writes(Some(DisplayNumber::Integer(n)), i),
                Pin::Digit(j),
            ) == Some(j != i),
        last_level(frame_writes(Some(DisplayNumber::Integer(n)), i), Pin::Segment(7)) == Some(
            false,
        ),
        forall|s: u8|
            s < 7 ==> #[trigger] last_level(
                frame_writes(Some(DisplayNumber::Integer(n)), i),
                Pin::Segment(s),
            ) == Some(
                (i == 0 || pow(10, i as nat) <= n) && (spec_digit_pattern(
                    (n as int / pow(10, i as nat)) % 10,
                ) >> s) & 1 == 1,
            ),
{
    let number = Some(DisplayNumber::Integer(n));
    lemma_pow10_is_pow(i as nat);
    lemma_frame_levels(number, i, Pin::Segment(7));
    assert forall|j: u8| j < 4 implies #[trigger] last_level(frame_writes(number, i), Pin::Digit(j))
        == Some(j != i) by {
        lemma_frame_levels(number, i, Pin::Digit(j));
    }
    assert forall|s: u8| s < 7 implies #[trigger] last_level(frame_writes(number, i), Pin::Segment(s))
        == Some(
        (i == 0 || pow(10, i as nat) <= n) && (spec_digit_pattern((n as int / pow(10, i as nat)) % 10)
            >> s) & 1 == 1,
    ) by {
        lemma_frame_levels(number, i, Pin::Segment(s));
        lemma_blank_pattern(s);
    }
}

/// A number with one digit after the decimal point, `n` tenths (at most 9999, i.e. 999.9).
/// Refreshing display index `i` leaves digit `i` the only active digit; the decimal point
/// is lit exactly at index 1, right after the tenths digit; segments A to G draw the
/// decimal digit `(n / 10^i) % 10`, except that index `i > 1` is blank where `n < 10^i`.
/// So `12.3` shows as ` 12.3`, `12.0` as ` 12.0` and `0.5` as `  0.5`.
pub proof fn lemma_float_frame(n: u16, i: int)
    requires
        n <= 9999,
        0 <= i < 4,
    ensures
        forall|j: u8|
            j < 4 ==> #[trigger] last_level(
                frame_writes(Some(DisplayNumber::Float(n)), i),
                Pin::Digit(j),
            ) == Some(j != i),
        last_level(frame_writes(Some(DisplayNumber::Float(n)), i), Pin::Segment(7)) == Some(
            i == 1,
        ),
        forall|s: u8|
            s < 7 ==> #[trigger] last_level(
                frame_writes(Some(DisplayNumber::Float(n)), i),
                Pin::Segment(s),
            ) == Some(
                (i <= 1 || pow(10, i as nat) <= n) && (spec_digit_pattern(
                    (n as int / pow(10, i as nat)) % 10,
                ) >> s) & 1 == 1,
            ),
{
    let number = Some(DisplayNumber::Float(n));
    lemma_pow10_is_pow(i as nat);
    lemma_frame_levels(number, i, Pin::Segment(7));
    assert forall|j: u8| j < 4 implies #[trigger] last_level(frame_writes(number, i), Pin::Digit(j))
        == Some(j != i) by {
        lemma_frame_levels(number, i, Pin::Digit(j));
    }
    assert forall|s: u8| s < 7 implies #[trigger] last_level(frame_writes(number, i), Pin::Segment(s))
        == Some(
        (i <= 1 || pow(10, i as nat) <= n) && (spec_digit_pattern((n as int / pow(10, i as nat)) % 10)
            >> s) & 1 == 1,
    ) by {
        lemma_frame_levels(number, i, Pin::Segment(s));
        lemma_blank_pattern(s);
    }
}

/// A number with one digit after the decimal point, `n` tenths (at most 999, i.e. 99.9),
/// followed by the character `c`. Refreshing display index `i` leaves digit `i` the only
/// active digit. Index 0 draws the pattern of `c`. Every digit moves one index up: index
/// `i >= 1` draws the decimal digit `(n / 10^(i-1)) % 10`, except that index 3 is blank
/// where `n < 100`. The decimal point is lit exactly at index 2, right after the tenths
/// digit. So `23.5` with `H` shows as `23.5H`.
pub proof fn lemma_float_with_char_frame(n: u16, c: DisplayChar, i: int)
    requires
        n <= 999,
        0 <= i < 4,
    ensures
        forall|j: u8|
            j < 4 ==> #[trigger] last_level(
                frame_writes(Some(DisplayNumber::FloatWithChar { number: n, char: c }), i),
                Pin::Digit(j),
            ) == Some(j != i),
        last_level(
            frame_writes(Some(DisplayNumber::FloatWithChar { number: n, char: c }), i),
            Pin::Segment(7),
        ) == Some(i == 2),
        forall|s: u8|
            s < 7 ==> #[trigger] last_level(
                frame_writes(Some(DisplayNumber::FloatWithChar { number: n, char: c }), i),
                Pin::Segment(s),
            ) == Some(
                if i == 0 {
                    (c.spec_pattern() >> s) & 1 == 1
                } else {
                    (i <= 2 || pow(10, (i - 1) as nat) <= n) && (spec_digit_pattern(
                        (n as int / pow(10, (i - 1) as nat)) % 10,
                    ) >> s) & 1 == 1
                },
            ),
{
    let number = Some(DisplayNumber::FloatWithChar { number: n, char: c });
    if i > 0 {
        lemma_pow10_is_pow((i - 1) as nat);
    }
    lemma_frame_levels(number, i, Pin::Segment(7));
    assert forall|j: u8| j < 4 implies #[trigger] last_level(frame_writes(number, i), Pin::Digit(j))
        == Some(j != i) by {
        lemma_frame_levels(number, i, Pin::Digit(j));
    }
    assert forall|s: u8| s < 7 implies #[trigger] last_level(frame_writes(number, i), Pin::Segment(s))
        == Some(
        if i == 0 {
            (c.spec_pattern() >> s) & 1 == 1
        } else {
            (i <= 2 || pow(10, (i - 1) as nat) <= n) && (spec_digit_pattern(
                (n as int / pow(10, (i - 1) as nat)) % 10,
            ) >> s) & 1 == 1
        },
    ) by {
        lemma_frame_levels(number, i, Pin::Segment(s));
        lemma_blank_pattern(s);
    }
}

/// Nothing to show: refreshing display index `i` leaves digit `i` the only active digit and
/// every segment, decimal point included, off.
pub proof fn lemma_empty_frame(i: int)
    requires
        0 <= i < 4,
    ensures
        forall|j: u8| j < 4 ==> #[trigger] last_level(frame_writes(None, i), Pin::Digit(j)) == Some(j != i),
        forall|s: u8| s < 8 ==> #[trigger] last_level(frame_writes(None, i), Pin::Segment(s)) == Some(false),
{
    assert forall|j: u8| j < 4 implies #[trigger] last_level(frame_writes(None, i), Pin::Digit(j))
        == Some(j != i) by {
        lemma_frame_levels(None, i, Pin::Digit(j));
    }
    assert forall|s: u8| s < 8 implies #[trigger] last_level(frame_writes(None, i), Pin::Segment(s))
        == Some(false) by {
        lemma_frame_levels(None, i, Pin::Segment(s));
        lemma_blank_pattern(s);
    }
}

/// The digit at `position` (0 to 4) of what is shown, as `get_digit` returns it: for an
/// integer `n`, `(n / 10^position) % 10`; for a number of `n` tenths, the same digit of `n`.
/// A position is `None` (left blank) only where its power of ten exceeds `n` and it is
/// above the ones digit of an integer, or above the ones digit (position 1) of a number with
/// a decimal point. Nothing shown gives `None` everywhere.
pub proof fn lemma_digit_positions(number: Option<DisplayNumber>, position: int)
    requires
        0 <= position <= 4,
    ensures
        digit_at(number, position) == (match number {
            None => None::<u8>,
            Some(x) => {
                let v: int = match x {
                    DisplayNumber::Integer(n) => n as int,
                    DisplayNumber::Float(n) => n as int,
                    DisplayNumber::FloatWithChar { number, .. } => number as int,
                };
                let kept: int = if x is Integer {
                    1
                } else {
                    2
                };
                if position < kept || pow(10, position as nat) <= v {
                    Some(((v / pow(10, position as nat)) % 10) as u8)
                } else {
                    None::<u8>
                }
            },
        }),
{
    lemma_pow10_is_pow(position as nat);
}

} // verus!
