use vstd::prelude::*;
use crate::glyph::segment_lit;

verus! {

/// Number of segment pins: A to G and the decimal point.
pub open spec fn segment_pin_count() -> int {
    8
}

/// Number of digit pins.
pub open spec fn digit_pin_count() -> int {
    4
}

/// A pin of the display. Segment pins are numbered from A (0) to G (6), the decimal
/// point being 7; they light up when high. Digit pins are numbered from the lowest digit
/// (0) to the highest (3); a digit is active when its pin is low.
#[derive(Copy, Clone, Debug, PartialEq, Eq, Structural)]
pub enum Pin {
    Segment(u8),
    Digit(u8),
}

/// One write to a pin: drive it high (`high == true`) or low.
#[derive(Copy, Clone, Debug, PartialEq, Eq, Structural)]
pub struct PinWrite {
    pub pin: Pin,
    pub high: bool,
}

/// Whether `pin` names one of the twelve pins of the display.
pub open spec fn valid_pin(pin: Pin) -> bool {
    match pin {
        Pin::Segment(i) => i < segment_pin_count(),
        Pin::Digit(i) => i < digit_pin_count(),
    }
}

/// Whether every write in `writes` goes to a pin of the display.
pub open spec fn all_valid(writes: Seq<PinWrite>) -> bool {
    forall|k: int| 0 <= k < writes.len() ==> valid_pin(#[trigger] writes[k].pin)
}

/// The level that `pin` is left at once `writes` have been performed in order: the level
/// of the last write to it, or `None` where no write goes to it.
pub open spec fn last_level(writes: Seq<PinWrite>, pin: Pin) -> Option<bool>
    decreases writes.len(),
{
    if writes.len() == 0 {
        None
    } else if writes.last().pin == pin {
        Some(writes.last().high)
    } else {
        last_level(writes.drop_last(), pin)
    }
}

/// Writes that turn every segment off, decimal point included (segment 0 first).
pub open spec fn blank_writes() -> Seq<PinWrite> {
    Seq::new(8, |i: int| PinWrite { pin: Pin::Segment(i as u8), high: false })
}

/// Writes that make digit `active` the only active digit (digit 0 first).
pub open spec fn select_writes(active: int) -> Seq<PinWrite> {
    Seq::new(4, |i: int| PinWrite { pin: Pin::Digit(i as u8), high: i != active })
}

/// Writes that draw `pattern` on segments A to G (segment A first); the decimal point is
/// left alone.
pub open spec fn pattern_writes(pattern: u8) -> Seq<PinWrite> {
    Seq::new(7, |i: int| PinWrite { pin: Pin::Segment(i as u8), high: segment_lit(pattern, i) })
}

/// Writes that set every digit inactive (digit 0 first).
pub open spec fn release_writes() -> Seq<PinWrite> {
    Seq::new(4, |i: int| PinWrite { pin: Pin::Digit(i as u8), high: true })
}

/// The write that lights the decimal point.
pub open spec fn dp_write() -> PinWrite {
    PinWrite { pin: Pin::Segment(7), high: true }
}

/// Appends the writes that turn every segment off.
pub fn push_blank(out: &mut Vec<PinWrite>)
    ensures
        final(out)@ == old(out)@ + blank_writes(),
{
    let ghost start = out@;
    let mut i: u8 = 0;
    while i < 8
        invariant
            i <= 8,
            out@ =~= start + blank_writes().take(i as int),
        decreases 8 - i,
    {
        out.push(PinWrite { pin: Pin::Segment(i), high: false });
        i = i + 1;
    }
    assert(blank_writes().take(8) =~= blank_writes());
}

/// Appends the writes that draw `pattern` on segments A to G.
pub fn push_pattern(out: &mut Vec<PinWrite>, pattern: u8)
    ensures
        final(out)@ == old(out)@ + pattern_writes(pattern),
{
    let ghost start = out@;
    let mut i: u8 = 0;
    while i < 7
        invariant
            i <= 7,
            out@ =~= start + pattern_writes(pattern).take(i as int),
        decreases 7 - i,
    {
        out.push(PinWrite { pin: Pin::Segment(i), high: (pattern >> i) & 1 == 1 });
        i = i + 1;
    }
    assert(pattern_writes(pattern).take(7) =~= pattern_writes(pattern));
}

/// Appends the writes that make digit `active` the only active digit.
pub fn push_select(out: &mut Vec<PinWrite>, active: u8)
    ensures
        final(out)@ == old(out)@ + select_writes(active as int),
{
    let ghost start = out@;
    let mut i: u8 = 0;
    while i < 4
        invariant
            i <= 4,
            out@ =~= start + select_writes(active as int).take(i as int),
        decreases 4 - i,
    {
        out.push(PinWrite { pin: Pin::Digit(i), high: i != active });
        i = i + 1;
    }
    assert(select_writes(active as int).take(4) =~= select_writes(active as int));
}

/// Appends the writes that set every digit inactive.
pub fn push_release(out: &mut Vec<PinWrite>)
    ensures
        final(out)@ == old(out)@ + release_writes(),
{
    let ghost start = out@;
    let mut i: u8 = 0;
    while i < 4
        invariant
            i <= 4,
            out@ =~= start + release_writes().take(i as int),
        decreases 4 - i,
    {
        out.push(PinWrite { pin: Pin::Digit(i), high: true });
        i = i + 1;
    }
    assert(release_writes().take(4) =~= release_writes());
}

/// The level a pin is left at after two batches of writes: that of the second batch where
/// it writes the pin, else that of the first.
pub proof fn lemma_last_level_concat(a: Seq<PinWrite>, b: Seq<PinWrite>, pin: Pin)
    ensures
        last_level(a + b, pin) == (if last_level(b, pin) is Some {
            last_level(b, pin)
        } else {
            last_level(a, pin)
        }),
    decreases b.len(),
{
    if b.len() == 0 {
        assert(a + b =~= a);
    } else {
        assert((a + b).drop_last() =~= a + b.drop_last());
        assert((a + b).last() == b.last());
        lemma_last_level_concat(a, b.drop_last(), pin);
    }
}

/// Where the write at `k` is the last one to `pin`, `pin` is left at its level.
pub proof fn lemma_last_level_at(s: Seq<PinWrite>, k: int, pin: Pin)
    requires
        0 <= k < s.len(),
        s[k].pin == pin,
        forall|j: int| k < j < s.len() ==> #[trigger] s[j].pin != pin,
    ensures
        last_level(s, pin) == Some(s[k].high),
    decreases s.len(),
{
    if k < s.len() - 1 {
        assert(s.last().pin != pin);
        let t = s.drop_last();
        assert forall|j: int| k < j < t.len() implies #[trigger] t[j].pin != pin by {
            assert(t[j] == s[j]);
        }
        lemma_last_level_at(t, k, pin);
    }
}

/// A pin that no write goes to keeps no level from the writes.
pub proof fn lemma_last_level_none(s: Seq<PinWrite>, pin: Pin)
    requires
        forall|j: int| 0 <= j < s.len() ==> #[trigger] s[j].pin != pin,
    ensures
        last_level(s, pin) is None,
    decreases s.len(),
{
    if s.len() > 0 {
        let t = s.drop_last();
        assert forall|j: int| 0 <= j < t.len() implies #[trigger] t[j].pin != pin by {
            assert(t[j] == s[j]);
        }
        lemma_last_level_none(t, pin);
    }
}

/// After the blanking writes every segment pin is low and no digit pin is touched.
pub proof fn lemma_blank_levels(pin: Pin)
    ensures
        last_level(blank_writes(), pin) == (match pin {
            Pin::Segment(i) => if i < 8 { Some(false) } else { None },
            Pin::Digit(_) => None,
        }),
{
    let s = blank_writes();
    match pin {
        Pin::Segment(i) => {
            if i < 8 {
                lemma_last_level_at(s, i as int, pin);
            } else {
                lemma_last_level_none(s, pin);
            }
        },
        Pin::Digit(_) => {
            lemma_last_level_none(s, pin);
        },
    }
}

/// After the digit selection writes, digit `active` is low, the other digits high, and
/// no segment pin is touched.
pub proof fn lemma_select_levels(active: int, pin: Pin)
    ensures
        last_level(select_writes(active), pin) == (match pin {
            Pin::Digit(i) => if i < 4 { Some(i != active) } else { None },
            Pin::Segment(_) => None,
        }),
{
    let s = select_writes(active);
    match pin {
        Pin::Digit(i) => {
            if i < 4 {
                lemma_last_level_at(s, i as int, pin);
            } else {
                lemma_last_level_none(s, pin);
            }
        },
        Pin::Segment(_) => {
            lemma_last_level_none(s, pin);
        },
    }
}

/// After the releasing writes every digit pin is high and no segment pin is touched.
pub proof fn lemma_release_levels(pin: Pin)
    ensures
        last_level(release_writes(), pin) == (match pin {
            Pin::Digit(i) => if i < 4 { Some(true) } else { None },
            Pin::Segment(_) => None,
        }),
{
    let s = release_writes();
    match pin {
        Pin::Digit(i) => {
            if i < 4 {
                lemma_last_level_at(s, i as int, pin);
            } else {
                lemma_last_level_none(s, pin);
            }
        },
        Pin::Segment(_) => {
            lemma_last_level_none(s, pin);
        },
    }
}

/// After the pattern writes, segments A to G follow the bits of `pattern`; the decimal
/// point and the digit pins are not touched.
pub proof fn lemma_pattern_levels(pattern: u8, pin: Pin)
    ensures
        last_level(pattern_writes(pattern), pin) == (match pin {
            Pin::Segment(i) => if i < 7 { Some(segment_lit(pattern, i as int)) } else { None },
            Pin::Digit(_) => None,
        }),
{
    let s = pattern_writes(pattern);
    match pin {
        Pin::Segment(i) => {
            if i < 7 {
                lemma_last_level_at(s, i as int, pin);
            } else {
                lemma_last_level_none(s, pin);
            }
        },
        Pin::Digit(_) => {
            lemma_last_level_none(s, pin);
        },
    }
}

} // verus!
