# 3641AS seven segment display

Logic for driving a 7 segment, 4 digit display (the 3641AS), verified with Verus.

- `src/` is the verified library. It keeps what the display shows and which digit the
  next refresh step lights, and describes each refresh step as the ordered list of pin
  writes that lights that digit. Its contracts and the proof functions in `src/laws.rs`
  state what every refresh step leaves the pins at, that the digits spell the number
  with leading zeros blank (the ones digit is always drawn, so `0` and `0.5` show as
  such), and that refreshing visits the four digits in turn, over any history of calls.
- `app/` owns the `embedded_hal` output pins: it performs the writes the library decides,
  stopping at the first failing pin, and handles `f32` input (the limit test and the
  scaling to tenths), which the library does not hold.
- `tests/` runs the library against simulated pins.

Use a `180 Ohm` resistor (anything from `150 - 220` works) on each segment.
