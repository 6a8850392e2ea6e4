# genuint

Non-negative integers of any size, arithmetic on them, and arrays, fixed-capacity
vectors and double-ended queues whose length is given by such an integer. The functions
in `src/` are verified with Verus against their contracts, except two small trusted
wrappers of outside calls: `core::mem::needs_drop` (in `__mac::arr`) and `ibig`'s digit
parsing (in `lit`), whose contracts are believed as their sources show them.

Layout of `src/`:

- `uint` — `Uint`, a number in its canonical binary form (`0`, `1`, or a positive prefix
  with one more bit), with conversions to and from primitive integers.
- `ops` — arithmetic, comparison, bitwise, shift, logarithm and power operations on `Uint`,
  each specified by the natural-number expression it computes.
- `consts` — the bit width of `usize` and the maxima of the primitive integers as `Uint`s.
- `digits` — numbers written as sequences of `usize` digits, little- or big-endian, and the
  lemmas about their values.
- `capnum` — `CapUint`, a number with a fixed upper bound stored as big-endian digits, with
  addition, comparison, resizing and conversions to primitive integers.
- `array` — `ArrApi` (arrays), `ArrVecApi` (a vector with fixed capacity), `ArrDeqApi` (a
  deque with fixed capacity, stored as a rotated ring of its items), and helpers that build and take apart arrays and
  count in digits.
- `condty`, `tern` — `Result`-like values whose variant is decided by a `Uint` condition.
- `maxint`, `const_fmt` — decimal text of `u128` values and message text written into a
  fixed-size buffer.
- `lit` — integer literals (decimal or with a `0x`, `0o`, `0b` prefix) read into a `Uint`
  and into its binary digits; the digits are parsed by the `ibig` crate.

`app/` holds what the verified library cannot: panicking with a formatted message, arrays
filled from a `type_const::Const`, and the token handling of the procedural macros.
