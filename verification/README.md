# parsidate

Dates and date-times of the Persian (Jalali) calendar, years 1 through 9999,
with conversion to and from the proleptic Gregorian calendar, arithmetic on
days, months, years and seconds, `strftime`-like formatting and parsing,
weekdays, week numbers and seasons. The library is written in Verus: every
operation carries a contract over a mathematical model of the calendar, and
Verus proves it.

## Layout

- `src/calendar.rs` — the calendars as spec functions: the 33-year leap rule,
  month and year lengths, day numbers, the Gregorian day count, and the
  lemmas about them.
- `src/date.rs`, `src/datetime.rs` — `ParsiDate` and `ParsiDateTime`.
- `src/gregorian.rs` — `GregorianDate` and `GregorianDateTime`, plain-value
  Gregorian dates, and the calls into `chrono` (each a trusted wrapper whose
  contract restates what `chrono` documents).
- `src/format.rs`, `src/parse.rs`, `src/text.rs` — rendering and reading text.
- `src/season.rs`, `src/error.rs` — seasons and error kinds.
- `src/laws.rs` — properties of the library as a whole (conversion round
  trips, day arithmetic, weekdays, ordering, rendering that parses back).
- `app/` — what stays outside the verified library: `serde` forms of the
  value types, `chrono::Duration` adapters and the time-zone-aware
  `ZonedParsiDateTime`.
