//! The Persian (Jalali) calendar: validated dates and date-times, conversion
//! to and from the proleptic Gregorian calendar, arithmetic on days, months
//! and years, `strftime`-like formatting and parsing, weekdays, weeks and
//! seasons.
pub mod calendar;
pub mod date;
pub mod datetime;
pub mod error;
pub mod format;
pub mod gregorian;
pub mod laws;
pub mod parse;
pub mod season;
pub mod text;

pub use date::{max_parsi_date, min_parsi_date, ParsiDate};
pub use datetime::ParsiDateTime;
pub use error::{DateError, ParseErrorKind};
pub use gregorian::{GregorianDate, GregorianDateTime};
pub use season::Season;
