//! Errors reported by the library.
use vstd::prelude::*;

verus! {

/// Why a string could not be parsed into a date or date-time.
#[derive(Debug, PartialEq, Eq, Clone, Copy, Hash, Structural)]
pub enum ParseErrorKind {
    /// The input does not follow the literal structure of the format string,
    /// has trailing characters, or lacks a component.
    FormatMismatch,
    /// A numeric component is not made of the required number of ASCII digits.
    InvalidNumber,
    /// The components form no valid Persian date.
    InvalidDateValue,
    /// The components form no valid time of day.
    InvalidTimeValue,
    /// The format string holds a specifier that parsing does not support.
    UnsupportedSpecifier,
    /// No Persian month name stands where `%B` expects one.
    InvalidMonthName,
    /// Reserved for weekday-name parsing; never returned.
    InvalidWeekdayName,
}

/// The error type of every fallible operation of the library.
#[derive(Debug, PartialEq, Eq, Clone, Copy, Hash, Structural)]
pub enum DateError {
    /// Year, month and day form no date of the supported range 1..=9999.
    InvalidDate,
    /// Hour, minute or second is out of range.
    InvalidTime,
    /// Conversion to or from the Gregorian calendar failed, for instance for a
    /// Gregorian date before 622-03-21 or after the supported Persian range.
    GregorianConversionError,
    /// A string could not be parsed.
    ParseError(ParseErrorKind),
    /// Date arithmetic left the supported range or overflowed.
    ArithmeticOverflow,
    /// An ordinal day outside 1..=365 (366 in a leap year).
    InvalidOrdinal,
}

pub open spec fn parse_error_kind_message(k: ParseErrorKind) -> Seq<char> {
    match k {
        ParseErrorKind::FormatMismatch => "input string does not match the format string's structure"@,
        ParseErrorKind::InvalidNumber => "a numeric component could not be parsed or had an incorrect number of digits"@,
        ParseErrorKind::InvalidDateValue => "the parsed components form a logically invalid date (e.g., day 30 in Esfand of a common year)"@,
        ParseErrorKind::InvalidTimeValue => "the parsed components form a logically invalid time (e.g., hour 24)"@,
        ParseErrorKind::UnsupportedSpecifier => "the format string contains a specifier that is not supported for parsing"@,
        ParseErrorKind::InvalidMonthName => "could not recognize a valid Persian month name for the '%B' specifier"@,
        ParseErrorKind::InvalidWeekdayName => "could not recognize a valid Persian weekday name (currently unused)"@,
    }
}

pub open spec fn date_error_message(e: DateError) -> Seq<char> {
    match e {
        DateError::InvalidDate => "Invalid Persian date: year, month, or day is out of range or inconsistent"@,
        DateError::InvalidTime => "Invalid time: hour, minute, or second is out of range"@,
        DateError::GregorianConversionError => "Failed to convert to or from the Gregorian calendar"@,
        DateError::ParseError(k) => "Parsing error: "@ + parse_error_kind_message(k),
        DateError::ArithmeticOverflow => "Date arithmetic resulted in an overflow or a date outside the supported range"@,
        DateError::InvalidOrdinal => "Invalid ordinal day: must be between 1 and 365/366"@,
    }
}

impl ParseErrorKind {
    fn message(&self) -> (r: &'static str)
        ensures
            r@ == parse_error_kind_message(*self),
    {
        match self {
            ParseErrorKind::FormatMismatch => "input string does not match the format string's structure",
            ParseErrorKind::InvalidNumber => "a numeric component could not be parsed or had an incorrect number of digits",
            ParseErrorKind::InvalidDateValue => "the parsed components form a logically invalid date (e.g., day 30 in Esfand of a common year)",
            ParseErrorKind::InvalidTimeValue => "the parsed components form a logically invalid time (e.g., hour 24)",
            ParseErrorKind::UnsupportedSpecifier => "the format string contains a specifier that is not supported for parsing",
            ParseErrorKind::InvalidMonthName => "could not recognize a valid Persian month name for the '%B' specifier",
            ParseErrorKind::InvalidWeekdayName => "could not recognize a valid Persian weekday name (currently unused)",
        }
    }

    /// The human-readable description of this kind.
    pub fn to_string(&self) -> (r: String)
        ensures
            r@ == parse_error_kind_message(*self),
    {
        self.message().to_owned()
    }
}

impl DateError {
    /// The human-readable description of this error.
    pub fn to_string(&self) -> (r: String)
        ensures
            r@ == date_error_message(*self),
    {
        match self {
            DateError::InvalidDate => "Invalid Persian date: year, month, or day is out of range or inconsistent".to_owned(),
            DateError::InvalidTime => "Invalid time: hour, minute, or second is out of range".to_owned(),
            DateError::GregorianConversionError => "Failed to convert to or from the Gregorian calendar".to_owned(),
            DateError::ParseError(kind) => {
                let mut s = "Parsing error: ".to_owned();
                s.append(kind.message());
                s
            },
            DateError::ArithmeticOverflow => "Date arithmetic resulted in an overflow or a date outside the supported range".to_owned(),
            DateError::InvalidOrdinal => "Invalid ordinal day: must be between 1 and 365/366".to_owned(),
        }
    }
}

} // verus!
