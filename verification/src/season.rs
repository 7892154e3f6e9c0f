//! The four seasons of the Persian year.
use vstd::prelude::*;

verus! {

/// One of the four seasons; each spans three months.
#[derive(Debug, PartialEq, Eq, Clone, Copy, Hash, Structural)]
pub enum Season {
    /// Spring: months 1 to 3.
    Bahar,
    /// Summer: months 4 to 6.
    Tabestan,
    /// Autumn: months 7 to 9.
    Paeez,
    /// Winter: months 10 to 12.
    Zemestan,
}

/// The season of a month 1..=12.
pub open spec fn season_of_month(m: int) -> Season {
    if m <= 3 {
        Season::Bahar
    } else if m <= 6 {
        Season::Tabestan
    } else if m <= 9 {
        Season::Paeez
    } else {
        Season::Zemestan
    }
}

pub open spec fn season_start_month(s: Season) -> int {
    match s {
        Season::Bahar => 1,
        Season::Tabestan => 4,
        Season::Paeez => 7,
        Season::Zemestan => 10,
    }
}

pub open spec fn season_name_persian(s: Season) -> Seq<char> {
    match s {
        Season::Bahar => "بهار"@,
        Season::Tabestan => "تابستان"@,
        Season::Paeez => "پاییز"@,
        Season::Zemestan => "زمستان"@,
    }
}

pub open spec fn season_name_english(s: Season) -> Seq<char> {
    match s {
        Season::Bahar => "Spring"@,
        Season::Tabestan => "Summer"@,
        Season::Paeez => "Autumn"@,
        Season::Zemestan => "Winter"@,
    }
}

impl Season {
    /// The Persian name of the season.
    pub fn name_persian(&self) -> (r: &'static str)
        ensures
            r@ == season_name_persian(*self),
    {
        match self {
            Season::Bahar => "بهار",
            Season::Tabestan => "تابستان",
            Season::Paeez => "پاییز",
            Season::Zemestan => "زمستان",
        }
    }

    /// The English name of the season.
    pub fn name_english(&self) -> (r: &'static str)
        ensures
            r@ == season_name_english(*self),
    {
        match self {
            Season::Bahar => "Spring",
            Season::Tabestan => "Summer",
            Season::Paeez => "Autumn",
            Season::Zemestan => "Winter",
        }
    }

    /// The first month (1..=12) of the season.
    pub fn start_month(&self) -> (r: u32)
        ensures
            r == season_start_month(*self),
    {
        match self {
            Season::Bahar => 1,
            Season::Tabestan => 4,
            Season::Paeez => 7,
            Season::Zemestan => 10,
        }
    }

    /// The last month (1..=12) of the season.
    pub fn end_month(&self) -> (r: u32)
        ensures
            r == season_start_month(*self) + 2,
    {
        match self {
            Season::Bahar => 3,
            Season::Tabestan => 6,
            Season::Paeez => 9,
            Season::Zemestan => 12,
        }
    }

    /// The Persian name as an owned string (what the season displays as).
    pub fn to_string(&self) -> (r: String)
        ensures
            r@ == season_name_persian(*self),
    {
        self.name_persian().to_owned()
    }
}

} // verus!
