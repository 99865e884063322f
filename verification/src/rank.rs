//! Ranks: the grade that an accuracy earns.

use vstd::prelude::*;

verus! {

/// Grades, from best to worst.
#[derive(Copy, Clone, Debug, PartialEq, Eq, Structural)]
pub enum Rank {
    SSSP,
    SSS,
    SSP,
    SS,
    SP,
    S,
    AAA,
    AA,
    A,
    BBB,
    BB,
    B,
    C,
    D,
}

impl Rank {
    /// Position of a grade: 0 for the best, 13 for the worst.
    pub open spec fn ordinal(&self) -> int {
        match *self {
            Rank::SSSP => 0,
            Rank::SSS => 1,
            Rank::SSP => 2,
            Rank::SS => 3,
            Rank::SP => 4,
            Rank::S => 5,
            Rank::AAA => 6,
            Rank::AA => 7,
            Rank::A => 8,
            Rank::BBB => 9,
            Rank::BB => 10,
            Rank::B => 11,
            Rank::C => 12,
            Rank::D => 13,
        }
    }

    /// The grade of an accuracy given in thousandths of a percent: the best
    /// grade whose threshold the accuracy reaches.
    pub open spec fn of(p: int) -> Rank {
        if p >= 100_500 {
            Rank::SSSP
        } else if p >= 100_000 {
            Rank::SSS
        } else if p >= 99_500 {
            Rank::SSP
        } else if p >= 99_000 {
            Rank::SS
        } else if p >= 98_000 {
            Rank::SP
        } else if p >= 97_000 {
            Rank::S
        } else if p >= 94_000 {
            Rank::AAA
        } else if p >= 90_000 {
            Rank::AA
        } else if p >= 80_000 {
            Rank::A
        } else if p >= 75_000 {
            Rank::BBB
        } else if p >= 70_000 {
            Rank::BB
        } else if p >= 60_000 {
            Rank::B
        } else if p >= 50_000 {
            Rank::C
        } else {
            Rank::D
        }
    }

    /// The name of a grade as it is shown.
    pub open spec fn name(&self) -> Seq<char> {
        match *self {
            Rank::SSSP => "SSS+"@,
            Rank::SSS => "SSS"@,
            Rank::SSP => "SS+"@,
            Rank::SS => "SS"@,
            Rank::SP => "S+"@,
            Rank::S => "S"@,
            Rank::AAA => "AAA"@,
            Rank::AA => "AA"@,
            Rank::A => "A"@,
            Rank::BBB => "BBB"@,
            Rank::BB => "BB"@,
            Rank::B => "B"@,
            Rank::C => "C"@,
            Rank::D => "D"@,
        }
    }

    /// A higher accuracy never earns a worse grade.
    pub proof fn lemma_of_monotone(lower: int, higher: int)
        requires
            lower <= higher,
        ensures
            Rank::of(higher).ordinal() <= Rank::of(lower).ordinal(),
    {
    }

    /// The grade of an accuracy in thousandths of a percent.
    pub fn from_percentage(p: u32) -> (r: Rank)
        ensures
            r == Rank::of(p as int),
    {
        if p >= 100_500 {
            Rank::SSSP
        } else if p >= 100_000 {
            Rank::SSS
        } else if p >= 99_500 {
            Rank::SSP
        } else if p >= 99_000 {
            Rank::SS
        } else if p >= 98_000 {
            Rank::SP
        } else if p >= 97_000 {
            Rank::S
        } else if p >= 94_000 {
            Rank::AAA
        } else if p >= 90_000 {
            Rank::AA
        } else if p >= 80_000 {
            Rank::A
        } else if p >= 75_000 {
            Rank::BBB
        } else if p >= 70_000 {
            Rank::BB
        } else if p >= 60_000 {
            Rank::B
        } else if p >= 50_000 {
            Rank::C
        } else {
            Rank::D
        }
    }

    /// The name of the grade as it is shown.
    pub fn label(&self) -> (s: &'static str)
        ensures
            s@ == self.name(),
    {
        match self {
            Rank::SSSP => "SSS+",
            Rank::SSS => "SSS",
            Rank::SSP => "SS+",
            Rank::SS => "SS",
            Rank::SP => "S+",
            Rank::S => "S",
            Rank::AAA => "AAA",
            Rank::AA => "AA",
            Rank::A => "A",
            Rank::BBB => "BBB",
            Rank::BB => "BB",
            Rank::B => "B",
            Rank::C => "C",
            Rank::D => "D",
        }
    }
}

} // verus!
