//! Tempo synced live performance effects.
//!
//! The effects sit in the slots of a chain and are engaged while a pad is held
//! down. What is decided here: the audio history kept by the buffer based
//! effects, the looping of captured slices, the position on the tempo grid, the
//! gate pattern and the state of the pads.

pub mod buffer;
pub mod gate;
pub mod looper;
pub mod pads;
pub mod playhead;

use vstd::prelude::*;

verus! {

/// Number of ticks in a beat. Every division is a whole number of ticks.
pub const TICKS_PER_BEAT: u32 = 48;

/// Number of divisions.
pub const NUM_DIVISIONS: usize = 14;

/// Tempo synced rate of an effect, expressed as a note value.
#[derive(Debug, Default, Clone, Copy, PartialEq, Eq, Structural)]
pub enum Division {
    Bar,
    Half,
    DottedQuarter,
    HalfTriplet,
    Quarter,
    DottedEighth,
    QuarterTriplet,
    #[default]
    Eighth,
    DottedSixteenth,
    EighthTriplet,
    Sixteenth,
    SixteenthTriplet,
    ThirtySecond,
    SixtyFourth,
}

/// All divisions, ordered from the longest to the shortest.
pub const DIVISIONS: [Division; 14] = [
    Division::Bar,
    Division::Half,
    Division::DottedQuarter,
    Division::HalfTriplet,
    Division::Quarter,
    Division::DottedEighth,
    Division::QuarterTriplet,
    Division::Eighth,
    Division::DottedSixteenth,
    Division::EighthTriplet,
    Division::Sixteenth,
    Division::SixteenthTriplet,
    Division::ThirtySecond,
    Division::SixtyFourth,
];

impl Division {
    /// Length of the division in ticks, `TICKS_PER_BEAT` ticks to the beat.
    pub open spec fn spec_ticks(self) -> nat {
        match self {
            Division::Bar => 192,
            Division::Half => 96,
            Division::DottedQuarter => 72,
            Division::HalfTriplet => 64,
            Division::Quarter => 48,
            Division::DottedEighth => 36,
            Division::QuarterTriplet => 32,
            Division::Eighth => 24,
            Division::DottedSixteenth => 18,
            Division::EighthTriplet => 16,
            Division::Sixteenth => 12,
            Division::SixteenthTriplet => 8,
            Division::ThirtySecond => 6,
            Division::SixtyFourth => 3,
        }
    }

    /// Position of the division, `0` being the longest.
    pub open spec fn spec_list_index(self) -> nat {
        match self {
            Division::Bar => 0,
            Division::Half => 1,
            Division::DottedQuarter => 2,
            Division::HalfTriplet => 3,
            Division::Quarter => 4,
            Division::DottedEighth => 5,
            Division::QuarterTriplet => 6,
            Division::Eighth => 7,
            Division::DottedSixteenth => 8,
            Division::EighthTriplet => 9,
            Division::Sixteenth => 10,
            Division::SixteenthTriplet => 11,
            Division::ThirtySecond => 12,
            Division::SixtyFourth => 13,
        }
    }

    /// The division at a position, `0` being the longest.
    pub open spec fn spec_from_index(index: nat) -> Division {
        if index == 0 {
            Division::Bar
        } else if index == 1 {
            Division::Half
        } else if index == 2 {
            Division::DottedQuarter
        } else if index == 3 {
            Division::HalfTriplet
        } else if index == 4 {
            Division::Quarter
        } else if index == 5 {
            Division::DottedEighth
        } else if index == 6 {
            Division::QuarterTriplet
        } else if index == 7 {
            Division::Eighth
        } else if index == 8 {
            Division::DottedSixteenth
        } else if index == 9 {
            Division::EighthTriplet
        } else if index == 10 {
            Division::Sixteenth
        } else if index == 11 {
            Division::SixteenthTriplet
        } else if index == 12 {
            Division::ThirtySecond
        } else {
            Division::SixtyFourth
        }
    }

    /// The short display name.
    pub open spec fn spec_name(self) -> Seq<char> {
        match self {
            Division::Bar => "1 bar"@,
            Division::Half => "1/2"@,
            Division::DottedQuarter => "1/4."@,
            Division::HalfTriplet => "1/2T"@,
            Division::Quarter => "1/4"@,
            Division::DottedEighth => "1/8."@,
            Division::QuarterTriplet => "1/4T"@,
            Division::Eighth => "1/8"@,
            Division::DottedSixteenth => "1/16."@,
            Division::EighthTriplet => "1/8T"@,
            Division::Sixteenth => "1/16"@,
            Division::SixteenthTriplet => "1/16T"@,
            Division::ThirtySecond => "1/32"@,
            Division::SixtyFourth => "1/64"@,
        }
    }

    /// Returns the length of the division in ticks, `TICKS_PER_BEAT` of them
    /// making a beat: a bar is `192` ticks, a sixteenth `12`, a sixteenth
    /// triplet `8`.
    pub fn ticks(&self) -> (r: u32)
        ensures
            r == self.spec_ticks(),
    {
        match self {
            Division::Bar => 192,
            Division::Half => 96,
            Division::DottedQuarter => 72,
            Division::HalfTriplet => 64,
            Division::Quarter => 48,
            Division::DottedEighth => 36,
            Division::QuarterTriplet => 32,
            Division::Eighth => 24,
            Division::DottedSixteenth => 18,
            Division::EighthTriplet => 16,
            Division::Sixteenth => 12,
            Division::SixteenthTriplet => 8,
            Division::ThirtySecond => 6,
            Division::SixtyFourth => 3,
        }
    }

    /// Returns a short name for display purposes.
    pub fn name(&self) -> (r: &'static str)
        ensures
            r@ == self.spec_name(),
    {
        match self {
            Division::Bar => "1 bar",
            Division::Half => "1/2",
            Division::DottedQuarter => "1/4.",
            Division::HalfTriplet => "1/2T",
            Division::Quarter => "1/4",
            Division::DottedEighth => "1/8.",
            Division::QuarterTriplet => "1/4T",
            Division::Eighth => "1/8",
            Division::DottedSixteenth => "1/16.",
            Division::EighthTriplet => "1/8T",
            Division::Sixteenth => "1/16",
            Division::SixteenthTriplet => "1/16T",
            Division::ThirtySecond => "1/32",
            Division::SixtyFourth => "1/64",
        }
    }

    /// Returns the position of the division in `DIVISIONS`, `0` being the
    /// longest.
    pub fn index(&self) -> (r: usize)
        ensures
            r == self.spec_list_index(),
    {
        match self {
            Division::Bar => 0,
            Division::Half => 1,
            Division::DottedQuarter => 2,
            Division::HalfTriplet => 3,
            Division::Quarter => 4,
            Division::DottedEighth => 5,
            Division::QuarterTriplet => 6,
            Division::Eighth => 7,
            Division::DottedSixteenth => 8,
            Division::EighthTriplet => 9,
            Division::Sixteenth => 10,
            Division::SixteenthTriplet => 11,
            Division::ThirtySecond => 12,
            Division::SixtyFourth => 13,
        }
    }

    /// Returns the division at a position of `DIVISIONS`, a position past the
    /// end selecting the shortest one.
    pub fn from_index(index: usize) -> (r: Division)
        ensures
            r == Division::spec_from_index(index as nat),
    {
        let index: usize = if index > NUM_DIVISIONS - 1 { NUM_DIVISIONS - 1 } else { index };
        DIVISIONS[index]
    }
}

/// Each division is its note value in beats, `TICKS_PER_BEAT` ticks to the
/// beat: a bar is 4 beats, a half 2, a dotted quarter 3/2, a half triplet 4/3,
/// a quarter 1, a dotted eighth 3/4, a quarter triplet 2/3, an eighth 1/2, a
/// dotted sixteenth 3/8, an eighth triplet 1/3, a sixteenth 1/4, a sixteenth
/// triplet 1/6, a thirty-second 1/8 and a sixty-fourth 1/16.
pub proof fn lemma_division_lengths_in_beats()
    ensures
        Division::Bar.spec_ticks() == 4 * TICKS_PER_BEAT,
        Division::Half.spec_ticks() == 2 * TICKS_PER_BEAT,
        2 * Division::DottedQuarter.spec_ticks() == 3 * TICKS_PER_BEAT,
        3 * Division::HalfTriplet.spec_ticks() == 4 * TICKS_PER_BEAT,
        Division::Quarter.spec_ticks() == TICKS_PER_BEAT,
        4 * Division::DottedEighth.spec_ticks() == 3 * TICKS_PER_BEAT,
        3 * Division::QuarterTriplet.spec_ticks() == 2 * TICKS_PER_BEAT,
        2 * Division::Eighth.spec_ticks() == TICKS_PER_BEAT,
        8 * Division::DottedSixteenth.spec_ticks() == 3 * TICKS_PER_BEAT,
        3 * Division::EighthTriplet.spec_ticks() == TICKS_PER_BEAT,
        4 * Division::Sixteenth.spec_ticks() == TICKS_PER_BEAT,
        6 * Division::SixteenthTriplet.spec_ticks() == TICKS_PER_BEAT,
        8 * Division::ThirtySecond.spec_ticks() == TICKS_PER_BEAT,
        16 * Division::SixtyFourth.spec_ticks() == TICKS_PER_BEAT,
{
}

/// How the note values relate: each straight value is twice the next shorter
/// one, a dotted value is one and a half times its straight value, and a
/// triplet fits three in the time of two of its straight value.
pub proof fn lemma_division_note_values()
    ensures
        Division::Bar.spec_ticks() == 2 * Division::Half.spec_ticks(),
        Division::Half.spec_ticks() == 2 * Division::Quarter.spec_ticks(),
        Division::Quarter.spec_ticks() == 2 * Division::Eighth.spec_ticks(),
        Division::Eighth.spec_ticks() == 2 * Division::Sixteenth.spec_ticks(),
        Division::Sixteenth.spec_ticks() == 2 * Division::ThirtySecond.spec_ticks(),
        Division::ThirtySecond.spec_ticks() == 2 * Division::SixtyFourth.spec_ticks(),
        2 * Division::DottedQuarter.spec_ticks() == 3 * Division::Quarter.spec_ticks(),
        2 * Division::DottedEighth.spec_ticks() == 3 * Division::Eighth.spec_ticks(),
        2 * Division::DottedSixteenth.spec_ticks() == 3 * Division::Sixteenth.spec_ticks(),
        3 * Division::HalfTriplet.spec_ticks() == 2 * Division::Half.spec_ticks(),
        3 * Division::QuarterTriplet.spec_ticks() == 2 * Division::Quarter.spec_ticks(),
        3 * Division::EighthTriplet.spec_ticks() == 2 * Division::Eighth.spec_ticks(),
        3 * Division::SixteenthTriplet.spec_ticks() == 2 * Division::Sixteenth.spec_ticks(),
{
}

/// Divisions are ordered from the longest to the shortest: a division further
/// down the list is strictly shorter.
pub proof fn lemma_divisions_ordered(i: nat, j: nat)
    requires
        i < j < NUM_DIVISIONS,
    ensures
        Division::spec_from_index(i).spec_ticks() > Division::spec_from_index(j).spec_ticks(),
{
}

/// Every division stands in the list exactly once, at its own position.
pub proof fn lemma_division_index_round_trip(division: Division)
    ensures
        division.spec_list_index() < NUM_DIVISIONS,
        Division::spec_from_index(division.spec_list_index()) == division,
{
}

/// The effects available from the factory.
#[derive(Debug, Clone, Copy, PartialEq, Eq, Structural)]
pub enum EffectKind {
    BeatRepeat,
    Reverse,
    TapeStop,
    Gate,
    FilterSweep,
    Crush,
    Delay,
}

/// All effect kinds.
pub const EFFECT_KINDS: [EffectKind; 7] = [
    EffectKind::BeatRepeat,
    EffectKind::Reverse,
    EffectKind::TapeStop,
    EffectKind::Gate,
    EffectKind::FilterSweep,
    EffectKind::Crush,
    EffectKind::Delay,
];

impl EffectKind {
    /// The short display name.
    pub open spec fn spec_name(self) -> Seq<char> {
        match self {
            EffectKind::BeatRepeat => "Repeat"@,
            EffectKind::Reverse => "Reverse"@,
            EffectKind::TapeStop => "Tape Stop"@,
            EffectKind::Gate => "Gate"@,
            EffectKind::FilterSweep => "Filter"@,
            EffectKind::Crush => "Crush"@,
            EffectKind::Delay => "Delay"@,
        }
    }

    /// Returns a short name for display purposes.
    pub fn name(&self) -> (r: &'static str)
        ensures
            r@ == self.spec_name(),
    {
        match self {
            EffectKind::BeatRepeat => "Repeat",
            EffectKind::Reverse => "Reverse",
            EffectKind::TapeStop => "Tape Stop",
            EffectKind::Gate => "Gate",
            EffectKind::FilterSweep => "Filter",
            EffectKind::Crush => "Crush",
            EffectKind::Delay => "Delay",
        }
    }
}

} // verus!
