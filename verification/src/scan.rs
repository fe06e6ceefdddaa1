//! The scan of an image for its darkest and its lightest pixel.
//!
//! The scan compares pixels by luminance level. A level stands for a relative
//! luminance, a number from 0 to 1, and is that number in its binary64 form
//! read as an integer: of two such numbers the larger has the larger level.

use vstd::prelude::*;
use crate::colour::{black, white, Rgb};

verus! {

/// The level of luminance 0, that of black.
pub const LEVEL_BLACK: u64 = 0;

/// The level of luminance 1, that of white.
pub const LEVEL_WHITE: u64 = 0x3FF0_0000_0000_0000;

/// A pixel as the scan sees it: its colour and the level of its luminance.
#[derive(Clone, Copy, Debug, PartialEq, Eq, Structural)]
pub struct Sample {
    pub colour: Rgb,
    pub level: u64,
}

/// What a scan has found so far.
#[derive(Clone, Copy, Debug, PartialEq, Eq, Structural)]
pub struct Extremes {
    pub lowest: Rgb,
    pub lowest_level: u64,
    pub highest: Rgb,
    pub highest_level: u64,
}

/// Before the first pixel, the lightest so far is black and the darkest so
/// far is white.
pub open spec fn scan_start() -> Extremes {
    Extremes {
        lowest: white(),
        lowest_level: LEVEL_WHITE,
        highest: black(),
        highest_level: LEVEL_BLACK,
    }
}

/// One pixel more. A pixel above the lightest so far takes its place, and is
/// then not held against the darkest; any other pixel takes the place of the
/// darkest so far if it is below it.
pub open spec fn scan_step(found: Extremes, sample: Sample) -> Extremes {
    if sample.level > found.highest_level {
        Extremes { highest: sample.colour, highest_level: sample.level, ..found }
    } else if sample.level < found.lowest_level {
        Extremes { lowest: sample.colour, lowest_level: sample.level, ..found }
    } else {
        found
    }
}

/// The scan of a run of pixels, from the first to the last.
pub open spec fn scan(samples: Seq<Sample>) -> Extremes
    decreases samples.len(),
{
    if samples.len() == 0 {
        scan_start()
    } else {
        scan_step(scan(samples.drop_last()), samples.last())
    }
}

impl Sample {
    /// The sample of a colour at a level.
    pub fn new(colour: Rgb, level: u64) -> (sample: Sample)
        ensures
            sample == (Sample { colour, level }),
    {
        Sample { colour, level }
    }
}

impl Extremes {
    /// The state of a scan before its first pixel.
    pub fn start() -> (found: Extremes)
        ensures
            found == scan_start(),
    {
        Extremes {
            lowest: Rgb::new(255, 255, 255),
            lowest_level: LEVEL_WHITE,
            highest: Rgb::new(0, 0, 0),
            highest_level: LEVEL_BLACK,
        }
    }

    /// The state of a scan after one pixel more.
    pub fn observe(self, sample: Sample) -> (found: Extremes)
        ensures
            found == scan_step(self, sample),
    {
        if sample.level > self.highest_level {
            Extremes {
                lowest: self.lowest,
                lowest_level: self.lowest_level,
                highest: sample.colour,
                highest_level: sample.level,
            }
        } else if sample.level < self.lowest_level {
            Extremes {
                lowest: sample.colour,
                lowest_level: sample.level,
                highest: self.highest,
                highest_level: self.highest_level,
            }
        } else {
            self
        }
    }
}

/// Scans the pixels of an image in order and gives the darkest and the
/// lightest that the scan found, in this order.
pub fn lowest_highest_luminance_rgb(samples: &Vec<Sample>) -> (extremes: (Rgb, Rgb))
    ensures
        extremes.0 == scan(samples@).lowest,
        extremes.1 == scan(samples@).highest,
{
    let mut found = Extremes::start();
    let mut i: usize = 0;
    while i < samples.len()
        invariant
            i <= samples@.len(),
            found == scan(samples@.take(i as int)),
        decreases samples@.len() - i,
    {
        proof {
            assert(samples@.take(i + 1).drop_last() =~= samples@.take(i as int));
        }
        found = found.observe(samples[i]);
        i += 1;
    }
    proof {
        assert(samples@.take(i as int) =~= samples@);
    }
    (found.lowest, found.highest)
}

/// Pixel `i` is lighter than black and than every pixel before it: the scan
/// takes it for the lightest so far.
pub open spec fn is_record(samples: Seq<Sample>, i: int) -> bool {
    &&& 0 <= i < samples.len()
    &&& samples[i].level > LEVEL_BLACK
    &&& forall|j: int| 0 <= j < i ==> samples[j].level < samples[i].level
}

/// Every pixel is lighter than all before it, and the first is lighter than
/// black.
pub open spec fn rising(samples: Seq<Sample>) -> bool {
    forall|i: int| 0 <= i < samples.len() ==> is_record(samples, i)
}

/// Whether a pixel is a record depends only on the pixels up to it.
proof fn lemma_record_of_prefix(samples: Seq<Sample>, i: int)
    requires
        0 <= i < samples.len() - 1,
    ensures
        is_record(samples.drop_last(), i) == is_record(samples, i),
{
    let front = samples.drop_last();
    if is_record(samples, i) {
        assert forall|j: int| 0 <= j < i implies front[j].level < front[i].level by {
            assert(samples[j].level < samples[i].level);
        }
    }
    if is_record(front, i) {
        assert forall|j: int| 0 <= j < i implies samples[j].level < samples[i].level by {
            assert(front[j].level < front[i].level);
        }
    }
}

/// What the scan finds, said without the scan.
///
/// The lightest is the first pixel of the greatest level, or black where no
/// pixel is above black. The darkest is chosen among the pixels that are no
/// records: it is the first of the least level among them, or white where
/// none of them is below white.
pub proof fn lemma_scan_finds(samples: Seq<Sample>)
    ensures
        forall|i: int| 0 <= i < samples.len() ==> samples[i].level <= scan(samples).highest_level,
        scan(samples).highest_level == LEVEL_BLACK ==> scan(samples).highest == black(),
        scan(samples).highest_level > LEVEL_BLACK ==> exists|i: int|
            #![trigger is_record(samples, i)]
            {
                &&& is_record(samples, i)
                &&& samples[i].level == scan(samples).highest_level
                &&& samples[i].colour == scan(samples).highest
            },
        scan(samples).lowest_level <= LEVEL_WHITE,
        forall|i: int|
            #![trigger is_record(samples, i)]
            0 <= i < samples.len() && !is_record(samples, i) ==> scan(samples).lowest_level
                <= samples[i].level,
        scan(samples).lowest_level == LEVEL_WHITE ==> scan(samples).lowest == white(),
        scan(samples).lowest_level < LEVEL_WHITE ==> exists|i: int|
            #![trigger is_record(samples, i)]
            {
                &&& 0 <= i < samples.len()
                &&& !is_record(samples, i)
                &&& samples[i].level == scan(samples).lowest_level
                &&& samples[i].colour == scan(samples).lowest
                &&& forall|j: int|
                    #![trigger is_record(samples, j)]
                    0 <= j < i && !is_record(samples, j) ==> samples[j].level > samples[i].level
            },
    decreases samples.len(),
{
    if samples.len() > 0 {
        let front = samples.drop_last();
        let last = samples.len() - 1;
        let before = scan(front);
        let after = scan(samples);
        lemma_scan_finds(front);
        assert forall|i: int| 0 <= i < last implies is_record(front, i) == is_record(
            samples,
            i,
        ) by {
            lemma_record_of_prefix(samples, i);
        }
        assert(forall|i: int| 0 <= i < last ==> front[i] == samples[i]);
        // The last pixel is a record exactly when it is above the lightest so far.
        if samples[last].level > before.highest_level {
            assert forall|j: int| 0 <= j < last implies samples[j].level
                < samples[last].level by {
                assert(front[j].level <= before.highest_level);
            }
            assert(is_record(samples, last));
        } else {
            if before.highest_level > LEVEL_BLACK {
                let top = choose|i: int|
                    #![trigger is_record(front, i)]
                    is_record(front, i) && front[i].level == before.highest_level && front[i].colour
                        == before.highest;
                assert(samples[top].level >= samples[last].level);
                assert(!is_record(samples, last));
                assert(is_record(samples, top));
            } else {
                assert(!is_record(samples, last));
            }
        }
        // The lightest.
        if after.highest_level > LEVEL_BLACK {
            if samples[last].level > before.highest_level {
                assert(is_record(samples, last) && samples[last].level == after.highest_level
                    && samples[last].colour == after.highest);
            } else {
                let top = choose|i: int|
                    #![trigger is_record(front, i)]
                    is_record(front, i) && front[i].level == before.highest_level && front[i].colour
                        == before.highest;
                assert(is_record(samples, top) && samples[top].level == after.highest_level
                    && samples[top].colour == after.highest);
            }
        }
        // The darkest.
        assert forall|i: int|
            #![trigger is_record(samples, i)]
            0 <= i < samples.len() && !is_record(samples, i) implies after.lowest_level
            <= samples[i].level by {
            if i < last {
                assert(!is_record(front, i));
                assert(before.lowest_level <= front[i].level);
            }
        }
        if after.lowest_level < LEVEL_WHITE {
            if samples[last].level <= before.highest_level && samples[last].level
                < before.lowest_level {
                assert forall|j: int|
                    #![trigger is_record(samples, j)]
                    0 <= j < last && !is_record(samples, j) implies samples[j].level
                    > samples[last].level by {
                    assert(!is_record(front, j));
                    assert(before.lowest_level <= front[j].level);
                }
                assert(!is_record(samples, last));
            } else {
                assert(after.lowest_level == before.lowest_level);
                let low = choose|i: int|
                    #![trigger is_record(front, i)]
                    {
                        &&& 0 <= i < front.len()
                        &&& !is_record(front, i)
                        &&& front[i].level == before.lowest_level
                        &&& front[i].colour == before.lowest
                        &&& forall|j: int|
                            #![trigger is_record(front, j)]
                            0 <= j < i && !is_record(front, j) ==> front[j].level > front[i].level
                    };
                assert forall|j: int|
                    #![trigger is_record(samples, j)]
                    0 <= j < low && !is_record(samples, j) implies samples[j].level
                    > samples[low].level by {
                    assert(!is_record(front, j));
                }
                assert(!is_record(samples, low));
            }
        }
    }
}

/// Where no pixel is lighter than white, neither the darkest nor the
/// lightest that a scan gives is.
pub proof fn lemma_scan_within_white(samples: Seq<Sample>)
    requires
        forall|i: int| 0 <= i < samples.len() ==> samples[i].level <= LEVEL_WHITE,
    ensures
        LEVEL_BLACK <= scan(samples).lowest_level <= LEVEL_WHITE,
        LEVEL_BLACK <= scan(samples).highest_level <= LEVEL_WHITE,
{
    lemma_scan_finds(samples);
    let found = scan(samples);
    if found.highest_level > LEVEL_BLACK {
        let top = choose|i: int|
            #![trigger is_record(samples, i)]
            is_record(samples, i) && samples[i].level == found.highest_level;
        assert(samples[top].level <= LEVEL_WHITE);
    }
}

/// The darkest pixel that a scan gives is no lighter than the lightest, for
/// every image but one that rises from pixel to pixel and ends below white.
pub proof fn lemma_darkest_below_lightest(samples: Seq<Sample>)
    requires
        samples.len() > 0,
        forall|i: int| 0 <= i < samples.len() ==> samples[i].level <= LEVEL_WHITE,
        !(rising(samples) && samples.last().level < LEVEL_WHITE),
    ensures
        scan(samples).lowest_level <= scan(samples).highest_level,
{
    lemma_scan_finds(samples);
    let found = scan(samples);
    if rising(samples) {
        assert(samples[samples.len() - 1].level <= found.highest_level);
    } else {
        let i = choose|i: int| 0 <= i < samples.len() && !is_record(samples, i);
        assert(found.lowest_level <= samples[i].level);
        assert(samples[i].level <= found.highest_level);
    }
}

/// In an image that rises from pixel to pixel no pixel is held against the
/// darkest so far: the scan gives white for the darkest and the last pixel
/// for the lightest. Where that pixel is below white, the darkest is above
/// the lightest.
pub proof fn lemma_rising_scan(samples: Seq<Sample>)
    requires
        samples.len() > 0,
        rising(samples),
    ensures
        scan(samples).lowest == white(),
        scan(samples).lowest_level == LEVEL_WHITE,
        scan(samples).highest == samples.last().colour,
        scan(samples).highest_level == samples.last().level,
        samples.last().level < LEVEL_WHITE ==> scan(samples).lowest_level > scan(
            samples,
        ).highest_level,
{
    lemma_scan_finds(samples);
    let found = scan(samples);
    let last = samples.len() - 1;
    assert(is_record(samples, last));
    assert(samples[last].level <= found.highest_level);
    let top = choose|i: int|
        #![trigger is_record(samples, i)]
        is_record(samples, i) && samples[i].level == found.highest_level && samples[i].colour
            == found.highest;
    if top < last {
        assert(samples[top].level < samples[last].level);
    }
    if found.lowest_level < LEVEL_WHITE {
        let low = choose|i: int|
            #![trigger is_record(samples, i)]
            0 <= i < samples.len() && !is_record(samples, i) && samples[i].level
                == found.lowest_level;
        assert(is_record(samples, low));
    }
}

} // verus!
