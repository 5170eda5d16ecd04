//! The meter of the microphone's level.

use vstd::prelude::*;

use crate::arithmetic;
use crate::scalar::Scalar;
use crate::scalar;

verus! {

/// The bit pattern of -70, the lowest level of the meter in dB.
pub const METER_FLOOR: u32 = 0xC28C_0000;

/// The bit pattern of 0.03, the time in seconds in which the level rises most of the way.
pub const ATTACK_TAU: u32 = 0x3CF5_C28F;

/// The bit pattern of 90, how fast the level falls, in dB a second.
pub const RELEASE_RATE: u32 = 0x42B4_0000;

/// The bit pattern of 0.2, how long the peak stays before it falls, in seconds.
pub const PEAK_HOLD_TIME: u32 = 0x3E4C_CCCD;

/// The bit pattern of 90, how fast the peak falls, in dB a second.
pub const PEAK_RELEASE_RATE: u32 = 0x42B4_0000;

/// The bit pattern of 0.1, the longest time in seconds that counts between two readings.
pub const LONGEST_STEP: u32 = 0x3DCC_CCCD;

/// The bit pattern of 1.
pub const ONE: u32 = 0x3F80_0000;

/// The bit pattern of two to the power of minus 23, the least span that a meter is taken to have.
pub const LEAST_SPAN: u32 = 0x3400_0000;

/// The bit pattern of -5, above which the level is too high, in dB.
pub const PEAK_ZONE: u32 = 0xC0A0_0000;

/// The bit pattern of -15, above which the level is good, in dB.
pub const GOOD_ZONE: u32 = 0xC170_0000;

/// The bit pattern of 9, by how many dB the level falls at most between two readings.
pub const LARGEST_FALL: u32 = 0x4110_0000;

/// The bit pattern of two to the power of minus 23, the least part of the way that may be left for
/// a rising level not to come out above the reading.
pub const LEAST_LEFT: u32 = 0x3400_0000;

/// The bit pattern of 2, the height of the line at the peak.
pub const PEAK_LINE_HEIGHT: u32 = 0x4000_0000;

/// What the meter shows: a level that rises and falls smoothly, and a peak that stays for a while
/// before it falls.
#[derive(Clone, Copy, Debug, PartialEq, Eq, Structural)]
pub struct MeterBallistics {
    /// The level, in dB.
    pub db: Scalar,
    /// The peak, in dB.
    pub peak_db: Scalar,
    /// How long the peak still stays, in seconds.
    pub peak_hold_timer: Scalar,
}

/// The time that counts of the time since the last reading.
pub open spec fn step_time(elapsed: Scalar) -> Scalar {
    arithmetic::smaller(elapsed, Scalar { bits: LONGEST_STEP })
}

/// The exponent of the part of the way that a rising level does not go in the time `elapsed`.
pub fn attack_exponent(elapsed: Scalar) -> (r: Scalar)
    ensures
        r == arithmetic::quotient(
            arithmetic::negated(step_time(elapsed)),
            Scalar { bits: ATTACK_TAU },
        ),
{
    elapsed.or_smaller(Scalar { bits: LONGEST_STEP }).negate().over(Scalar { bits: ATTACK_TAU })
}

/// The level after a reading of `target`. It rises but for the part `left` of the way, and falls no
/// faster than its rate in the time `dt`.
pub open spec fn level_after(db: Scalar, target: Scalar, dt: Scalar, left: Scalar) -> Scalar {
    if db.below(target) {
        arithmetic::sum(
            db,
            arithmetic::product(
                arithmetic::difference(target, db),
                arithmetic::difference(Scalar { bits: ONE }, left),
            ),
        )
    } else {
        arithmetic::larger(
            arithmetic::difference(db, arithmetic::product(Scalar { bits: RELEASE_RATE }, dt)),
            target,
        )
    }
}

/// The meter after a reading of `target` that comes `elapsed` seconds after the last.
pub open spec fn advanced(
    m: MeterBallistics,
    target: Scalar,
    elapsed: Scalar,
    left: Scalar,
) -> MeterBallistics {
    let dt = step_time(elapsed);
    let db = level_after(m.db, target, dt, left);
    if arithmetic::at_least(target, m.peak_db) {
        MeterBallistics {
            db,
            peak_db: target,
            peak_hold_timer: Scalar { bits: PEAK_HOLD_TIME },
        }
    } else if (Scalar { bits: 0 }).below(m.peak_hold_timer) {
        MeterBallistics { db, peak_hold_timer: arithmetic::difference(m.peak_hold_timer, dt), ..m }
    } else {
        MeterBallistics {
            db,
            peak_db: arithmetic::larger(
                arithmetic::difference(
                    m.peak_db,
                    arithmetic::product(Scalar { bits: PEAK_RELEASE_RATE }, dt),
                ),
                target,
            ),
            ..m
        }
    }
}

impl MeterBallistics {
    /// A meter that shows the level `floor_db`.
    pub fn new(floor_db: Scalar) -> (r: MeterBallistics)
        ensures
            r == (MeterBallistics {
                db: floor_db,
                peak_db: floor_db,
                peak_hold_timer: Scalar { bits: 0 },
            }),
    {
        MeterBallistics { db: floor_db, peak_db: floor_db, peak_hold_timer: Scalar { bits: 0 } }
    }

    /// Takes a reading of `target_db` that comes `elapsed` seconds after the last. `left` is the
    /// part of the way that a rising level does not go in that time.
    pub fn advance(&mut self, target_db: Scalar, elapsed: Scalar, left: Scalar)
        ensures
            *final(self) == advanced(*old(self), target_db, elapsed, left),
    {
        let dt = elapsed.or_smaller(Scalar { bits: LONGEST_STEP });
        if self.db.is_below(target_db) {
            let alpha = (Scalar { bits: ONE }).minus(left);
            self.db = self.db.plus(target_db.minus(self.db).times(alpha));
        } else {
            let fall = (Scalar { bits: RELEASE_RATE }).times(dt);
            self.db = self.db.minus(fall).or_larger(target_db);
        }
        if target_db.is_at_least(self.peak_db) {
            self.peak_db = target_db;
            self.peak_hold_timer = Scalar { bits: PEAK_HOLD_TIME };
        } else if (Scalar { bits: 0 }).is_below(self.peak_hold_timer) {
            self.peak_hold_timer = self.peak_hold_timer.minus(dt);
        } else {
            let fall = (Scalar { bits: PEAK_RELEASE_RATE }).times(dt);
            self.peak_db = self.peak_db.minus(fall).or_larger(target_db);
        }
    }
}

/// The peak is never below the reading that was taken last; a level that falls is not below it
/// either. A peak that is a number stays one.
pub proof fn peak_covers_reading(m: MeterBallistics, target: Scalar, elapsed: Scalar, left: Scalar)
    requires
        !target.nan(),
    ensures
        !advanced(m, target, elapsed, left).peak_db.below(target),
        !m.db.below(target) ==> !advanced(m, target, elapsed, left).db.below(target),
        !m.peak_db.nan() ==> !advanced(m, target, elapsed, left).peak_db.nan(),
{
}

/// A peak that was reached stays while its time lasts and nothing higher is read.
pub proof fn peak_is_held(m: MeterBallistics, target: Scalar, elapsed: Scalar, left: Scalar)
    requires
        target.below(m.peak_db),
        (Scalar { bits: 0 }).below(m.peak_hold_timer),
    ensures
        advanced(m, target, elapsed, left).peak_db == m.peak_db,
{
}

/// A long pause counts for no more than a short one.
pub proof fn pauses_are_cut(m: MeterBallistics, target: Scalar, elapsed: Scalar, left: Scalar)
    requires
        (Scalar { bits: LONGEST_STEP }).below(elapsed),
    ensures
        advanced(m, target, elapsed, left) == advanced(
            m,
            target,
            Scalar { bits: LONGEST_STEP },
            left,
        ),
{
}

/// The meter as it is drawn.
#[derive(Clone, Copy, Debug, PartialEq, Eq, Structural)]
pub struct MicMeter {
    /// The level, in dB.
    pub db: Scalar,
    /// The peak, in dB.
    pub peak_db: Scalar,
    /// The lowest level that the meter shows, in dB.
    pub min_db: Scalar,
    /// The highest level that the meter shows, in dB.
    pub max_db: Scalar,
}

/// What a part of the meter is.
#[derive(Clone, Copy, Debug, PartialEq, Eq, Structural)]
pub enum MeterPart {
    Track,
    /// Where the level is too high.
    Peak,
    /// Where the level is good.
    Good,
    /// What the level fills.
    Level,
    /// The line at the peak.
    PeakLine,
}

/// A part of the meter, over its whole width.
#[derive(Clone, Copy, Debug, PartialEq, Eq, Structural)]
pub struct MeterBar {
    pub part: MeterPart,
    /// How far below the top it begins.
    pub y: Scalar,
    pub height: Scalar,
}

impl MicMeter {
    /// The part of the meter's height that the level `db` covers.
    pub open spec fn fraction(self, db: Scalar) -> Scalar {
        let span = arithmetic::larger(
            arithmetic::absolute(arithmetic::difference(self.max_db, self.min_db)),
            Scalar { bits: LEAST_SPAN },
        );
        arithmetic::quotient(arithmetic::difference(db, self.min_db), span).clamped(
            Scalar { bits: 0 },
            Scalar { bits: ONE },
        )
    }

    /// How far below `track_top` the level `db` stands on a track of this height.
    pub open spec fn y_of(self, db: Scalar, track_top: Scalar, track_height: Scalar) -> Scalar {
        arithmetic::sum(
            track_top,
            arithmetic::product(
                track_height,
                arithmetic::difference(Scalar { bits: ONE }, self.fraction(db)),
            ),
        )
    }

    /// What is filled up to the level, on a meter of this height.
    pub open spec fn level_bar(self, height: Scalar) -> MeterBar {
        let y = self.y_of(self.db, Scalar { bits: 0 }, height);
        if arithmetic::at_least(height, y) {
            MeterBar { part: MeterPart::Level, y, height: arithmetic::difference(height, y) }
        } else {
            MeterBar {
                part: MeterPart::Level,
                y: height,
                height: arithmetic::difference(y, height),
            }
        }
    }

    /// Where the zone begins in which the level is good, but for the line that parts it from the
    /// one above.
    pub open spec fn zone_line(self, height: Scalar) -> Scalar {
        arithmetic::difference(
            self.y_of(Scalar { bits: PEAK_ZONE }, Scalar { bits: 0 }, height),
            Scalar { bits: PEAK_LINE_HEIGHT },
        )
    }

    /// The zone in which the level is good, on a meter of this height.
    pub open spec fn good_bar(self, height: Scalar) -> MeterBar {
        MeterBar {
            part: MeterPart::Good,
            y: arithmetic::sum(self.zone_line(height), Scalar { bits: PEAK_LINE_HEIGHT }),
            height: arithmetic::difference(
                self.y_of(Scalar { bits: GOOD_ZONE }, Scalar { bits: 0 }, height),
                self.zone_line(height),
            ),
        }
    }

    /// The line at the peak, on a meter of this height.
    pub open spec fn peak_line(self, height: Scalar) -> MeterBar {
        let line = Scalar { bits: PEAK_LINE_HEIGHT };
        let y = self.y_of(self.peak_db, Scalar { bits: 0 }, height);
        MeterBar {
            part: MeterPart::PeakLine,
            y: arithmetic::larger(arithmetic::difference(y, line), Scalar { bits: 0 }),
            height: line,
        }
    }

    /// What is drawn of a meter of this height, from the back to the front.
    pub open spec fn bars(self, height: Scalar) -> Seq<MeterBar> {
        let zero = Scalar { bits: 0 };
        seq![
            MeterBar { part: MeterPart::Track, y: zero, height },
            MeterBar { part: MeterPart::Peak, y: zero, height: self.zone_line(height) },
            self.good_bar(height),
            self.level_bar(height),
        ] + (if self.min_db.below(self.peak_db) {
            seq![self.peak_line(height)]
        } else {
            seq![]
        })
    }

    /// The part of the meter's height that the level `db` covers.
    pub fn magnitude_fraction(&self, db: Scalar) -> (r: Scalar)
        ensures
            r == self.fraction(db),
    {
        let span = self.max_db.minus(self.min_db).unsigned().or_larger(
            Scalar { bits: LEAST_SPAN },
        );
        proof {
            scalar::positive_patterns_in_order(Scalar { bits: 0 }, Scalar { bits: ONE });
        }
        db.minus(self.min_db).over(span).clamp(Scalar { bits: 0 }, Scalar { bits: ONE })
    }

    /// How far below `track_top` the level `db` stands on a track of this height.
    pub fn y_for_db(&self, db: Scalar, track_top: Scalar, track_height: Scalar) -> (r: Scalar)
        ensures
            r == self.y_of(db, track_top, track_height),
    {
        let covered = self.magnitude_fraction(db);
        track_top.plus(track_height.times((Scalar { bits: ONE }).minus(covered)))
    }

    fn find_zone_line(&self, height: Scalar) -> (r: Scalar)
        ensures
            r == self.zone_line(height),
    {
        self.y_for_db(Scalar { bits: PEAK_ZONE }, Scalar { bits: 0 }, height).minus(
            Scalar { bits: PEAK_LINE_HEIGHT },
        )
    }

    fn find_good_bar(&self, height: Scalar) -> (r: MeterBar)
        ensures
            r == self.good_bar(height),
    {
        let peak = self.find_zone_line(height);
        let good = self.y_for_db(Scalar { bits: GOOD_ZONE }, Scalar { bits: 0 }, height);
        MeterBar {
            part: MeterPart::Good,
            y: peak.plus(Scalar { bits: PEAK_LINE_HEIGHT }),
            height: good.minus(peak),
        }
    }

    fn find_level_bar(&self, height: Scalar) -> (r: MeterBar)
        ensures
            r == self.level_bar(height),
    {
        let y = self.y_for_db(self.db, Scalar { bits: 0 }, height);
        if height.is_at_least(y) {
            MeterBar { part: MeterPart::Level, y, height: height.minus(y) }
        } else {
            MeterBar { part: MeterPart::Level, y: height, height: y.minus(height) }
        }
    }

    fn find_peak_line(&self, height: Scalar) -> (r: MeterBar)
        ensures
            r == self.peak_line(height),
    {
        let zero = Scalar { bits: 0 };
        let line = Scalar { bits: PEAK_LINE_HEIGHT };
        let y = self.y_for_db(self.peak_db, zero, height).minus(line).or_larger(zero);
        MeterBar { part: MeterPart::PeakLine, y, height: line }
    }

    /// What is drawn of a meter of this height, from the back to the front.
    pub fn draw(&self, height: Scalar) -> (r: Vec<MeterBar>)
        ensures
            r@ == self.bars(height),
    {
        let zero = Scalar { bits: 0 };
        let mut r: Vec<MeterBar> = Vec::new();
        r.push(MeterBar { part: MeterPart::Track, y: zero, height });
        r.push(MeterBar { part: MeterPart::Peak, y: zero, height: self.find_zone_line(height) });
        r.push(self.find_good_bar(height));
        r.push(self.find_level_bar(height));
        if self.min_db.is_below(self.peak_db) {
            r.push(self.find_peak_line(height));
        }
        assert(r@ =~= self.bars(height));
        r
    }

    /// How far below the top the middle of the label of the level `db` stands, on a meter of this
    /// height.
    pub fn label_y(&self, db: Scalar, height: Scalar) -> (r: Scalar)
        ensures
            r == arithmetic::product(
                arithmetic::quotient(
                    arithmetic::difference(self.max_db, db),
                    arithmetic::difference(self.max_db, self.min_db),
                ),
                height,
            ),
    {
        self.max_db.minus(db).over(self.max_db.minus(self.min_db)).times(height)
    }
}

} // verus!
