//! Per-modality confusion counts and the rates derived from them.

use vstd::prelude::*;

verus! {

/// How one answer compares with the ground truth.
#[derive(Debug, Clone, Copy, PartialEq, Eq, Structural)]
pub enum Outcome {
    /// A match, claimed.
    TruePositive,
    /// No match, but one was claimed.
    FalsePositive,
    /// A match, missed.
    FalseNegative,
    /// No match, none claimed.
    TrueNegative,
}

/// The outcome of claiming `claimed` when the truth is `actual`.
pub open spec fn outcome_of(claimed: bool, actual: bool) -> Outcome {
    match (claimed, actual) {
        (true, true) => Outcome::TruePositive,
        (true, false) => Outcome::FalsePositive,
        (false, true) => Outcome::FalseNegative,
        (false, false) => Outcome::TrueNegative,
    }
}

/// Classifies one answer against the ground truth.
pub fn classify(claimed: bool, actual: bool) -> (r: Outcome)
    ensures
        r == outcome_of(claimed, actual),
{
    match (claimed, actual) {
        (true, true) => Outcome::TruePositive,
        (true, false) => Outcome::FalsePositive,
        (false, true) => Outcome::FalseNegative,
        (false, false) => Outcome::TrueNegative,
    }
}

/// Confusion counts of one modality.
#[derive(Debug, Clone, Copy, PartialEq, Eq, Structural)]
pub struct AccuracyStats {
    /// Matches that were claimed.
    pub true_positives: u32,
    /// Non-matches that were left alone.
    pub true_negatives: u32,
    /// Non-matches that were claimed.
    pub false_positives: u32,
    /// Matches that were missed.
    pub false_negatives: u32,
}

impl Default for AccuracyStats {
    fn default() -> (r: Self)
        ensures
            r.true_positives == 0,
            r.true_negatives == 0,
            r.false_positives == 0,
            r.false_negatives == 0,
    {
        AccuracyStats { true_positives: 0, true_negatives: 0, false_positives: 0, false_negatives: 0 }
    }
}

impl AccuracyStats {
    /// Counts with nothing counted yet.
    pub open spec fn zeroed() -> AccuracyStats {
        AccuracyStats { true_positives: 0, true_negatives: 0, false_positives: 0, false_negatives: 0 }
    }

    /// Number of answers counted.
    pub open spec fn total(self) -> int {
        self.true_positives + self.true_negatives + self.false_positives + self.false_negatives
    }

    /// The counts after one more answer, `claimed` against `actual`.
    pub open spec fn recorded(self, claimed: bool, actual: bool) -> AccuracyStats {
        match outcome_of(claimed, actual) {
            Outcome::TruePositive => AccuracyStats {
                true_positives: (self.true_positives + 1) as u32,
                ..self
            },
            Outcome::FalsePositive => AccuracyStats {
                false_positives: (self.false_positives + 1) as u32,
                ..self
            },
            Outcome::FalseNegative => AccuracyStats {
                false_negatives: (self.false_negatives + 1) as u32,
                ..self
            },
            Outcome::TrueNegative => AccuracyStats {
                true_negatives: (self.true_negatives + 1) as u32,
                ..self
            },
        }
    }

    /// Counts one answer, `claimed` against the ground truth `actual`.
    pub fn record(&mut self, claimed: bool, actual: bool)
        requires
            old(self).total() < u32::MAX,
        ensures
            *final(self) == old(self).recorded(claimed, actual),
            final(self).total() == old(self).total() + 1,
    {
        match classify(claimed, actual) {
            Outcome::TruePositive => self.true_positives = self.true_positives + 1,
            Outcome::FalsePositive => self.false_positives = self.false_positives + 1,
            Outcome::FalseNegative => self.false_negatives = self.false_negatives + 1,
            Outcome::TrueNegative => self.true_negatives = self.true_negatives + 1,
        }
    }

    /// The hit rate `TP / (TP + FN)` as numerator and denominator; `1 / 1`
    /// when no match occurred.
    pub fn hit_rate_fraction(&self) -> (r: (u64, u64))
        ensures
            r.1 > 0,
            self.true_positives + self.false_negatives == 0 ==> r == (1u64, 1u64),
            self.true_positives + self.false_negatives > 0 ==> r == (
                self.true_positives as u64,
                (self.true_positives + self.false_negatives) as u64,
            ),
    {
        let matches = self.true_positives as u64 + self.false_negatives as u64;
        if matches == 0 {
            (1, 1)
        } else {
            (self.true_positives as u64, matches)
        }
    }

    /// The false-alarm rate `FP / (FP + TN)` as numerator and denominator;
    /// `0 / 1` when no non-match occurred.
    pub fn false_alarm_fraction(&self) -> (r: (u64, u64))
        ensures
            r.1 > 0,
            self.false_positives + self.true_negatives == 0 ==> r == (0u64, 1u64),
            self.false_positives + self.true_negatives > 0 ==> r == (
                self.false_positives as u64,
                (self.false_positives + self.true_negatives) as u64,
            ),
    {
        let non_matches = self.false_positives as u64 + self.true_negatives as u64;
        if non_matches == 0 {
            (0, 1)
        } else {
            (self.false_positives as u64, non_matches)
        }
    }

    /// The specificity `TN / (TN + FP)` as numerator and denominator; `1 / 1`
    /// when no non-match occurred.
    pub fn specificity_fraction(&self) -> (r: (u64, u64))
        ensures
            r.1 > 0,
            self.true_negatives + self.false_positives == 0 ==> r == (1u64, 1u64),
            self.true_negatives + self.false_positives > 0 ==> r == (
                self.true_negatives as u64,
                (self.true_negatives + self.false_positives) as u64,
            ),
    {
        let non_matches = self.true_negatives as u64 + self.false_positives as u64;
        if non_matches == 0 {
            (1, 1)
        } else {
            (self.true_negatives as u64, non_matches)
        }
    }

    /// The composite accuracy, the mean of hit rate and specificity, as
    /// numerator and denominator: `(h / b + s / d) / 2 == (h * d + s * b) / (2 * (b * d))`.
    pub fn accuracy_fraction(&self) -> (r: (u128, u128))
        ensures
            ({
                let (h, b) = if self.true_positives + self.false_negatives == 0 {
                    (1int, 1int)
                } else {
                    (self.true_positives as int, self.true_positives + self.false_negatives)
                };
                let (s, d) = if self.true_negatives + self.false_positives == 0 {
                    (1int, 1int)
                } else {
                    (self.true_negatives as int, self.true_negatives + self.false_positives)
                };
                r.0 == h * d + s * b && r.1 == 2 * (b * d)
            }),
    {
        let (h, b) = self.hit_rate_fraction();
        let (s, d) = self.specificity_fraction();
        assert(h <= b && s <= d);
        assert(b <= 0x2_0000_0000 && d <= 0x2_0000_0000);
        let (h, b, s, d) = (h as u128, b as u128, s as u128, d as u128);
        assert(h * d <= b * d && s * b <= b * d && b * d <= 0x4_0000_0000_0000_0000)
            by (nonlinear_arith)
            requires
                h <= b,
                s <= d,
                b <= 0x2_0000_0000,
                d <= 0x2_0000_0000,
        ;
        let both = b * d;
        (h * d + s * b, 2 * both)
    }
}

} // verus!
