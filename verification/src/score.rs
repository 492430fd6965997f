//! Severity scores and the coarse bucket derived from them.

use vstd::prelude::*;
use vstd::string::StringExecFns;

verus! {

/// A numeric severity score, held as the IEEE 754 binary64 encoding of the
/// number, so that it passes from input to output without loss.
#[derive(Clone, Copy, Debug, PartialEq, Eq, Structural)]
pub struct Score {
    pub bits: u64,
}

/// Encoding of positive infinity. Every larger encoding has the sign bit set
/// or is not a number.
pub const POSITIVE_INFINITY: u64 = 0x7FF0_0000_0000_0000;

/// Encoding of nine, the lowest critical score.
pub const CRITICAL_FROM: u64 = 0x4022_0000_0000_0000;

/// Encoding of seven, the lowest high score.
pub const HIGH_FROM: u64 = 0x401C_0000_0000_0000;

/// Encoding of four, the lowest medium score.
pub const MEDIUM_FROM: u64 = 0x4010_0000_0000_0000;

impl Score {
    /// Whether the score is at least the positive number that `threshold`
    /// encodes. Among encodings of non-negative numbers the larger number
    /// has the larger encoding; a negative number, or an encoding that is
    /// not a number, is at least no positive threshold.
    pub open spec fn at_least(self, threshold: u64) -> bool {
        threshold <= self.bits <= POSITIVE_INFINITY
    }

    /// The score with the given encoding.
    pub fn from_bits(bits: u64) -> (s: Score)
        ensures
            s.bits == bits,
    {
        Score { bits }
    }

    /// The encoding of the score.
    pub fn to_bits(self) -> (bits: u64)
        ensures
            bits == self.bits,
    {
        self.bits
    }

    /// Decides `at_least`.
    pub fn reaches(self, threshold: u64) -> (b: bool)
        ensures
            b == self.at_least(threshold),
    {
        threshold <= self.bits && self.bits <= POSITIVE_INFINITY
    }
}

/// The coarse classification of a score.
#[derive(Clone, Copy, Debug, PartialEq, Eq, Structural)]
pub enum SeverityBucket {
    Unknown,
    Low,
    Medium,
    High,
    Critical,
}

impl SeverityBucket {
    /// The bucket of a score: unknown without a score, else the highest tier
    /// whose lower bound the score reaches, and low if it reaches none.
    pub open spec fn of(cvss: Option<Score>) -> SeverityBucket {
        match cvss {
            None => SeverityBucket::Unknown,
            Some(s) => if s.at_least(CRITICAL_FROM) {
                SeverityBucket::Critical
            } else if s.at_least(HIGH_FROM) {
                SeverityBucket::High
            } else if s.at_least(MEDIUM_FROM) {
                SeverityBucket::Medium
            } else {
                SeverityBucket::Low
            },
        }
    }

    /// The name under which the bucket appears in a record.
    pub open spec fn label(self) -> Seq<char> {
        match self {
            SeverityBucket::Unknown => "unknown"@,
            SeverityBucket::Low => "low"@,
            SeverityBucket::Medium => "medium"@,
            SeverityBucket::High => "high"@,
            SeverityBucket::Critical => "critical"@,
        }
    }

    /// Computes the bucket of a score.
    pub fn classify(cvss: Option<Score>) -> (b: SeverityBucket)
        ensures
            b == SeverityBucket::of(cvss),
    {
        match cvss {
            None => SeverityBucket::Unknown,
            Some(s) => {
                if s.reaches(CRITICAL_FROM) {
                    SeverityBucket::Critical
                } else if s.reaches(HIGH_FROM) {
                    SeverityBucket::High
                } else if s.reaches(MEDIUM_FROM) {
                    SeverityBucket::Medium
                } else {
                    SeverityBucket::Low
                }
            },
        }
    }

    /// The bucket's name.
    pub fn as_str(self) -> (s: &'static str)
        ensures
            s@ == self.label(),
    {
        match self {
            SeverityBucket::Unknown => "unknown",
            SeverityBucket::Low => "low",
            SeverityBucket::Medium => "medium",
            SeverityBucket::High => "high",
            SeverityBucket::Critical => "critical",
        }
    }
}

/// The bucket name that belongs to a score.
pub open spec fn bucket_label(cvss: Option<Score>) -> Seq<char> {
    SeverityBucket::of(cvss).label()
}

/// The name of the severity bucket of `cvss`.
pub fn bucket_cvss(cvss: Option<Score>) -> (r: String)
    ensures
        r@ == bucket_label(cvss),
{
    String::from_str(SeverityBucket::classify(cvss).as_str())
}

/// The five bucket names differ from one another, so a record's bucket name
/// tells its bucket.
pub proof fn lemma_labels_differ(a: SeverityBucket, b: SeverityBucket)
    ensures
        a.label() == b.label() <==> a == b,
{
    reveal_strlit("unknown");
    reveal_strlit("low");
    reveal_strlit("medium");
    reveal_strlit("high");
    reveal_strlit("critical");
    if a != b {
        assert(a.label().len() != b.label().len() || a.label()[0] != b.label()[0]);
    }
}

} // verus!
