//! The severity score of a database entry, read from whichever of the known
//! metric shapes the entry's metrics hold.

use vstd::prelude::*;
use crate::json::{Json, JsonValue, values, optional_value};
use crate::score::Score;

verus! {

/// The shapes under which metrics carry scoring entries, one for each
/// version of the scoring standard.
#[derive(Clone, Copy, Debug, PartialEq, Eq, Structural)]
pub enum MetricShape {
    V31,
    V30,
    V2,
}

impl MetricShape {
    /// The name of the member that holds the scoring entries of this shape.
    pub open spec fn key(self) -> Seq<char> {
        match self {
            MetricShape::V31 => "cvssMetricV31"@,
            MetricShape::V30 => "cvssMetricV30"@,
            MetricShape::V2 => "cvssMetricV2"@,
        }
    }

    /// The shapes in the order in which they are tried, newest first.
    pub open spec fn preference() -> Seq<MetricShape> {
        seq![MetricShape::V31, MetricShape::V30, MetricShape::V2]
    }

    /// The member name of this shape.
    pub fn key_str(self) -> (k: &'static str)
        ensures
            k@ == self.key(),
    {
        match self {
            MetricShape::V31 => "cvssMetricV31",
            MetricShape::V30 => "cvssMetricV30",
            MetricShape::V2 => "cvssMetricV2",
        }
    }

    /// The shapes in the order of `preference`.
    pub fn in_preference_order() -> (shapes: Vec<MetricShape>)
        ensures
            shapes@ == MetricShape::preference(),
    {
        let mut shapes: Vec<MetricShape> = Vec::new();
        shapes.push(MetricShape::V31);
        shapes.push(MetricShape::V30);
        shapes.push(MetricShape::V2);
        assert(shapes@ =~= MetricShape::preference());
        shapes
    }
}

/// The base score of one scoring entry: the number found at
/// `cvssData.baseScore`, if the entry has one there.
pub open spec fn base_score(entry: JsonValue) -> Option<Score> {
    match entry.member("cvssData"@) {
        Some(data) => match data.member("baseScore"@) {
            Some(score) => score.number(),
            None => None,
        },
        None => None,
    }
}

/// The base score of the first entry that has one.
pub open spec fn first_score(entries: Seq<JsonValue>) -> Option<Score>
    decreases entries.len(),
{
    if entries.len() == 0 {
        None
    } else if base_score(entries.first()) is Some {
        base_score(entries.first())
    } else {
        first_score(entries.drop_first())
    }
}

/// The score that metrics yield under one shape: that of the first scoring
/// entry with a base score, if the shape's member is an array.
pub open spec fn shape_score(metrics: JsonValue, shape: MetricShape) -> Option<Score> {
    match metrics.member(shape.key()) {
        Some(entries) => match entries.items() {
            Some(items) => first_score(items),
            None => None,
        },
        None => None,
    }
}

/// The score of the first of `shapes` under which the metrics yield one.
pub open spec fn first_shape_score(metrics: JsonValue, shapes: Seq<MetricShape>) -> Option<Score>
    decreases shapes.len(),
{
    if shapes.len() == 0 {
        None
    } else if shape_score(metrics, shapes.first()) is Some {
        shape_score(metrics, shapes.first())
    } else {
        first_shape_score(metrics, shapes.drop_first())
    }
}

/// The best available score of an entry: none without metrics, else the
/// score under the most preferred shape that yields one.
pub open spec fn best_cvss(metrics: Option<JsonValue>) -> Option<Score> {
    match metrics {
        Some(m) => first_shape_score(m, MetricShape::preference()),
        None => None,
    }
}

/// The base score of one scoring entry.
pub fn entry_base_score(entry: &Json) -> (r: Option<Score>)
    ensures
        r == base_score(entry@),
{
    match entry.get("cvssData") {
        Some(data) => match data.get("baseScore") {
            Some(score) => score.as_number(),
            None => None,
        },
        None => None,
    }
}

/// The base score of the first of `entries` that has one.
pub fn first_entry_score(entries: &Vec<Json>) -> (r: Option<Score>)
    ensures
        r == first_score(values(entries@)),
{
    let ghost all = values(entries@);
    let mut i: usize = 0;
    proof {
        assert(all.skip(0) =~= all);
    }
    while i < entries.len()
        invariant
            i <= entries.len(),
            all == values(entries@),
            first_score(all) == first_score(all.skip(i as int)),
        decreases entries.len() - i,
    {
        proof {
            assert(all.skip(i as int).drop_first() =~= all.skip(i + 1));
            assert(all.skip(i as int).first() == entries@[i as int]@);
        }
        let score = entry_base_score(&entries[i]);
        if score.is_some() {
            return score;
        }
        i = i + 1;
    }
    None
}

/// The score that `metrics` yield under `shape`.
pub fn score_under(metrics: &Json, shape: MetricShape) -> (r: Option<Score>)
    ensures
        r == shape_score(metrics@, shape),
{
    match metrics.get(shape.key_str()) {
        Some(entries) => match entries.as_array() {
            Some(items) => first_entry_score(items),
            None => None,
        },
        None => None,
    }
}

/// The best available score of an entry with the given metrics.
pub fn extract_best_cvss(metrics: &Option<Json>) -> (r: Option<Score>)
    ensures
        r == best_cvss(optional_value(*metrics)),
{
    match metrics {
        Some(m) => {
            let shapes = MetricShape::in_preference_order();
            let ghost all = shapes@;
            let mut k: usize = 0;
            proof {
                assert(all.skip(0) =~= all);
            }
            while k < shapes.len()
                invariant
                    k <= shapes.len(),
                    all == shapes@,
                    all == MetricShape::preference(),
                    *metrics == Some(*m),
                    first_shape_score(m@, all) == first_shape_score(m@, all.skip(k as int)),
                decreases shapes.len() - k,
            {
                proof {
                    assert(all.skip(k as int).drop_first() =~= all.skip(k + 1));
                    assert(all.skip(k as int).first() == shapes@[k as int]);
                }
                let score = score_under(m, shapes[k]);
                if score.is_some() {
                    return score;
                }
                k = k + 1;
            }
            None
        },
        None => None,
    }
}

} // verus!
