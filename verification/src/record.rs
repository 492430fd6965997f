//! The canonical record that reconciliation emits for each identifier.

use vstd::prelude::*;
use crate::score::Score;

verus! {

/// One canonical record.
#[derive(Debug)]
pub struct CanonicalItem {
    pub id: String,
    pub sources: Vec<String>,
    pub published: Option<String>,
    pub last_modified: Option<String>,
    pub cvss: Option<Score>,
    pub severity_bucket: String,
    pub kev: bool,
    pub short_desc: String,
    pub vendor: Option<String>,
    pub product: Option<String>,
    pub refs: Vec<String>,
}

/// The mathematical value of a canonical record.
pub struct Record {
    pub id: Seq<char>,
    pub sources: Seq<Seq<char>>,
    pub published: Option<Seq<char>>,
    pub last_modified: Option<Seq<char>>,
    pub cvss: Option<Score>,
    pub severity_bucket: Seq<char>,
    pub kev: bool,
    pub short_desc: Seq<char>,
    pub vendor: Option<Seq<char>>,
    pub product: Option<Seq<char>>,
    pub refs: Seq<Seq<char>>,
}

impl View for CanonicalItem {
    type V = Record;

    open spec fn view(&self) -> Record {
        Record {
            id: self.id@,
            sources: self.sources.deep_view(),
            published: self.published.deep_view(),
            last_modified: self.last_modified.deep_view(),
            cvss: self.cvss,
            severity_bucket: self.severity_bucket@,
            kev: self.kev,
            short_desc: self.short_desc@,
            vendor: self.vendor.deep_view(),
            product: self.product.deep_view(),
            refs: self.refs.deep_view(),
        }
    }
}

impl DeepView for CanonicalItem {
    type V = Record;

    open spec fn deep_view(&self) -> Record {
        self@
    }
}

} // verus!
