//! The report produced from a fully aggregated corpus: per-site entries, the
//! global tag breakdown, and the ranked "chatty" lists.

use vstd::prelude::*;

use crate::ranking::chatty_matches;
use crate::site::SiteV;
use crate::tag_information::TagV;

verus! {

/// Counters reported for one tag.
#[derive(Debug, PartialEq)]
pub struct TagCounts {
    pub name: String,
    pub questions: u32,
    pub words: u32,
}

/// The breakdown `s` reports exactly the tag map `m`: one entry per tag, with
/// that tag's counters, in some order.
pub open spec fn tag_counts_match(s: Seq<TagCounts>, m: Map<Seq<char>, TagV>) -> bool {
    &&& forall|i: int, j: int| 0 <= i < j < s.len() ==> s[i].name@ != s[j].name@
    &&& forall|i: int|
        0 <= i < s.len() ==> {
            &&& m.contains_key(#[trigger] s[i].name@)
            &&& s[i].questions as nat == m[s[i].name@].question_count
            &&& s[i].words as nat == m[s[i].name@].word_count
        }
    &&& forall|k: Seq<char>|
        #[trigger] m.contains_key(k) ==> exists|i: int| 0 <= i < s.len() && s[i].name@ == k
}

/// Report for one site: its counters, its per-tag breakdown, and its own
/// chatty-tag ranking.
#[derive(Debug, PartialEq)]
pub struct SiteReport {
    pub questions: u32,
    pub words: u32,
    pub tags: Vec<TagCounts>,
    pub chatty_tags: Vec<String>,
}

/// The report `rep` faithfully presents the site value `sv`.
pub open spec fn site_report_matches(rep: SiteReport, sv: SiteV) -> bool {
    &&& rep.questions as nat == sv.question_count
    &&& rep.words as nat == sv.word_count
    &&& tag_counts_match(rep.tags@, sv.tags)
    &&& chatty_matches(rep.chatty_tags.deep_view(), sv.tags, 10)
}

/// One named site entry of the report.
#[derive(Debug, PartialEq)]
pub struct SiteEntry {
    pub name: String,
    pub report: SiteReport,
}

/// The totals section: the ten chattiest sites and tags.
#[derive(Debug, PartialEq)]
pub struct TotalsReport {
    pub chatty_sites: Vec<String>,
    pub chatty_tags: Vec<String>,
}

/// The whole report.
#[derive(Debug, PartialEq)]
pub struct Report {
    pub padron: String,
    pub sites: Vec<SiteEntry>,
    pub tags: Vec<TagCounts>,
    pub totals: TotalsReport,
}

} // verus!
