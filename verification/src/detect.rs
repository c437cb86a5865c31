//! One detection result, as the rule-evaluation engine hands it over and
//! as the aggregation store keeps it.
use vstd::prelude::*;

use crate::maps::lhm_pairs;

verus! {

/// One detection result: rule identity, severity, host, event id, the
/// resolved detail text, an optional precomputed record summary, and the
/// ordered extra output fields.
#[derive(Clone)]
pub struct DetectInfo {
    pub rulepath: String,
    pub ruletitle: String,
    pub level: String,
    pub computername: String,
    pub eventid: String,
    pub detail: String,
    pub record_information: Option<String>,
    pub ext_field: linked_hash_map::LinkedHashMap<String, String>,
}

/// The mathematical shape of one detection result.
#[verifier::ext_equal]
pub struct DetectInfoView {
    pub rulepath: Seq<char>,
    pub ruletitle: Seq<char>,
    pub level: Seq<char>,
    pub computername: Seq<char>,
    pub eventid: Seq<char>,
    pub detail: Seq<char>,
    pub record_information: Option<Seq<char>>,
    pub ext_field: Seq<(Seq<char>, Seq<char>)>,
}

impl View for DetectInfo {
    type V = DetectInfoView;

    open spec fn view(&self) -> DetectInfoView {
        DetectInfoView {
            rulepath: self.rulepath@,
            ruletitle: self.ruletitle@,
            level: self.level@,
            computername: self.computername@,
            eventid: self.eventid@,
            detail: self.detail@,
            record_information: match self.record_information {
                Option::Some(s) => Option::Some(s@),
                Option::None => Option::None,
            },
            ext_field: lhm_pairs(self.ext_field),
        }
    }
}

/// The views of a sequence of detection results.
pub open spec fn infos_view(s: Seq<DetectInfo>) -> Seq<DetectInfoView> {
    Seq::new(s.len(), |i: int| s[i]@)
}

} // verus!
