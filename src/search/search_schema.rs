//! The records the search over all students works with.
use vstd::prelude::*;
use crate::bjs_eval::BJSAbzeichen;
use crate::dosb_eval::DOSBAbzeichen;
use crate::model::Attempt;

verus! {

pub enum SortKategorien {
    Age,
    Klasse,
    FirstName,
    LastName,
}

pub enum SearchKategorien {
    Klasse,
    Name,
}

/// Keeps the students whose certificate or badge is among the listed ones.
pub struct Filter {
    pub bjs: Option<Vec<BJSAbzeichen>>,
    pub dosb: Option<Vec<DOSBAbzeichen>>,
}

pub struct SearchTerm {
    pub term: Option<String>,
    pub kat: Option<SearchKategorien>,
    pub filter: Option<Filter>,
    pub sort: Option<SortKategorien>,
    pub extensive: bool,
}

/// Both schemes' results of one student.
#[derive(Clone, Copy, Debug, PartialEq, Eq, Structural)]
pub struct SchuelerResult {
    pub id: i64,
    pub bjs_punkte: i64,
    pub bjs_urkunde: BJSAbzeichen,
    pub dosb_punkte: i64,
    pub dosb_abzeichen: DOSBAbzeichen,
}

/// A student's results with the attempts that count under either scheme.
#[derive(Clone, Debug)]
pub struct SchuelerResultExtensive {
    pub id: i64,
    pub bjs_punkte: i64,
    pub bjs_urkunde: BJSAbzeichen,
    pub dosb_punkte: i64,
    pub dosb_abzeichen: DOSBAbzeichen,
    pub single_results: Vec<Attempt>,
}

impl SchuelerResultExtensive {
    /// The results without the attempts.
    pub open spec fn summary(&self) -> SchuelerResult {
        SchuelerResult {
            id: self.id,
            bjs_punkte: self.bjs_punkte,
            bjs_urkunde: self.bjs_urkunde,
            dosb_punkte: self.dosb_punkte,
            dosb_abzeichen: self.dosb_abzeichen,
        }
    }
}

} // verus!
