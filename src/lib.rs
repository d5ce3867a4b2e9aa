//! Scoring and award evaluation for the two German youth sports badges:
//! the point-based federal youth games certificate (BJS) and the
//! threshold-based sports badge (DOSB).
//!
//! Measured results are fixed-point integers in hundredths of the
//! category's unit (hundredths of a second, centimetres).

pub mod model;
pub mod catalog;
pub mod error;
pub mod arith;
pub mod bjs_eval;
pub mod dosb_eval;
pub mod search;
pub mod schema;
pub mod interact;
pub mod upload;

use vstd::prelude::*;

verus! {

/// The students of an upload, sorted by what became of them.
#[derive(Clone, Debug)]
pub struct UploadSchuelerResult {
    pub valid: Vec<schema::UploadSchueler>,
    pub age_invalid: Vec<schema::UploadSchueler>,
    pub gesch_invalid: Vec<schema::UploadSchueler>,
    pub id_invalid: Vec<schema::UploadSchueler>,
    pub id_conflict: Vec<schema::UploadSchueler>,
}

} // verus!
