//! Records handed to and from the outside, with plain values.
use vstd::prelude::*;

verus! {

#[derive(Clone, Debug, PartialEq, Eq)]
pub struct SimpleSchueler {
    pub id: i64,
    pub first_name: String,
    pub last_name: String,
}

/// A student to be registered: either `age` or `bday` gives the age,
/// `-1` and `"-1"` standing for a missing value.
#[derive(Clone, Debug)]
pub struct UploadSchueler {
    pub id: i64,
    pub gesch: char,
    pub age: Option<i8>,
    pub bday: Option<String>,
}

#[derive(Clone, Copy, Debug, PartialEq, Eq, Structural)]
pub struct PflichtKategorie {
    pub id: i64,
    pub done: bool,
    pub group_id: i64,
}

#[derive(Clone, Debug, PartialEq, Eq)]
pub struct SimpleKategorie {
    pub id: i32,
    pub name: String,
}

/// A category as shown to users.
#[derive(Clone, Debug, PartialEq, Eq)]
pub struct Kategorie {
    pub id: i64,
    pub name: String,
    pub lauf: bool,
    pub einheit: char,
    pub max_vers: i64,
    pub digits_before: i64,
    pub digits_after: i64,
    pub kat_group_id: i64,
}

/// Whether a category is mandatory for a student under each scheme.
#[derive(Clone, Copy, Debug, PartialEq, Eq, Structural)]
pub struct NeedsKat {
    pub dosb: bool,
    pub bjs: bool,
}

} // verus!
