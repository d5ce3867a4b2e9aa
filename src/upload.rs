//! Checks on the students of an upload before they are registered.
use vstd::prelude::*;
use vstd::string::StrSliceExecFns;
use crate::interact::{MAX_SCHUELER_ID, MIN_SCHUELER_ID};
use crate::schema::UploadSchueler;

verus! {

/// Ages accepted: from `MIN_AGE` up to, not including, `MAX_AGE`.
pub const MIN_AGE: i64 = 5;
pub const MAX_AGE: i64 = 25;
/// A year counted as 365 days, in seconds.
pub const SECONDS_PER_YEAR: u64 = 31_536_000;
/// The year in which time in seconds starts.
pub const EPOCH_YEAR: u64 = 1970;

/// What becomes of a student of an upload.
#[derive(Clone, Copy, Debug, PartialEq, Eq, Structural)]
pub enum UploadCheck {
    /// To be registered, with this age.
    Valid { age: i8 },
    AgeInvalid,
    IdInvalid,
    GeschInvalid,
}

/// The current year, from the seconds since the start of `EPOCH_YEAR`.
pub open spec fn current_year(now_secs: u64) -> int {
    now_secs / SECONDS_PER_YEAR + EPOCH_YEAR
}

pub open spec fn is_digit(c: char) -> bool {
    '0' <= c <= '9'
}

/// A year of the form `19dd` or `20dd` starts at position `i`.
pub open spec fn year_at(s: Seq<char>, i: int) -> bool {
    &&& 0 <= i
    &&& i + 4 <= s.len()
    &&& (s[i] == '1' && s[i + 1] == '9') || (s[i] == '2' && s[i + 1] == '0')
    &&& is_digit(s[i + 2])
    &&& is_digit(s[i + 3])
}

/// `i` is the first position at which a year starts.
pub open spec fn first_year_at(s: Seq<char>, i: int) -> bool {
    year_at(s, i) && forall|j: int| 0 <= j < i ==> !#[trigger] year_at(s, j)
}

pub open spec fn digit_value(c: char) -> int {
    c as int - '0' as int
}

/// The number four decimal digits write.
pub open spec fn year_value(y: Seq<char>) -> int {
    1000 * digit_value(y[0]) + 100 * digit_value(y[1]) + 10 * digit_value(y[2]) + digit_value(y[3])
}

/// The first year that occurs in a birthday text.
pub open spec fn birth_year(s: Seq<char>) -> Option<int> {
    if exists|i: int| first_year_at(s, i) {
        let i = choose|i: int| first_year_at(s, i);
        Some(year_value(s.subrange(i, i + 4)))
    } else {
        None
    }
}

/// The text that stands for a missing value.
pub open spec fn is_unset(s: Seq<char>) -> bool {
    s == seq!['-', '1']
}

/// The student's age: the given age where there is one, else the years
/// between the first year in the birthday text and now.
pub open spec fn upload_age(s: UploadSchueler, now_secs: u64) -> Option<int> {
    if s.age is Some && s.age->0 != -1 {
        Some(s.age->0 as int)
    } else if s.bday is Some && !is_unset(s.bday->0@) {
        match birth_year(s.bday->0@) {
            Some(y) => Some(current_year(now_secs) - y),
            None => None,
        }
    } else {
        None
    }
}

pub open spec fn check_upload_spec(s: UploadSchueler, now_secs: u64) -> UploadCheck {
    match upload_age(s, now_secs) {
        None => UploadCheck::AgeInvalid,
        Some(age) => if !(MIN_AGE <= age < MAX_AGE) {
            UploadCheck::AgeInvalid
        } else if !(MIN_SCHUELER_ID <= s.id < MAX_SCHUELER_ID) {
            UploadCheck::IdInvalid
        } else if s.gesch != 'm' && s.gesch != 'w' {
            UploadCheck::GeschInvalid
        } else {
            UploadCheck::Valid { age: age as i8 }
        },
    }
}

/// Relies on `regex::Regex::find` with the pattern `(20|19)[0-9][0-9]`:
/// it returns the leftmost match, which is four characters long.
#[verifier::external_body]
fn find_year(s: &str) -> (r: Option<String>)
    ensures
        r is None <==> forall|i: int| !#[trigger] year_at(s@, i),
        r matches Some(y) ==> exists|i: int| first_year_at(s@, i) && y@ == s@.subrange(i, i + 4),
{
    match regex::Regex::new("(20|19)[0-9][0-9]") {
        Ok(re) => re.find(s).map(|m| m.as_str().to_string()),
        Err(_) => None,
    }
}

fn digit(c: char) -> (r: i64)
    requires
        is_digit(c),
    ensures
        r == digit_value(c),
{
    (c as u32 - '0' as u32) as i64
}

/// The first year in a birthday text.
pub fn find_birth_year(s: &str) -> (r: Option<i64>)
    ensures
        r matches Some(y) ==> birth_year(s@) == Some(y as int),
        r is None ==> birth_year(s@) is None,
{
    match find_year(s) {
        None => {
            assert(!exists|i: int| first_year_at(s@, i));
            None
        },
        Some(y) => {
            let ghost i = choose|i: int| first_year_at(s@, i) && y@ == s@.subrange(i, i + 4);
            proof {
                let k = choose|k: int| first_year_at(s@, k);
                assert(k == i) by {
                    if k < i {
                        assert(!year_at(s@, k));
                    } else if i < k {
                        assert(!year_at(s@, i));
                    }
                }
            }
            let t = y.as_str();
            let v = 1000 * digit(t.get_char(0)) + 100 * digit(t.get_char(1)) + 10 * digit(t.get_char(2)) + digit(
                t.get_char(3),
            );
            Some(v)
        },
    }
}

fn is_unset_text(s: &str) -> (r: bool)
    ensures
        r == is_unset(s@),
{
    if s.unicode_len() == 2 {
        let r = s.get_char(0) == '-' && s.get_char(1) == '1';
        assert(r ==> s@ == seq!['-', '1']);
        r
    } else {
        false
    }
}

/// What becomes of a student of an upload: an age outside the accepted
/// range, an id without four digits or a gender other than `m` and `w`
/// rejects it, checked in this order.
pub fn check_upload_schueler(s: &UploadSchueler, now_secs: u64) -> (r: UploadCheck)
    ensures
        r == check_upload_spec(*s, now_secs),
{
    let age: i64 = match s.age {
        Some(a) if a != -1 => a as i64,
        _ => match &s.bday {
            Some(b) if !is_unset_text(b.as_str()) => match find_birth_year(b.as_str()) {
                Some(y) => (now_secs / SECONDS_PER_YEAR + EPOCH_YEAR) as i64 - y,
                None => {
                    return UploadCheck::AgeInvalid;
                },
            },
            _ => {
                return UploadCheck::AgeInvalid;
            },
        },
    };
    if !(MIN_AGE <= age && age < MAX_AGE) {
        return UploadCheck::AgeInvalid;
    }
    if !(MIN_SCHUELER_ID <= s.id && s.id < MAX_SCHUELER_ID) {
        return UploadCheck::IdInvalid;
    }
    if s.gesch != 'm' && s.gesch != 'w' {
        return UploadCheck::GeschInvalid;
    }
    UploadCheck::Valid { age: age as i8 }
}

} // verus!
