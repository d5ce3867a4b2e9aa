//! What the service asks of the library for one student.
use vstd::prelude::*;
use vstd::string::StrSliceExecFns;
use crate::bjs_eval::BJSEvaluator;
use crate::catalog::{category_id, find_category};
use crate::dosb_eval::{DOSBAbzeichen, DOSBEvaluator};
use crate::error::EvalError;
use crate::model::{self, Attempt};
use crate::schema;
use crate::search::{
    StudentRecord,
    evaluate_student,
    extensive_outcome_err,
    extensive_outcome_ok,
    result2extensive,
};
use crate::search::search_schema::SchuelerResultExtensive;

verus! {

/// Student ids have four digits: from `MIN_SCHUELER_ID` up to, not
/// including, `MAX_SCHUELER_ID`.
pub const MIN_SCHUELER_ID: i64 = 1000;
pub const MAX_SCHUELER_ID: i64 = 9999;

/// One student's results under both schemes, with the attempts that count.
pub fn get_schueler(bjs: &BJSEvaluator, dosb: &DOSBEvaluator, student: &StudentRecord) -> (r: Result<
    SchuelerResultExtensive,
    EvalError,
>)
    requires
        bjs.wf(),
        dosb.wf(),
    ensures
        r matches Ok(x) ==> extensive_outcome_ok(bjs, dosb, *student, x),
        r matches Err(e) ==> extensive_outcome_err(bjs, dosb, *student, e),
{
    let result = match evaluate_student(bjs, dosb, student.id, student.age, student.gender, &student.attempts) {
        Ok(r) => r,
        Err(e) => {
            return Err(e);
        },
    };
    result2extensive(bjs, dosb, result, student.age, student.gender, &student.attempts)
}

pub open spec fn of_category(category: i64) -> spec_fn(Attempt) -> bool {
    |a: Attempt| a.category == category
}

/// The top attempt of one category: DOSB's where it has one, else BJS's;
/// `Conflict` where neither scheme keeps an attempt of the category.
pub open spec fn top_versuch_by_kat_spec(
    bjs: &BJSEvaluator,
    dosb: &DOSBEvaluator,
    age: i64,
    gender: char,
    kat_id: i64,
    atts: Seq<Attempt>,
) -> Result<Attempt, EvalError> {
    let of_kat = atts.filter(of_category(kat_id));
    match dosb.top_attempts_spec(age, gender, of_kat) {
        Err(e) => Err(e),
        Ok(d) => match bjs.top_attempts_spec(age, gender, of_kat) {
            Err(e) => Err(e),
            Ok(b) => if d.len() > 0 {
                Ok(d[0])
            } else if b.len() > 0 {
                Ok(b[0])
            } else {
                Err(EvalError::Conflict { category: kat_id })
            },
        },
    }
}

/// The student's attempts of one category.
fn attempts_of_category(attempts: &Vec<Attempt>, kat_id: i64) -> (r: Vec<Attempt>)
    ensures
        r@ == attempts@.filter(of_category(kat_id)),
{
    let mut out: Vec<Attempt> = Vec::new();
    let mut i: usize = 0;
    while i < attempts.len()
        invariant
            i <= attempts.len(),
            out@ == attempts@.take(i as int).filter(of_category(kat_id)),
        decreases attempts.len() - i,
    {
        proof {
            assert(attempts@.take(i + 1) == attempts@.take(i as int).push(attempts@[i as int]));
            attempts@.take(i as int).lemma_filter_push(attempts@[i as int], of_category(kat_id));
        }
        if attempts[i].category == kat_id {
            out.push(attempts[i]);
        }
        i = i + 1;
    }
    assert(attempts@.take(attempts.len() as int) == attempts@);
    out
}

/// The attempt that counts for one category.
pub fn get_top_versuch_by_kat(
    bjs: &BJSEvaluator,
    dosb: &DOSBEvaluator,
    age: i64,
    gender: char,
    kat_id: i64,
    attempts: &Vec<Attempt>,
) -> (r: Result<Attempt, EvalError>)
    requires
        bjs.wf(),
        dosb.wf(),
    ensures
        r == top_versuch_by_kat_spec(bjs, dosb, age, gender, kat_id, attempts@),
{
    let of_kat = attempts_of_category(attempts, kat_id);
    let top_dosb = match dosb.get_top_attempts(age, gender, &of_kat) {
        Ok(t) => t,
        Err(e) => {
            return Err(e);
        },
    };
    let top_bjs = match bjs.get_top_attempts(age, gender, &of_kat) {
        Ok(t) => t,
        Err(e) => {
            return Err(e);
        },
    };
    if top_dosb.len() > 0 {
        Ok(top_dosb[0])
    } else if top_bjs.len() > 0 {
        Ok(top_bjs[0])
    } else {
        Err(EvalError::Conflict { category: kat_id })
    }
}

/// `e` is the error of the first attempt whose points cannot be computed.
pub open spec fn first_points_error(bjs: &BJSEvaluator, gender: char, t: Seq<Attempt>, e: EvalError) -> bool {
    exists|k: int|
        0 <= k < t.len() && bjs.points_spec(gender, #[trigger] t[k]) == Err::<i64, EvalError>(e) && forall|j: int|
            0 <= j < k ==> bjs.points_spec(gender, #[trigger] t[j]) is Ok
}

/// `e` is the error of the first attempt whose medal cannot be looked up.
pub open spec fn first_medal_error(dosb: &DOSBEvaluator, age: i64, gender: char, t: Seq<Attempt>, e: EvalError) -> bool {
    exists|k: int|
        0 <= k < t.len() && dosb.medal_for_attempt_spec(age, gender, #[trigger] t[k]) == Err::<DOSBAbzeichen, EvalError>(e)
            && forall|j: int| 0 <= j < k ==> dosb.medal_for_attempt_spec(age, gender, #[trigger] t[j]) is Ok
}

/// The BJS top attempts, each with its points.
pub fn get_top_versuch_in_bjs(bjs: &BJSEvaluator, age: i64, gender: char, attempts: &Vec<Attempt>) -> (r: Result<
    Vec<(Attempt, i64)>,
    EvalError,
>)
    requires
        bjs.wf(),
    ensures
        r matches Ok(v) ==> bjs.top_attempts_spec(age, gender, attempts@) matches Ok(t) && v@.len() == t.len()
            && forall|k: int|
            0 <= k < t.len() ==> (#[trigger] v@[k]).0 == t[k] && bjs.points_spec(gender, t[k]) == Ok::<
                i64,
                EvalError,
            >(v@[k].1),
        r matches Err(e) ==> match bjs.top_attempts_spec(age, gender, attempts@) {
            Err(e2) => e2 == e,
            Ok(t) => first_points_error(bjs, gender, t, e),
        },
{
    let top = match bjs.get_top_attempts(age, gender, attempts) {
        Ok(t) => t,
        Err(e) => {
            return Err(e);
        },
    };
    let mut out: Vec<(Attempt, i64)> = Vec::new();
    let mut i: usize = 0;
    while i < top.len()
        invariant
            i <= top.len(),
            bjs.top_attempts_spec(age, gender, attempts@) == Ok::<Seq<Attempt>, EvalError>(top@),
            out@.len() == i,
            forall|k: int|
                0 <= k < i ==> (#[trigger] out@[k]).0 == top@[k] && bjs.points_spec(gender, top@[k]) == Ok::<
                    i64,
                    EvalError,
                >(out@[k].1),
        decreases top.len() - i,
    {
        let p = match bjs.calculate_points(gender, &top[i]) {
            Ok(p) => p,
            Err(e) => {
                assert forall|j: int| 0 <= j < i implies bjs.points_spec(gender, #[trigger] top@[j]) is Ok by {
                    assert(out@[j].0 == top@[j]);
                }
                return Err(e);
            },
        };
        out.push((top[i], p));
        i = i + 1;
    }
    Ok(out)
}

/// The DOSB top attempts, each with the medal it earns.
pub fn get_top_versuch_in_dosb(dosb: &DOSBEvaluator, age: i64, gender: char, attempts: &Vec<Attempt>) -> (r: Result<
    Vec<(Attempt, DOSBAbzeichen)>,
    EvalError,
>)
    requires
        dosb.wf(),
    ensures
        r matches Ok(v) ==> dosb.top_attempts_spec(age, gender, attempts@) matches Ok(t) && v@.len() == t.len()
            && forall|k: int|
            0 <= k < t.len() ==> (#[trigger] v@[k]).0 == t[k] && dosb.medal_for_attempt_spec(age, gender, t[k])
                == Ok::<DOSBAbzeichen, EvalError>(v@[k].1),
        r matches Err(e) ==> match dosb.top_attempts_spec(age, gender, attempts@) {
            Err(e2) => e2 == e,
            Ok(t) => first_medal_error(dosb, age, gender, t, e),
        },
{
    let top = match dosb.get_top_attempts(age, gender, attempts) {
        Ok(t) => t,
        Err(e) => {
            return Err(e);
        },
    };
    let mut out: Vec<(Attempt, DOSBAbzeichen)> = Vec::new();
    let mut i: usize = 0;
    while i < top.len()
        invariant
            i <= top.len(),
            dosb.top_attempts_spec(age, gender, attempts@) == Ok::<Seq<Attempt>, EvalError>(top@),
            out@.len() == i,
            forall|k: int|
                0 <= k < i ==> (#[trigger] out@[k]).0 == top@[k] && dosb.medal_for_attempt_spec(age, gender, top@[k])
                    == Ok::<DOSBAbzeichen, EvalError>(out@[k].1),
        decreases top.len() - i,
    {
        let m = match dosb.get_medal_for_attempt(age, gender, &top[i]) {
            Ok(m) => m,
            Err(e) => {
                assert forall|j: int| 0 <= j < i implies dosb.medal_for_attempt_spec(age, gender, #[trigger] top@[j]) is Ok by {
                    assert(out@[j].0 == top@[j]);
                }
                return Err(e);
            },
        };
        out.push((top[i], m));
        i = i + 1;
    }
    Ok(out)
}

/// Whether the category is mandatory for this age and gender under each
/// scheme.
pub fn needs_kat(bjs: &BJSEvaluator, dosb: &DOSBEvaluator, age: i64, gender: char, kategorie_id: i32) -> (r: Result<
    schema::NeedsKat,
    EvalError,
>)
    requires
        bjs.wf(),
        dosb.wf(),
    ensures
        r matches Ok(n) ==> {
            &&& dosb.needed_spec(age, gender) is Ok
            &&& bjs.needed_spec(age, gender) is Ok
            &&& n.dosb == dosb.needed_of(age, gender).map_values(category_id()).contains(kategorie_id as i64)
            &&& n.bjs == bjs.needed_of(age, gender).map_values(category_id()).contains(kategorie_id as i64)
        },
        r matches Err(e) ==> dosb.needed_spec(age, gender) == Err::<Seq<model::Category>, EvalError>(e) || (
        dosb.needed_spec(age, gender) is Ok && bjs.needed_spec(age, gender) == Err::<
            Seq<model::Category>,
            EvalError,
        >(e)),
{
    let needed_dosb = match dosb.get_needed_categorys(age, gender) {
        Ok(n) => n,
        Err(e) => {
            return Err(e);
        },
    };
    let needed_bjs = match bjs.get_needed_categorys(age, gender) {
        Ok(n) => n,
        Err(e) => {
            return Err(e);
        },
    };
    Ok(
        schema::NeedsKat {
            dosb: find_category(&needed_dosb, kategorie_id as i64).is_some(),
            bjs: find_category(&needed_bjs, kategorie_id as i64).is_some(),
        },
    )
}

/// A student id is valid when it has four digits.
pub fn check_schueler_id(id: &i32) -> (r: bool)
    ensures
        r == (MIN_SCHUELER_ID <= *id < MAX_SCHUELER_ID),
{
    (*id as i64) < MAX_SCHUELER_ID && (*id as i64) >= MIN_SCHUELER_ID
}

/// A category row read from the table as shown to users; its unit is the
/// first character of the unit column.
pub fn kategorie_model2schema(m: model::Kategorie) -> (r: schema::Kategorie)
    requires
        m.id is Some,
        m.name is Some,
        m.einheit matches Some(e) && e@.len() > 0,
        m.max_vers is Some,
        m.digits_before is Some,
        m.digits_after is Some,
    ensures
        r.id == m.id->0,
        r.name@ == m.name->0@,
        !r.lauf,
        r.einheit == m.einheit->0@[0],
        r.max_vers == m.max_vers->0,
        r.digits_before == m.digits_before->0,
        r.digits_after == m.digits_after->0,
        r.kat_group_id == 0,
{
    let einheit = match &m.einheit {
        Some(e) => e.as_str().get_char(0),
        None => ' ',
    };
    let name = match m.name {
        Some(n) => n,
        None => String::new(),
    };
    schema::Kategorie {
        id: match m.id {
            Some(v) => v,
            None => 0,
        },
        name,
        lauf: false,
        einheit,
        max_vers: match m.max_vers {
            Some(v) => v,
            None => 0,
        },
        digits_before: match m.digits_before {
            Some(v) => v,
            None => 0,
        },
        digits_after: match m.digits_after {
            Some(v) => v,
            None => 0,
        },
        kat_group_id: 0,
    }
}

} // verus!
