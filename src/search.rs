//! Runs both schemes over every student.
pub mod search_schema;

use vstd::prelude::*;
use crate::bjs_eval::{BJSAbzeichen, BJSEvaluator};
use crate::dosb_eval::{DOSBAbzeichen, DOSBEvaluator};
use crate::error::EvalError;
use crate::model::Attempt;
use crate::interact::get_schueler;
use self::search_schema::{SchuelerResult, SchuelerResultExtensive};

verus! {

/// What the evaluation of one student reads: age, gender and all attempts.
#[derive(Clone, Debug)]
pub struct StudentRecord {
    pub id: i64,
    pub age: i64,
    pub gender: char,
    pub attempts: Vec<Attempt>,
}

/// The evaluation of one student failed.
#[derive(Clone, Copy, Debug, PartialEq, Eq, Structural)]
pub struct StudentError {
    pub id: i64,
    pub error: EvalError,
}

/// Intermediate per-student figures.
#[derive(Debug)]
pub struct SchuelerResultConstructor {
    pub id: i64,
    pub bjs_punkte: Vec<i64>,
    pub dosb_punkte: i32,
    pub kat_groups_bjs: Vec<i64>,
    pub kat_groups_dosb: Vec<i64>,
}

/// Both schemes' results for one student; a student without attempts gets
/// zero points and no award under either scheme without any lookup.
pub open spec fn student_result_spec(
    bjs: &BJSEvaluator,
    dosb: &DOSBEvaluator,
    id: i64,
    age: i64,
    gender: char,
    atts: Seq<Attempt>,
) -> Result<SchuelerResult, EvalError> {
    if atts.len() == 0 {
        Ok(
            SchuelerResult {
                id,
                bjs_punkte: 0,
                bjs_urkunde: BJSAbzeichen::Keine,
                dosb_punkte: 0,
                dosb_abzeichen: DOSBAbzeichen::Keine,
            },
        )
    } else {
        match bjs.points_sum_spec(age, gender, atts) {
            Err(e) => Err(e),
            Ok(bjs_punkte) => match bjs.medal_spec(age, gender, atts) {
                Err(e) => Err(e),
                Ok(bjs_urkunde) => match dosb.points_spec(age, gender, atts) {
                    Err(e) => Err(e),
                    Ok(dosb_punkte) => match dosb.medal_spec(age, gender, atts) {
                        Err(e) => Err(e),
                        Ok(dosb_abzeichen) => Ok(
                            SchuelerResult {
                                id,
                                bjs_punkte,
                                bjs_urkunde,
                                dosb_punkte: dosb_punkte as i64,
                                dosb_abzeichen,
                            },
                        ),
                    },
                },
            },
        }
    }
}

pub open spec fn student_outcome_spec(bjs: &BJSEvaluator, dosb: &DOSBEvaluator, s: StudentRecord) -> Result<
    SchuelerResult,
    StudentError,
> {
    match student_result_spec(bjs, dosb, s.id, s.age, s.gender, s.attempts@) {
        Ok(r) => Ok(r),
        Err(e) => Err(StudentError { id: s.id, error: e }),
    }
}

/// `extra` appended to `base`, leaving out each attempt already listed.
pub open spec fn merge_unique(base: Seq<Attempt>, extra: Seq<Attempt>) -> Seq<Attempt>
    decreases extra.len(),
{
    if extra.len() == 0 {
        base
    } else {
        let m = merge_unique(base, extra.drop_last());
        if m.contains(extra.last()) {
            m
        } else {
            m.push(extra.last())
        }
    }
}

/// Both schemes' results of one student.
pub fn evaluate_student(bjs: &BJSEvaluator, dosb: &DOSBEvaluator, id: i64, age: i64, gender: char, attempts: &Vec<
    Attempt,
>) -> (r: Result<SchuelerResult, EvalError>)
    requires
        bjs.wf(),
        dosb.wf(),
    ensures
        r == student_result_spec(bjs, dosb, id, age, gender, attempts@),
{
    if attempts.len() == 0 {
        return Ok(
            SchuelerResult {
                id,
                bjs_punkte: 0,
                bjs_urkunde: BJSAbzeichen::Keine,
                dosb_punkte: 0,
                dosb_abzeichen: DOSBAbzeichen::Keine,
            },
        );
    }
    let bjs_punkte = match bjs.calculate_points_sum(age, gender, attempts) {
        Ok(p) => p,
        Err(e) => {
            return Err(e);
        },
    };
    let bjs_urkunde = match bjs.get_medal(age, gender, attempts) {
        Ok(m) => m,
        Err(e) => {
            return Err(e);
        },
    };
    let dosb_punkte = match dosb.calculate_points(age, gender, attempts) {
        Ok(p) => p,
        Err(e) => {
            return Err(e);
        },
    };
    let dosb_abzeichen = match dosb.get_medal(age, gender, attempts) {
        Ok(m) => m,
        Err(e) => {
            return Err(e);
        },
    };
    Ok(SchuelerResult { id, bjs_punkte, bjs_urkunde, dosb_punkte: dosb_punkte as i64, dosb_abzeichen })
}

/// Evaluates every student; a student whose evaluation fails is reported
/// at its place and does not stop the others.
pub fn search_database(bjs: &BJSEvaluator, dosb: &DOSBEvaluator, students: &Vec<StudentRecord>) -> (r: Vec<
    Result<SchuelerResult, StudentError>,
>)
    requires
        bjs.wf(),
        dosb.wf(),
    ensures
        r@.len() == students@.len(),
        forall|i: int| 0 <= i < students@.len() ==> #[trigger] r@[i] == student_outcome_spec(bjs, dosb, students@[i]),
{
    let mut out: Vec<Result<SchuelerResult, StudentError>> = Vec::new();
    let mut i: usize = 0;
    while i < students.len()
        invariant
            i <= students.len(),
            bjs.wf(),
            dosb.wf(),
            out@.len() == i,
            forall|j: int| 0 <= j < i ==> #[trigger] out@[j] == student_outcome_spec(bjs, dosb, students@[j]),
        decreases students.len() - i,
    {
        let s = &students[i];
        let outcome = match evaluate_student(bjs, dosb, s.id, s.age, s.gender, &s.attempts) {
            Ok(r) => Ok(r),
            Err(e) => Err(StudentError { id: s.id, error: e }),
        };
        out.push(outcome);
        i = i + 1;
    }
    out
}

fn contains_attempt(list: &Vec<Attempt>, a: Attempt) -> (r: bool)
    ensures
        r == list@.contains(a),
{
    let mut i: usize = 0;
    while i < list.len()
        invariant
            i <= list.len(),
            forall|j: int| 0 <= j < i ==> list@[j] != a,
        decreases list.len() - i,
    {
        if list[i] == a {
            return true;
        }
        i = i + 1;
    }
    false
}

/// The attempts that count under either scheme: DOSB's top attempts, then
/// those of BJS not yet listed.
pub open spec fn singles_spec(bjs: &BJSEvaluator, dosb: &DOSBEvaluator, age: i64, gender: char, atts: Seq<Attempt>) -> Result<
    Seq<Attempt>,
    EvalError,
> {
    match dosb.top_attempts_spec(age, gender, atts) {
        Err(e) => Err(e),
        Ok(d) => match bjs.top_attempts_spec(age, gender, atts) {
            Err(e) => Err(e),
            Ok(b) => Ok(merge_unique(d, b)),
        },
    }
}

/// The student's results with the attempts that count under either scheme.
pub fn result2extensive(
    bjs: &BJSEvaluator,
    dosb: &DOSBEvaluator,
    result: SchuelerResult,
    age: i64,
    gender: char,
    attempts: &Vec<Attempt>,
) -> (r: Result<SchuelerResultExtensive, EvalError>)
    requires
        bjs.wf(),
        dosb.wf(),
    ensures
        r matches Ok(x) ==> x.summary() == result && singles_spec(bjs, dosb, age, gender, attempts@) == Ok::<
            Seq<Attempt>,
            EvalError,
        >(x.single_results@),
        r matches Err(e) ==> singles_spec(bjs, dosb, age, gender, attempts@) == Err::<Seq<Attempt>, EvalError>(e),
{
    let top_dosb = match dosb.get_top_attempts(age, gender, attempts) {
        Ok(t) => t,
        Err(e) => {
            return Err(e);
        },
    };
    let top_bjs = match bjs.get_top_attempts(age, gender, attempts) {
        Ok(t) => t,
        Err(e) => {
            return Err(e);
        },
    };
    let mut single_results = top_dosb;
    let mut i: usize = 0;
    while i < top_bjs.len()
        invariant
            i <= top_bjs.len(),
            single_results@ == merge_unique(top_dosb@, top_bjs@.take(i as int)),
        decreases top_bjs.len() - i,
    {
        proof {
            assert(top_bjs@.take(i + 1).drop_last() == top_bjs@.take(i as int));
        }
        let a = top_bjs[i];
        if !contains_attempt(&single_results, a) {
            single_results.push(a);
        }
        i = i + 1;
    }
    assert(top_bjs@.take(top_bjs.len() as int) == top_bjs@);
    Ok(
        SchuelerResultExtensive {
            id: result.id,
            bjs_punkte: result.bjs_punkte,
            bjs_urkunde: result.bjs_urkunde,
            dosb_punkte: result.dosb_punkte,
            dosb_abzeichen: result.dosb_abzeichen,
            single_results,
        },
    )
}

pub open spec fn extensive_outcome_ok(
    bjs: &BJSEvaluator,
    dosb: &DOSBEvaluator,
    s: StudentRecord,
    x: SchuelerResultExtensive,
) -> bool {
    &&& student_result_spec(bjs, dosb, s.id, s.age, s.gender, s.attempts@) == Ok::<SchuelerResult, EvalError>(x.summary())
    &&& singles_spec(bjs, dosb, s.age, s.gender, s.attempts@) == Ok::<Seq<Attempt>, EvalError>(x.single_results@)
}

pub open spec fn extensive_outcome_err(bjs: &BJSEvaluator, dosb: &DOSBEvaluator, s: StudentRecord, e: EvalError) -> bool {
    ||| student_result_spec(bjs, dosb, s.id, s.age, s.gender, s.attempts@) == Err::<SchuelerResult, EvalError>(e)
    ||| student_result_spec(bjs, dosb, s.id, s.age, s.gender, s.attempts@) is Ok && singles_spec(
        bjs,
        dosb,
        s.age,
        s.gender,
        s.attempts@,
    ) == Err::<Seq<Attempt>, EvalError>(e)
}

/// Every student's results with the attempts that count; a student whose
/// evaluation fails is reported at its place and does not stop the others.
pub fn search_database_extesive(bjs: &BJSEvaluator, dosb: &DOSBEvaluator, students: &Vec<StudentRecord>) -> (r: Vec<
    Result<SchuelerResultExtensive, StudentError>,
>)
    requires
        bjs.wf(),
        dosb.wf(),
    ensures
        r@.len() == students@.len(),
        forall|i: int|
            0 <= i < students@.len() ==> match #[trigger] r@[i] {
                Ok(x) => extensive_outcome_ok(bjs, dosb, students@[i], x),
                Err(e) => e.id == students@[i].id && extensive_outcome_err(bjs, dosb, students@[i], e.error),
            },
{
    let mut out: Vec<Result<SchuelerResultExtensive, StudentError>> = Vec::new();
    let mut i: usize = 0;
    while i < students.len()
        invariant
            i <= students.len(),
            bjs.wf(),
            dosb.wf(),
            out@.len() == i,
            forall|j: int|
                0 <= j < i ==> match #[trigger] out@[j] {
                    Ok(x) => extensive_outcome_ok(bjs, dosb, students@[j], x),
                    Err(e) => e.id == students@[j].id && extensive_outcome_err(bjs, dosb, students@[j], e.error),
                },
        decreases students.len() - i,
    {
        let s = &students[i];
        let outcome = match get_schueler(bjs, dosb, s) {
            Ok(x) => Ok(x),
            Err(e) => Err(StudentError { id: s.id, error: e }),
        };
        out.push(outcome);
        i = i + 1;
    }
    out
}

} // verus!
