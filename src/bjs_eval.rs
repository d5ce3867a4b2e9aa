//! Evaluation under the point-based scheme (BJS): each attempt is scored by
//! a formula, the best three of the four groups are summed, and the sum is
//! held against the certificate thresholds of the student's age and gender.
use vstd::prelude::*;
use crate::arith::{is_isqrt, isqrt, square_root};
use crate::catalog::{is_needed, first_at, first_match, find_category, has_id, category_id, groups_valid, missing_by_group, missing_of_group};
use crate::error::{EvalError, Fault, Lookup};
use crate::model::{Attempt, Category, GROUP_COUNT, attempt_category, attempt_categories};

verus! {

/// Certificate tiers, in increasing order.
#[derive(Clone, Copy, Debug, PartialEq, Eq, Structural)]
pub enum BJSAbzeichen {
    /// No certificate.
    Keine,
    Teilnehmer,
    Sieger,
    Ehren,
}

/// The formula constants `a` and `c` are fixed-point numbers in this unit:
/// the value 1.15028 is stored as 115028.
pub const FACTOR_SCALE: i128 = 100_000;

/// Results are stored in hundredths of their unit.
pub const RESULT_SCALE: i128 = 100;

/// `FACTOR_SCALE * FACTOR_SCALE / RESULT_SCALE`: under a square root it turns
/// a result in hundredths into the root in units of `FACTOR_SCALE`.
pub const ROOT_SCALE: i128 = 100_000_000;

/// Runs up to this distance (metres) get `SHORT_SUPPLEMENT`.
pub const SHORT_DISTANCE: i64 = 300;
/// Runs up to this distance (metres) get `MIDDLE_SUPPLEMENT`.
pub const MIDDLE_DISTANCE: i64 = 400;
/// Reaction-time supplement of short runs, in hundredths of a second.
pub const SHORT_SUPPLEMENT: i64 = 24;
/// Reaction-time supplement of middle runs, in hundredths of a second.
pub const MIDDLE_SUPPLEMENT: i64 = 14;

/// A category that students of this age and gender must attempt.
#[derive(Clone, Copy, Debug, PartialEq, Eq, Structural)]
pub struct MandatoryCategory {
    pub age: i64,
    pub gender: char,
    pub category: Category,
}

/// The formula constants of a category for one gender.
///
/// `a` and `c` are in units of `1 / FACTOR_SCALE`; `distance` is the length
/// of a run in metres.
#[derive(Clone, Copy, Debug, PartialEq, Eq, Structural)]
pub struct FormVars {
    pub category: i64,
    pub gender: char,
    pub a: i64,
    pub c: i64,
    pub running: bool,
    pub distance: Option<i64>,
}

/// The point sums from which a winner's and an honour certificate are given.
#[derive(Clone, Copy, Debug, PartialEq, Eq, Structural)]
pub struct PointsThreshold {
    pub age: i64,
    pub gender: char,
    pub winner: i64,
    pub honor: i64,
}

/// The tables the scheme is evaluated against.
pub struct BJSEvaluator {
    pub mandatory: Vec<MandatoryCategory>,
    pub form_vars: Vec<FormVars>,
    pub thresholds: Vec<PointsThreshold>,
}

/// The supplement added to a run's time, by the run's distance.
pub open spec fn supplement(distance: i64) -> i64 {
    if distance <= SHORT_DISTANCE {
        SHORT_SUPPLEMENT
    } else if distance <= MIDDLE_DISTANCE {
        MIDDLE_SUPPLEMENT
    } else {
        0
    }
}

/// A non-negative point count as an `i64`, the largest one where it does not fit.
pub open spec fn saturate(x: int) -> i64 {
    if x > i64::MAX {
        i64::MAX
    } else {
        x as i64
    }
}

/// The quotient `n / m` truncated toward zero, 0 where it is negative and
/// `i64::MAX` where it does not fit; `m` is not zero.
pub open spec fn clamped_quotient(n: int, m: int) -> i64 {
    let num = if m < 0 { -n } else { n };
    let den = if m < 0 { -m } else { m };
    if num <= 0 {
        0
    } else {
        saturate(num / den)
    }
}

/// The smallest `s` with `n <= s * s`.
pub open spec fn ceil_sqrt(n: int) -> int {
    if isqrt(n) * isqrt(n) == n {
        isqrt(n)
    } else {
        isqrt(n) + 1
    }
}

/// Points of a run: `(distance / (time + supplement) - a) / c`, truncated,
/// and 0 where that is negative. `time` already holds the supplement.
///
/// With `time` in hundredths and `a`, `c` in units of `1 / FACTOR_SCALE`,
/// the quotient is `(FACTOR_SCALE * RESULT_SCALE * distance - a * time) / (c * time)`.
pub open spec fn running_points(a: int, c: int, distance: int, time: int) -> i64 {
    clamped_quotient(FACTOR_SCALE * RESULT_SCALE * distance - a * time, c * time)
}

/// Points of a jump or throw: `(sqrt(result) - a) / c`, truncated, and 0
/// where that is negative or the result is negative.
///
/// In fixed point the root is `sqrt(ROOT_SCALE * result)`. Rounding it to an
/// integer does not change the truncated quotient when it is rounded down
/// for a positive `c` and up for a negative one.
pub open spec fn field_points(a: int, c: int, result: int) -> i64 {
    if result < 0 {
        0
    } else {
        let root = if c > 0 { isqrt(ROOT_SCALE * result) } else { ceil_sqrt(ROOT_SCALE * result) };
        clamped_quotient(root - a, c)
    }
}

/// Points of an attempt under the given formula constants. Only a division
/// by zero (`c == 0`, or a run whose time with its supplement is 0) and a
/// run without its distance are errors.
pub open spec fn points_with_vars(v: FormVars, att: Attempt) -> Result<i64, EvalError> {
    if v.c == 0 {
        Err(EvalError::Internal(Fault::InvalidDivisor { category: att.category }))
    } else if v.running {
        match v.distance {
            None => Err(EvalError::Internal(Fault::MissingDistance { category: att.category })),
            Some(d) => {
                let time = att.result + supplement(d);
                if time == 0 {
                    Err(EvalError::Internal(Fault::InvalidTime { category: att.category }))
                } else {
                    Ok(running_points(v.a as int, v.c as int, d as int, time))
                }
            },
        }
    } else {
        Ok(field_points(v.a as int, v.c as int, att.result as int))
    }
}

fn saturate_exec(x: i128) -> (r: i64)
    requires
        x >= 0,
    ensures
        r == saturate(x as int),
{
    if x > i64::MAX as i128 {
        i64::MAX
    } else {
        x as i64
    }
}

fn clamped_quotient_exec(n: i128, m: i128) -> (r: i64)
    requires
        m != 0,
        n > i128::MIN,
        m > i128::MIN,
    ensures
        r == clamped_quotient(n as int, m as int),
{
    let num: i128 = if m < 0 { -n } else { n };
    let den: i128 = if m < 0 { -m } else { m };
    if num <= 0 {
        0
    } else {
        let q = num / den;
        assert(q >= 0) by (nonlinear_arith)
            requires
                num > 0,
                den > 0,
                q == num as int / den as int,
        ;
        saturate_exec(q)
    }
}

/// Computes `points_with_vars` for the constants found for the attempt.
fn calculate_points_with_know_vars(v: &FormVars, att: &Attempt) -> (r: Result<i64, EvalError>)
    ensures
        r == points_with_vars(*v, *att),
{
    if v.c == 0 {
        return Err(EvalError::Internal(Fault::InvalidDivisor { category: att.category }));
    }
    let a = v.a as i128;
    let c = v.c as i128;
    if v.running {
        let d = match v.distance {
            Some(d) => d,
            None => {
                return Err(EvalError::Internal(Fault::MissingDistance { category: att.category }));
            },
        };
        let sup: i64 = if d <= SHORT_DISTANCE {
            SHORT_SUPPLEMENT
        } else if d <= MIDDLE_DISTANCE {
            MIDDLE_SUPPLEMENT
        } else {
            0
        };
        let time: i128 = att.result as i128 + sup as i128;
        if time == 0 {
            return Err(EvalError::Internal(Fault::InvalidTime { category: att.category }));
        }
        assert(-0x4000_0000_0000_0010_0000_0000_0000_0000 <= a * time <= 0x4000_0000_0000_0010_0000_0000_0000_0000) by (nonlinear_arith)
            requires
                -0x8000_0000_0000_0000 <= a < 0x8000_0000_0000_0000,
                -0x8000_0000_0000_0000 <= time <= 0x8000_0000_0000_0020,
        ;
        assert(-0x4000_0000_0000_0010_0000_0000_0000_0000 <= c * time <= 0x4000_0000_0000_0010_0000_0000_0000_0000
            && c * time != 0) by (nonlinear_arith)
            requires
                -0x8000_0000_0000_0000 <= c < 0x8000_0000_0000_0000,
                c != 0,
                -0x8000_0000_0000_0000 <= time <= 0x8000_0000_0000_0020,
                time != 0,
        ;
        let n: i128 = FACTOR_SCALE * RESULT_SCALE * (d as i128) - a * time;
        let m: i128 = c * time;
        Ok(clamped_quotient_exec(n, m))
    } else {
        if att.result < 0 {
            return Ok(0);
        }
        let big = ROOT_SCALE as u128 * att.result as u128;
        let s = square_root(big);
        assert(s <= 0x8000_0000_0000) by (nonlinear_arith)
            requires
                s * s <= ROOT_SCALE * att.result,
                att.result < 0x8000_0000_0000_0000,
                ROOT_SCALE == 100_000_000,
        ;
        let root: u128 = if c > 0 || s * s == big {
            s
        } else {
            s + 1
        };
        Ok(clamped_quotient_exec(root as i128 - a, c))
    }
}

pub open spec fn mandatory_row(age: i64, gender: char) -> spec_fn(MandatoryCategory) -> bool {
    |m: MandatoryCategory| m.age == age && m.gender == gender
}

pub open spec fn mandatory_category() -> spec_fn(MandatoryCategory) -> Category {
    |m: MandatoryCategory| m.category
}

pub open spec fn vars_row(category: i64, gender: char) -> spec_fn(FormVars) -> bool {
    |v: FormVars| v.category == category && v.gender == gender
}

pub open spec fn threshold_row(age: i64, gender: char) -> spec_fn(PointsThreshold) -> bool {
    |t: PointsThreshold| t.age == age && t.gender == gender
}

/// Number of groups that must be done before points count for a certificate.
pub const MIN_DONE_GROUPS: usize = 3;

/// One step of picking the best attempt per category: the attempt takes the
/// place of the one kept for its category when it scores at least as many
/// points (on a tie the later attempt wins); an attempt of a new category
/// is appended.
pub open spec fn keep_best(top: Seq<(Attempt, i64)>, a: Attempt, p: i64) -> Seq<(Attempt, i64)> {
    if exists|k: int| 0 <= k < top.len() && #[trigger] top[k].0.category == a.category {
        let k = choose|k: int| 0 <= k < top.len() && #[trigger] top[k].0.category == a.category;
        if top[k].1 <= p {
            top.update(k, (a, p))
        } else {
            top
        }
    } else {
        top.push((a, p))
    }
}

/// No two entries are of the same category.
pub open spec fn categories_distinct(top: Seq<(Attempt, i64)>) -> bool {
    forall|i: int, j: int|
        0 <= i < top.len() && 0 <= j < top.len() && #[trigger] top[i].0.category == #[trigger] top[j].0.category
            ==> i == j
}

pub open spec fn first_of_pair() -> spec_fn((Attempt, i64)) -> Attempt {
    |t: (Attempt, i64)| t.0
}

/// How many of the four groups have nothing missing.
pub open spec fn done_group_count(needed: Seq<Category>, done: Seq<i64>) -> int {
    (if missing_of_group(needed, done, 1).len() == 0 { 1int } else { 0int })
        + (if missing_of_group(needed, done, 2).len() == 0 { 1int } else { 0int })
        + (if missing_of_group(needed, done, 3).len() == 0 { 1int } else { 0int })
        + (if missing_of_group(needed, done, 4).len() == 0 { 1int } else { 0int })
}

pub open spec fn min4(b: Seq<i64>) -> int {
    let m01 = if b[0] <= b[1] { b[0] } else { b[1] };
    let m23 = if b[2] <= b[3] { b[2] } else { b[3] };
    if m01 <= m23 { m01 as int } else { m23 as int }
}

/// The sum of the best three of the four group results.
pub open spec fn best_three_sum(b: Seq<i64>) -> i64 {
    saturate(b[0] + b[1] + b[2] + b[3] - min4(b))
}

/// The certificate a point sum earns against the thresholds.
pub open spec fn tier_for_sum(sum: i64, t: PointsThreshold) -> BJSAbzeichen {
    if sum < t.winner {
        BJSAbzeichen::Teilnehmer
    } else if sum < t.honor {
        BJSAbzeichen::Sieger
    } else {
        BJSAbzeichen::Ehren
    }
}

impl BJSEvaluator {
    /// Every mandatory category lies in one of the four groups.
    pub open spec fn wf(&self) -> bool {
        forall|k: int| 0 <= k < self.mandatory@.len() ==> (#[trigger] self.mandatory@[k]).category.has_valid_group()
    }

    /// The mandatory categories of an age and gender, in table order.
    pub open spec fn needed_of(&self, age: i64, gender: char) -> Seq<Category> {
        self.mandatory@.filter(mandatory_row(age, gender)).map_values(mandatory_category())
    }

    pub open spec fn needed_spec(&self, age: i64, gender: char) -> Result<Seq<Category>, EvalError> {
        if self.needed_of(age, gender).len() == 0 {
            Err(EvalError::NotFound(Lookup::NeededCategories { age, gender }))
        } else {
            Ok(self.needed_of(age, gender))
        }
    }

    pub open spec fn vars_of(&self, category: i64, gender: char) -> Option<FormVars> {
        first_match(self.form_vars@, vars_row(category, gender))
    }

    pub open spec fn thresholds_of(&self, age: i64, gender: char) -> Option<PointsThreshold> {
        first_match(self.thresholds@, threshold_row(age, gender))
    }

    /// Points of one attempt for a student of this gender.
    pub open spec fn points_spec(&self, gender: char, att: Attempt) -> Result<i64, EvalError> {
        match self.vars_of(att.category, gender) {
            None => Err(EvalError::NotFound(Lookup::FormVars { category: att.category, gender })),
            Some(v) => points_with_vars(v, att),
        }
    }

    /// The best attempt of each needed category with its points, over the
    /// attempts in order; the first attempt whose points cannot be computed
    /// gives the error.
    pub open spec fn top_scored(&self, gender: char, needed: Seq<Category>, atts: Seq<Attempt>) -> Result<
        Seq<(Attempt, i64)>,
        EvalError,
    >
        decreases atts.len(),
    {
        if atts.len() == 0 {
            Ok(Seq::empty())
        } else {
            match self.top_scored(gender, needed, atts.drop_last()) {
                Err(e) => Err(e),
                Ok(top) => {
                    let a = atts.last();
                    if !needed.map_values(category_id()).contains(a.category) {
                        Ok(top)
                    } else {
                        match self.points_spec(gender, a) {
                            Err(e) => Err(e),
                            Ok(p) => Ok(keep_best(top, a, p)),
                        }
                    }
                },
            }
        }
    }

    pub open spec fn top_attempts_spec(&self, age: i64, gender: char, atts: Seq<Attempt>) -> Result<
        Seq<Attempt>,
        EvalError,
    > {
        match self.needed_spec(age, gender) {
            Err(e) => Err(e),
            Ok(needed) => match self.top_scored(gender, needed, atts) {
                Err(e) => Err(e),
                Ok(top) => Ok(top.map_values(first_of_pair())),
            },
        }
    }

    /// The best points of each group (index `group_id - 1`) over the needed
    /// attempts, 0 for a group without any.
    pub open spec fn group_best(&self, gender: char, needed: Seq<Category>, atts: Seq<Attempt>) -> Result<
        Seq<i64>,
        EvalError,
    >
        decreases atts.len(),
    {
        if atts.len() == 0 {
            Ok(seq![0i64, 0i64, 0i64, 0i64])
        } else {
            match self.group_best(gender, needed, atts.drop_last()) {
                Err(e) => Err(e),
                Ok(best) => {
                    let a = atts.last();
                    match first_match(needed, has_id(a.category)) {
                        None => Ok(best),
                        Some(cat) => match self.points_spec(gender, a) {
                            Err(e) => Err(e),
                            Ok(p) => if best[cat.group_id - 1] < p {
                                Ok(best.update(cat.group_id - 1, p))
                            } else {
                                Ok(best)
                            },
                        },
                    }
                },
            }
        }
    }

    pub open spec fn points_sum_spec(&self, age: i64, gender: char, atts: Seq<Attempt>) -> Result<i64, EvalError> {
        match self.needed_spec(age, gender) {
            Err(e) => Err(e),
            Ok(needed) => match self.group_best(gender, needed, atts) {
                Err(e) => Err(e),
                Ok(best) => Ok(best_three_sum(best)),
            },
        }
    }

    pub open spec fn medal_spec(&self, age: i64, gender: char, atts: Seq<Attempt>) -> Result<BJSAbzeichen, EvalError> {
        if atts.len() == 0 {
            Ok(BJSAbzeichen::Keine)
        } else {
            match self.needed_spec(age, gender) {
                Err(e) => Err(e),
                Ok(needed) => if done_group_count(needed, atts.map_values(attempt_category())) < MIN_DONE_GROUPS {
                    Ok(BJSAbzeichen::Teilnehmer)
                } else {
                    match self.points_sum_spec(age, gender, atts) {
                        Err(e) => Err(e),
                        Ok(sum) => match self.thresholds_of(age, gender) {
                            None => Err(EvalError::NotFound(Lookup::PointThresholds { age, gender })),
                            Some(t) => Ok(tier_for_sum(sum, t)),
                        },
                    }
                },
            }
        }
    }
}


fn find_vars(rows: &Vec<FormVars>, category: i64, gender: char) -> (r: Option<FormVars>)
    ensures
        r == first_match(rows@, vars_row(category, gender)),
{
    let mut i: usize = 0;
    while i < rows.len()
        invariant
            i <= rows.len(),
            forall|j: int| 0 <= j < i ==> !vars_row(category, gender)(#[trigger] rows@[j]),
        decreases rows.len() - i,
    {
        if rows[i].category == category && rows[i].gender == gender {
            assert(first_at(rows@, vars_row(category, gender), i as int));
            return Some(rows[i]);
        }
        i = i + 1;
    }
    None
}

fn find_thresholds(rows: &Vec<PointsThreshold>, age: i64, gender: char) -> (r: Option<PointsThreshold>)
    ensures
        r == first_match(rows@, threshold_row(age, gender)),
{
    let mut i: usize = 0;
    while i < rows.len()
        invariant
            i <= rows.len(),
            forall|j: int| 0 <= j < i ==> !threshold_row(age, gender)(#[trigger] rows@[j]),
        decreases rows.len() - i,
    {
        if rows[i].age == age && rows[i].gender == gender {
            assert(first_at(rows@, threshold_row(age, gender), i as int));
            return Some(rows[i]);
        }
        i = i + 1;
    }
    None
}

/// Where the entry of this category stands, if there is one.
fn position_of_category(top: &Vec<(Attempt, i64)>, category: i64) -> (r: Option<usize>)
    ensures
        r matches Some(k) ==> k < top@.len() && top@[k as int].0.category == category,
        r is None ==> forall|k: int| 0 <= k < top@.len() ==> #[trigger] top@[k].0.category != category,
{
    let mut i: usize = 0;
    while i < top.len()
        invariant
            i <= top.len(),
            forall|k: int| 0 <= k < i ==> #[trigger] top@[k].0.category != category,
        decreases top.len() - i,
    {
        if top[i].0.category == category {
            return Some(i);
        }
        i = i + 1;
    }
    None
}

impl BJSEvaluator {
    /// The mandatory categories of this age and gender, in table order;
    /// `NotFound` where there are none.
    pub fn get_needed_categorys(&self, age: i64, gender: char) -> (r: Result<Vec<Category>, EvalError>)
        requires
            self.wf(),
        ensures
            r matches Ok(v) ==> self.needed_spec(age, gender) == Ok::<Seq<Category>, EvalError>(v@) && groups_valid(v@),
            r matches Err(e) ==> self.needed_spec(age, gender) == Err::<Seq<Category>, EvalError>(e),
    {
        let mut out: Vec<Category> = Vec::new();
        let mut i: usize = 0;
        while i < self.mandatory.len()
            invariant
                i <= self.mandatory.len(),
                self.wf(),
                out@ == self.mandatory@.take(i as int).filter(mandatory_row(age, gender)).map_values(mandatory_category()),
                groups_valid(out@),
            decreases self.mandatory.len() - i,
        {
            let ghost pre = self.mandatory@.take(i as int);
            proof {
                assert(self.mandatory@.take(i + 1) == pre.push(self.mandatory@[i as int]));
                pre.lemma_filter_push(self.mandatory@[i as int], mandatory_row(age, gender));
                pre.filter(mandatory_row(age, gender)).lemma_push_map_commute(
                    mandatory_category(),
                    self.mandatory@[i as int],
                );
            }
            let m = self.mandatory[i];
            if m.age == age && m.gender == gender {
                out.push(m.category);
            }
            i = i + 1;
        }
        assert(self.mandatory@.take(self.mandatory.len() as int) == self.mandatory@);
        if out.len() == 0 {
            Err(EvalError::NotFound(Lookup::NeededCategories { age, gender }))
        } else {
            Ok(out)
        }
    }

    /// For each of the four groups, the needed categories still missing.
    pub fn get_missing_categorys(&self, age: i64, gender: char, done_categories: &Vec<i64>) -> (r: Result<
        Vec<Vec<i64>>,
        EvalError,
    >)
        requires
            self.wf(),
        ensures
            r is Ok <==> self.needed_spec(age, gender) is Ok,
            r matches Err(e) ==> self.needed_spec(age, gender) == Err::<Seq<Category>, EvalError>(e),
            r matches Ok(m) ==> m@.len() == GROUP_COUNT && forall|g: int|
                0 <= g < GROUP_COUNT ==> (#[trigger] m@[g])@ == missing_of_group(
                    self.needed_of(age, gender),
                    done_categories@,
                    g + 1,
                ),
    {
        let needed = match self.get_needed_categorys(age, gender) {
            Ok(n) => n,
            Err(e) => {
                return Err(e);
            },
        };
        Ok(missing_by_group(&needed, done_categories))
    }

    /// The points of one attempt.
    pub fn calculate_points(&self, gender: char, att: &Attempt) -> (r: Result<i64, EvalError>)
        ensures
            r == self.points_spec(gender, *att),
    {
        match find_vars(&self.form_vars, att.category, gender) {
            None => Err(EvalError::NotFound(Lookup::FormVars { category: att.category, gender })),
            Some(v) => calculate_points_with_know_vars(&v, att),
        }
    }

    proof fn lemma_top_error_kept(&self, gender: char, needed: Seq<Category>, atts: Seq<Attempt>, i: int)
        requires
            0 <= i <= atts.len(),
            self.top_scored(gender, needed, atts.take(i)) is Err,
        ensures
            self.top_scored(gender, needed, atts) == self.top_scored(gender, needed, atts.take(i)),
        decreases atts.len() - i,
    {
        if i < atts.len() {
            assert(atts.take(i + 1).drop_last() == atts.take(i));
            self.lemma_top_error_kept(gender, needed, atts, i + 1);
        } else {
            assert(atts.take(i) == atts);
        }
    }

    /// The best attempt of each needed category, in the order in which the
    /// categories first occur among the attempts.
    pub fn get_top_attempts(&self, age: i64, gender: char, attempts: &Vec<Attempt>) -> (r: Result<
        Vec<Attempt>,
        EvalError,
    >)
        requires
            self.wf(),
        ensures
            r matches Ok(v) ==> self.top_attempts_spec(age, gender, attempts@) == Ok::<Seq<Attempt>, EvalError>(v@),
            r matches Err(e) ==> self.top_attempts_spec(age, gender, attempts@) == Err::<Seq<Attempt>, EvalError>(e),
    {
        let needed = match self.get_needed_categorys(age, gender) {
            Ok(n) => n,
            Err(e) => {
                return Err(e);
            },
        };
        let mut top: Vec<(Attempt, i64)> = Vec::new();
        let mut i: usize = 0;
        while i < attempts.len()
            invariant
                i <= attempts.len(),
                self.needed_spec(age, gender) == Ok::<Seq<Category>, EvalError>(needed@),
                self.top_scored(gender, needed@, attempts@.take(i as int)) == Ok::<Seq<(Attempt, i64)>, EvalError>(top@),
                categories_distinct(top@),
            decreases attempts.len() - i,
        {
            let a = attempts[i];
            proof {
                assert(attempts@.take(i + 1).drop_last() == attempts@.take(i as int));
                assert(attempts@.take(i + 1).last() == a);
            }
            if find_category(&needed, a.category).is_some() {
                let p = match self.calculate_points(gender, &a) {
                    Ok(p) => p,
                    Err(e) => {
                        proof {
                            assert(needed@.map_values(category_id()).contains(a.category));
                            assert(self.top_scored(gender, needed@, attempts@.take(i + 1)) == Err::<
                                Seq<(Attempt, i64)>,
                                EvalError,
                            >(e));
                            self.lemma_top_error_kept(gender, needed@, attempts@, i + 1);
                        }
                        return Err(e);
                    },
                };
                match position_of_category(&top, a.category) {
                    Some(k) => {
                        proof {
                            let kk = choose|kk: int| 0 <= kk < top@.len() && #[trigger] top@[kk].0.category == a.category;
                            assert(kk == k);
                        }
                        if top[k].1 <= p {
                            top.set(k, (a, p));
                        }
                    },
                    None => {
                        top.push((a, p));
                    },
                }
            }
            i = i + 1;
        }
        assert(attempts@.take(attempts.len() as int) == attempts@);
        let mut out: Vec<Attempt> = Vec::new();
        let mut j: usize = 0;
        while j < top.len()
            invariant
                j <= top.len(),
                out@ == top@.take(j as int).map_values(first_of_pair()),
            decreases top.len() - j,
        {
            proof {
                assert(top@.take(j + 1) == top@.take(j as int).push(top@[j as int]));
                top@.take(j as int).lemma_push_map_commute(first_of_pair(), top@[j as int]);
            }
            out.push(top[j].0);
            j = j + 1;
        }
        assert(top@.take(top.len() as int) == top@);
        Ok(out)
    }
}


impl BJSEvaluator {
    proof fn lemma_group_error_kept(&self, gender: char, needed: Seq<Category>, atts: Seq<Attempt>, i: int)
        requires
            0 <= i <= atts.len(),
            self.group_best(gender, needed, atts.take(i)) is Err,
        ensures
            self.group_best(gender, needed, atts) == self.group_best(gender, needed, atts.take(i)),
        decreases atts.len() - i,
    {
        if i < atts.len() {
            assert(atts.take(i + 1).drop_last() == atts.take(i));
            self.lemma_group_error_kept(gender, needed, atts, i + 1);
        } else {
            assert(atts.take(i) == atts);
        }
    }

    /// The sum of the best three group results: per group the most points
    /// of any needed attempt (0 for a group without one), then the lowest
    /// of the four left out.
    pub fn calculate_points_sum(&self, age: i64, gender: char, attempts: &Vec<Attempt>) -> (r: Result<i64, EvalError>)
        requires
            self.wf(),
        ensures
            r == self.points_sum_spec(age, gender, attempts@),
    {
        let needed = match self.get_needed_categorys(age, gender) {
            Ok(n) => n,
            Err(e) => {
                return Err(e);
            },
        };
        let mut best: Vec<i64> = vec![0i64, 0i64, 0i64, 0i64];
        assert(best@ == seq![0i64, 0i64, 0i64, 0i64]);
        let mut i: usize = 0;
        while i < attempts.len()
            invariant
                i <= attempts.len(),
                self.needed_spec(age, gender) == Ok::<Seq<Category>, EvalError>(needed@),
                groups_valid(needed@),
                self.group_best(gender, needed@, attempts@.take(i as int)) == Ok::<Seq<i64>, EvalError>(best@),
                best@.len() == GROUP_COUNT,
                forall|g: int| 0 <= g < GROUP_COUNT ==> #[trigger] best@[g] >= 0,
            decreases attempts.len() - i,
        {
            let a = attempts[i];
            proof {
                assert(attempts@.take(i + 1).drop_last() == attempts@.take(i as int));
                assert(attempts@.take(i + 1).last() == a);
            }
            match find_category(&needed, a.category) {
                None => {},
                Some(cat) => {
                    proof {
                        let k = choose|k: int| first_at(needed@, has_id(a.category), k);
                        assert(needed@[k].has_valid_group());
                    }
                    let p = match self.calculate_points(gender, &a) {
                        Ok(p) => p,
                        Err(e) => {
                            proof {
                                assert(self.group_best(gender, needed@, attempts@.take(i + 1)) == Err::<
                                    Seq<i64>,
                                    EvalError,
                                >(e));
                                self.lemma_group_error_kept(gender, needed@, attempts@, i + 1);
                            }
                            return Err(e);
                        },
                    };
                    let g = (cat.group_id - 1) as usize;
                    if best[g] < p {
                        best.set(g, p);
                    }
                },
            }
            i = i + 1;
        }
        assert(attempts@.take(attempts.len() as int) == attempts@);
        let b0 = best[0] as i128;
        let b1 = best[1] as i128;
        let b2 = best[2] as i128;
        let b3 = best[3] as i128;
        let m01 = if b0 <= b1 { b0 } else { b1 };
        let m23 = if b2 <= b3 { b2 } else { b3 };
        let min = if m01 <= m23 { m01 } else { m23 };
        Ok(saturate_exec(b0 + b1 + b2 + b3 - min))
    }

    /// The certificate: none without attempts, a participant's certificate
    /// while fewer than three groups are done, otherwise the one the point
    /// sum earns against the thresholds of the age and gender.
    pub fn get_medal(&self, age: i64, gender: char, attempts: &Vec<Attempt>) -> (r: Result<BJSAbzeichen, EvalError>)
        requires
            self.wf(),
        ensures
            r == self.medal_spec(age, gender, attempts@),
    {
        if attempts.len() == 0 {
            return Ok(BJSAbzeichen::Keine);
        }
        let done = attempt_categories(attempts);
        let missing = match self.get_missing_categorys(age, gender, &done) {
            Ok(m) => m,
            Err(e) => {
                return Err(e);
            },
        };
        let mut done_groups: usize = 0;
        if missing[0].len() == 0 {
            done_groups = done_groups + 1;
        }
        if missing[1].len() == 0 {
            done_groups = done_groups + 1;
        }
        if missing[2].len() == 0 {
            done_groups = done_groups + 1;
        }
        if missing[3].len() == 0 {
            done_groups = done_groups + 1;
        }
        assert(done_groups == done_group_count(self.needed_of(age, gender), done@)) by {
            assert(missing@[0]@ == missing_of_group(self.needed_of(age, gender), done@, 1));
            assert(missing@[1]@ == missing_of_group(self.needed_of(age, gender), done@, 2));
            assert(missing@[2]@ == missing_of_group(self.needed_of(age, gender), done@, 3));
            assert(missing@[3]@ == missing_of_group(self.needed_of(age, gender), done@, 4));
        }
        if done_groups < MIN_DONE_GROUPS {
            return Ok(BJSAbzeichen::Teilnehmer);
        }
        let sum = match self.calculate_points_sum(age, gender, attempts) {
            Ok(s) => s,
            Err(e) => {
                return Err(e);
            },
        };
        match find_thresholds(&self.thresholds, age, gender) {
            None => Err(EvalError::NotFound(Lookup::PointThresholds { age, gender })),
            Some(t) => if sum < t.winner {
                Ok(BJSAbzeichen::Teilnehmer)
            } else if sum < t.honor {
                Ok(BJSAbzeichen::Sieger)
            } else {
                Ok(BJSAbzeichen::Ehren)
            },
        }
    }
}


/// The quotient of `clamped_quotient`, for a positive divisor: `p * m <= n < (p + 1) * m`
/// where it is positive and fits, and 0 otherwise.
pub proof fn lemma_clamped_quotient(n: int, m: int)
    requires
        m > 0,
    ensures
        clamped_quotient(n, m) >= 0,
        clamped_quotient(n, m) > 0 ==> clamped_quotient(n, m) * m <= n,
        clamped_quotient(n, m) < i64::MAX ==> n < (clamped_quotient(n, m) + 1) * m,
{
    let p = clamped_quotient(n, m) as int;
    if n <= 0 {
        assert(n < (p + 1) * m) by (nonlinear_arith)
            requires
                p == 0,
                m > 0,
                n <= 0,
        ;
    } else {
        let f = n / m;
        assert(f * m <= n < (f + 1) * m && f >= 0) by (nonlinear_arith)
            requires
                m > 0,
                n > 0,
                f == n / m,
        ;
        assert(p == f || (p == i64::MAX && f > i64::MAX));
        assert(p * m <= f * m) by (nonlinear_arith)
            requires
                0 <= p <= f,
                m > 0,
        ;
    }
}

/// `ceil_sqrt(n)` is the smallest `s >= 0` with `n <= s * s`.
pub proof fn lemma_ceil_sqrt(n: int)
    requires
        n >= 0,
    ensures
        is_isqrt(n, isqrt(n)),
        0 <= ceil_sqrt(n),
        n <= ceil_sqrt(n) * ceil_sqrt(n),
        n > 0 ==> (ceil_sqrt(n) - 1) * (ceil_sqrt(n) - 1) < n,
{
    crate::arith::lemma_isqrt_exists(n);
    let s = isqrt(n);
    assert(is_isqrt(n, s));
    if s * s != n {
        assert(s * s < n);
    } else if n > 0 {
        assert(s > 0) by (nonlinear_arith)
            requires
                s * s == n,
                n > 0,
                s >= 0,
        ;
        assert((s - 1) * (s - 1) < s * s) by (nonlinear_arith)
            requires
                s > 0,
        ;
    }
}

/// Points of a jump or throw are `(sqrt(result) - a) / c` truncated, and
/// never negative, for any non-zero `c`: with `root = sqrt(ROOT_SCALE * result)`,
/// `p` is the largest count with `a + p * c <= root` for a positive `c`
/// (`a + p * c >= root` for a negative one), or 0 where there is none, and
/// at most `i64::MAX`. As `a`, `c` and `p` are integers, comparing with the
/// root is comparing with `isqrt` (`ceil_sqrt` for a negative `c`).
pub proof fn lemma_field_points_truncate(bjs: &BJSEvaluator, gender: char, att: Attempt)
    requires
        bjs.vars_of(att.category, gender) matches Some(v) && !v.running && v.c != 0,
        att.result >= 0,
    ensures
        ({
            let v = bjs.vars_of(att.category, gender)->0;
            let (a, c) = (v.a as int, v.c as int);
            let n = ROOT_SCALE * att.result;
            let p = field_points(a, c, att.result as int) as int;
            &&& bjs.points_spec(gender, att) == Ok::<i64, EvalError>(p as i64)
            &&& p >= 0
            &&& c > 0 && p > 0 ==> a + p * c <= isqrt(n)
            &&& c > 0 && p < i64::MAX ==> isqrt(n) < a + (p + 1) * c
            &&& c < 0 && p > 0 ==> a + p * c >= ceil_sqrt(n)
            &&& c < 0 && p < i64::MAX ==> ceil_sqrt(n) > a + (p + 1) * c
        }),
{
    let v = bjs.vars_of(att.category, gender)->0;
    let (a, c) = (v.a as int, v.c as int);
    let n = ROOT_SCALE * att.result;
    lemma_ceil_sqrt(n);
    if c > 0 {
        lemma_clamped_quotient(isqrt(n) - a, c);
    } else {
        lemma_clamped_quotient(a - ceil_sqrt(n), -c);
        let p = field_points(a, c, att.result as int) as int;
        assert(p * (-c) == -(p * c)) by (nonlinear_arith);
        assert((p + 1) * (-c) == -((p + 1) * c)) by (nonlinear_arith);
    }
}

/// A run's time gets a supplement of 0.24 s up to 300 m, of 0.14 s up to
/// 400 m and none beyond, and its points, never negative, are computed from
/// that time for any non-zero `c` and any time that is not zero with its
/// supplement.
pub proof fn lemma_running_supplement(bjs: &BJSEvaluator, gender: char, att: Attempt)
    requires
        bjs.vars_of(att.category, gender) matches Some(v) && v.running && v.c != 0 && v.distance is Some
            && att.result + supplement(v.distance->0) != 0,
    ensures
        ({
            let v = bjs.vars_of(att.category, gender)->0;
            let d = v.distance->0;
            let p = running_points(v.a as int, v.c as int, d as int, att.result + supplement(d));
            &&& d <= 300 ==> supplement(d) == 24
            &&& 300 < d <= 400 ==> supplement(d) == 14
            &&& d > 400 ==> supplement(d) == 0
            &&& bjs.points_spec(gender, att) == Ok::<i64, EvalError>(p)
            &&& p >= 0
        }),
{
    let v = bjs.vars_of(att.category, gender)->0;
    let d = v.distance->0;
    let t = att.result + supplement(d);
    let n = FACTOR_SCALE * RESULT_SCALE * d - v.a * t;
    let m = v.c * t;
    assert(m != 0) by (nonlinear_arith)
        requires
            m == v.c * t,
            v.c != 0,
            t != 0,
    ;
    if m > 0 {
        lemma_clamped_quotient(n, m);
    } else {
        lemma_clamped_quotient(-n, -m);
    }
}

impl BJSEvaluator {
    /// The tables of both evaluators hold the same rows.
    pub open spec fn same_tables(&self, other: &BJSEvaluator) -> bool {
        &&& self.mandatory@ == other.mandatory@
        &&& self.form_vars@ == other.form_vars@
        &&& self.thresholds@ == other.thresholds@
    }

    proof fn lemma_folds_same(&self, other: &BJSEvaluator, gender: char, needed: Seq<Category>, atts: Seq<Attempt>)
        requires
            self.same_tables(other),
        ensures
            self.top_scored(gender, needed, atts) == other.top_scored(gender, needed, atts),
            self.group_best(gender, needed, atts) == other.group_best(gender, needed, atts),
        decreases atts.len(),
    {
        if atts.len() > 0 {
            self.lemma_folds_same(other, gender, needed, atts.drop_last());
        }
    }
}

/// Evaluation reads nothing but the attempts and the tables: asked again
/// with the same attempts of tables holding the same rows, every function
/// gives the same result.
pub proof fn lemma_evaluation_repeatable(e1: &BJSEvaluator, e2: &BJSEvaluator, age: i64, gender: char, atts: Seq<Attempt>)
    requires
        e1.same_tables(e2),
    ensures
        e1.needed_spec(age, gender) == e2.needed_spec(age, gender),
        forall|a: Attempt| #[trigger] e1.points_spec(gender, a) == e2.points_spec(gender, a),
        e1.top_attempts_spec(age, gender, atts) == e2.top_attempts_spec(age, gender, atts),
        e1.points_sum_spec(age, gender, atts) == e2.points_sum_spec(age, gender, atts),
        e1.medal_spec(age, gender, atts) == e2.medal_spec(age, gender, atts),
{
    e1.lemma_folds_same(e2, gender, e1.needed_of(age, gender), atts);
}


/// The group of the attempt's category among the needed ones; 0 where the
/// category is not needed.
pub open spec fn group_of(needed: Seq<Category>, a: Attempt) -> int {
    match first_match(needed, has_id(a.category)) {
        Some(cat) => cat.group_id as int,
        None => 0,
    }
}

/// Every attempt of the list that is not needed is scored: `s` can be scored.
pub open spec fn scorable(bjs: &BJSEvaluator, gender: char, needed: Seq<Category>, s: Seq<Attempt>) -> bool {
    forall|j: int| 0 <= j < s.len() && group_of(needed, #[trigger] s[j]) != 0 ==> bjs.points_spec(gender, s[j]) is Ok
}

/// `m` is the most points of any attempt of group `g` in `s`, 0 where the
/// group has none.
pub open spec fn is_group_max(bjs: &BJSEvaluator, gender: char, needed: Seq<Category>, s: Seq<Attempt>, g: int, m: i64) -> bool {
    &&& m >= 0
    &&& forall|j: int|
        0 <= j < s.len() && group_of(needed, #[trigger] s[j]) == g ==> (bjs.points_spec(gender, s[j]) is Ok && bjs.points_spec(gender, s[j])->Ok_0 <= m)
    &&& m == 0 || exists|j: int|
        0 <= j < s.len() && group_of(needed, #[trigger] s[j]) == g && bjs.points_spec(gender, s[j]) == Ok::<i64, EvalError>(m)
}

impl BJSEvaluator {
    /// The mandatory categories of any age and gender lie in the four groups.
    pub proof fn lemma_needed_groups_valid(&self, age: i64, gender: char)
        requires
            self.wf(),
        ensures
            groups_valid(self.needed_of(age, gender)),
    {
        let f = self.mandatory@.filter(mandatory_row(age, gender));
        assert forall|k: int| 0 <= k < self.needed_of(age, gender).len() implies (#[trigger] self.needed_of(
            age,
            gender,
        )[k]).has_valid_group() by {
            assert(f.contains(f[k]));
            self.mandatory@.lemma_filter_contains_rev(mandatory_row(age, gender), f[k]);
            let j = choose|j: int| 0 <= j < self.mandatory@.len() && self.mandatory@[j] == f[k];
            assert(self.mandatory@[j].category.has_valid_group());
        }
    }

    /// What `group_best` holds: it succeeds exactly when every needed attempt
    /// can be scored, and then holds for each group the most points of any
    /// needed attempt of the group, 0 where there is none.
    pub proof fn lemma_group_best_is_max(&self, gender: char, needed: Seq<Category>, s: Seq<Attempt>)
        requires
            groups_valid(needed),
        ensures
            self.group_best(gender, needed, s) is Ok <==> scorable(self, gender, needed, s),
            self.group_best(gender, needed, s) matches Ok(best) ==> best.len() == GROUP_COUNT && forall|g: int|
                0 <= g < GROUP_COUNT ==> is_group_max(self, gender, needed, s, g + 1, #[trigger] best[g]),
        decreases s.len(),
    {
        if s.len() == 0 {
            let best = seq![0i64, 0i64, 0i64, 0i64];
            assert forall|g: int| 0 <= g < GROUP_COUNT implies is_group_max(self, gender, needed, s, g + 1, #[trigger] best[g]) by {}
        } else {
            let s0 = s.drop_last();
            let x = s.last();
            self.lemma_group_best_is_max(gender, needed, s0);
            assert forall|j: int| 0 <= j < s0.len() implies s[j] == #[trigger] s0[j] by {}
            match self.group_best(gender, needed, s0) {
                Err(e) => {
                    let j = choose|j: int| 0 <= j < s0.len() && group_of(needed, #[trigger] s0[j]) != 0 && !(self.points_spec(gender, s0[j]) is Ok);
                    assert(s[j] == s0[j]);
                },
                Ok(best0) => {
                    if first_match(needed, has_id(x.category)) is Some {
                        let k = choose|k: int| first_at(needed, has_id(x.category), k);
                        assert(needed[k].has_valid_group());
                    }
                    assert(scorable(self, gender, needed, s) <==> (group_of(needed, x) != 0 ==> self.points_spec(gender, x) is Ok)) by {
                        if group_of(needed, x) == 0 || self.points_spec(gender, x) is Ok {
                            assert forall|j: int| 0 <= j < s.len() && group_of(needed, #[trigger] s[j]) != 0 implies self.points_spec(gender, s[j]) is Ok by {
                                if j < s0.len() {
                                    assert(s[j] == s0[j]);
                                }
                            }
                        }
                    }
                    if let Ok(best) = self.group_best(gender, needed, s) {
                        assert forall|g: int| 0 <= g < GROUP_COUNT implies is_group_max(self, gender, needed, s, g + 1, #[trigger] best[g]) by {
                            assert(is_group_max(self, gender, needed, s0, g + 1, best0[g]));
                            assert forall|j: int| 0 <= j < s.len() && group_of(needed, #[trigger] s[j]) == g + 1 implies (self.points_spec(gender, s[j]) is Ok && self.points_spec(gender, s[j])->Ok_0 <= best[g]) by {
                                if j < s0.len() {
                                    assert(s[j] == s0[j]);
                                }
                            }
                            if best[g] != 0 {
                                if best[g] == best0[g] {
                                    let j = choose|j: int| 0 <= j < s0.len() && group_of(needed, #[trigger] s0[j]) == g + 1 && self.points_spec(gender, s0[j]) == Ok::<i64, EvalError>(best0[g]);
                                    assert(s[j] == s0[j]);
                                } else {
                                    assert(s[s.len() - 1] == x);
                                }
                            }
                        }
                    }
                },
            }
        }
    }
}

impl BJSEvaluator {
    proof fn lemma_folds_skip_unneeded(&self, gender: char, needed: Seq<Category>, s: Seq<Attempt>, i: int, x: Attempt)
        requires
            0 <= i <= s.len(),
            !needed.map_values(category_id()).contains(x.category),
        ensures
            self.top_scored(gender, needed, s.insert(i, x)) == self.top_scored(gender, needed, s),
            self.group_best(gender, needed, s.insert(i, x)) == self.group_best(gender, needed, s),
        decreases s.len(),
    {
        crate::catalog::lemma_unneeded_not_found(needed, x.category);
        s.insert_ensures(i, x);
        if i == s.len() {
            assert(s.insert(i, x).drop_last() == s);
        } else {
            let s0 = s.drop_last();
            self.lemma_folds_skip_unneeded(gender, needed, s0, i, x);
            assert(s.insert(i, x).drop_last() == s0.insert(i, x));
            assert(s.insert(i, x).last() == s.last());
        }
    }
}

/// An attempt that scores no more points than some attempt of the same
/// group, inserted anywhere among the attempts, leaves the point sum as it is.
#[verifier::spinoff_prover]
#[verifier::rlimit(60)]
pub proof fn lemma_points_sum_ignores_worse_attempt(
    bjs: &BJSEvaluator,
    age: i64,
    gender: char,
    atts: Seq<Attempt>,
    i: int,
    x: Attempt,
)
    requires
        bjs.wf(),
        0 <= i <= atts.len(),
        bjs.points_sum_spec(age, gender, atts) is Ok,
        bjs.points_spec(gender, x) is Ok,
        exists|j: int|
            0 <= j < atts.len() && group_of(bjs.needed_of(age, gender), #[trigger] atts[j]) == group_of(
                bjs.needed_of(age, gender),
                x,
            ) && bjs.points_spec(gender, atts[j]) is Ok && bjs.points_spec(gender, x)->Ok_0 <= bjs.points_spec(
                gender,
                atts[j],
            )->Ok_0,
    ensures
        bjs.points_sum_spec(age, gender, atts.insert(i, x)) == bjs.points_sum_spec(age, gender, atts),
{
    let needed = bjs.needed_of(age, gender);
    let ins = atts.insert(i, x);
    bjs.lemma_needed_groups_valid(age, gender);
    bjs.lemma_group_best_is_max(gender, needed, atts);
    bjs.lemma_group_best_is_max(gender, needed, ins);
    crate::catalog::lemma_insert_contains(atts, i, x);
    let y = choose|j: int|
        0 <= j < atts.len() && group_of(needed, #[trigger] atts[j]) == group_of(needed, x) && bjs.points_spec(gender, atts[j]) is Ok
            && bjs.points_spec(gender, x)->Ok_0 <= bjs.points_spec(gender, atts[j])->Ok_0;
    assert(scorable(bjs, gender, needed, ins)) by {
        assert forall|k: int| 0 <= k < ins.len() && group_of(needed, #[trigger] ins[k]) != 0 implies bjs.points_spec(gender, ins[k]) is Ok by {
            assert(ins.contains(ins[k]));
            if ins[k] != x {
                let j = choose|j: int| 0 <= j < atts.len() && atts[j] == ins[k];
            }
        }
    }
    let best = bjs.group_best(gender, needed, atts)->Ok_0;
    let best2 = bjs.group_best(gender, needed, ins)->Ok_0;
    assert forall|g: int| 0 <= g < GROUP_COUNT implies best2[g] == best[g] by {
        assert(is_group_max(bjs, gender, needed, atts, g + 1, best[g]));
        assert(is_group_max(bjs, gender, needed, ins, g + 1, best2[g]));
        if best[g] != 0 {
            let j = choose|j: int|
                0 <= j < atts.len() && group_of(needed, #[trigger] atts[j]) == g + 1 && bjs.points_spec(gender, atts[j]) == Ok::<i64, EvalError>(best[g]);
            assert(ins.contains(atts[j]));
            let k = choose|k: int| 0 <= k < ins.len() && ins[k] == atts[j];
        }
        if best2[g] != 0 {
            let k = choose|k: int|
                0 <= k < ins.len() && group_of(needed, #[trigger] ins[k]) == g + 1 && bjs.points_spec(gender, ins[k]) == Ok::<i64, EvalError>(best2[g]);
            assert(ins.contains(ins[k]));
            if ins[k] != x {
                let j = choose|j: int| 0 <= j < atts.len() && atts[j] == ins[k];
            } else {
                assert(group_of(needed, atts[y]) == g + 1);
            }
        }
    }
    assert(best2 == best);
}

/// An attempt in a category that is not mandatory for the student's age and
/// gender, inserted anywhere among the attempts, changes neither the top
/// attempts nor the point sum nor, once there is any attempt, the
/// certificate.
pub proof fn lemma_unneeded_attempt_ignored(
    bjs: &BJSEvaluator,
    age: i64,
    gender: char,
    atts: Seq<Attempt>,
    i: int,
    b: Attempt,
)
    requires
        0 <= i <= atts.len(),
        !bjs.needed_of(age, gender).map_values(category_id()).contains(b.category),
    ensures
        bjs.points_sum_spec(age, gender, atts.insert(i, b)) == bjs.points_sum_spec(age, gender, atts),
        bjs.top_attempts_spec(age, gender, atts.insert(i, b)) == bjs.top_attempts_spec(age, gender, atts),
        atts.len() > 0 ==> bjs.medal_spec(age, gender, atts.insert(i, b)) == bjs.medal_spec(age, gender, atts),
{
    let needed = bjs.needed_of(age, gender);
    let ins = atts.insert(i, b);
    bjs.lemma_folds_skip_unneeded(gender, needed, atts, i, b);
    let done = atts.map_values(attempt_category());
    let done2 = ins.map_values(attempt_category());
    atts.insert_ensures(i, b);
    assert(done2 == done.insert(i, b.category)) by {
        done.insert_ensures(i, b.category);
        assert forall|k: int| 0 <= k < done2.len() implies done2[k] == done.insert(i, b.category)[k] by {
            if k > i {
                assert(ins[(k - 1) + 1] == atts[k - 1]);
                assert(done.insert(i, b.category)[(k - 1) + 1] == done[k - 1]);
            }
        }
    }
    crate::catalog::lemma_insert_contains(done, i, b.category);
    crate::catalog::lemma_missing_ignores_unneeded(needed, done, done2, b.category);
    assert(missing_of_group(needed, done2, 1) == missing_of_group(needed, done, 1));
    assert(missing_of_group(needed, done2, 2) == missing_of_group(needed, done, 2));
    assert(missing_of_group(needed, done2, 3) == missing_of_group(needed, done, 3));
    assert(missing_of_group(needed, done2, 4) == missing_of_group(needed, done, 4));
    assert(done_group_count(needed, done2) == done_group_count(needed, done));
}

/// `top` keeps for each needed category of `s` one attempt of `s` with its
/// points, and no attempt of `s` scores more than the one kept for its
/// category.
pub open spec fn keeps_best(bjs: &BJSEvaluator, gender: char, needed: Seq<Category>, s: Seq<Attempt>, top: Seq<(Attempt, i64)>) -> bool {
    &&& categories_distinct(top)
    &&& forall|k: int|
        0 <= k < top.len() ==> s.contains((#[trigger] top[k]).0) && is_needed(needed, top[k].0.category)
            && bjs.points_spec(gender, top[k].0) == Ok::<i64, EvalError>(top[k].1)
    &&& forall|j: int|
        0 <= j < s.len() && is_needed(needed, (#[trigger] s[j]).category) ==> exists|k: int|
            0 <= k < top.len() && top[k].0.category == s[j].category && bjs.points_spec(gender, s[j]) is Ok
                && bjs.points_spec(gender, s[j])->Ok_0 <= #[trigger] top[k].1
}

impl BJSEvaluator {
    /// What `top_scored` holds: it succeeds exactly when every needed attempt
    /// can be scored, and then keeps the best attempt of each needed category.
    #[verifier::spinoff_prover]
    #[verifier::rlimit(60)]
    pub proof fn lemma_top_scored_keeps_best(&self, gender: char, needed: Seq<Category>, s: Seq<Attempt>)
        ensures
            self.top_scored(gender, needed, s) is Ok <==> forall|j: int|
                0 <= j < s.len() && is_needed(needed, (#[trigger] s[j]).category) ==> self.points_spec(gender, s[j]) is Ok,
            self.top_scored(gender, needed, s) matches Ok(top) ==> keeps_best(self, gender, needed, s, top),
        decreases s.len(),
    {
        if s.len() > 0 {
            let s0 = s.drop_last();
            let x = s.last();
            self.lemma_top_scored_keeps_best(gender, needed, s0);
            assert forall|j: int| 0 <= j < s0.len() implies s[j] == #[trigger] s0[j] by {}
            assert(s[s.len() - 1] == x);
            match self.top_scored(gender, needed, s0) {
                Err(e) => {
                    let j = choose|j: int| 0 <= j < s0.len() && is_needed(needed, (#[trigger] s0[j]).category) && !(self.points_spec(gender, s0[j]) is Ok);
                    assert(s[j] == s0[j]);
                },
                Ok(top0) => {
                    assert((forall|j: int| 0 <= j < s.len() && is_needed(needed, (#[trigger] s[j]).category) ==> self.points_spec(gender, s[j]) is Ok)
                        <==> (is_needed(needed, x.category) ==> self.points_spec(gender, x) is Ok)) by {
                        if is_needed(needed, x.category) ==> self.points_spec(gender, x) is Ok {
                            assert forall|j: int| 0 <= j < s.len() && is_needed(needed, (#[trigger] s[j]).category) implies self.points_spec(gender, s[j]) is Ok by {
                                if j < s0.len() {
                                    assert(s[j] == s0[j]);
                                }
                            }
                        }
                    }
                    if let Ok(top) = self.top_scored(gender, needed, s) {
                        assert forall|k: int| 0 <= k < top0.len() implies s.contains((#[trigger] top0[k]).0) by {
                            let j = choose|j: int| 0 <= j < s0.len() && s0[j] == top0[k].0;
                            assert(s[j] == s0[j]);
                        }
                        assert(s.contains(x));
                        if is_needed(needed, x.category) {
                            let p = self.points_spec(gender, x)->Ok_0;
                            if exists|k: int| 0 <= k < top0.len() && #[trigger] top0[k].0.category == x.category {
                                let k = choose|k: int| 0 <= k < top0.len() && #[trigger] top0[k].0.category == x.category;
                                let upd = top0[k].1 <= p;
                                assert(top == if upd { top0.update(k, (x, p)) } else { top0 });
                                assert forall|j: int| 0 <= j < s.len() && is_needed(needed, (#[trigger] s[j]).category) implies exists|m: int|
                                    0 <= m < top.len() && top[m].0.category == s[j].category && self.points_spec(gender, s[j]) is Ok
                                        && self.points_spec(gender, s[j])->Ok_0 <= #[trigger] top[m].1 by {
                                    if j < s0.len() {
                                        assert(s[j] == s0[j]);
                                        let m = choose|m: int| 0 <= m < top0.len() && top0[m].0.category == s0[j].category
                                            && self.points_spec(gender, s0[j]) is Ok && self.points_spec(gender, s0[j])->Ok_0 <= #[trigger] top0[m].1;
                                        assert(top[m].0.category == s[j].category && self.points_spec(gender, s[j])->Ok_0 <= top[m].1);
                                    } else {
                                        assert(top[k].0.category == s[j].category && self.points_spec(gender, s[j])->Ok_0 <= top[k].1);
                                    }
                                }
                                assert forall|k2: int| 0 <= k2 < top.len() implies s.contains((#[trigger] top[k2]).0) && is_needed(needed, top[k2].0.category)
                                    && self.points_spec(gender, top[k2].0) == Ok::<i64, EvalError>(top[k2].1) by {
                                    if !(upd && k2 == k) {
                                        assert(top[k2] == top0[k2]);
                                    }
                                }
                            } else {
                                let n = top0.len() as int;
                                assert(top == top0.push((x, p)));
                                assert forall|j: int| 0 <= j < s.len() && is_needed(needed, (#[trigger] s[j]).category) implies exists|m: int|
                                    0 <= m < top.len() && top[m].0.category == s[j].category && self.points_spec(gender, s[j]) is Ok
                                        && self.points_spec(gender, s[j])->Ok_0 <= #[trigger] top[m].1 by {
                                    if j < s0.len() {
                                        assert(s[j] == s0[j]);
                                        let m = choose|m: int| 0 <= m < top0.len() && top0[m].0.category == s0[j].category
                                            && self.points_spec(gender, s0[j]) is Ok && self.points_spec(gender, s0[j])->Ok_0 <= #[trigger] top0[m].1;
                                        assert(top[m] == top0[m]);
                                        assert(top[m].0.category == s[j].category && self.points_spec(gender, s[j])->Ok_0 <= top[m].1);
                                    } else {
                                        assert(top[n] == (x, p));
                                        assert(top[n].0.category == s[j].category && self.points_spec(gender, s[j])->Ok_0 <= top[n].1);
                                    }
                                }
                                assert forall|k2: int| 0 <= k2 < top.len() implies s.contains((#[trigger] top[k2]).0) && is_needed(needed, top[k2].0.category)
                                    && self.points_spec(gender, top[k2].0) == Ok::<i64, EvalError>(top[k2].1) by {
                                    if k2 < n {
                                        assert(top[k2] == top0[k2]);
                                    }
                                }
                            }
                        } else {
                            assert forall|j: int| 0 <= j < s.len() && is_needed(needed, (#[trigger] s[j]).category) implies exists|m: int|
                                0 <= m < top.len() && top[m].0.category == s[j].category && self.points_spec(gender, s[j]) is Ok
                                    && self.points_spec(gender, s[j])->Ok_0 <= #[trigger] top[m].1 by {
                                assert(s[j] == s0[j]);
                            }
                        }
                    }
                },
            }
        }
    }
}
} // verus!
