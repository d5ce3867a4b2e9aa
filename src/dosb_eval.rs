//! Evaluation under the threshold-based scheme (DOSB): each attempt earns
//! a medal against the thresholds of its category, the best medal of each
//! group counts, and the medal values are summed into the badge.
use vstd::prelude::*;
use crate::catalog::{is_needed, first_at, first_match, find_category, has_id, category_id, groups_valid, missing_by_group, missing_of_group};
use crate::error::{EvalError, Lookup};
use crate::model::{Attempt, Category, GROUP_COUNT, attempt_category, attempt_categories};

verus! {

/// Medals, in increasing order; their values 0 to 3 are summed over the groups.
#[derive(Clone, Copy, Debug, PartialEq, Eq, Structural)]
pub enum DOSBAbzeichen {
    /// No medal.
    Keine,
    Bronze,
    Silver,
    Gold,
}

impl DOSBAbzeichen {
    pub open spec fn value_spec(self) -> u8 {
        match self {
            DOSBAbzeichen::Keine => 0,
            DOSBAbzeichen::Bronze => 1,
            DOSBAbzeichen::Silver => 2,
            DOSBAbzeichen::Gold => 3,
        }
    }

    /// The medal's value: 0 for none up to 3 for gold.
    pub fn value(&self) -> (r: u8)
        ensures
            r == self.value_spec(),
    {
        match self {
            DOSBAbzeichen::Keine => 0,
            DOSBAbzeichen::Bronze => 1,
            DOSBAbzeichen::Silver => 2,
            DOSBAbzeichen::Gold => 3,
        }
    }
}

/// Measurement tolerance at each threshold, in hundredths.
pub const TOLERANCE: i64 = 1;
/// Smallest medal sum for the bronze badge.
pub const BRONZE_SUM: u8 = 4;
/// Smallest medal sum for the silver badge.
pub const SILVER_SUM: u8 = 8;
/// Smallest medal sum for the gold badge.
pub const GOLD_SUM: u8 = 11;

/// A mandatory category of an age and gender with its medal thresholds,
/// in hundredths of the category's unit.
#[derive(Clone, Copy, Debug, PartialEq, Eq, Structural)]
pub struct MedalThreshold {
    pub age: i64,
    pub gender: char,
    pub category: Category,
    pub gold: i64,
    pub silver: i64,
    pub bronze: i64,
}

/// The table the scheme is evaluated against.
pub struct DOSBEvaluator {
    pub mandatory: Vec<MedalThreshold>,
}

pub open spec fn mandatory_row(age: i64, gender: char) -> spec_fn(MedalThreshold) -> bool {
    |m: MedalThreshold| m.age == age && m.gender == gender
}

pub open spec fn row_category() -> spec_fn(MedalThreshold) -> Category {
    |m: MedalThreshold| m.category
}

pub open spec fn threshold_row(age: i64, gender: char, category: i64) -> spec_fn(MedalThreshold) -> bool {
    |m: MedalThreshold| m.age == age && m.gender == gender && m.category.id == category
}

/// The medal a result earns. Where bronze lies below silver larger results
/// are better, otherwise smaller ones; each threshold counts as reached
/// within `TOLERANCE`.
pub open spec fn medal_for_result(result: i64, t: MedalThreshold) -> DOSBAbzeichen {
    if t.bronze < t.silver {
        if result < t.bronze - TOLERANCE {
            DOSBAbzeichen::Keine
        } else if result < t.silver - TOLERANCE {
            DOSBAbzeichen::Bronze
        } else if result < t.gold - TOLERANCE {
            DOSBAbzeichen::Silver
        } else {
            DOSBAbzeichen::Gold
        }
    } else {
        if result > t.bronze + TOLERANCE {
            DOSBAbzeichen::Keine
        } else if result > t.silver + TOLERANCE {
            DOSBAbzeichen::Bronze
        } else if result > t.gold + TOLERANCE {
            DOSBAbzeichen::Silver
        } else {
            DOSBAbzeichen::Gold
        }
    }
}

/// `new` is strictly better than `old` in the direction the row gives:
/// larger is better where gold lies above bronze.
pub open spec fn improves(t: MedalThreshold, new: i64, old: i64) -> bool {
    if t.gold > t.bronze {
        old < new
    } else {
        old > new
    }
}

/// One step of picking the best attempt per category: the attempt takes the
/// place of the one kept for its category only when strictly better (on a
/// tie the earlier attempt stays); an attempt of a new category is appended.
pub open spec fn keep_better(top: Seq<Attempt>, a: Attempt, t: MedalThreshold) -> Seq<Attempt> {
    if exists|k: int| 0 <= k < top.len() && #[trigger] top[k].category == a.category {
        let k = choose|k: int| 0 <= k < top.len() && #[trigger] top[k].category == a.category;
        if improves(t, a.result, top[k].result) {
            top.update(k, a)
        } else {
            top
        }
    } else {
        top.push(a)
    }
}

pub open spec fn attempt_categories_distinct(top: Seq<Attempt>) -> bool {
    forall|i: int, j: int|
        0 <= i < top.len() && 0 <= j < top.len() && #[trigger] top[i].category == #[trigger] top[j].category
            ==> i == j
}

/// The badge a medal sum earns.
pub open spec fn badge_for_sum(sum: u8) -> DOSBAbzeichen {
    if sum < BRONZE_SUM {
        DOSBAbzeichen::Keine
    } else if sum < SILVER_SUM {
        DOSBAbzeichen::Bronze
    } else if sum < GOLD_SUM {
        DOSBAbzeichen::Silver
    } else {
        DOSBAbzeichen::Gold
    }
}

/// Every group has nothing missing.
pub open spec fn all_groups_done(needed: Seq<Category>, done: Seq<i64>) -> bool {
    forall|g: int| 1 <= g <= GROUP_COUNT ==> (#[trigger] missing_of_group(needed, done, g)).len() == 0
}

impl DOSBEvaluator {
    /// Every mandatory category lies in one of the four groups.
    pub open spec fn wf(&self) -> bool {
        forall|k: int| 0 <= k < self.mandatory@.len() ==> (#[trigger] self.mandatory@[k]).category.has_valid_group()
    }

    /// The mandatory categories of an age and gender, in table order.
    pub open spec fn needed_of(&self, age: i64, gender: char) -> Seq<Category> {
        self.mandatory@.filter(mandatory_row(age, gender)).map_values(row_category())
    }

    pub open spec fn needed_spec(&self, age: i64, gender: char) -> Result<Seq<Category>, EvalError> {
        if self.needed_of(age, gender).len() == 0 {
            Err(EvalError::NotFound(Lookup::NeededCategories { age, gender }))
        } else {
            Ok(self.needed_of(age, gender))
        }
    }

    /// The medal one attempt earns for a student of this age and gender.
    pub open spec fn medal_for_attempt_spec(&self, age: i64, gender: char, att: Attempt) -> Result<DOSBAbzeichen, EvalError> {
        match first_match(self.mandatory@, threshold_row(age, gender, att.category)) {
            None => Err(EvalError::NotFound(Lookup::MedalThresholds { category: att.category, age, gender })),
            Some(t) => Ok(medal_for_result(att.result, t)),
        }
    }

    /// The best attempt of each needed category over the attempts in order,
    /// the direction taken from the category's row for this age and gender.
    pub open spec fn top_kept(&self, age: i64, gender: char, needed: Seq<Category>, atts: Seq<Attempt>) -> Result<
        Seq<Attempt>,
        EvalError,
    >
        decreases atts.len(),
    {
        if atts.len() == 0 {
            Ok(Seq::empty())
        } else {
            match self.top_kept(age, gender, needed, atts.drop_last()) {
                Err(e) => Err(e),
                Ok(top) => {
                    let a = atts.last();
                    if !needed.map_values(category_id()).contains(a.category) {
                        Ok(top)
                    } else {
                        match first_match(self.mandatory@, threshold_row(age, gender, a.category)) {
                            None => Err(EvalError::NotFound(Lookup::MedalThresholds { category: a.category, age, gender })),
                            Some(t) => Ok(keep_better(top, a, t)),
                        }
                    }
                },
            }
        }
    }

    pub open spec fn top_attempts_spec(&self, age: i64, gender: char, atts: Seq<Attempt>) -> Result<
        Seq<Attempt>,
        EvalError,
    > {
        match self.needed_spec(age, gender) {
            Err(e) => Err(e),
            Ok(needed) => self.top_kept(age, gender, needed, atts),
        }
    }

    /// The best medal value of each group (index `group_id - 1`) over the
    /// kept attempts, 0 for a group without any.
    pub open spec fn group_medals(&self, age: i64, gender: char, needed: Seq<Category>, top: Seq<Attempt>) -> Result<
        Seq<u8>,
        EvalError,
    >
        decreases top.len(),
    {
        if top.len() == 0 {
            Ok(seq![0u8, 0u8, 0u8, 0u8])
        } else {
            match self.group_medals(age, gender, needed, top.drop_last()) {
                Err(e) => Err(e),
                Ok(best) => {
                    let a = top.last();
                    match first_match(needed, has_id(a.category)) {
                        None => Ok(best),
                        Some(cat) => match self.medal_for_attempt_spec(age, gender, a) {
                            Err(e) => Err(e),
                            Ok(m) => if best[cat.group_id - 1] < m.value_spec() {
                                Ok(best.update(cat.group_id - 1, m.value_spec()))
                            } else {
                                Ok(best)
                            },
                        },
                    }
                },
            }
        }
    }

    pub open spec fn points_spec(&self, age: i64, gender: char, atts: Seq<Attempt>) -> Result<u8, EvalError> {
        match self.needed_spec(age, gender) {
            Err(e) => Err(e),
            Ok(needed) => match self.top_kept(age, gender, needed, atts) {
                Err(e) => Err(e),
                Ok(top) => match self.group_medals(age, gender, needed, top) {
                    Err(e) => Err(e),
                    Ok(best) => Ok((best[0] + best[1] + best[2] + best[3]) as u8),
                },
            },
        }
    }

    pub open spec fn medal_spec(&self, age: i64, gender: char, atts: Seq<Attempt>) -> Result<DOSBAbzeichen, EvalError> {
        match self.needed_spec(age, gender) {
            Err(e) => Err(e),
            Ok(needed) => if !all_groups_done(needed, atts.map_values(attempt_category())) {
                Ok(DOSBAbzeichen::Keine)
            } else {
                match self.points_spec(age, gender, atts) {
                    Err(e) => Err(e),
                    Ok(sum) => Ok(badge_for_sum(sum)),
                }
            },
        }
    }
}


fn find_threshold_row(rows: &Vec<MedalThreshold>, age: i64, gender: char, category: i64) -> (r: Option<MedalThreshold>)
    ensures
        r == first_match(rows@, threshold_row(age, gender, category)),
{
    let mut i: usize = 0;
    while i < rows.len()
        invariant
            i <= rows.len(),
            forall|j: int| 0 <= j < i ==> !threshold_row(age, gender, category)(#[trigger] rows@[j]),
        decreases rows.len() - i,
    {
        if rows[i].age == age && rows[i].gender == gender && rows[i].category.id == category {
            assert(first_at(rows@, threshold_row(age, gender, category), i as int));
            return Some(rows[i]);
        }
        i = i + 1;
    }
    None
}

fn position_of_attempt_category(top: &Vec<Attempt>, category: i64) -> (r: Option<usize>)
    ensures
        r matches Some(k) ==> k < top@.len() && top@[k as int].category == category,
        r is None ==> forall|k: int| 0 <= k < top@.len() ==> #[trigger] top@[k].category != category,
{
    let mut i: usize = 0;
    while i < top.len()
        invariant
            i <= top.len(),
            forall|k: int| 0 <= k < i ==> #[trigger] top@[k].category != category,
        decreases top.len() - i,
    {
        if top[i].category == category {
            return Some(i);
        }
        i = i + 1;
    }
    None
}

impl DOSBEvaluator {
    /// The mandatory categories of this age and gender, in table order;
    /// `NotFound` where there are none.
    pub fn get_needed_categorys(&self, age: i64, gender: char) -> (r: Result<Vec<Category>, EvalError>)
        requires
            self.wf(),
        ensures
            r matches Ok(v) ==> self.needed_spec(age, gender) == Ok::<Seq<Category>, EvalError>(v@) && groups_valid(v@),
            r matches Err(e) ==> self.needed_spec(age, gender) == Err::<Seq<Category>, EvalError>(e),
    {
        let mut out: Vec<Category> = Vec::new();
        let mut i: usize = 0;
        while i < self.mandatory.len()
            invariant
                i <= self.mandatory.len(),
                self.wf(),
                out@ == self.mandatory@.take(i as int).filter(mandatory_row(age, gender)).map_values(row_category()),
                groups_valid(out@),
            decreases self.mandatory.len() - i,
        {
            let ghost pre = self.mandatory@.take(i as int);
            proof {
                assert(self.mandatory@.take(i + 1) == pre.push(self.mandatory@[i as int]));
                pre.lemma_filter_push(self.mandatory@[i as int], mandatory_row(age, gender));
                pre.filter(mandatory_row(age, gender)).lemma_push_map_commute(row_category(), self.mandatory@[i as int]);
            }
            let m = self.mandatory[i];
            if m.age == age && m.gender == gender {
                out.push(m.category);
            }
            i = i + 1;
        }
        assert(self.mandatory@.take(self.mandatory.len() as int) == self.mandatory@);
        if out.len() == 0 {
            Err(EvalError::NotFound(Lookup::NeededCategories { age, gender }))
        } else {
            Ok(out)
        }
    }

    /// For each of the four groups, the needed categories still missing.
    pub fn get_missing_categorys(&self, age: i64, gender: char, done_categories: &Vec<i64>) -> (r: Result<
        Vec<Vec<i64>>,
        EvalError,
    >)
        requires
            self.wf(),
        ensures
            r is Ok <==> self.needed_spec(age, gender) is Ok,
            r matches Err(e) ==> self.needed_spec(age, gender) == Err::<Seq<Category>, EvalError>(e),
            r matches Ok(m) ==> m@.len() == GROUP_COUNT && forall|g: int|
                0 <= g < GROUP_COUNT ==> (#[trigger] m@[g])@ == missing_of_group(
                    self.needed_of(age, gender),
                    done_categories@,
                    g + 1,
                ),
    {
        let needed = match self.get_needed_categorys(age, gender) {
            Ok(n) => n,
            Err(e) => {
                return Err(e);
            },
        };
        Ok(missing_by_group(&needed, done_categories))
    }

    proof fn lemma_top_error_kept(&self, age: i64, gender: char, needed: Seq<Category>, atts: Seq<Attempt>, i: int)
        requires
            0 <= i <= atts.len(),
            self.top_kept(age, gender, needed, atts.take(i)) is Err,
        ensures
            self.top_kept(age, gender, needed, atts) == self.top_kept(age, gender, needed, atts.take(i)),
        decreases atts.len() - i,
    {
        if i < atts.len() {
            assert(atts.take(i + 1).drop_last() == atts.take(i));
            self.lemma_top_error_kept(age, gender, needed, atts, i + 1);
        } else {
            assert(atts.take(i) == atts);
        }
    }

    /// The best attempt of each needed category, in the order in which the
    /// categories first occur among the attempts.
    pub fn get_top_attempts(&self, age: i64, gender: char, attempts: &Vec<Attempt>) -> (r: Result<
        Vec<Attempt>,
        EvalError,
    >)
        requires
            self.wf(),
        ensures
            r matches Ok(v) ==> self.top_attempts_spec(age, gender, attempts@) == Ok::<Seq<Attempt>, EvalError>(v@),
            r matches Err(e) ==> self.top_attempts_spec(age, gender, attempts@) == Err::<Seq<Attempt>, EvalError>(e),
    {
        let needed = match self.get_needed_categorys(age, gender) {
            Ok(n) => n,
            Err(e) => {
                return Err(e);
            },
        };
        let mut top: Vec<Attempt> = Vec::new();
        let mut i: usize = 0;
        while i < attempts.len()
            invariant
                i <= attempts.len(),
                self.needed_spec(age, gender) == Ok::<Seq<Category>, EvalError>(needed@),
                self.top_kept(age, gender, needed@, attempts@.take(i as int)) == Ok::<Seq<Attempt>, EvalError>(top@),
                attempt_categories_distinct(top@),
            decreases attempts.len() - i,
        {
            let a = attempts[i];
            proof {
                assert(attempts@.take(i + 1).drop_last() == attempts@.take(i as int));
                assert(attempts@.take(i + 1).last() == a);
            }
            if find_category(&needed, a.category).is_some() {
                let t = match find_threshold_row(&self.mandatory, age, gender, a.category) {
                    Some(t) => t,
                    None => {
                        let e = EvalError::NotFound(Lookup::MedalThresholds { category: a.category, age, gender });
                        proof {
                            assert(needed@.map_values(category_id()).contains(a.category));
                            assert(self.top_kept(age, gender, needed@, attempts@.take(i + 1)) == Err::<
                                Seq<Attempt>,
                                EvalError,
                            >(e));
                            self.lemma_top_error_kept(age, gender, needed@, attempts@, i + 1);
                        }
                        return Err(e);
                    },
                };
                match position_of_attempt_category(&top, a.category) {
                    Some(k) => {
                        proof {
                            let kk = choose|kk: int| 0 <= kk < top@.len() && #[trigger] top@[kk].category == a.category;
                            assert(kk == k);
                        }
                        let better = if t.gold > t.bronze {
                            top[k].result < a.result
                        } else {
                            top[k].result > a.result
                        };
                        if better {
                            top.set(k, a);
                        }
                    },
                    None => {
                        top.push(a);
                    },
                }
            }
            i = i + 1;
        }
        assert(attempts@.take(attempts.len() as int) == attempts@);
        Ok(top)
    }

    /// The medal one attempt earns against the thresholds of its category
    /// for this age and gender.
    pub fn get_medal_for_attempt(&self, age: i64, gender: char, att: &Attempt) -> (r: Result<DOSBAbzeichen, EvalError>)
        ensures
            r == self.medal_for_attempt_spec(age, gender, *att),
    {
        let t = match find_threshold_row(&self.mandatory, age, gender, att.category) {
            Some(t) => t,
            None => {
                return Err(EvalError::NotFound(Lookup::MedalThresholds { category: att.category, age, gender }));
            },
        };
        let result = att.result as i128;
        let tol = TOLERANCE as i128;
        if t.bronze < t.silver {
            if result < t.bronze as i128 - tol {
                Ok(DOSBAbzeichen::Keine)
            } else if result < t.silver as i128 - tol {
                Ok(DOSBAbzeichen::Bronze)
            } else if result < t.gold as i128 - tol {
                Ok(DOSBAbzeichen::Silver)
            } else {
                Ok(DOSBAbzeichen::Gold)
            }
        } else {
            if result > t.bronze as i128 + tol {
                Ok(DOSBAbzeichen::Keine)
            } else if result > t.silver as i128 + tol {
                Ok(DOSBAbzeichen::Bronze)
            } else if result > t.gold as i128 + tol {
                Ok(DOSBAbzeichen::Silver)
            } else {
                Ok(DOSBAbzeichen::Gold)
            }
        }
    }
}


impl DOSBEvaluator {
    proof fn lemma_medals_error_kept(&self, age: i64, gender: char, needed: Seq<Category>, top: Seq<Attempt>, i: int)
        requires
            0 <= i <= top.len(),
            self.group_medals(age, gender, needed, top.take(i)) is Err,
        ensures
            self.group_medals(age, gender, needed, top) == self.group_medals(age, gender, needed, top.take(i)),
        decreases top.len() - i,
    {
        if i < top.len() {
            assert(top.take(i + 1).drop_last() == top.take(i));
            self.lemma_medals_error_kept(age, gender, needed, top, i + 1);
        } else {
            assert(top.take(i) == top);
        }
    }

    /// The medal sum: the best medal value of each group among the top
    /// attempts, summed over the groups.
    pub fn calculate_points(&self, age: i64, gender: char, attempts: &Vec<Attempt>) -> (r: Result<u8, EvalError>)
        requires
            self.wf(),
        ensures
            r == self.points_spec(age, gender, attempts@),
    {
        let needed = match self.get_needed_categorys(age, gender) {
            Ok(n) => n,
            Err(e) => {
                return Err(e);
            },
        };
        let top = match self.get_top_attempts(age, gender, attempts) {
            Ok(t) => t,
            Err(e) => {
                return Err(e);
            },
        };
        let mut best: Vec<u8> = vec![0u8, 0u8, 0u8, 0u8];
        assert(best@ == seq![0u8, 0u8, 0u8, 0u8]);
        let mut i: usize = 0;
        while i < top.len()
            invariant
                i <= top.len(),
                self.needed_spec(age, gender) == Ok::<Seq<Category>, EvalError>(needed@),
                self.top_kept(age, gender, needed@, attempts@) == Ok::<Seq<Attempt>, EvalError>(top@),
                groups_valid(needed@),
                self.group_medals(age, gender, needed@, top@.take(i as int)) == Ok::<Seq<u8>, EvalError>(best@),
                best@.len() == GROUP_COUNT,
                forall|g: int| 0 <= g < GROUP_COUNT ==> #[trigger] best@[g] <= 3,
            decreases top.len() - i,
        {
            let a = top[i];
            proof {
                assert(top@.take(i + 1).drop_last() == top@.take(i as int));
                assert(top@.take(i + 1).last() == a);
            }
            match find_category(&needed, a.category) {
                None => {},
                Some(cat) => {
                    proof {
                        let k = choose|k: int| first_at(needed@, has_id(a.category), k);
                        assert(needed@[k].has_valid_group());
                    }
                    let m = match self.get_medal_for_attempt(age, gender, &a) {
                        Ok(m) => m,
                        Err(e) => {
                            proof {
                                assert(self.group_medals(age, gender, needed@, top@.take(i + 1)) == Err::<
                                    Seq<u8>,
                                    EvalError,
                                >(e));
                                self.lemma_medals_error_kept(age, gender, needed@, top@, i + 1);
                            }
                            return Err(e);
                        },
                    };
                    let g = (cat.group_id - 1) as usize;
                    let v = m.value();
                    if best[g] < v {
                        best.set(g, v);
                    }
                },
            }
            i = i + 1;
        }
        assert(top@.take(top.len() as int) == top@);
        Ok(best[0] + best[1] + best[2] + best[3])
    }

    /// The badge: none while any group has a needed category missing,
    /// otherwise the one the medal sum earns.
    pub fn get_medal(&self, age: i64, gender: char, attempts: &Vec<Attempt>) -> (r: Result<DOSBAbzeichen, EvalError>)
        requires
            self.wf(),
        ensures
            r == self.medal_spec(age, gender, attempts@),
    {
        let done = attempt_categories(attempts);
        let missing = match self.get_missing_categorys(age, gender, &done) {
            Ok(m) => m,
            Err(e) => {
                return Err(e);
            },
        };
        let ghost needed = self.needed_of(age, gender);
        if missing[0].len() > 0 || missing[1].len() > 0 || missing[2].len() > 0 || missing[3].len() > 0 {
            proof {
                let g = if missing@[0]@.len() > 0 { 0int } else if missing@[1]@.len() > 0 { 1int } else if missing@[2]@.len() > 0 { 2int } else { 3int };
                assert(missing_of_group(needed, done@, g + 1).len() > 0);
            }
            return Ok(DOSBAbzeichen::Keine);
        }
        assert(all_groups_done(needed, done@)) by {
            assert forall|g: int| 1 <= g <= GROUP_COUNT implies (#[trigger] missing_of_group(needed, done@, g)).len() == 0 by {
                assert(missing@[g - 1]@ == missing_of_group(needed, done@, g));
            }
        }
        let sum = match self.calculate_points(age, gender, attempts) {
            Ok(s) => s,
            Err(e) => {
                return Err(e);
            },
        };
        if sum < BRONZE_SUM {
            Ok(DOSBAbzeichen::Keine)
        } else if sum < SILVER_SUM {
            Ok(DOSBAbzeichen::Bronze)
        } else if sum < GOLD_SUM {
            Ok(DOSBAbzeichen::Silver)
        } else {
            Ok(DOSBAbzeichen::Gold)
        }
    }
}


/// Where bronze lies below silver and gold, a larger result never earns a
/// smaller medal than a smaller result of the same category, age and gender.
pub proof fn lemma_medal_monotone(dosb: &DOSBEvaluator, age: i64, gender: char, x: Attempt, y: Attempt)
    requires
        x.category == y.category,
        x.result <= y.result,
        first_match(dosb.mandatory@, threshold_row(age, gender, x.category)) matches Some(t) && t.bronze < t.gold
            && t.bronze < t.silver,
    ensures
        dosb.medal_for_attempt_spec(age, gender, x) matches Ok(mx) && dosb.medal_for_attempt_spec(age, gender, y) matches Ok(
            my,
        ) && mx.value_spec() <= my.value_spec(),
{
}

impl DOSBEvaluator {
    proof fn lemma_top_skips_unneeded(&self, age: i64, gender: char, needed: Seq<Category>, s: Seq<Attempt>, i: int, x: Attempt)
        requires
            0 <= i <= s.len(),
            !needed.map_values(category_id()).contains(x.category),
        ensures
            self.top_kept(age, gender, needed, s.insert(i, x)) == self.top_kept(age, gender, needed, s),
        decreases s.len(),
    {
        s.insert_ensures(i, x);
        if i == s.len() {
            assert(s.insert(i, x).drop_last() == s);
        } else {
            let s0 = s.drop_last();
            self.lemma_top_skips_unneeded(age, gender, needed, s0, i, x);
            assert(s.insert(i, x).drop_last() == s0.insert(i, x));
            assert(s.insert(i, x).last() == s.last());
        }
    }
}

/// An attempt in a category that is not mandatory for the student's age and
/// gender, inserted anywhere among the attempts, changes neither the top
/// attempts, the medal sum nor the badge.
pub proof fn lemma_unneeded_attempt_ignored(
    dosb: &DOSBEvaluator,
    age: i64,
    gender: char,
    atts: Seq<Attempt>,
    i: int,
    b: Attempt,
)
    requires
        0 <= i <= atts.len(),
        !dosb.needed_of(age, gender).map_values(category_id()).contains(b.category),
    ensures
        dosb.top_attempts_spec(age, gender, atts.insert(i, b)) == dosb.top_attempts_spec(age, gender, atts),
        dosb.points_spec(age, gender, atts.insert(i, b)) == dosb.points_spec(age, gender, atts),
        dosb.medal_spec(age, gender, atts.insert(i, b)) == dosb.medal_spec(age, gender, atts),
{
    let needed = dosb.needed_of(age, gender);
    let ins = atts.insert(i, b);
    dosb.lemma_top_skips_unneeded(age, gender, needed, atts, i, b);
    let done = atts.map_values(attempt_category());
    let done2 = ins.map_values(attempt_category());
    atts.insert_ensures(i, b);
    assert(done2 == done.insert(i, b.category)) by {
        done.insert_ensures(i, b.category);
        assert forall|k: int| 0 <= k < done2.len() implies done2[k] == done.insert(i, b.category)[k] by {
            if k > i {
                assert(ins[(k - 1) + 1] == atts[k - 1]);
                assert(done.insert(i, b.category)[(k - 1) + 1] == done[k - 1]);
            }
        }
    }
    crate::catalog::lemma_insert_contains(done, i, b.category);
    crate::catalog::lemma_missing_ignores_unneeded(needed, done, done2, b.category);
    assert(missing_of_group(needed, done2, 1) == missing_of_group(needed, done, 1));
    assert(missing_of_group(needed, done2, 2) == missing_of_group(needed, done, 2));
    assert(missing_of_group(needed, done2, 3) == missing_of_group(needed, done, 3));
    assert(missing_of_group(needed, done2, 4) == missing_of_group(needed, done, 4));
    if all_groups_done(needed, done) {
        assert forall|g: int| 1 <= g <= GROUP_COUNT implies (#[trigger] missing_of_group(needed, done2, g)).len() == 0 by {
            assert(missing_of_group(needed, done2, g) == missing_of_group(needed, done, g));
        }
    }
    if all_groups_done(needed, done2) {
        assert forall|g: int| 1 <= g <= GROUP_COUNT implies (#[trigger] missing_of_group(needed, done, g)).len() == 0 by {
            assert(missing_of_group(needed, done2, g) == missing_of_group(needed, done, g));
        }
    }
}

impl DOSBEvaluator {
    /// The tables of both evaluators hold the same rows.
    pub open spec fn same_tables(&self, other: &DOSBEvaluator) -> bool {
        self.mandatory@ == other.mandatory@
    }

    proof fn lemma_folds_same(
        &self,
        other: &DOSBEvaluator,
        age: i64,
        gender: char,
        needed: Seq<Category>,
        atts: Seq<Attempt>,
    )
        requires
            self.same_tables(other),
        ensures
            self.top_kept(age, gender, needed, atts) == other.top_kept(age, gender, needed, atts),
            self.group_medals(age, gender, needed, atts) == other.group_medals(age, gender, needed, atts),
        decreases atts.len(),
    {
        if atts.len() > 0 {
            self.lemma_folds_same(other, age, gender, needed, atts.drop_last());
        }
    }
}

/// Evaluation reads nothing but the attempts and the table: asked again
/// with the same attempts of tables holding the same rows, every function
/// gives the same result.
pub proof fn lemma_evaluation_repeatable(e1: &DOSBEvaluator, e2: &DOSBEvaluator, age: i64, gender: char, atts: Seq<Attempt>)
    requires
        e1.same_tables(e2),
    ensures
        e1.needed_spec(age, gender) == e2.needed_spec(age, gender),
        forall|a: Attempt| #[trigger] e1.medal_for_attempt_spec(age, gender, a) == e2.medal_for_attempt_spec(age, gender, a),
        e1.top_attempts_spec(age, gender, atts) == e2.top_attempts_spec(age, gender, atts),
        e1.points_spec(age, gender, atts) == e2.points_spec(age, gender, atts),
        e1.medal_spec(age, gender, atts) == e2.medal_spec(age, gender, atts),
{
    let needed = e1.needed_of(age, gender);
    e1.lemma_folds_same(e2, age, gender, needed, atts);
    if let Ok(top) = e1.top_kept(age, gender, needed, atts) {
        e1.lemma_folds_same(e2, age, gender, needed, top);
    }
}


/// The thresholds of the category for this age and gender.
pub open spec fn row_of(dosb: &DOSBEvaluator, age: i64, gender: char, category: i64) -> Option<MedalThreshold> {
    first_match(dosb.mandatory@, threshold_row(age, gender, category))
}

/// `top` keeps for each needed category of `s` one attempt of `s`, and no
/// attempt of `s` is better, in the direction of its category's row, than
/// the one kept for its category.
pub open spec fn keeps_better(dosb: &DOSBEvaluator, age: i64, gender: char, needed: Seq<Category>, s: Seq<Attempt>, top: Seq<Attempt>) -> bool {
    &&& attempt_categories_distinct(top)
    &&& forall|k: int| 0 <= k < top.len() ==> s.contains(#[trigger] top[k]) && is_needed(needed, top[k].category)
    &&& forall|j: int|
        0 <= j < s.len() && is_needed(needed, (#[trigger] s[j]).category) ==> exists|k: int|
            0 <= k < top.len() && (#[trigger] top[k]).category == s[j].category && row_of(dosb, age, gender, s[j].category) is Some
                && !improves(row_of(dosb, age, gender, s[j].category)->0, s[j].result, top[k].result)
}

impl DOSBEvaluator {
    /// What `top_kept` holds: it succeeds exactly when every needed attempt
    /// has thresholds, and then keeps the best attempt of each needed category.
    #[verifier::spinoff_prover]
    #[verifier::rlimit(60)]
    pub proof fn lemma_top_kept_keeps_best(&self, age: i64, gender: char, needed: Seq<Category>, s: Seq<Attempt>)
        ensures
            self.top_kept(age, gender, needed, s) is Ok <==> forall|j: int|
                0 <= j < s.len() && is_needed(needed, (#[trigger] s[j]).category) ==> row_of(self, age, gender, s[j].category) is Some,
            self.top_kept(age, gender, needed, s) matches Ok(top) ==> keeps_better(self, age, gender, needed, s, top),
        decreases s.len(),
    {
        if s.len() > 0 {
            let s0 = s.drop_last();
            let x = s.last();
            self.lemma_top_kept_keeps_best(age, gender, needed, s0);
            assert forall|j: int| 0 <= j < s0.len() implies s[j] == #[trigger] s0[j] by {}
            assert(s[s.len() - 1] == x);
            match self.top_kept(age, gender, needed, s0) {
                Err(e) => {
                    let j = choose|j: int| 0 <= j < s0.len() && is_needed(needed, (#[trigger] s0[j]).category) && !(row_of(self, age, gender, s0[j].category) is Some);
                    assert(s[j] == s0[j]);
                },
                Ok(top0) => {
                    assert((forall|j: int| 0 <= j < s.len() && is_needed(needed, (#[trigger] s[j]).category) ==> row_of(self, age, gender, s[j].category) is Some)
                        <==> (is_needed(needed, x.category) ==> row_of(self, age, gender, x.category) is Some)) by {
                        if is_needed(needed, x.category) ==> row_of(self, age, gender, x.category) is Some {
                            assert forall|j: int| 0 <= j < s.len() && is_needed(needed, (#[trigger] s[j]).category) implies row_of(self, age, gender, s[j].category) is Some by {
                                if j < s0.len() {
                                    assert(s[j] == s0[j]);
                                }
                            }
                        }
                    }
                    if let Ok(top) = self.top_kept(age, gender, needed, s) {
                        assert forall|k: int| 0 <= k < top0.len() implies s.contains(#[trigger] top0[k]) by {
                            let j = choose|j: int| 0 <= j < s0.len() && s0[j] == top0[k];
                            assert(s[j] == s0[j]);
                        }
                        assert(s.contains(x));
                        if is_needed(needed, x.category) {
                            let t = row_of(self, age, gender, x.category)->0;
                            if exists|k: int| 0 <= k < top0.len() && #[trigger] top0[k].category == x.category {
                                let k = choose|k: int| 0 <= k < top0.len() && #[trigger] top0[k].category == x.category;
                                let upd = improves(t, x.result, top0[k].result);
                                assert(top == if upd { top0.update(k, x) } else { top0 });
                                assert forall|j: int| 0 <= j < s.len() && is_needed(needed, (#[trigger] s[j]).category) implies exists|m: int|
                                    0 <= m < top.len() && (#[trigger] top[m]).category == s[j].category && row_of(self, age, gender, s[j].category) is Some
                                        && !improves(row_of(self, age, gender, s[j].category)->0, s[j].result, top[m].result) by {
                                    if j < s0.len() {
                                        assert(s[j] == s0[j]);
                                        let m = choose|m: int| 0 <= m < top0.len() && (#[trigger] top0[m]).category == s0[j].category
                                            && row_of(self, age, gender, s0[j].category) is Some
                                            && !improves(row_of(self, age, gender, s0[j].category)->0, s0[j].result, top0[m].result);
                                        assert(top[m].category == s[j].category && !improves(row_of(self, age, gender, s[j].category)->0, s[j].result, top[m].result));
                                    } else {
                                        assert(top[k].category == s[j].category && !improves(row_of(self, age, gender, s[j].category)->0, s[j].result, top[k].result));
                                    }
                                }
                                assert forall|k2: int| 0 <= k2 < top.len() implies s.contains(#[trigger] top[k2]) && is_needed(needed, top[k2].category) by {
                                    if !(upd && k2 == k) {
                                        assert(top[k2] == top0[k2]);
                                    }
                                }
                            } else {
                                let n = top0.len() as int;
                                assert(top == top0.push(x));
                                assert forall|j: int| 0 <= j < s.len() && is_needed(needed, (#[trigger] s[j]).category) implies exists|m: int|
                                    0 <= m < top.len() && (#[trigger] top[m]).category == s[j].category && row_of(self, age, gender, s[j].category) is Some
                                        && !improves(row_of(self, age, gender, s[j].category)->0, s[j].result, top[m].result) by {
                                    if j < s0.len() {
                                        assert(s[j] == s0[j]);
                                        let m = choose|m: int| 0 <= m < top0.len() && (#[trigger] top0[m]).category == s0[j].category
                                            && row_of(self, age, gender, s0[j].category) is Some
                                            && !improves(row_of(self, age, gender, s0[j].category)->0, s0[j].result, top0[m].result);
                                        assert(top[m] == top0[m]);
                                        assert(top[m].category == s[j].category && !improves(row_of(self, age, gender, s[j].category)->0, s[j].result, top[m].result));
                                    } else {
                                        assert(top[n] == x);
                                        assert(top[n].category == s[j].category && !improves(row_of(self, age, gender, s[j].category)->0, s[j].result, top[n].result));
                                    }
                                }
                                assert forall|k2: int| 0 <= k2 < top.len() implies s.contains(#[trigger] top[k2]) && is_needed(needed, top[k2].category) by {
                                    if k2 < n {
                                        assert(top[k2] == top0[k2]);
                                    }
                                }
                            }
                        } else {
                            assert forall|j: int| 0 <= j < s.len() && is_needed(needed, (#[trigger] s[j]).category) implies exists|m: int|
                                0 <= m < top.len() && (#[trigger] top[m]).category == s[j].category && row_of(self, age, gender, s[j].category) is Some
                                    && !improves(row_of(self, age, gender, s[j].category)->0, s[j].result, top[m].result) by {
                                assert(s[j] == s0[j]);
                            }
                        }
                    }
                },
            }
        }
    }
}

/// The group of the attempt's category among the needed ones; 0 where the
/// category is not needed.
pub open spec fn group_of(needed: Seq<Category>, a: Attempt) -> int {
    match first_match(needed, has_id(a.category)) {
        Some(cat) => cat.group_id as int,
        None => 0,
    }
}

/// `m` is the best medal value of any attempt of group `g` in `top`, 0 where
/// the group has none.
pub open spec fn is_group_best_medal(
    dosb: &DOSBEvaluator,
    age: i64,
    gender: char,
    needed: Seq<Category>,
    top: Seq<Attempt>,
    g: int,
    m: u8,
) -> bool {
    &&& forall|j: int|
        0 <= j < top.len() && group_of(needed, #[trigger] top[j]) == g ==> (dosb.medal_for_attempt_spec(age, gender, top[j]) is Ok
            && dosb.medal_for_attempt_spec(age, gender, top[j])->Ok_0.value_spec() <= m)
    &&& m == 0 || exists|j: int|
        0 <= j < top.len() && group_of(needed, #[trigger] top[j]) == g && dosb.medal_for_attempt_spec(age, gender, top[j]) is Ok
            && dosb.medal_for_attempt_spec(age, gender, top[j])->Ok_0.value_spec() == m
}

impl DOSBEvaluator {
    /// What `group_medals` holds: it succeeds exactly when every needed
    /// attempt has its medal thresholds, and then holds for each group the
    /// best medal value of its attempts, 0 where there is none.
    #[verifier::spinoff_prover]
    #[verifier::rlimit(60)]
    pub proof fn lemma_group_medals_are_max(&self, age: i64, gender: char, needed: Seq<Category>, top: Seq<Attempt>)
        requires
            groups_valid(needed),
        ensures
            self.group_medals(age, gender, needed, top) is Ok <==> forall|j: int|
                0 <= j < top.len() && group_of(needed, #[trigger] top[j]) != 0 ==> self.medal_for_attempt_spec(age, gender, top[j]) is Ok,
            self.group_medals(age, gender, needed, top) matches Ok(best) ==> best.len() == GROUP_COUNT && forall|g: int|
                0 <= g < GROUP_COUNT ==> is_group_best_medal(self, age, gender, needed, top, g + 1, #[trigger] best[g]),
        decreases top.len(),
    {
        if top.len() == 0 {
            let best = seq![0u8, 0u8, 0u8, 0u8];
            assert forall|g: int| 0 <= g < GROUP_COUNT implies is_group_best_medal(self, age, gender, needed, top, g + 1, #[trigger] best[g]) by {}
        } else {
            let s0 = top.drop_last();
            let x = top.last();
            self.lemma_group_medals_are_max(age, gender, needed, s0);
            assert forall|j: int| 0 <= j < s0.len() implies top[j] == #[trigger] s0[j] by {}
            assert(top[top.len() - 1] == x);
            match self.group_medals(age, gender, needed, s0) {
                Err(e) => {
                    let j = choose|j: int| 0 <= j < s0.len() && group_of(needed, #[trigger] s0[j]) != 0 && !(self.medal_for_attempt_spec(age, gender, s0[j]) is Ok);
                    assert(top[j] == s0[j]);
                },
                Ok(best0) => {
                    if first_match(needed, has_id(x.category)) is Some {
                        let k = choose|k: int| first_at(needed, has_id(x.category), k);
                        assert(needed[k].has_valid_group());
                    }
                    assert((forall|j: int| 0 <= j < top.len() && group_of(needed, #[trigger] top[j]) != 0 ==> self.medal_for_attempt_spec(age, gender, top[j]) is Ok)
                        <==> (group_of(needed, x) != 0 ==> self.medal_for_attempt_spec(age, gender, x) is Ok)) by {
                        if group_of(needed, x) == 0 || self.medal_for_attempt_spec(age, gender, x) is Ok {
                            assert forall|j: int| 0 <= j < top.len() && group_of(needed, #[trigger] top[j]) != 0 implies self.medal_for_attempt_spec(age, gender, top[j]) is Ok by {
                                if j < s0.len() {
                                    assert(top[j] == s0[j]);
                                }
                            }
                        }
                    }
                    if let Ok(best) = self.group_medals(age, gender, needed, top) {
                        assert forall|g: int| 0 <= g < GROUP_COUNT implies is_group_best_medal(self, age, gender, needed, top, g + 1, #[trigger] best[g]) by {
                            assert(is_group_best_medal(self, age, gender, needed, s0, g + 1, best0[g]));
                            assert forall|j: int| 0 <= j < top.len() && group_of(needed, #[trigger] top[j]) == g + 1 implies (self.medal_for_attempt_spec(age, gender, top[j]) is Ok
                                && self.medal_for_attempt_spec(age, gender, top[j])->Ok_0.value_spec() <= best[g]) by {
                                if j < s0.len() {
                                    assert(top[j] == s0[j]);
                                }
                            }
                            if best[g] != 0 {
                                if best[g] == best0[g] {
                                    let j = choose|j: int| 0 <= j < s0.len() && group_of(needed, #[trigger] s0[j]) == g + 1
                                        && self.medal_for_attempt_spec(age, gender, s0[j]) is Ok
                                        && self.medal_for_attempt_spec(age, gender, s0[j])->Ok_0.value_spec() == best0[g];
                                    assert(top[j] == s0[j]);
                                }
                            }
                        }
                    }
                },
            }
        }
    }
}
} // verus!
