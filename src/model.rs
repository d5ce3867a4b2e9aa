use vstd::prelude::*;

verus! {

/// Number of category groups (sprint/endurance, jump, throw, fourth group).
pub const GROUP_COUNT: usize = 4;

/// One recorded performance of a student.
///
/// `result` is the measured value in hundredths of the category's unit:
/// hundredths of a second for runs, centimetres for jumps and throws.
#[derive(Clone, Copy, Debug, PartialEq, Eq, Structural)]
pub struct Attempt {
    pub category: i64,
    pub result: i64,
}

/// A category with the group (1 to 4) it belongs to.
#[derive(Clone, Copy, Debug, PartialEq, Eq, Structural)]
pub struct Category {
    pub id: i64,
    pub group_id: i64,
}

impl Category {
    pub open spec fn has_valid_group(self) -> bool {
        1 <= self.group_id <= GROUP_COUNT
    }
}


pub open spec fn attempt_category() -> spec_fn(Attempt) -> i64 {
    |a: Attempt| a.category
}

/// The categories of the attempts, in order.
pub fn attempt_categories(attempts: &Vec<Attempt>) -> (r: Vec<i64>)
    ensures
        r@ == attempts@.map_values(attempt_category()),
{
    let mut r: Vec<i64> = Vec::new();
    let mut i: usize = 0;
    while i < attempts.len()
        invariant
            i <= attempts.len(),
            r@ == attempts@.take(i as int).map_values(attempt_category()),
        decreases attempts.len() - i,
    {
        proof {
            assert(attempts@.take(i + 1) == attempts@.take(i as int).push(attempts@[i as int]));
            attempts@.take(i as int).lemma_push_map_commute(attempt_category(), attempts@[i as int]);
        }
        r.push(attempts[i].category);
        i = i + 1;
    }
    assert(attempts@.take(attempts.len() as int) == attempts@);
    r
}


/// Rows as they are read from the tables, every column optional.
#[derive(Clone, Debug, PartialEq, Eq)]
pub struct SimpleSchueler {
    pub id: Option<i64>,
    pub first_name: Option<String>,
    pub last_name: Option<String>,
}

#[derive(Clone, Copy, Debug, PartialEq, Eq, Structural)]
pub struct PflichtKategorie {
    pub id: Option<i64>,
    pub done: i64,
    pub group_id: Option<i64>,
}

#[derive(Clone, Copy, Debug, PartialEq, Eq, Structural)]
pub struct KatGroup {
    pub id: Option<i64>,
    pub group_id: Option<i64>,
}

#[derive(Clone, Debug, PartialEq, Eq)]
pub struct SimpleKategorie {
    pub id: Option<i64>,
    pub name: Option<String>,
}

#[derive(Clone, Copy, Debug, PartialEq, Eq, Structural)]
pub struct VersuchId {
    pub id: Option<i64>,
}

#[derive(Clone, Copy, Debug, PartialEq, Eq, Structural)]
pub struct KatId {
    pub id: Option<i64>,
}

#[derive(Clone, Debug, PartialEq, Eq)]
pub struct Kategorie {
    pub id: Option<i64>,
    pub name: Option<String>,
    pub einheit: Option<String>,
    pub max_vers: Option<i64>,
    pub digits_before: Option<i64>,
    pub digits_after: Option<i64>,
}

#[derive(Clone, Copy, Debug, PartialEq, Eq, Structural)]
pub struct NeedsKat {
    pub need: i32,
}

} // verus!
