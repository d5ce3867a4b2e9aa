//! Mandatory categories and the groups they fall into, shared by both schemes.
use vstd::prelude::*;
use crate::model::{Category, GROUP_COUNT};

verus! {

/// Every category of the list lies in one of the four groups.
pub open spec fn groups_valid(cats: Seq<Category>) -> bool {
    forall|k: int| 0 <= k < cats.len() ==> (#[trigger] cats[k]).has_valid_group()
}

pub open spec fn in_group(g: int) -> spec_fn(Category) -> bool {
    |c: Category| c.group_id == g
}

pub open spec fn category_id() -> spec_fn(Category) -> i64 {
    |c: Category| c.id
}

/// Ids of the categories of group `g`, in list order.
pub open spec fn ids_of_group(cats: Seq<Category>, g: int) -> Seq<i64> {
    cats.filter(in_group(g)).map_values(category_id())
}

/// The category is among the needed ones.
pub open spec fn is_needed(needed: Seq<Category>, category: i64) -> bool {
    needed.map_values(category_id()).contains(category)
}

/// A group counts as done once any of its needed categories was attempted.
pub open spec fn group_done(needed: Seq<Category>, done: Seq<i64>, g: int) -> bool {
    exists|k: int| 0 <= k < needed.len() && #[trigger] needed[k].group_id == g && done.contains(needed[k].id)
}

/// What is still missing in group `g`: nothing once the group is done,
/// otherwise every needed category of the group.
pub open spec fn missing_of_group(needed: Seq<Category>, done: Seq<i64>, g: int) -> Seq<i64> {
    if group_done(needed, done, g) {
        Seq::empty()
    } else {
        ids_of_group(needed, g)
    }
}

fn contains_id(ids: &Vec<i64>, id: i64) -> (r: bool)
    ensures
        r == ids@.contains(id),
{
    let mut i: usize = 0;
    while i < ids.len()
        invariant
            i <= ids.len(),
            forall|j: int| 0 <= j < i ==> ids@[j] != id,
        decreases ids.len() - i,
    {
        if ids[i] == id {
            return true;
        }
        i = i + 1;
    }
    false
}

fn is_group_done(needed: &Vec<Category>, done: &Vec<i64>, g: i64) -> (r: bool)
    ensures
        r == group_done(needed@, done@, g as int),
{
    let mut i: usize = 0;
    while i < needed.len()
        invariant
            i <= needed.len(),
            forall|k: int|
                0 <= k < i ==> !(#[trigger] needed@[k].group_id == g && done@.contains(needed@[k].id)),
        decreases needed.len() - i,
    {
        if needed[i].group_id == g && contains_id(done, needed[i].id) {
            return true;
        }
        i = i + 1;
    }
    false
}

fn group_ids(needed: &Vec<Category>, g: i64) -> (r: Vec<i64>)
    ensures
        r@ == ids_of_group(needed@, g as int),
{
    let mut out: Vec<i64> = Vec::new();
    let mut i: usize = 0;
    while i < needed.len()
        invariant
            i <= needed.len(),
            out@ == ids_of_group(needed@.take(i as int), g as int),
        decreases needed.len() - i,
    {
        proof {
            broadcast use vstd::seq_lib::group_seq_properties;
            assert(needed@.take(i + 1) == needed@.take(i as int).push(needed@[i as int]));
            needed@.take(i as int).lemma_filter_push(needed@[i as int], in_group(g as int));
            needed@.take(i as int).filter(in_group(g as int)).lemma_push_map_commute(
                category_id(),
                needed@[i as int],
            );
        }
        if needed[i].group_id == g {
            out.push(needed[i].id);
        }
        i = i + 1;
    }
    assert(needed@.take(needed.len() as int) == needed@);
    out
}

/// For each of the four groups (index `group_id - 1`), the needed categories
/// that are still missing: empty for a group in which any needed category
/// was attempted, otherwise every needed category of that group.
pub fn missing_by_group(needed: &Vec<Category>, done: &Vec<i64>) -> (r: Vec<Vec<i64>>)
    ensures
        r@.len() == GROUP_COUNT,
        forall|g: int| 0 <= g < GROUP_COUNT ==> (#[trigger] r@[g])@ == missing_of_group(needed@, done@, g + 1),
{
    let mut r: Vec<Vec<i64>> = Vec::new();
    let mut g: i64 = 1;
    while g <= GROUP_COUNT as i64
        invariant
            1 <= g <= GROUP_COUNT + 1,
            r@.len() == g - 1,
            forall|h: int| 0 <= h < g - 1 ==> (#[trigger] r@[h])@ == missing_of_group(needed@, done@, h + 1),
        decreases GROUP_COUNT + 1 - g,
    {
        let m = if is_group_done(needed, done, g) {
            Vec::new()
        } else {
            group_ids(needed, g)
        };
        r.push(m);
        g = g + 1;
    }
    r
}


/// `i` is the first position of `s` whose element satisfies `p`.
pub open spec fn first_at<T>(s: Seq<T>, p: spec_fn(T) -> bool, i: int) -> bool {
    &&& 0 <= i < s.len()
    &&& p(s[i])
    &&& forall|j: int| 0 <= j < i ==> !p(#[trigger] s[j])
}

/// The first element of `s` that satisfies `p`, as a table lookup returns it.
pub open spec fn first_match<T>(s: Seq<T>, p: spec_fn(T) -> bool) -> Option<T> {
    if exists|i: int| first_at(s, p, i) {
        Some(s[choose|i: int| first_at(s, p, i)])
    } else {
        None
    }
}

pub open spec fn has_id(id: i64) -> spec_fn(Category) -> bool {
    |c: Category| c.id == id
}

/// The first category of the list with this id.
pub fn find_category(cats: &Vec<Category>, id: i64) -> (r: Option<Category>)
    ensures
        r == first_match(cats@, has_id(id)),
        r is None <==> !cats@.map_values(category_id()).contains(id),
{
    let mut i: usize = 0;
    while i < cats.len()
        invariant
            i <= cats.len(),
            forall|j: int| 0 <= j < i ==> !has_id(id)(#[trigger] cats@[j]),
        decreases cats.len() - i,
    {
        if cats[i].id == id {
            assert(first_at(cats@, has_id(id), i as int));
            assert(cats@.map_values(category_id())[i as int] == id);
            return Some(cats[i]);
        }
        i = i + 1;
    }
    assert forall|k: int| 0 <= k < cats@.len() implies cats@.map_values(category_id())[k] != id by {
        assert(!has_id(id)(cats@[k]));
    }
    None
}


/// An element inserted anywhere is contained, and so is everything that was.
pub proof fn lemma_insert_contains<A>(s: Seq<A>, i: int, v: A)
    requires
        0 <= i <= s.len(),
    ensures
        forall|y: A| #[trigger] s.insert(i, v).contains(y) <==> (s.contains(y) || y == v),
{
    s.insert_ensures(i, v);
    let t = s.insert(i, v);
    assert forall|y: A| #[trigger] t.contains(y) <==> (s.contains(y) || y == v) by {
        if t.contains(y) {
            let k = choose|k: int| 0 <= k < t.len() && t[k] == y;
            if k < i {
                assert(s[k] == y);
            } else if k > i {
                assert(t[(k - 1) + 1] == s[k - 1]);
            }
        }
        if s.contains(y) {
            let j = choose|j: int| 0 <= j < s.len() && s[j] == y;
            if j < i {
                assert(t[j] == y);
            } else {
                assert(t[j + 1] == y);
            }
        }
        if y == v {
            assert(t[i] == y);
        }
    }
}

/// Attempting a category that is not needed changes nothing that is
/// missing: `done2` holds what `done` holds and `x`.
pub proof fn lemma_missing_ignores_unneeded(needed: Seq<Category>, done: Seq<i64>, done2: Seq<i64>, x: i64)
    requires
        !needed.map_values(category_id()).contains(x),
        forall|y: i64| #[trigger] done2.contains(y) <==> (done.contains(y) || y == x),
    ensures
        forall|g: int| #[trigger] missing_of_group(needed, done2, g) == missing_of_group(needed, done, g),
{
    assert forall|g: int| #[trigger] group_done(needed, done2, g) == group_done(needed, done, g) by {
        if group_done(needed, done2, g) {
            let k = choose|k: int| 0 <= k < needed.len() && #[trigger] needed[k].group_id == g && done2.contains(needed[k].id);
            assert(needed.map_values(category_id())[k] == needed[k].id);
            assert(done.contains(needed[k].id));
        }
        if group_done(needed, done, g) {
            let k = choose|k: int| 0 <= k < needed.len() && #[trigger] needed[k].group_id == g && done.contains(needed[k].id);
            assert(done2.contains(needed[k].id));
        }
    }
}

/// A category that is not among the needed ones has no first match there.
pub proof fn lemma_unneeded_not_found(needed: Seq<Category>, id: i64)
    requires
        !needed.map_values(category_id()).contains(id),
    ensures
        first_match(needed, has_id(id)) is None,
{
    if first_match(needed, has_id(id)) is Some {
        let i = choose|i: int| first_at(needed, has_id(id), i);
        assert(needed.map_values(category_id())[i] == id);
    }
}

/// Where a group has any needed category, nothing is missing in it exactly
/// when one of its needed categories was attempted.
pub proof fn lemma_missing_empty_iff_done(needed: Seq<Category>, done: Seq<i64>, g: int)
    requires
        exists|k: int| 0 <= k < needed.len() && #[trigger] needed[k].group_id == g,
    ensures
        missing_of_group(needed, done, g).len() == 0 <==> group_done(needed, done, g),
{
    if !group_done(needed, done, g) {
        let k = choose|k: int| 0 <= k < needed.len() && #[trigger] needed[k].group_id == g;
        needed.lemma_filter_contains(in_group(g), k);
        assert(needed.filter(in_group(g)).len() > 0);
    }
}

} // verus!
