//! Merging workspace records that name the same directory: the first record
//! of a directory owns it, and every later one is folded into it.
use vstd::prelude::*;

use crate::text::str_equal;

verus! {

broadcast use vstd::string::group_string_axioms;

/// The position of the first record among `rows` for directory `dir`, or
/// -1 when there is none.
pub open spec fn first_owner(rows: Seq<(u64, String)>, dir: Seq<char>) -> int
    decreases rows.len(),
{
    if rows.len() == 0 {
        -1
    } else {
        let r = first_owner(rows.drop_last(), dir);
        if r >= 0 {
            r
        } else if rows.last().1@ == dir {
            rows.len() - 1
        } else {
            -1
        }
    }
}

/// The merges that records in id order call for: each record whose
/// directory an earlier record already has, paired with that earlier
/// record's id, in order.
pub open spec fn dedup_spec(rows: Seq<(u64, String)>) -> Seq<(u64, u64)>
    decreases rows.len(),
{
    if rows.len() == 0 {
        Seq::empty()
    } else {
        let init = rows.drop_last();
        let o = first_owner(init, rows.last().1@);
        if o >= 0 {
            dedup_spec(init).push((rows.last().0, init[o].0))
        } else {
            dedup_spec(init)
        }
    }
}

proof fn lemma_first_owner(rows: Seq<(u64, String)>, dir: Seq<char>)
    ensures
        -1 <= first_owner(rows, dir) < rows.len(),
        first_owner(rows, dir) >= 0 ==> rows[first_owner(rows, dir)].1@ == dir,
        forall|j: int| 0 <= j < rows.len() && (j < first_owner(rows, dir) || first_owner(rows, dir) < 0)
            ==> (#[trigger] rows[j]).1@ != dir,
    decreases rows.len(),
{
    if rows.len() > 0 {
        let init = rows.drop_last();
        lemma_first_owner(init, dir);
        assert forall|j: int| 0 <= j < rows.len() && (j < first_owner(rows, dir) || first_owner(rows, dir) < 0)
            implies (#[trigger] rows[j]).1@ != dir by {
            if j < init.len() {
                assert(rows[j] == init[j]);
            }
        }
        if first_owner(init, dir) >= 0 {
            assert(rows[first_owner(init, dir)] == init[first_owner(init, dir)]);
        }
    }
}

/// The merges that workspace records, given in increasing id order, call
/// for: `(duplicate, owner)` for each record whose directory an earlier
/// record already has; the caller moves the duplicate's threads to the
/// owner and deletes the duplicate.
pub fn dedup_plan(rows: &Vec<(u64, String)>) -> (r: Vec<(u64, u64)>)
    ensures
        r@ == dedup_spec(rows@),
{
    let mut plan: Vec<(u64, u64)> = Vec::new();
    for i in 0..rows.len()
        invariant
            plan@ == dedup_spec(rows@.take(i as int)),
    {
        let ghost pre = rows@.take(i as int);
        proof {
            assert(rows@.take(i + 1).drop_last() =~= pre);
            assert(rows@.take(i + 1).last() == rows@[i as int]);
            lemma_first_owner(pre, rows@[i as int].1@);
        }
        let dir = &rows[i].1;
        let mut k: usize = 0;
        while k < i && !str_equal(rows[k].1.as_str(), dir.as_str())
            invariant
                k <= i < rows@.len(),
                pre == rows@.take(i as int),
                dir@ == rows@[i as int].1@,
                forall|j: int| 0 <= j < k ==> (#[trigger] rows@[j]).1@ != dir@,
            decreases i - k,
        {
            k += 1;
        }
        proof {
            assert forall|j: int| 0 <= j < k implies (#[trigger] pre[j]).1@ != dir@ by {
                assert(pre[j] == rows@[j]);
            }
            if k < i {
                assert(pre[k as int] == rows@[k as int]);
            }
            lemma_first_owner_is(pre, dir@, k as int);
        }
        if k < i {
            plan.push((rows[i].0, rows[k].0));
            proof {
                assert(pre[k as int] == rows@[k as int]);
            }
        }
    }
    assert(rows@.take(rows@.len() as int) =~= rows@);
    plan
}

proof fn lemma_first_owner_is(rows: Seq<(u64, String)>, dir: Seq<char>, k: int)
    requires
        0 <= k <= rows.len(),
        forall|j: int| 0 <= j < k ==> (#[trigger] rows[j]).1@ != dir,
        k < rows.len() ==> rows[k].1@ == dir,
    ensures
        first_owner(rows, dir) == (if k < rows.len() { k } else { -1 }),
{
    lemma_first_owner(rows, dir);
    let o = first_owner(rows, dir);
    if o >= 0 && o < k {
        assert(rows[o].1@ != dir);
    }
    if k < rows.len() && (o < 0 || o > k) {
        assert(rows[k].1@ != dir);
    }
}

} // verus!
