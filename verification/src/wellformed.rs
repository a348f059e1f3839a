//! Runtime check of input well-formedness: identifiers must be the
//! identities of their entities, as a data store delivers them.
use vstd::prelude::*;

use crate::model::{
    ExamInput, QuestionSet, answer_ids_distinct, pool_qids_distinct, set_ids_distinct, wf_input,
    wf_sets,
};

verus! {

/// Whether any question anywhere in `sets` (from position `(i0, k0)` on,
/// exclusive) carries the id.
fn qid_occurs_after(sets: &Vec<QuestionSet>, i0: usize, k0: usize, id: u64) -> (b: bool)
    requires
        i0 < sets@.len(),
        k0 < sets@[i0 as int].questions@.len(),
    ensures
        b == exists|j: int, l: int|
            0 <= j < sets@.len() && 0 <= l < sets@[j].questions@.len() && (j > i0 as int || (j
                == i0 as int && l > k0 as int)) && (#[trigger] sets@[j].questions@[l]).id == id,
{
    let mut j: usize = i0;
    while j < sets.len()
        invariant
            i0 <= j <= sets@.len(),
            forall|jj: int, l: int|
                0 <= jj < j && 0 <= l < sets@[jj].questions@.len() && (jj > i0 as int || (jj
                    == i0 as int && l > k0 as int)) ==> (#[trigger] sets@[jj].questions@[l]).id
                    != id,
        decreases sets@.len() - j,
    {
        let qlen = sets[j].questions.len();
        proof {
            assert(qlen == sets@[j as int].questions@.len());
            assert(j == i0 ==> k0 < qlen);
        }
        let mut l: usize = if j == i0 {
            k0 + 1
        } else {
            0
        };
        proof {
            assert(j > i0 ==> forall|ll: int|
                0 <= ll < 0 ==> (#[trigger] sets@[j as int].questions@[ll]).id != id);
        }
        while l < sets[j].questions.len()
            invariant
                j < sets@.len(),
                (j == i0 as int ==> k0 as int + 1 <= l as int) || j > i0,
                l <= sets@[j as int].questions@.len(),
                forall|jj: int, ll: int|
                    0 <= jj < j && 0 <= ll < sets@[jj].questions@.len() && (jj > i0 as int || (jj
                        == i0 as int && ll > k0 as int)) ==> (
                    #[trigger] sets@[jj].questions@[ll]).id != id,
                forall|ll: int|
                    0 <= ll < l as int && (j > i0 as int || ll > k0 as int) ==> (
                    #[trigger] sets@[j as int].questions@[ll]).id != id,
            decreases sets@[j as int].questions@.len() - l,
        {
            if sets[j].questions[l].id == id {
                return true;
            }
            l = l + 1;
        }
        j = j + 1;
    }
    false
}

/// Whether the input is well formed: distinct question-set ids, globally
/// distinct question ids, and distinct answer ids within each question.
pub fn check_input(exam: &ExamInput) -> (b: bool)
    ensures
        b == wf_input(*exam),
{
    let sets = &exam.question_sets;

    // Distinct set ids.
    let mut i: usize = 0;
    while i < sets.len()
        invariant
            i <= sets@.len(),
            forall|a: int, b2: int|
                0 <= a < b2 < sets@.len() && a < i as int ==> (#[trigger] sets@[a]).id
                    != (#[trigger] sets@[b2]).id,
        decreases sets@.len() - i,
    {
        let mut j: usize = i + 1;
        while j < sets.len()
            invariant
                i < j <= sets@.len() || (i as int + 1 == j as int),
                i < sets@.len(),
                forall|b2: int|
                    (i as int) < b2 < (j as int) ==> (#[trigger] sets@[b2]).id != sets@[i as int].id,
            decreases sets@.len() - j,
        {
            if sets[j].id == sets[i].id {
                proof {
                    assert(!set_ids_distinct(sets@));
                }
                return false;
            }
            j = j + 1;
        }
        i = i + 1;
    }
    proof {
        assert(set_ids_distinct(sets@));
    }

    // Globally distinct question ids, and distinct answer ids per question.
    let mut i2: usize = 0;
    while i2 < sets.len()
        invariant
            i2 <= sets@.len(),
            set_ids_distinct(sets@),
            forall|a: int, k: int, b2: int, l: int|
                0 <= a < sets@.len() && 0 <= k < sets@[a].questions@.len() && 0 <= b2
                    < sets@.len() && 0 <= l < sets@[b2].questions@.len() && (a < b2 || (a == b2
                    && k < l)) && a < i2 as int ==> (#[trigger] sets@[a].questions@[k]).id
                    != (#[trigger] sets@[b2].questions@[l]).id,
            forall|a: int, k: int|
                0 <= a < sets@.len() && 0 <= k < sets@[a].questions@.len() && a < i2 as int
                    ==> answer_ids_distinct(#[trigger] sets@[a].questions@[k]),
        decreases sets@.len() - i2,
    {
        let mut k: usize = 0;
        while k < sets[i2].questions.len()
            invariant
                i2 < sets@.len(),
                k <= sets@[i2 as int].questions@.len(),
                forall|a: int, kk: int, b2: int, l: int|
                    0 <= a < sets@.len() && 0 <= kk < sets@[a].questions@.len() && 0 <= b2
                        < sets@.len() && 0 <= l < sets@[b2].questions@.len() && (a < b2 || (a
                        == b2 && kk < l)) && (a < i2 as int || (a == i2 as int && kk < k as int))
                    ==> (#[trigger] sets@[a].questions@[kk]).id
                        != (#[trigger] sets@[b2].questions@[l]).id,
                forall|a: int, kk: int|
                    0 <= a < sets@.len() && 0 <= kk < sets@[a].questions@.len() && (a < i2 as int
                        || (a == i2 as int && kk < k as int)) ==> answer_ids_distinct(
                        #[trigger] sets@[a].questions@[kk],
                    ),
            decreases sets@[i2 as int].questions@.len() - k,
        {
            // Distinct answer ids within this question.
            let ans = &sets[i2].questions[k].answers;
            let mut a1: usize = 0;
            while a1 < ans.len()
                invariant
                    forall|x: int, y: int|
                        0 <= x < y < ans@.len() && x < a1 as int ==> (#[trigger] ans@[x]).id
                            != (#[trigger] ans@[y]).id,
                    a1 <= ans@.len(),
                decreases ans@.len() - a1,
            {
                let mut a2: usize = a1 + 1;
                while a2 < ans.len()
                    invariant
                        a1 < ans@.len() || a1 as int + 1 == a2 as int,
                        a1 as int + 1 <= a2 as int <= ans@.len() || a1 as int + 1 == a2 as int,
                        a1 < ans@.len() ==> forall|y: int|
                            (a1 as int) < y < (a2 as int) ==> (#[trigger] ans@[y]).id
                                != ans@[a1 as int].id,
                    decreases ans@.len() - a2,
                {
                    if ans[a2].id == ans[a1].id {
                        proof {
                            assert(!answer_ids_distinct(sets@[i2 as int].questions@[k as int]));
                            assert(!wf_sets(sets@));
                        }
                        return false;
                    }
                    a2 = a2 + 1;
                }
                a1 = a1 + 1;
            }
            proof {
                assert(answer_ids_distinct(sets@[i2 as int].questions@[k as int]));
            }
            // This question's id occurs nowhere after it.
            if qid_occurs_after(sets, i2, k, sets[i2].questions[k].id) {
                proof {
                    let (j, l) = choose|j: int, l: int|
                        0 <= j < sets@.len() && 0 <= l < sets@[j].questions@.len() && (j
                            > i2 as int || (j == i2 as int && l > k as int)) && (
                        #[trigger] sets@[j].questions@[l]).id
                            == sets@[i2 as int].questions@[k as int].id;
                    assert(!pool_qids_distinct(sets@));
                }
                return false;
            }
            k = k + 1;
        }
        i2 = i2 + 1;
    }
    proof {
        assert forall|a: int, k: int, b2: int, l: int|
            0 <= a < sets@.len() && 0 <= k < sets@[a].questions@.len() && 0 <= b2 < sets@.len()
                && 0 <= l < sets@[b2].questions@.len() && (a != b2 || k != l) implies (
        #[trigger] sets@[a].questions@[k]).id != (#[trigger] sets@[b2].questions@[l]).id by {
            if a < b2 || (a == b2 && k < l) {
            } else {
                assert(b2 < a || (a == b2 && l < k));
            }
        }
        assert(pool_qids_distinct(sets@));
        assert(wf_sets(sets@));
    }
    true
}

} // verus!
