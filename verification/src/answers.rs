//! Answer selection: given a chosen question and its governing config, pick
//! the exact number of correct and incorrect answers, in random order.
use vstd::prelude::*;

use crate::lemmas::{
    lemma_filter_all_false, lemma_filter_all_true, lemma_filter_len_pointwise,
    lemma_seq_filter_len_multiset,
};
use crate::model::{
    ExamError, GeneratedQuestion, InvalidKind, Question, QuestionSetConfig, answer_ids_distinct,
    answer_ids_valid, correct_id_pred, correct_pred, has_answer_id, has_correct_answer_id,
    has_incorrect_answer_id, incorrect_id_pred, incorrect_pred, n_correct, n_incorrect,
    q_eligible,
};
use crate::randomness::{is_perm, shuffle};

verus! {

/// The pair describes one of `q`'s answers: its id and its correctness.
pub open spec fn pair_of_question(q: Question, pr: (u64, bool)) -> bool {
    exists|m: int|
        0 <= m < q.answers@.len() && (#[trigger] q.answers@[m]).id == pr.0
            && q.answers@[m].is_correct == pr.1
}

/// The predicate "this (id, correctness) pair is a correct answer".
pub open spec fn pair_correct_pred() -> spec_fn((u64, bool)) -> bool {
    |p: (u64, bool)| p.1
}

/// The predicate "this (id, correctness) pair is an incorrect answer".
pub open spec fn pair_incorrect_pred() -> spec_fn((u64, bool)) -> bool {
    |p: (u64, bool)| !p.1
}

/// Counts a question's correct answers.
pub fn count_correct(v: &Vec<crate::model::Answer>) -> (n: usize)
    ensures
        n == v@.to_multiset().filter(correct_pred()).len(),
{
    broadcast use Seq::lemma_filter_push;
    broadcast use Seq::lemma_filter_len;
    broadcast use Seq::lemma_take_succ_push;
    broadcast use Seq::lemma_take_len;

    let mut n: usize = 0;
    let mut i: usize = 0;
    while i < v.len()
        invariant
            i <= v@.len(),
            n <= i,
            n == v@.take(i as int).filter(correct_pred()).len(),
        decreases v@.len() - i,
    {
        if v[i].is_correct {
            n = n + 1;
        }
        i = i + 1;
    }
    proof {
        assert(v@.take(v@.len() as int) == v@);
        lemma_seq_filter_len_multiset(v@, correct_pred());
    }
    n
}

/// Counts a question's incorrect answers.
pub fn count_incorrect(v: &Vec<crate::model::Answer>) -> (n: usize)
    ensures
        n == v@.to_multiset().filter(incorrect_pred()).len(),
{
    broadcast use Seq::lemma_filter_push;
    broadcast use Seq::lemma_filter_len;
    broadcast use Seq::lemma_take_succ_push;
    broadcast use Seq::lemma_take_len;

    let mut n: usize = 0;
    let mut i: usize = 0;
    while i < v.len()
        invariant
            i <= v@.len(),
            n <= i,
            n == v@.take(i as int).filter(incorrect_pred()).len(),
        decreases v@.len() - i,
    {
        if !v[i].is_correct {
            n = n + 1;
        }
        i = i + 1;
    }
    proof {
        assert(v@.take(v@.len() as int) == v@);
        lemma_seq_filter_len_multiset(v@, incorrect_pred());
    }
    n
}

/// Selects answers for `q` under config `c`: shuffles the answers, then takes
/// the required number of incorrect and of correct ones, and randomizes the
/// order of the chosen ids.  Succeeds exactly when the question has enough
/// answers of both kinds; otherwise the question is named in the failure.
#[verifier::rlimit(50)]
pub fn select_answers(
    q: &Question,
    c: &QuestionSetConfig,
    rng: &mut rand::rngs::StdRng,
) -> (r: Result<GeneratedQuestion, ExamError>)
    requires
        answer_ids_distinct(*q),
    ensures
        (r is Ok) == q_eligible(*q, *c),
        r matches Ok(gq) ==> gq.id == q.id && answer_ids_valid(*q, *c, gq.answers@),
        r matches Err(e) ==> e == ExamError::InvalidConfiguration(
            InvalidKind::NotEnoughAnswers { question_id: q.id },
        ),
{
    broadcast use Seq::lemma_filter_push;
    broadcast use Seq::lemma_filter_len;
    broadcast use Seq::lemma_take_succ_push;
    broadcast use Seq::lemma_take_len;

    // Flatten the answers to (id, correctness) pairs.
    let mut pairs: Vec<(u64, bool)> = Vec::new();
    let mut i: usize = 0;
    while i < q.answers.len()
        invariant
            i <= q.answers@.len(),
            pairs@.len() == i as int,
            forall|j: int|
                0 <= j < i as int ==> pairs@[j] == (q.answers@[j].id, q.answers@[j].is_correct),
        decreases q.answers@.len() - i,
    {
        pairs.push((q.answers[i].id, q.answers[i].is_correct));
        i = i + 1;
    }
    let ghost pairs0 = pairs@;

    shuffle(&mut pairs, rng);

    proof {
        let p = choose|p: Seq<int>|
            is_perm(p, pairs0.len() as int) && forall|i: int|
                0 <= i < pairs0.len() ==> pairs@[i] == pairs0[#[trigger] p[i]];
        // Every pair corresponds to one of q's answers.
        assert forall|j: int| 0 <= j < pairs@.len() implies pair_of_question(
            *q,
            #[trigger] pairs@[j],
        ) by {
            assert(pairs@[j] == pairs0[p[j]]);
            let m = p[j];
            assert(q.answers@[m].id == pairs@[j].0 && q.answers@[m].is_correct == pairs@[j].1);
        }
        // The pair ids are distinct.
        assert forall|a: int, b: int|
            0 <= a < b < pairs@.len() implies pairs@[a].0 != pairs@[b].0 by {
            assert(pairs@[a] == pairs0[p[a]]);
            assert(pairs@[b] == pairs0[p[b]]);
            assert(p[a] != p[b]);
        }
        // The counts of correct and incorrect pairs equal the question's.
        lemma_seq_filter_len_multiset(pairs@, pair_correct_pred());
        lemma_seq_filter_len_multiset(pairs0, pair_correct_pred());
        lemma_filter_len_pointwise(pairs0, q.answers@, pair_correct_pred(), correct_pred());
        lemma_seq_filter_len_multiset(q.answers@, correct_pred());
        lemma_seq_filter_len_multiset(pairs@, pair_incorrect_pred());
        lemma_seq_filter_len_multiset(pairs0, pair_incorrect_pred());
        lemma_filter_len_pointwise(pairs0, q.answers@, pair_incorrect_pred(), incorrect_pred());
        lemma_seq_filter_len_multiset(q.answers@, incorrect_pred());
        assert(pairs@.filter(pair_correct_pred()).len() == n_correct(*q));
        assert(pairs@.filter(pair_incorrect_pred()).len() == n_incorrect(*q));
    }

    // One pass: gather up to the required number of correct and incorrect ids.
    let mut cids: Vec<u64> = Vec::new();
    let mut iids: Vec<u64> = Vec::new();
    let ghost mut cpos: Seq<int> = Seq::empty();
    let ghost mut ipos: Seq<int> = Seq::empty();
    let mut j: usize = 0;
    while j < pairs.len()
        invariant
            j <= pairs@.len(),
            forall|a: int, b: int| 0 <= a < b < pairs@.len() ==> pairs@[a].0 != pairs@[b].0,
            forall|jj: int|
                0 <= jj < pairs@.len() ==> pair_of_question(*q, #[trigger] pairs@[jj]),
            pairs@.filter(pair_correct_pred()).len() == n_correct(*q),
            pairs@.filter(pair_incorrect_pred()).len() == n_incorrect(*q),
            cids@.len() <= c.number_of_correct_answers,
            iids@.len() <= c.number_of_incorrect_answers,
            pairs@.take(j as int).filter(pair_correct_pred()).len()
                <= c.number_of_correct_answers ==> cids@.len() == pairs@.take(
                j as int,
            ).filter(pair_correct_pred()).len(),
            pairs@.take(j as int).filter(pair_correct_pred()).len()
                > c.number_of_correct_answers ==> cids@.len() == c.number_of_correct_answers,
            pairs@.take(j as int).filter(pair_incorrect_pred()).len()
                <= c.number_of_incorrect_answers ==> iids@.len() == pairs@.take(
                j as int,
            ).filter(pair_incorrect_pred()).len(),
            pairs@.take(j as int).filter(pair_incorrect_pred()).len()
                > c.number_of_incorrect_answers ==> iids@.len() == c.number_of_incorrect_answers,
            cpos.len() == cids@.len(),
            ipos.len() == iids@.len(),
            forall|a: int|
                0 <= a < cpos.len() ==> 0 <= #[trigger] cpos[a] < j as int && pairs@[cpos[a]]
                    == (cids@[a], true),
            forall|a: int|
                0 <= a < ipos.len() ==> 0 <= #[trigger] ipos[a] < j as int && pairs@[ipos[a]]
                    == (iids@[a], false),
            forall|a: int, b: int| 0 <= a < b < cpos.len() ==> cpos[a] != cpos[b],
            forall|a: int, b: int| 0 <= a < b < ipos.len() ==> ipos[a] != ipos[b],
        decreases pairs@.len() - j,
    {
        let (id, ok) = pairs[j];
        if ok {
            if cids.len() < c.number_of_correct_answers {
                cids.push(id);
                proof {
                    cpos = cpos.push(j as int);
                }
            }
        } else {
            if iids.len() < c.number_of_incorrect_answers {
                iids.push(id);
                proof {
                    ipos = ipos.push(j as int);
                }
            }
        }
        j = j + 1;
    }
    proof {
        assert(pairs@.take(pairs@.len() as int) == pairs@);
    }

    if cids.len() < c.number_of_correct_answers || iids.len() < c.number_of_incorrect_answers {
        proof {
            assert(!q_eligible(*q, *c));
        }
        return Err(
            ExamError::InvalidConfiguration(InvalidKind::NotEnoughAnswers { question_id: q.id }),
        );
    }

    proof {
        assert(n_correct(*q) >= c.number_of_correct_answers);
        assert(n_incorrect(*q) >= c.number_of_incorrect_answers);
        // Each gathered id names an answer of the promised correctness.
        assert forall|a: int| 0 <= a < cids@.len() implies has_correct_answer_id(
            *q,
            #[trigger] cids@[a],
        ) by {
            let jj = cpos[a];
            assert(pair_of_question(*q, pairs@[jj]));
        }
        assert forall|a: int| 0 <= a < iids@.len() implies has_incorrect_answer_id(
            *q,
            #[trigger] iids@[a],
        ) by {
            let jj = ipos[a];
            assert(pair_of_question(*q, pairs@[jj]));
        }
        // The gathered ids are distinct.
        assert forall|a: int, b: int| 0 <= a < b < cids@.len() implies cids@[a] != cids@[b] by {
            assert(pairs@[cpos[a]].0 == cids@[a]);
            assert(pairs@[cpos[b]].0 == cids@[b]);
        }
        assert forall|a: int, b: int| 0 <= a < b < iids@.len() implies iids@[a] != iids@[b] by {
            assert(pairs@[ipos[a]].0 == iids@[a]);
            assert(pairs@[ipos[b]].0 == iids@[b]);
        }
    }

    // Concatenate and randomize the order of the chosen ids.
    let mut ids: Vec<u64> = iids;
    let mut k: usize = 0;
    while k < cids.len()
        invariant
            k <= cids@.len(),
            ids@ == iids@ + cids@.take(k as int),
        decreases cids@.len() - k,
    {
        ids.push(cids[k]);
        k = k + 1;
        proof {
            assert(iids@ + cids@.take(k - 1 as int) + seq![cids@[k - 1]] =~= iids@ + cids@.take(
                k as int,
            ));
        }
    }
    proof {
        assert(ids@ =~= iids@ + cids@);
    }
    let ghost ids0 = ids@;

    proof {
        // No id occurs twice: an id cannot name both a correct and an
        // incorrect answer, since ids are distinct within the question.
        assert forall|a: int, b: int| 0 <= a < b < ids0.len() implies ids0[a] != ids0[b] by {
            if a < iids@.len() && b >= iids@.len() {
                assert(has_incorrect_answer_id(*q, ids0[a]));
                assert(has_correct_answer_id(*q, ids0[b]));
                if ids0[a] == ids0[b] {
                    let m1 = choose|m: int|
                        0 <= m < q.answers@.len() && q.answers@[m].id == ids0[a]
                            && !q.answers@[m].is_correct;
                    let m2 = choose|m: int|
                        0 <= m < q.answers@.len() && q.answers@[m].id == ids0[b]
                            && q.answers@[m].is_correct;
                    assert(m1 != m2);
                    assert(false);
                }
            }
        }
        assert(ids0.no_duplicates());
        // Exactly the required number of correct and of incorrect ids.
        assert forall|a: int| 0 <= a < iids@.len() implies !correct_id_pred(*q)(
            #[trigger] iids@[a],
        ) && incorrect_id_pred(*q)(iids@[a]) by {
            if has_correct_answer_id(*q, iids@[a]) {
                let m1 = choose|m: int|
                    0 <= m < q.answers@.len() && q.answers@[m].id == iids@[a]
                        && !q.answers@[m].is_correct;
                let m2 = choose|m: int|
                    0 <= m < q.answers@.len() && q.answers@[m].id == iids@[a]
                        && q.answers@[m].is_correct;
                assert(m1 != m2);
                assert(false);
            }
        }
        assert forall|a: int| 0 <= a < cids@.len() implies correct_id_pred(*q)(
            #[trigger] cids@[a],
        ) && !incorrect_id_pred(*q)(cids@[a]) by {
            if has_incorrect_answer_id(*q, cids@[a]) {
                let m1 = choose|m: int|
                    0 <= m < q.answers@.len() && q.answers@[m].id == cids@[a]
                        && !q.answers@[m].is_correct;
                let m2 = choose|m: int|
                    0 <= m < q.answers@.len() && q.answers@[m].id == cids@[a]
                        && q.answers@[m].is_correct;
                assert(m1 != m2);
                assert(false);
            }
        }
        Seq::filter_distributes_over_add(iids@, cids@, correct_id_pred(*q));
        lemma_filter_all_false(iids@, correct_id_pred(*q));
        lemma_filter_all_true(cids@, correct_id_pred(*q));
        Seq::filter_distributes_over_add(iids@, cids@, incorrect_id_pred(*q));
        lemma_filter_all_true(iids@, incorrect_id_pred(*q));
        lemma_filter_all_false(cids@, incorrect_id_pred(*q));
        assert(ids0.filter(correct_id_pred(*q)).len() == c.number_of_correct_answers);
        assert(ids0.filter(incorrect_id_pred(*q)).len() == c.number_of_incorrect_answers);
    }

    shuffle(&mut ids, rng);

    proof {
        let p = choose|p: Seq<int>|
            is_perm(p, ids0.len() as int) && forall|i: int|
                0 <= i < ids0.len() ==> ids@[i] == ids0[#[trigger] p[i]];
        assert forall|a: int, b: int| 0 <= a < b < ids@.len() implies ids@[a] != ids@[b] by {
            assert(ids@[a] == ids0[p[a]]);
            assert(ids@[b] == ids0[p[b]]);
            assert(p[a] != p[b]);
        }
        assert(ids@.no_duplicates());
        assert forall|a: int| 0 <= a < ids@.len() implies has_answer_id(*q, #[trigger] ids@[a]) by {
            assert(ids@[a] == ids0[p[a]]);
            if p[a] < iids@.len() {
                assert(has_incorrect_answer_id(*q, ids0[p[a]]));
            } else {
                assert(has_correct_answer_id(*q, ids0[p[a]]));
            }
        }
        lemma_seq_filter_len_multiset(ids@, correct_id_pred(*q));
        lemma_seq_filter_len_multiset(ids0, correct_id_pred(*q));
        lemma_seq_filter_len_multiset(ids@, incorrect_id_pred(*q));
        lemma_seq_filter_len_multiset(ids0, incorrect_id_pred(*q));
        assert(answer_ids_valid(*q, *c, ids@));
    }

    Ok(GeneratedQuestion { id: q.id, answers: ids })
}

} // verus!
