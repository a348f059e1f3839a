//! Static validation of an exam configuration against its question bank:
//! whether enough sets, questions and answers exist to satisfy every quota.
use vstd::prelude::*;

use crate::model::{
    ExamInput, Question, QuestionSet, QuestionType, q_eligible, tags_superset,
};

verus! {

/// The predicate "this question carries every tag of `group`".
pub open spec fn group_match_pred(group: Seq<String>) -> spec_fn(Question) -> bool {
    |q: Question| tags_superset(q.tags@, group)
}

/// The predicate "this set is of kind `t`".
pub open spec fn set_type_pred(t: QuestionType) -> spec_fn(QuestionSet) -> bool {
    |s: QuestionSet| s.qtype == t
}

/// How many questions across all sets carry every tag of `group`.
pub open spec fn count_matching(sets: Seq<QuestionSet>, group: Seq<String>) -> nat
    decreases sets.len(),
{
    if sets.len() == 0 {
        0
    } else {
        count_matching(sets.drop_last(), group) + sets.last().questions@.filter(
            group_match_pred(group),
        ).len()
    }
}

/// How many questions all sets of kind `t` hold together.
pub open spec fn total_questions_of_type(sets: Seq<QuestionSet>, t: QuestionType) -> nat
    decreases sets.len(),
{
    if sets.len() == 0 {
        0
    } else {
        total_questions_of_type(sets.drop_last(), t) + if sets.last().qtype == t {
            sets.last().questions@.len()
        } else {
            0
        }
    }
}

/// A solvable configuration: a non-empty name, enough tagged questions for
/// every tag quota, and for every question-set config enough sets of its
/// kind, enough questions overall and in one single set, and enough correct
/// and incorrect answers on every question of that kind.
pub open spec fn config_valid(exam: ExamInput) -> bool {
    &&& exam.config.name@.len() > 0
    &&& forall|ti: int|
        0 <= ti < exam.config.tags@.len() ==> count_matching(
            exam.question_sets@,
            (#[trigger] exam.config.tags@[ti]).group@,
        ) >= exam.config.tags@[ti].number_of_questions
    &&& forall|ci: int|
        0 <= ci < exam.config.question_sets@.len() ==> exam.question_sets@.filter(
            set_type_pred((#[trigger] exam.config.question_sets@[ci]).qtype),
        ).len() >= exam.config.question_sets@[ci].number_of_set
    &&& forall|ci: int|
        0 <= ci < exam.config.question_sets@.len() ==> total_questions_of_type(
            exam.question_sets@,
            (#[trigger] exam.config.question_sets@[ci]).qtype,
        ) >= exam.config.question_sets@[ci].number_of_set
            * exam.config.question_sets@[ci].number_of_questions
    &&& forall|ci: int|
        0 <= ci < exam.config.question_sets@.len() ==> exists|i: int|
            0 <= i < exam.question_sets@.len() && (#[trigger] exam.question_sets@[i]).qtype
                == (#[trigger] exam.config.question_sets@[ci]).qtype
                && exam.question_sets@[i].questions@.len()
                >= exam.config.question_sets@[ci].number_of_questions
    &&& forall|ci: int, i: int, k: int|
        0 <= ci < exam.config.question_sets@.len() && 0 <= i < exam.question_sets@.len() && 0
            <= k < exam.question_sets@[i].questions@.len() && (
        #[trigger] exam.question_sets@[i]).qtype
            == (#[trigger] exam.config.question_sets@[ci]).qtype ==> q_eligible(
            #[trigger] exam.question_sets@[i].questions@[k],
            exam.config.question_sets@[ci],
        )
}

/// Why a configuration fails validation; indices name the offending config
/// entry, ids the offending question and set.
#[derive(Clone, Debug)]
pub enum ConfigIssue {
    EmptyName,
    NotEnoughTaggedQuestions { tag_index: usize },
    NotEnoughSetsOfType { config_index: usize },
    NotEnoughQuestionsOfType { config_index: usize },
    NoSingleSetLargeEnough { config_index: usize },
    NotEnoughCorrectAnswers { question_id: u64, set_id: u64 },
    NotEnoughIncorrectAnswers { question_id: u64, set_id: u64 },
}

/// Counts the questions of one set carrying every tag of `group`.
fn count_matching_in_set(qs: &Vec<Question>, group: &Vec<String>) -> (n: usize)
    ensures
        n == qs@.filter(group_match_pred(group@)).len(),
{
    broadcast use Seq::lemma_filter_push;
    broadcast use Seq::lemma_filter_len;
    broadcast use Seq::lemma_take_succ_push;
    broadcast use Seq::lemma_take_len;

    let mut n: usize = 0;
    let mut k: usize = 0;
    while k < qs.len()
        invariant
            k <= qs@.len(),
            n <= k,
            n == qs@.take(k as int).filter(group_match_pred(group@)).len(),
        decreases qs@.len() - k,
    {
        if crate::allocate::tags_superset_exec(&qs[k].tags, group) {
            n = n + 1;
        }
        k = k + 1;
    }
    proof {
        assert(qs@.take(qs@.len() as int) == qs@);
    }
    n
}

/// Counts the questions across all sets carrying every tag of `group`,
/// saturating at `usize::MAX`.
fn count_matching_exec(sets: &Vec<QuestionSet>, group: &Vec<String>) -> (n: u128)
    ensures
        n == count_matching(sets@, group@),
{
    let mut n: u128 = 0;
    let mut i: usize = 0;
    while i < sets.len()
        invariant
            i <= sets@.len(),
            n == count_matching(sets@.take(i as int), group@),
            n <= i * (usize::MAX as int),
        decreases sets@.len() - i,
    {
        let m = count_matching_in_set(&sets[i].questions, group);
        proof {
            assert(sets@.take(i as int + 1).drop_last() =~= sets@.take(i as int));
            assert(sets@.take(i as int + 1).last() == sets@[i as int]);
            assert(n + m <= (i + 1) * (usize::MAX as int)) by {
                assert(n <= i * (usize::MAX as int));
                assert(m <= usize::MAX);
            }
            assert((i + 1) * (usize::MAX as int) < u128::MAX) by (nonlinear_arith)
                requires
                    0 <= i < usize::MAX,
            ;
        }
        n = n + (m as u128);
        i = i + 1;
    }
    proof {
        assert(sets@.take(sets@.len() as int) == sets@);
    }
    n
}

/// Counts the sets of kind `t`.
fn count_sets_of_type(sets: &Vec<QuestionSet>, t: QuestionType) -> (n: usize)
    ensures
        n == sets@.filter(set_type_pred(t)).len(),
{
    broadcast use Seq::lemma_filter_push;
    broadcast use Seq::lemma_filter_len;
    broadcast use Seq::lemma_take_succ_push;
    broadcast use Seq::lemma_take_len;

    let mut n: usize = 0;
    let mut i: usize = 0;
    while i < sets.len()
        invariant
            i <= sets@.len(),
            n <= i,
            n == sets@.take(i as int).filter(set_type_pred(t)).len(),
        decreases sets@.len() - i,
    {
        if sets[i].qtype == t {
            n = n + 1;
        }
        i = i + 1;
    }
    proof {
        assert(sets@.take(sets@.len() as int) == sets@);
    }
    n
}

/// Counts the questions all sets of kind `t` hold together.
fn count_questions_of_type(sets: &Vec<QuestionSet>, t: QuestionType) -> (n: u128)
    ensures
        n == total_questions_of_type(sets@, t),
{
    let mut n: u128 = 0;
    let mut i: usize = 0;
    while i < sets.len()
        invariant
            i <= sets@.len(),
            n == total_questions_of_type(sets@.take(i as int), t),
            n <= i * (usize::MAX as int),
        decreases sets@.len() - i,
    {
        proof {
            assert(sets@.take(i as int + 1).drop_last() =~= sets@.take(i as int));
            assert(sets@.take(i as int + 1).last() == sets@[i as int]);
        }
        proof {
            assert(n + (usize::MAX as int) <= (i + 1) * (usize::MAX as int)) by {
                assert(n <= i * (usize::MAX as int));
            }
            assert((i + 1) * (usize::MAX as int) < u128::MAX) by (nonlinear_arith)
                requires
                    0 <= i < usize::MAX,
            ;
        }
        if sets[i].qtype == t {
            let m = sets[i].questions.len();
            n = n + (m as u128);
        }
        i = i + 1;
    }
    proof {
        assert(sets@.take(sets@.len() as int) == sets@);
    }
    n
}

/// The tag quotas before `ti` are all satisfiable.
pub open spec fn tags_ok_before(exam: ExamInput, ti: int) -> bool {
    forall|t: int|
        0 <= t < ti ==> count_matching(
            exam.question_sets@,
            (#[trigger] exam.config.tags@[t]).group@,
        ) >= exam.config.tags@[t].number_of_questions
}

/// The set-count quotas before `ci` are all satisfiable.
pub open spec fn set_counts_ok_before(exam: ExamInput, ci: int) -> bool {
    forall|cc: int|
        0 <= cc < ci ==> exam.question_sets@.filter(
            set_type_pred((#[trigger] exam.config.question_sets@[cc]).qtype),
        ).len() >= exam.config.question_sets@[cc].number_of_set
}

/// The question-count quotas before `ci` are all satisfiable.
pub open spec fn question_counts_ok_before(exam: ExamInput, ci: int) -> bool {
    forall|cc: int|
        0 <= cc < ci ==> total_questions_of_type(
            exam.question_sets@,
            (#[trigger] exam.config.question_sets@[cc]).qtype,
        ) >= exam.config.question_sets@[cc].number_of_set
            * exam.config.question_sets@[cc].number_of_questions && (exists|i: int|
            0 <= i < exam.question_sets@.len() && (#[trigger] exam.question_sets@[i]).qtype
                == exam.config.question_sets@[cc].qtype
                && exam.question_sets@[i].questions@.len()
                >= exam.config.question_sets@[cc].number_of_questions)
}

/// Validates the configuration against the question bank: succeeds exactly
/// when every quota is satisfiable (see [`config_valid`]); a failure names
/// the first violated condition, checked name first, then tag quotas, set
/// counts, question counts, and answer counts, each in order.
pub fn validate_config(exam: &ExamInput) -> (r: Result<(), ConfigIssue>)
    ensures
        (r is Ok) == config_valid(*exam),
        r matches Err(e) ==> match e {
            ConfigIssue::EmptyName => exam.config.name@.len() == 0,
            ConfigIssue::NotEnoughTaggedQuestions { tag_index } => tag_index
                < exam.config.tags@.len() && count_matching(
                exam.question_sets@,
                exam.config.tags@[tag_index as int].group@,
            ) < exam.config.tags@[tag_index as int].number_of_questions
                && exam.config.name@.len() > 0 && tags_ok_before(*exam, tag_index as int),
            ConfigIssue::NotEnoughSetsOfType { config_index } => config_index
                < exam.config.question_sets@.len() && exam.question_sets@.filter(
                set_type_pred(exam.config.question_sets@[config_index as int].qtype),
            ).len() < exam.config.question_sets@[config_index as int].number_of_set
                && exam.config.name@.len() > 0 && tags_ok_before(
                *exam,
                exam.config.tags@.len() as int,
            ) && set_counts_ok_before(*exam, config_index as int),
            ConfigIssue::NotEnoughQuestionsOfType { config_index } => config_index
                < exam.config.question_sets@.len() && total_questions_of_type(
                exam.question_sets@,
                exam.config.question_sets@[config_index as int].qtype,
            ) < exam.config.question_sets@[config_index as int].number_of_set
                * exam.config.question_sets@[config_index as int].number_of_questions
                && exam.config.name@.len() > 0 && tags_ok_before(
                *exam,
                exam.config.tags@.len() as int,
            ) && set_counts_ok_before(*exam, exam.config.question_sets@.len() as int)
                && question_counts_ok_before(*exam, config_index as int),
            ConfigIssue::NoSingleSetLargeEnough { config_index } => config_index
                < exam.config.question_sets@.len() && !(exists|i: int|
                0 <= i < exam.question_sets@.len() && (#[trigger] exam.question_sets@[i]).qtype
                    == exam.config.question_sets@[config_index as int].qtype
                    && exam.question_sets@[i].questions@.len()
                    >= exam.config.question_sets@[config_index as int].number_of_questions)
                && exam.config.name@.len() > 0 && tags_ok_before(
                *exam,
                exam.config.tags@.len() as int,
            ) && set_counts_ok_before(*exam, exam.config.question_sets@.len() as int)
                && question_counts_ok_before(*exam, config_index as int)
                && total_questions_of_type(
                exam.question_sets@,
                exam.config.question_sets@[config_index as int].qtype,
            ) >= exam.config.question_sets@[config_index as int].number_of_set
                * exam.config.question_sets@[config_index as int].number_of_questions,
            ConfigIssue::NotEnoughCorrectAnswers { question_id, set_id } => exists|
                ci: int,
                i: int,
                k: int,
            |
                0 <= ci < exam.config.question_sets@.len() && 0 <= i < exam.question_sets@.len()
                    && 0 <= k < exam.question_sets@[i].questions@.len() && (
                #[trigger] exam.question_sets@[i]).qtype
                    == (#[trigger] exam.config.question_sets@[ci]).qtype
                    && (#[trigger] exam.question_sets@[i].questions@[k]).id == question_id
                    && exam.question_sets@[i].id == set_id && crate::model::n_correct(
                    exam.question_sets@[i].questions@[k],
                ) < exam.config.question_sets@[ci].number_of_correct_answers && (
                exam.config.name@.len() > 0 && tags_ok_before(
                    *exam,
                    exam.config.tags@.len() as int,
                ) && set_counts_ok_before(*exam, exam.config.question_sets@.len() as int)
                    && question_counts_ok_before(
                    *exam,
                    exam.config.question_sets@.len() as int,
                )),
            ConfigIssue::NotEnoughIncorrectAnswers { question_id, set_id } => exists|
                ci: int,
                i: int,
                k: int,
            |
                0 <= ci < exam.config.question_sets@.len() && 0 <= i < exam.question_sets@.len()
                    && 0 <= k < exam.question_sets@[i].questions@.len() && (
                #[trigger] exam.question_sets@[i]).qtype
                    == (#[trigger] exam.config.question_sets@[ci]).qtype
                    && (#[trigger] exam.question_sets@[i].questions@[k]).id == question_id
                    && exam.question_sets@[i].id == set_id && crate::model::n_incorrect(
                    exam.question_sets@[i].questions@[k],
                ) < exam.config.question_sets@[ci].number_of_incorrect_answers
                    && crate::model::n_correct(exam.question_sets@[i].questions@[k])
                    >= exam.config.question_sets@[ci].number_of_correct_answers && (
                exam.config.name@.len() > 0 && tags_ok_before(
                    *exam,
                    exam.config.tags@.len() as int,
                ) && set_counts_ok_before(*exam, exam.config.question_sets@.len() as int)
                    && question_counts_ok_before(
                    *exam,
                    exam.config.question_sets@.len() as int,
                )),
        },
{
    if exam.config.name.as_str().is_empty() {
        return Err(ConfigIssue::EmptyName);
    }

    // Every tag quota can be covered by the bank.
    let mut ti: usize = 0;
    while ti < exam.config.tags.len()
        invariant
            ti <= exam.config.tags@.len(),
            forall|t: int|
                0 <= t < ti as int ==> count_matching(
                    exam.question_sets@,
                    (#[trigger] exam.config.tags@[t]).group@,
                ) >= exam.config.tags@[t].number_of_questions,
        decreases exam.config.tags@.len() - ti,
    {
        let available = count_matching_exec(&exam.question_sets, &exam.config.tags[ti].group);
        if available < (exam.config.tags[ti].number_of_questions as u128) {
            return Err(ConfigIssue::NotEnoughTaggedQuestions { tag_index: ti });
        }
        ti = ti + 1;
    }

    // Enough sets of each requested kind.
    let mut ci: usize = 0;
    while ci < exam.config.question_sets.len()
        invariant
            ci <= exam.config.question_sets@.len(),
            forall|cc: int|
                0 <= cc < ci as int ==> exam.question_sets@.filter(
                    set_type_pred((#[trigger] exam.config.question_sets@[cc]).qtype),
                ).len() >= exam.config.question_sets@[cc].number_of_set,
        decreases exam.config.question_sets@.len() - ci,
    {
        let available = count_sets_of_type(&exam.question_sets, exam.config.question_sets[ci].qtype);
        if available < exam.config.question_sets[ci].number_of_set {
            return Err(ConfigIssue::NotEnoughSetsOfType { config_index: ci });
        }
        ci = ci + 1;
    }

    // Enough questions of each kind, overall and in one single set.
    let mut ci2: usize = 0;
    while ci2 < exam.config.question_sets.len()
        invariant
            ci2 <= exam.config.question_sets@.len(),
            forall|cc: int|
                0 <= cc < ci2 as int ==> total_questions_of_type(
                    exam.question_sets@,
                    (#[trigger] exam.config.question_sets@[cc]).qtype,
                ) >= exam.config.question_sets@[cc].number_of_set
                    * exam.config.question_sets@[cc].number_of_questions,
            forall|cc: int|
                0 <= cc < ci2 as int ==> exists|i: int|
                    0 <= i < exam.question_sets@.len() && (
                    #[trigger] exam.question_sets@[i]).qtype
                        == (#[trigger] exam.config.question_sets@[cc]).qtype
                        && exam.question_sets@[i].questions@.len()
                        >= exam.config.question_sets@[cc].number_of_questions,
        decreases exam.config.question_sets@.len() - ci2,
    {
        let c = exam.config.question_sets[ci2];
        let total = count_questions_of_type(&exam.question_sets, c.qtype);
        proof {
            assert((c.number_of_set as int) * (c.number_of_questions as int) < u128::MAX)
                by (nonlinear_arith)
                requires
                    0 <= c.number_of_set <= usize::MAX,
                    0 <= c.number_of_questions <= usize::MAX,
            ;
        }
        let needed: u128 = (c.number_of_set as u128) * (c.number_of_questions as u128);
        if total < needed {
            return Err(ConfigIssue::NotEnoughQuestionsOfType { config_index: ci2 });
        }
        let mut found = false;
        let mut i: usize = 0;
        while i < exam.question_sets.len()
            invariant
                i <= exam.question_sets@.len(),
                found ==> exists|ii: int|
                    0 <= ii < exam.question_sets@.len() && (
                    #[trigger] exam.question_sets@[ii]).qtype == c.qtype
                        && exam.question_sets@[ii].questions@.len() >= c.number_of_questions,
                !found ==> forall|ii: int|
                    0 <= ii < i as int ==> !((#[trigger] exam.question_sets@[ii]).qtype
                        == c.qtype && exam.question_sets@[ii].questions@.len()
                        >= c.number_of_questions),
            decreases exam.question_sets@.len() - i,
        {
            if !found {
                if exam.question_sets[i].qtype == c.qtype && exam.question_sets[i].questions.len()
                    >= c.number_of_questions {
                    found = true;
                }
            }
            i = i + 1;
        }
        if !found {
            return Err(ConfigIssue::NoSingleSetLargeEnough { config_index: ci2 });
        }
        ci2 = ci2 + 1;
    }

    // Every question of a requested kind has enough answers of both kinds.
    let mut ci3: usize = 0;
    while ci3 < exam.config.question_sets.len()
        invariant
            ci3 <= exam.config.question_sets@.len(),
            forall|cc: int, i: int, k: int|
                0 <= cc < ci3 as int && 0 <= i < exam.question_sets@.len() && 0 <= k
                    < exam.question_sets@[i].questions@.len() && (
                #[trigger] exam.question_sets@[i]).qtype
                    == (#[trigger] exam.config.question_sets@[cc]).qtype ==> q_eligible(
                    #[trigger] exam.question_sets@[i].questions@[k],
                    exam.config.question_sets@[cc],
                ),
        decreases exam.config.question_sets@.len() - ci3,
    {
        let c = exam.config.question_sets[ci3];
        let mut i: usize = 0;
        while i < exam.question_sets.len()
            invariant
                ci3 < exam.config.question_sets@.len(),
                c == exam.config.question_sets@[ci3 as int],
                i <= exam.question_sets@.len(),
                forall|ii: int, k: int|
                    0 <= ii < i as int && 0 <= k < exam.question_sets@[ii].questions@.len() && (
                    #[trigger] exam.question_sets@[ii]).qtype == c.qtype ==> q_eligible(
                        #[trigger] exam.question_sets@[ii].questions@[k],
                        c,
                    ),
            decreases exam.question_sets@.len() - i,
        {
            if exam.question_sets[i].qtype == c.qtype {
                let mut k: usize = 0;
                while k < exam.question_sets[i].questions.len()
                    invariant
                        ci3 < exam.config.question_sets@.len(),
                        c == exam.config.question_sets@[ci3 as int],
                        i < exam.question_sets@.len(),
                        exam.question_sets@[i as int].qtype == c.qtype,
                        k <= exam.question_sets@[i as int].questions@.len(),
                        forall|kk: int|
                            0 <= kk < k as int ==> q_eligible(
                                #[trigger] exam.question_sets@[i as int].questions@[kk],
                                c,
                            ),
                    decreases exam.question_sets@[i as int].questions@.len() - k,
                {
                    let nc = crate::answers::count_correct(
                        &exam.question_sets[i].questions[k].answers,
                    );
                    if nc < c.number_of_correct_answers {
                        return Err(
                            ConfigIssue::NotEnoughCorrectAnswers {
                                question_id: exam.question_sets[i].questions[k].id,
                                set_id: exam.question_sets[i].id,
                            },
                        );
                    }
                    let ni = crate::answers::count_incorrect(
                        &exam.question_sets[i].questions[k].answers,
                    );
                    if ni < c.number_of_incorrect_answers {
                        return Err(
                            ConfigIssue::NotEnoughIncorrectAnswers {
                                question_id: exam.question_sets[i].questions[k].id,
                                set_id: exam.question_sets[i].id,
                            },
                        );
                    }
                    k = k + 1;
                }
            }
            i = i + 1;
        }
        ci3 = ci3 + 1;
    }

    Ok(())
}

} // verus!
