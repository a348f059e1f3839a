//! Joining a stored exam with a user's attempt: the attempt view holds, for
//! every answered question, the full question joined with the user's
//! selection and submission time.  Times are plain milliseconds since the
//! epoch.
use vstd::prelude::*;

use crate::model::{Answer, ExamConfig, Question, QuestionSet, QuestionType};

verus! {

/// A deployed exam, as the attempt-taking side stores it.
#[derive(Clone, Debug)]
pub struct ExamEnvironmentExam {
    pub id: u64,
    pub question_sets: Vec<QuestionSet>,
    pub config: ExamConfig,
    pub prerequisites: Vec<u64>,
    pub deprecated: bool,
    pub version: i64,
}

/// One answered question of an attempt: the selected answer ids and when
/// they were submitted.
#[derive(Clone, Debug)]
pub struct ExamEnvironmentMultipleChoiceQuestionAttempt {
    pub id: u64,
    pub answers: Vec<u64>,
    pub submission_time_ms: u64,
}

/// One question set of an attempt.
#[derive(Clone, Debug)]
pub struct ExamEnvironmentQuestionSetAttempt {
    pub id: u64,
    pub questions: Vec<ExamEnvironmentMultipleChoiceQuestionAttempt>,
}

/// A user's attempt at a generated exam.
#[derive(Clone, Debug)]
pub struct ExamEnvironmentExamAttempt {
    pub id: u64,
    pub exam_id: u64,
    pub generated_exam_id: u64,
    pub question_sets: Vec<ExamEnvironmentQuestionSetAttempt>,
    pub start_time_ms: u64,
}

/// A question joined with the user's selection.
#[derive(Clone, Debug)]
pub struct AttemptQuestionSetQuestion {
    pub id: u64,
    pub text: String,
    pub tags: Vec<String>,
    pub deprecated: bool,
    pub answers: Vec<Answer>,
    pub selected: Vec<u64>,
    pub submission_time_ms: u64,
}

/// A question set joined with the user's answers.
#[derive(Clone, Debug)]
pub struct AttemptQuestionSet {
    pub id: u64,
    pub qtype: QuestionType,
    pub context: Option<String>,
    pub questions: Vec<AttemptQuestionSetQuestion>,
}

/// The joined attempt view.
#[derive(Clone, Debug)]
pub struct Attempt {
    pub id: u64,
    pub prerequisites: Vec<u64>,
    pub deprecated: bool,
    pub question_sets: Vec<AttemptQuestionSet>,
    pub config: ExamConfig,
    pub start_time_ms: u64,
}

/// Some entry of `qas` carries the id.
pub open spec fn has_question_attempt(
    qas: Seq<ExamEnvironmentMultipleChoiceQuestionAttempt>,
    id: u64,
) -> bool {
    exists|i: int| 0 <= i < qas.len() && (#[trigger] qas[i]).id == id
}

/// The first entry of `qas` carrying the id.
pub open spec fn first_question_attempt(
    qas: Seq<ExamEnvironmentMultipleChoiceQuestionAttempt>,
    id: u64,
) -> ExamEnvironmentMultipleChoiceQuestionAttempt
    decreases qas.len(),
{
    if qas.len() == 0 {
        arbitrary()
    } else if qas[0].id == id {
        qas[0]
    } else {
        first_question_attempt(qas.drop_first(), id)
    }
}

/// Some entry of `qsas` carries the id.
pub open spec fn has_set_attempt(qsas: Seq<ExamEnvironmentQuestionSetAttempt>, id: u64) -> bool {
    exists|i: int| 0 <= i < qsas.len() && (#[trigger] qsas[i]).id == id
}

/// The first entry of `qsas` carrying the id.
pub open spec fn first_set_attempt(
    qsas: Seq<ExamEnvironmentQuestionSetAttempt>,
    id: u64,
) -> ExamEnvironmentQuestionSetAttempt
    decreases qsas.len(),
{
    if qsas.len() == 0 {
        arbitrary()
    } else if qsas[0].id == id {
        qsas[0]
    } else {
        first_set_attempt(qsas.drop_first(), id)
    }
}

/// The predicate "this question was answered in `qas`".
pub open spec fn answered_question_pred(
    qas: Seq<ExamEnvironmentMultipleChoiceQuestionAttempt>,
) -> spec_fn(Question) -> bool {
    |q: Question| has_question_attempt(qas, q.id)
}

/// One set's questions that the attempt answered, in set order.
pub open spec fn answered_questions(
    qs: Seq<Question>,
    qas: Seq<ExamEnvironmentMultipleChoiceQuestionAttempt>,
) -> Seq<Question> {
    qs.filter(answered_question_pred(qas))
}

/// The predicate "this set has an entry in `qsas`".
pub open spec fn answered_set_pred(
    qsas: Seq<ExamEnvironmentQuestionSetAttempt>,
) -> spec_fn(QuestionSet) -> bool {
    |s: QuestionSet| has_set_attempt(qsas, s.id)
}

/// The exam's sets that the attempt touched, in exam order.
pub open spec fn answered_sets(
    sets: Seq<QuestionSet>,
    qsas: Seq<ExamEnvironmentQuestionSetAttempt>,
) -> Seq<QuestionSet> {
    sets.filter(answered_set_pred(qsas))
}

/// `rq` is exactly source question `q` joined with the first attempt entry
/// for `q`'s id in `qas`.
pub open spec fn question_joined(
    rq: AttemptQuestionSetQuestion,
    q: Question,
    qas: Seq<ExamEnvironmentMultipleChoiceQuestionAttempt>,
) -> bool {
    let qa = first_question_attempt(qas, q.id);
    &&& rq.id == q.id
    &&& rq.text@ == q.text@
    &&& rq.tags@ == q.tags@
    &&& rq.deprecated == q.deprecated
    &&& rq.answers@ == q.answers@
    &&& rq.selected@ == qa.answers@
    &&& rq.submission_time_ms == qa.submission_time_ms
}

/// `rs` is exactly source set `src` joined with its attempt entry in
/// `qsas`: same identity, and the answered questions joined in order.
pub open spec fn set_joined(
    rs: AttemptQuestionSet,
    src: QuestionSet,
    qsas: Seq<ExamEnvironmentQuestionSetAttempt>,
) -> bool {
    let qas = first_set_attempt(qsas, src.id).questions@;
    &&& rs.id == src.id
    &&& rs.qtype == src.qtype
    &&& rs.context == src.context
    &&& rs.questions@.len() == answered_questions(src.questions@, qas).len()
    &&& forall|k: int|
        0 <= k < rs.questions@.len() ==> question_joined(
            #[trigger] rs.questions@[k],
            answered_questions(src.questions@, qas)[k],
            qas,
        )
}

/// The two configurations hold the same data.
pub open spec fn config_equivalent(a: ExamConfig, b: ExamConfig) -> bool {
    &&& a.name@ == b.name@
    &&& a.tags@.len() == b.tags@.len()
    &&& forall|i: int|
        0 <= i < a.tags@.len() ==> (#[trigger] a.tags@[i]).group@ == b.tags@[i].group@
            && a.tags@[i].number_of_questions == b.tags@[i].number_of_questions
    &&& a.question_sets@ == b.question_sets@
}

/// Constructs an attempt view: the exam's sets and questions that the
/// attempt answered, each question joined with the selected answer ids and
/// submission time, in exam order.  Never mutates its inputs.
pub fn construct_attempt(
    exam: &ExamEnvironmentExam,
    exam_attempt: &ExamEnvironmentExamAttempt,
) -> (r: Attempt)
    ensures
        r.id == exam_attempt.id,
        r.prerequisites@ == exam.prerequisites@,
        r.deprecated == exam.deprecated,
        config_equivalent(r.config, exam.config),
        r.start_time_ms == exam_attempt.start_time_ms,
        r.question_sets@.len() == answered_sets(
            exam.question_sets@,
            exam_attempt.question_sets@,
        ).len(),
        forall|i: int|
            0 <= i < r.question_sets@.len() ==> set_joined(
                #[trigger] r.question_sets@[i],
                answered_sets(exam.question_sets@, exam_attempt.question_sets@)[i],
                exam_attempt.question_sets@,
            ),
{
    broadcast use Seq::lemma_filter_push;
    broadcast use Seq::lemma_take_succ_push;
    broadcast use Seq::lemma_take_len;

    let ghost sets0 = exam.question_sets@;
    let ghost qsas = exam_attempt.question_sets@;

    let mut out_sets: Vec<AttemptQuestionSet> = Vec::new();
    let mut i: usize = 0;
    while i < exam.question_sets.len()
        invariant
            i <= sets0.len(),
            out_sets@.len() == answered_sets(sets0.take(i as int), qsas).len(),
            forall|x: int|
                0 <= x < out_sets@.len() ==> set_joined(
                    #[trigger] out_sets@[x],
                    answered_sets(sets0.take(i as int), qsas)[x],
                    qsas,
                ),
        decreases sets0.len() - i,
    {
        let sa = find_set_attempt(&exam_attempt.question_sets, exam.question_sets[i].id);
        let ghost prefix = answered_sets(sets0.take(i as int), qsas);
        match sa {
            None => {
                proof {
                    assert(!has_set_attempt(qsas, sets0[i as int].id));
                    assert(answered_sets(sets0.take(i as int + 1), qsas) == prefix);
                }
            },
            Some(sx) => {
                proof {
                    assert(has_set_attempt(qsas, sets0[i as int].id));
                    assert(answered_sets(sets0.take(i as int + 1), qsas) == prefix.push(
                        sets0[i as int],
                    ));
                    lemma_first_set_attempt(qsas, sets0[i as int].id, sx as int);
                }
                let joined = join_set_questions(
                    &exam.question_sets[i].questions,
                    &exam_attempt.question_sets[sx].questions,
                );
                let next = AttemptQuestionSet {
                    id: exam.question_sets[i].id,
                    qtype: exam.question_sets[i].qtype,
                    context: clone_opt_string(&exam.question_sets[i].context),
                    questions: joined,
                };
                proof {
                    assert(set_joined(next, sets0[i as int], qsas));
                }
                out_sets.push(next);
            },
        }
        i = i + 1;
    }
    proof {
        assert(sets0.take(sets0.len() as int) == sets0);
    }

    Attempt {
        id: exam_attempt.id,
        prerequisites: clone_u64_vec(&exam.prerequisites),
        deprecated: exam.deprecated,
        question_sets: out_sets,
        config: clone_config(&exam.config),
        start_time_ms: exam_attempt.start_time_ms,
    }
}

/// Joins one set's questions with the attempt's entries for that set.
fn join_set_questions(
    qs: &Vec<Question>,
    qas: &Vec<ExamEnvironmentMultipleChoiceQuestionAttempt>,
) -> (r: Vec<AttemptQuestionSetQuestion>)
    ensures
        r@.len() == answered_questions(qs@, qas@).len(),
        forall|k: int|
            0 <= k < r@.len() ==> question_joined(
                #[trigger] r@[k],
                answered_questions(qs@, qas@)[k],
                qas@,
            ),
{
    broadcast use Seq::lemma_filter_push;
    broadcast use Seq::lemma_take_succ_push;
    broadcast use Seq::lemma_take_len;

    let mut out: Vec<AttemptQuestionSetQuestion> = Vec::new();
    let mut k: usize = 0;
    while k < qs.len()
        invariant
            k <= qs@.len(),
            out@.len() == answered_questions(qs@.take(k as int), qas@).len(),
            forall|x: int|
                0 <= x < out@.len() ==> question_joined(
                    #[trigger] out@[x],
                    answered_questions(qs@.take(k as int), qas@)[x],
                    qas@,
                ),
        decreases qs@.len() - k,
    {
        let qa = find_question_attempt(qas, qs[k].id);
        let ghost prefix = answered_questions(qs@.take(k as int), qas@);
        match qa {
            None => {
                proof {
                    assert(!has_question_attempt(qas@, qs@[k as int].id));
                    assert(answered_questions(qs@.take(k as int + 1), qas@) == prefix);
                }
            },
            Some(qx) => {
                proof {
                    assert(has_question_attempt(qas@, qs@[k as int].id));
                    assert(answered_questions(qs@.take(k as int + 1), qas@) == prefix.push(
                        qs@[k as int],
                    ));
                    lemma_first_question_attempt(qas@, qs@[k as int].id, qx as int);
                }
                let q = &qs[k];
                let next = AttemptQuestionSetQuestion {
                    id: q.id,
                    text: q.text.clone(),
                    tags: clone_string_vec(&q.tags),
                    deprecated: q.deprecated,
                    answers: clone_answers(&q.answers),
                    selected: clone_u64_vec(&qas[qx].answers),
                    submission_time_ms: qas[qx].submission_time_ms,
                };
                proof {
                    assert(question_joined(next, qs@[k as int], qas@));
                }
                out.push(next);
            },
        }
        k = k + 1;
    }
    proof {
        assert(qs@.take(qs@.len() as int) == qs@);
    }
    out
}

/// Finds the first attempt entry for the set id, if any.
fn find_set_attempt(qsas: &Vec<ExamEnvironmentQuestionSetAttempt>, id: u64) -> (r: Option<usize>)
    ensures
        match r {
            Some(x) => x < qsas@.len() && qsas@[x as int].id == id && (forall|j: int|
                0 <= j < x as int ==> (#[trigger] qsas@[j]).id != id),
            None => !has_set_attempt(qsas@, id),
        },
{
    let mut x: usize = 0;
    while x < qsas.len()
        invariant
            x <= qsas@.len(),
            forall|j: int| 0 <= j < x as int ==> (#[trigger] qsas@[j]).id != id,
        decreases qsas@.len() - x,
    {
        if qsas[x].id == id {
            return Some(x);
        }
        x = x + 1;
    }
    None
}

/// Finds the first attempt entry for the question id, if any.
fn find_question_attempt(
    qas: &Vec<ExamEnvironmentMultipleChoiceQuestionAttempt>,
    id: u64,
) -> (r: Option<usize>)
    ensures
        match r {
            Some(x) => x < qas@.len() && qas@[x as int].id == id && (forall|j: int|
                0 <= j < x as int ==> (#[trigger] qas@[j]).id != id),
            None => !has_question_attempt(qas@, id),
        },
{
    let mut x: usize = 0;
    while x < qas.len()
        invariant
            x <= qas@.len(),
            forall|j: int| 0 <= j < x as int ==> (#[trigger] qas@[j]).id != id,
        decreases qas@.len() - x,
    {
        if qas[x].id == id {
            return Some(x);
        }
        x = x + 1;
    }
    None
}

/// The first matching entry is the one the earliest matching index holds.
proof fn lemma_first_set_attempt(qsas: Seq<ExamEnvironmentQuestionSetAttempt>, id: u64, x: int)
    requires
        0 <= x < qsas.len(),
        qsas[x].id == id,
        forall|j: int| 0 <= j < x ==> (#[trigger] qsas[j]).id != id,
    ensures
        first_set_attempt(qsas, id) == qsas[x],
    decreases x,
{
    if x == 0 {
    } else {
        assert(qsas[0].id != id);
        lemma_first_set_attempt(qsas.drop_first(), id, x - 1);
        assert(qsas.drop_first()[x - 1] == qsas[x]);
    }
}

/// The first matching entry is the one the earliest matching index holds.
proof fn lemma_first_question_attempt(
    qas: Seq<ExamEnvironmentMultipleChoiceQuestionAttempt>,
    id: u64,
    x: int,
)
    requires
        0 <= x < qas.len(),
        qas[x].id == id,
        forall|j: int| 0 <= j < x ==> (#[trigger] qas[j]).id != id,
    ensures
        first_question_attempt(qas, id) == qas[x],
    decreases x,
{
    if x == 0 {
    } else {
        assert(qas[0].id != id);
        lemma_first_question_attempt(qas.drop_first(), id, x - 1);
        assert(qas.drop_first()[x - 1] == qas[x]);
    }
}

/// A copy of a plain id list.
fn clone_u64_vec(v: &Vec<u64>) -> (r: Vec<u64>)
    ensures
        r@ == v@,
{
    broadcast use Seq::lemma_take_succ_push;
    broadcast use Seq::lemma_take_len;

    let mut r: Vec<u64> = Vec::new();
    let mut i: usize = 0;
    while i < v.len()
        invariant
            i <= v@.len(),
            r@ == v@.take(i as int),
        decreases v@.len() - i,
    {
        r.push(v[i]);
        i = i + 1;
    }
    r
}

/// A copy of a string list.
fn clone_string_vec(v: &Vec<String>) -> (r: Vec<String>)
    ensures
        r@ == v@,
{
    broadcast use Seq::lemma_take_succ_push;
    broadcast use Seq::lemma_take_len;

    let mut r: Vec<String> = Vec::new();
    let mut i: usize = 0;
    while i < v.len()
        invariant
            i <= v@.len(),
            r@ == v@.take(i as int),
        decreases v@.len() - i,
    {
        r.push(v[i].clone());
        i = i + 1;
    }
    r
}

/// A copy of an answer list.
fn clone_answers(v: &Vec<Answer>) -> (r: Vec<Answer>)
    ensures
        r@ == v@,
{
    broadcast use Seq::lemma_take_succ_push;
    broadcast use Seq::lemma_take_len;

    let mut r: Vec<Answer> = Vec::new();
    let mut i: usize = 0;
    while i < v.len()
        invariant
            i <= v@.len(),
            r@ == v@.take(i as int),
        decreases v@.len() - i,
    {
        let a = Answer { id: v[i].id, text: v[i].text.clone(), is_correct: v[i].is_correct };
        proof {
            assert(a == v@[i as int]);
        }
        r.push(a);
        i = i + 1;
    }
    r
}

/// A copy of an optional context string.
fn clone_opt_string(v: &Option<String>) -> (r: Option<String>)
    ensures
        r == *v,
{
    match v {
        Some(s) => Some(s.clone()),
        None => None,
    }
}

/// A copy of an exam configuration, holding the same data.
fn clone_config(c: &ExamConfig) -> (r: ExamConfig)
    ensures
        config_equivalent(r, *c),
{
    broadcast use Seq::lemma_take_succ_push;
    broadcast use Seq::lemma_take_len;

    let mut tags: Vec<crate::model::TagConfig> = Vec::new();
    let mut i: usize = 0;
    while i < c.tags.len()
        invariant
            i <= c.tags@.len(),
            tags@.len() == i as int,
            forall|x: int|
                0 <= x < i as int ==> (#[trigger] tags@[x]).group@ == c.tags@[x].group@
                    && tags@[x].number_of_questions == c.tags@[x].number_of_questions,
        decreases c.tags@.len() - i,
    {
        let t = crate::model::TagConfig {
            group: clone_string_vec(&c.tags[i].group),
            number_of_questions: c.tags[i].number_of_questions,
        };
        tags.push(t);
        i = i + 1;
    }
    let mut cfgs: Vec<crate::model::QuestionSetConfig> = Vec::new();
    let mut j: usize = 0;
    while j < c.question_sets.len()
        invariant
            j <= c.question_sets@.len(),
            cfgs@ == c.question_sets@.take(j as int),
        decreases c.question_sets@.len() - j,
    {
        cfgs.push(c.question_sets[j]);
        j = j + 1;
    }
    proof {
        assert(cfgs@ == c.question_sets@);
    }
    ExamConfig { name: c.name.clone(), tags, question_sets: cfgs }
}

} // verus!
