//! Data model of the exam generation engine, together with the spec-level
//! predicates that the engine's contracts are stated over.
//!
//! Entities are plain values: identifiers are `u64`, counts are `usize`.
//! A `Question` belongs to exactly one `QuestionSet`, an `Answer` to exactly
//! one `Question`; identifiers are the identities of these entities, which is
//! why well-formed input (see [`wf_sets`]) has distinct ids.
use vstd::prelude::*;
use vstd::multiset::Multiset;

verus! {

/// The kind of a question set.  Configurations request sets by kind.
#[derive(Clone, Copy, Debug, PartialEq, Eq, Structural)]
pub enum QuestionType {
    MultipleChoice,
    Dialogue,
}

/// One answer of a multiple-choice question.
#[derive(Clone, Debug)]
pub struct Answer {
    pub id: u64,
    pub text: String,
    pub is_correct: bool,
}

/// A question with its tags and answers.
#[derive(Clone, Debug)]
pub struct Question {
    pub id: u64,
    pub text: String,
    pub tags: Vec<String>,
    pub deprecated: bool,
    pub answers: Vec<Answer>,
}

/// A set of questions of one kind, with an optional shared context.
#[derive(Clone, Debug)]
pub struct QuestionSet {
    pub id: u64,
    pub qtype: QuestionType,
    pub context: Option<String>,
    pub questions: Vec<Question>,
}

/// A tag quota: at least `number_of_questions` chosen questions must carry
/// every tag of `group`.
#[derive(Clone, Debug)]
pub struct TagConfig {
    pub group: Vec<String>,
    pub number_of_questions: usize,
}

/// A per-kind quota: how many sets, questions per set, and correct/incorrect
/// answers per question the generated exam must contain.
#[derive(Clone, Copy, Debug, PartialEq, Eq, Structural)]
pub struct QuestionSetConfig {
    pub qtype: QuestionType,
    pub number_of_set: usize,
    pub number_of_questions: usize,
    pub number_of_correct_answers: usize,
    pub number_of_incorrect_answers: usize,
}

/// The declarative exam configuration.
#[derive(Clone, Debug)]
pub struct ExamConfig {
    pub name: String,
    pub tags: Vec<TagConfig>,
    pub question_sets: Vec<QuestionSetConfig>,
}

/// The engine's sole input: a pool of question sets and a configuration.
#[derive(Clone, Debug)]
pub struct ExamInput {
    pub id: u64,
    pub question_sets: Vec<QuestionSet>,
    pub config: ExamConfig,
}

/// A chosen question: its id and the ids of the answers to present.
#[derive(Clone, Debug)]
pub struct GeneratedQuestion {
    pub id: u64,
    pub answers: Vec<u64>,
}

/// A chosen question set: its id and its chosen questions.
#[derive(Clone, Debug)]
pub struct GeneratedQuestionSet {
    pub id: u64,
    pub questions: Vec<GeneratedQuestion>,
}

/// The engine's sole output: a minimal structure of identifiers.
#[derive(Clone, Debug)]
pub struct GeneratedExam {
    pub id: u64,
    pub exam_id: u64,
    pub question_sets: Vec<GeneratedQuestionSet>,
    pub deprecated: bool,
    pub version: i64,
}

/// Why a configuration cannot be satisfied against the given pool.
#[derive(Clone, Debug)]
pub enum InvalidKind {
    /// The configuration lists no question-set quotas at all.
    NoQuestionSetConfigs,
    /// The named question lacks the required correct or incorrect answers.
    NotEnoughAnswers { question_id: u64 },
    /// The pool ran out of eligible sets or questions of the named kind.
    NotEnoughQuestionsOfType { qtype: QuestionType },
    /// After allocation, the named tag group's quota was still positive.
    UnmetTagQuota { group: Vec<String> },
}

/// The engine's failures: an unsatisfiable configuration (not retryable), or
/// an exceeded attempt budget in milliseconds (retryable with fresh
/// randomness).
#[derive(Clone, Debug)]
pub enum ExamError {
    InvalidConfiguration(InvalidKind),
    Timeout(u64),
}

// ---------------------------------------------------------------------------
// Tags
// ---------------------------------------------------------------------------

/// `tags` holds a string whose characters equal `t`.
pub open spec fn has_tag(tags: Seq<String>, t: Seq<char>) -> bool {
    exists|i: int| 0 <= i < tags.len() && tags[i]@ == t
}

/// Every tag of `group` occurs among `tags`.
pub open spec fn tags_superset(tags: Seq<String>, group: Seq<String>) -> bool {
    forall|j: int| 0 <= j < group.len() ==> has_tag(tags, #[trigger] group[j]@)
}

// ---------------------------------------------------------------------------
// Answer counts
// ---------------------------------------------------------------------------

/// The question's answers, as a multiset (order is irrelevant throughout).
pub open spec fn answers_ms(q: Question) -> Multiset<Answer> {
    q.answers@.to_multiset()
}

/// The predicate "this answer is correct", bound once so that every filter
/// over it uses one and the same function value.
pub open spec fn correct_pred() -> spec_fn(Answer) -> bool {
    |a: Answer| a.is_correct
}

/// The predicate "this answer is incorrect".
pub open spec fn incorrect_pred() -> spec_fn(Answer) -> bool {
    |a: Answer| !a.is_correct
}

/// How many correct answers the question has.
pub open spec fn n_correct(q: Question) -> nat {
    answers_ms(q).filter(correct_pred()).len()
}

/// How many incorrect answers the question has.
pub open spec fn n_incorrect(q: Question) -> nat {
    answers_ms(q).filter(incorrect_pred()).len()
}

/// The question can serve config `c`: it has at least the required number of
/// correct and incorrect answers.
pub open spec fn q_eligible(q: Question, c: QuestionSetConfig) -> bool {
    n_correct(q) >= c.number_of_correct_answers
        && n_incorrect(q) >= c.number_of_incorrect_answers
}

/// `id` names a live input question that cannot serve config `c`.
pub open spec fn names_ineligible_question(
    orig: Seq<QuestionSet>,
    id: u64,
    c: QuestionSetConfig,
) -> bool {
    exists|j: int, m: int|
        0 <= j < orig.len() && 0 <= m < orig[j].questions@.len()
            && (#[trigger] orig[j].questions@[m]).id == id && !orig[j].questions@[m].deprecated
            && !q_eligible(orig[j].questions@[m], c)
}

// ---------------------------------------------------------------------------
// Answer ids
// ---------------------------------------------------------------------------

/// `id` is the id of one of `q`'s answers.
pub open spec fn has_answer_id(q: Question, id: u64) -> bool {
    exists|i: int| 0 <= i < q.answers@.len() && q.answers@[i].id == id
}

/// `id` is the id of a correct answer of `q`.
pub open spec fn has_correct_answer_id(q: Question, id: u64) -> bool {
    exists|i: int| 0 <= i < q.answers@.len() && q.answers@[i].id == id
        && q.answers@[i].is_correct
}

/// `id` is the id of an incorrect answer of `q`.
pub open spec fn has_incorrect_answer_id(q: Question, id: u64) -> bool {
    exists|i: int| 0 <= i < q.answers@.len() && q.answers@[i].id == id
        && !q.answers@[i].is_correct
}

/// No two answers of `q` share an id.
pub open spec fn answer_ids_distinct(q: Question) -> bool {
    forall|a: int, b: int|
        0 <= a < b < q.answers@.len() ==> q.answers@[a].id != q.answers@[b].id
}

/// The predicate "this id names a correct answer of `q`", bound once.
pub open spec fn correct_id_pred(q: Question) -> spec_fn(u64) -> bool {
    |id: u64| has_correct_answer_id(q, id)
}

/// The predicate "this id names an incorrect answer of `q`", bound once.
pub open spec fn incorrect_id_pred(q: Question) -> spec_fn(u64) -> bool {
    |id: u64| has_incorrect_answer_id(q, id)
}

/// The chosen answer-id list `ids` is a correct selection for question `q`
/// under config `c`: the required number of entries, no id twice, every id
/// one of `q`'s own answers, and exactly the required number of correct and
/// of incorrect ids.
pub open spec fn answer_ids_valid(q: Question, c: QuestionSetConfig, ids: Seq<u64>) -> bool {
    &&& ids.len() == c.number_of_correct_answers + c.number_of_incorrect_answers
    &&& ids.no_duplicates()
    &&& forall|i: int| 0 <= i < ids.len() ==> has_answer_id(q, #[trigger] ids[i])
    &&& ids.filter(correct_id_pred(q)).len() == c.number_of_correct_answers
    &&& ids.filter(incorrect_id_pred(q)).len() == c.number_of_incorrect_answers
}

// ---------------------------------------------------------------------------
// Validity of generated structures against the input pool
// ---------------------------------------------------------------------------

/// `gq` was generated from one of `s`'s own questions: same id, not
/// deprecated, and a correct answer selection for `c`.
pub open spec fn gen_question_valid(s: QuestionSet, c: QuestionSetConfig, gq: GeneratedQuestion) -> bool {
    exists|m: int|
        0 <= m < s.questions@.len() && (#[trigger] s.questions@[m]).id == gq.id
            && !s.questions@[m].deprecated
            && answer_ids_valid(s.questions@[m], c, gq.answers@)
}

/// `gs` was generated from an input set of `c`'s kind, and each of its
/// questions is a valid generation from that same set.
pub open spec fn gen_set_valid(orig: Seq<QuestionSet>, c: QuestionSetConfig, gs: GeneratedQuestionSet) -> bool {
    exists|j: int|
        0 <= j < orig.len() && (#[trigger] orig[j]).id == gs.id && orig[j].qtype == c.qtype
            && forall|k: int|
                0 <= k < gs.questions@.len()
                    ==> gen_question_valid(orig[j], c, #[trigger] gs.questions@[k])
}

/// `c`'s quota is exactly met: `number_of_set` sets, each with exactly
/// `number_of_questions` questions.
pub open spec fn config_fulfilled(c: QuestionSetConfig, sets: Seq<GeneratedQuestionSet>) -> bool {
    sets.len() == c.number_of_set
        && forall|i: int|
            0 <= i < sets.len()
                ==> (#[trigger] sets[i]).questions@.len() == c.number_of_questions
}

// ---------------------------------------------------------------------------
// Question ids of generated sets and of the pool
// ---------------------------------------------------------------------------

/// Some question of some set in `sets` has id `id`.
pub open spec fn gen_sets_have_qid(sets: Seq<GeneratedQuestionSet>, id: u64) -> bool {
    exists|i: int, k: int|
        0 <= i < sets.len() && 0 <= k < sets[i].questions@.len()
            && sets[i].questions@[k].id == id
}

/// No question id occurs twice across `sets` (in any set, at any position).
pub open spec fn gen_qids_distinct(sets: Seq<GeneratedQuestionSet>) -> bool {
    forall|i: int, k: int, j: int, l: int|
        0 <= i < sets.len() && 0 <= k < sets[i].questions@.len() && 0 <= j < sets.len()
            && 0 <= l < sets[j].questions@.len() && (i != j || k != l)
            ==> (#[trigger] sets[i].questions@[k]).id != (#[trigger] sets[j].questions@[l]).id
}

/// Some question of some set in `pool` has id `id`.
pub open spec fn pool_has_qid(pool: Seq<QuestionSet>, id: u64) -> bool {
    exists|i: int, k: int|
        0 <= i < pool.len() && 0 <= k < pool[i].questions@.len()
            && pool[i].questions@[k].id == id
}

/// No question id occurs twice across `pool`.
pub open spec fn pool_qids_distinct(pool: Seq<QuestionSet>) -> bool {
    forall|i: int, k: int, j: int, l: int|
        0 <= i < pool.len() && 0 <= k < pool[i].questions@.len() && 0 <= j < pool.len()
            && 0 <= l < pool[j].questions@.len() && (i != j || k != l)
            ==> (#[trigger] pool[i].questions@[k]).id != (#[trigger] pool[j].questions@[l]).id
}

/// No two sets of `sets` share an id.
pub open spec fn set_ids_distinct(sets: Seq<QuestionSet>) -> bool {
    forall|i: int, j: int|
        0 <= i < j < sets.len() ==> (#[trigger] sets[i]).id != (#[trigger] sets[j]).id
}

/// Well-formed input pool: set ids distinct, question ids globally distinct,
/// and within each question the answer ids distinct.  Identifiers are the
/// identities of the stored entities, so a data store delivers input in this
/// shape.
pub open spec fn wf_sets(sets: Seq<QuestionSet>) -> bool {
    &&& set_ids_distinct(sets)
    &&& pool_qids_distinct(sets)
    &&& forall|i: int, k: int|
        0 <= i < sets.len() && 0 <= k < sets[i].questions@.len()
            ==> answer_ids_distinct(#[trigger] sets[i].questions@[k])
}

/// Well-formed engine input.
pub open spec fn wf_input(exam: ExamInput) -> bool {
    wf_sets(exam.question_sets@)
}

// ---------------------------------------------------------------------------
// The working pool's relation to the input
// ---------------------------------------------------------------------------

/// Working-pool question `pq` descends from one of the questions of `qs`:
/// same id and tags, not deprecated, and the same answers up to order.
pub open spec fn question_from_seq(pq: Question, qs: Seq<Question>) -> bool {
    exists|m: int|
        0 <= m < qs.len() && (#[trigger] qs[m]).id == pq.id && !qs[m].deprecated
            && !pq.deprecated && pq.tags == qs[m].tags
            && pq.answers@.to_multiset() == qs[m].answers@.to_multiset()
}

/// Working-pool question `pq` descends from one of `os`'s questions.
pub open spec fn question_from(pq: Question, os: QuestionSet) -> bool {
    question_from_seq(pq, os.questions@)
}

/// No two questions of one set share an id.
pub open spec fn set_qids_distinct(s: QuestionSet) -> bool {
    forall|k: int, l: int|
        0 <= k < l < s.questions@.len()
            ==> (#[trigger] s.questions@[k]).id != (#[trigger] s.questions@[l]).id
}

/// The set's questions all have distinct answer ids.
pub open spec fn set_answer_ids_distinct(s: QuestionSet) -> bool {
    forall|k: int|
        0 <= k < s.questions@.len() ==> answer_ids_distinct(#[trigger] s.questions@[k])
}

/// The predicate "this question is live", that is, not deprecated.
pub open spec fn live_pred() -> spec_fn(Question) -> bool {
    |q: Question| !q.deprecated
}

/// A prepared working copy of input set `s`: same identity and kind, exactly
/// one question per live question of `s` (same id and tags, answers equal up
/// to order), and distinct question and answer ids throughout.
pub open spec fn prepared_from(r: QuestionSet, s: QuestionSet) -> bool {
    &&& r.id == s.id
    &&& r.qtype == s.qtype
    &&& forall|k: int|
        0 <= k < r.questions@.len() ==> question_from(#[trigger] r.questions@[k], s)
    &&& forall|m: int|
        0 <= m < s.questions@.len() && !(#[trigger] s.questions@[m]).deprecated
            ==> exists|k: int|
                0 <= k < r.questions@.len() && (#[trigger] r.questions@[k]).id
                    == s.questions@[m].id
    &&& r.questions@.len() == s.questions@.filter(live_pred()).len()
    &&& set_qids_distinct(r)
    &&& set_answer_ids_distinct(r)
}

/// Working-pool set `ps` descends from one of `orig`'s sets: same id and
/// kind, and every question descends from that same set.
pub open spec fn set_from(ps: QuestionSet, orig: Seq<QuestionSet>) -> bool {
    exists|j: int|
        0 <= j < orig.len() && (#[trigger] orig[j]).id == ps.id && orig[j].qtype == ps.qtype
            && forall|k: int|
                0 <= k < ps.questions@.len()
                    ==> question_from(#[trigger] ps.questions@[k], orig[j])
}

/// Working-pool position `i` holds a prepared copy of one input set.
pub open spec fn pool_set_prepared(pool: Seq<QuestionSet>, sets: Seq<QuestionSet>, i: int) -> bool {
    exists|j: int| 0 <= j < sets.len() && prepared_from(pool[i], #[trigger] sets[j])
}

/// Input set `j` still stands in the pool, under its id.
pub open spec fn input_set_present(pool: Seq<QuestionSet>, sets: Seq<QuestionSet>, j: int) -> bool {
    exists|i: int| 0 <= i < pool.len() && (#[trigger] pool[i]).id == sets[j].id
}

/// The working pool is a well-formed descendant of the input pool.
pub open spec fn pool_wf(pool: Seq<QuestionSet>, orig: Seq<QuestionSet>) -> bool {
    &&& forall|i: int| 0 <= i < pool.len() ==> set_from(#[trigger] pool[i], orig)
    &&& pool_qids_distinct(pool)
    &&& set_ids_distinct(pool)
    &&& forall|i: int| 0 <= i < pool.len() ==> set_answer_ids_distinct(#[trigger] pool[i])
}

// ---------------------------------------------------------------------------
// Tag coverage
// ---------------------------------------------------------------------------

/// Some input question with id `id` carries every tag of `group`.
pub open spec fn qid_matches_group(orig: Seq<QuestionSet>, id: u64, group: Seq<String>) -> bool {
    exists|j: int, m: int|
        0 <= j < orig.len() && 0 <= m < orig[j].questions@.len()
            && orig[j].questions@[m].id == id
            && tags_superset(orig[j].questions@[m].tags@, group)
}

/// `s` is a witness that the sets of `sets` cover `group`: a finite set of
/// question ids, each chosen somewhere in `sets` and each carrying every tag
/// of `group`.
pub open spec fn tag_witness_ok(
    orig: Seq<QuestionSet>,
    group: Seq<String>,
    s: Set<u64>,
    sets: Seq<GeneratedQuestionSet>,
) -> bool {
    s.finite() && forall|id: u64|
        s.contains(id) ==> gen_sets_have_qid(sets, id) && qid_matches_group(orig, id, group)
}

/// The quota of the tag config at `t` is covered: a witness set of at least
/// `number_of_questions` distinct chosen, group-matching question ids
/// exists.
pub open spec fn tag_quota_met_for(exam: ExamInput, t: int, sets: Seq<GeneratedQuestionSet>) -> bool {
    exists|s: Set<u64>|
        s.len() >= exam.config.tags@[t].number_of_questions && tag_witness_ok(
            exam.question_sets@,
            exam.config.tags@[t].group@,
            s,
            sets,
        )
}

/// Every tag config's quota is covered by the generated exam: for each tag
/// config, at least `number_of_questions` distinct chosen questions carry
/// every tag of its group.
pub open spec fn tag_quotas_met(exam: ExamInput, sets: Seq<GeneratedQuestionSet>) -> bool {
    forall|t: int|
        0 <= t < exam.config.tags@.len() ==> #[trigger] tag_quota_met_for(exam, t, sets)
}

// ---------------------------------------------------------------------------
// The overall shape of a successful generation
// ---------------------------------------------------------------------------

/// `sets` consists of one contiguous block per config of `cfgs`, in order:
/// the block of config `c` holds exactly `c.number_of_set` sets, each valid
/// for `c` and exactly `c.number_of_questions` questions long.
pub open spec fn blocks_match(
    orig: Seq<QuestionSet>,
    cfgs: Seq<QuestionSetConfig>,
    sets: Seq<GeneratedQuestionSet>,
) -> bool
    decreases cfgs.len(),
{
    if cfgs.len() == 0 {
        sets.len() == 0
    } else {
        let c = cfgs[0];
        &&& sets.len() >= c.number_of_set
        &&& forall|i: int|
            0 <= i < c.number_of_set
                ==> gen_set_valid(orig, c, #[trigger] sets[i])
                    && sets[i].questions@.len() == c.number_of_questions
        &&& forall|i: int, j: int|
            0 <= i < j < c.number_of_set ==> (#[trigger] sets[i]).id != (#[trigger] sets[j]).id
        &&& blocks_match(orig, cfgs.drop_first(), sets.skip(c.number_of_set as int))
    }
}

/// The full contract of a successful generation: fresh output fields, the
/// chosen sets form per-config blocks for some reordering of the configured
/// quotas, no question id is used twice, and every tag quota is covered.
pub open spec fn valid_generated_exam(exam: ExamInput, g: GeneratedExam) -> bool {
    &&& g.exam_id == exam.id
    &&& g.deprecated == false
    &&& g.version == 1
    &&& exists|cfgs: Seq<QuestionSetConfig>|
        cfgs.to_multiset() == exam.config.question_sets@.to_multiset()
            && blocks_match(exam.question_sets@, cfgs, g.question_sets@)
    &&& gen_qids_distinct(g.question_sets@)
    &&& tag_quotas_met(exam, g.question_sets@)
}

} // verus!
