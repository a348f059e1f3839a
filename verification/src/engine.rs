//! The engine: one generation attempt, from input to a fully
//! invariant-satisfying generated exam or a typed failure.
use vstd::prelude::*;
use vstd::multiset::Multiset;

use crate::allocate::{fill_config, saturating_set, tag_entry_ok, tags_ok};
use crate::lemmas::{lemma_blocks_match_push, lemma_disjoint_union_len};
use crate::model::{
    ExamError, ExamInput, GeneratedExam, GeneratedQuestionSet, InvalidKind, QuestionSetConfig,
    QuestionSet, TagConfig, blocks_match, config_fulfilled, gen_qids_distinct, gen_sets_have_qid,
    input_set_present, live_pred, names_ineligible_question, pool_has_qid, pool_set_prepared,
    pool_wf, prepared_from, q_eligible, qid_matches_group, question_from, tag_quota_met_for,
    tag_quotas_met, tag_witness_ok, tags_superset, valid_generated_exam, wf_input,
};

verus! {

/// The fixed budget of one generation attempt, in milliseconds.
pub const ATTEMPT_TIMEOUT_IN_MS: u64 = 5000;

/// A question-set config together with the generated sets allocated to it.
pub struct QuestionSetConfigWithQuestions {
    pub config: QuestionSetConfig,
    pub question_sets: Vec<GeneratedQuestionSet>,
}

/// Whether the config's quota is exactly met: `number_of_set` sets, each
/// with exactly `number_of_questions` questions.
pub fn is_question_set_config_fulfilled(qsc_with_qs: &QuestionSetConfigWithQuestions) -> (b:
    bool)
    ensures
        b == config_fulfilled(qsc_with_qs.config, qsc_with_qs.question_sets@),
{
    if qsc_with_qs.question_sets.len() != qsc_with_qs.config.number_of_set {
        return false;
    }
    let mut i: usize = 0;
    while i < qsc_with_qs.question_sets.len()
        invariant
            i <= qsc_with_qs.question_sets@.len(),
            forall|ii: int|
                0 <= ii < i as int ==> (#[trigger] qsc_with_qs.question_sets@[ii]).questions@.len()
                    == qsc_with_qs.config.number_of_questions,
        decreases qsc_with_qs.question_sets@.len() - i,
    {
        if qsc_with_qs.question_sets[i].questions.len()
            != qsc_with_qs.config.number_of_questions {
            return false;
        }
        i = i + 1;
    }
    true
}

/// Whether a failed attempt is worth retrying with fresh randomness: a
/// timeout is, an unsatisfiable configuration is not.
pub fn is_retryable(e: &ExamError) -> (b: bool)
    ensures
        b == (e is Timeout),
{
    match e {
        ExamError::Timeout(_) => true,
        ExamError::InvalidConfiguration(_) => false,
    }
}

/// Sorts the tag configs by descending group size, so that the hardest
/// quotas are attempted first (ties keep their order).  The result is a
/// permutation of the input.
fn sort_tags_by_specificity(tags: Vec<TagConfig>) -> (r: Vec<TagConfig>)
    ensures
        r@.to_multiset() == tags@.to_multiset(),
        forall|i: int, j: int|
            0 <= i < j < r@.len() ==> (#[trigger] r@[i]).group@.len()
                >= (#[trigger] r@[j]).group@.len(),
{
    broadcast use vstd::multiset::group_multiset_axioms;

    let ghost tags0 = tags@;
    let mut remaining = tags;
    let mut result: Vec<TagConfig> = Vec::new();
    proof {
        result@.to_multiset_ensures();
        vstd::multiset::lemma_multiset_empty_len(result@.to_multiset());
        assert(result@.to_multiset().add(remaining@.to_multiset()) =~= remaining@.to_multiset());
    }
    while remaining.len() > 0
        invariant
            result@.to_multiset().add(remaining@.to_multiset()) == tags0.to_multiset(),
            forall|i: int, j: int|
                0 <= i < j < result@.len() ==> (#[trigger] result@[i]).group@.len()
                    >= (#[trigger] result@[j]).group@.len(),
            forall|i: int, j: int|
                0 <= i < result@.len() && 0 <= j < remaining@.len() ==> (
                #[trigger] result@[i]).group@.len() >= (#[trigger] remaining@[j]).group@.len(),
        decreases remaining@.len(),
    {
        // First index with the largest group.
        let mut best: usize = 0;
        let mut i: usize = 1;
        while i < remaining.len()
            invariant
                best < remaining@.len(),
                i <= remaining@.len(),
                forall|k: int|
                    0 <= k < i as int ==> (#[trigger] remaining@[k]).group@.len()
                        <= remaining@[best as int].group@.len(),
            decreases remaining@.len() - i,
        {
            if remaining[i].group.len() > remaining[best].group.len() {
                best = i;
            }
            i = i + 1;
        }
        let ghost remaining_before = remaining@;
        let ghost result_before = result@;
        let tc = remaining.remove(best);
        result.push(tc);
        proof {
            remaining_before.to_multiset_ensures();
            assert(remaining_before.contains(tc));
            vstd::seq_lib::to_multiset_build(result_before, tc);
            vstd::seq_lib::to_multiset_remove(remaining_before, best as int);
            assert(result@.to_multiset().add(remaining@.to_multiset())
                =~= result_before.to_multiset().add(remaining_before.to_multiset()));
            assert forall|i2: int, j2: int|
                0 <= i2 < result@.len() && 0 <= j2 < remaining@.len() implies (
            #[trigger] result@[i2]).group@.len() >= (#[trigger] remaining@[j2]).group@.len() by {
                let j3: int = if j2 < best as int {
                    j2
                } else {
                    j2 + 1
                };
                assert(remaining@[j2] == remaining_before[j3]);
                assert(remaining_before[j3].group@.len()
                    <= remaining_before[best as int].group@.len());
                if i2 < result_before.len() {
                    assert(result@[i2] == result_before[i2]);
                } else {
                    assert(result@[i2] == tc);
                }
            }
        }
    }
    proof {
        remaining@.to_multiset_ensures();
        vstd::multiset::lemma_multiset_empty_len(remaining@.to_multiset());
        assert(remaining@.to_multiset() =~= Multiset::empty());
        assert(result@.to_multiset() =~= tags0.to_multiset());
    }
    result
}

/// Question ids of a concatenation are the ids of the parts.
proof fn lemma_gen_qid_concat(a: Seq<GeneratedQuestionSet>, b: Seq<GeneratedQuestionSet>)
    ensures
        forall|id: u64|
            gen_sets_have_qid(a + b, id) <==> (gen_sets_have_qid(a, id) || gen_sets_have_qid(
                b,
                id,
            )),
{
    assert forall|id: u64|
        gen_sets_have_qid(a + b, id) <==> (gen_sets_have_qid(a, id) || gen_sets_have_qid(
            b,
            id,
        )) by {
        if gen_sets_have_qid(a + b, id) {
            let (i, k) = choose|i: int, k: int|
                0 <= i < (a + b).len() && 0 <= k < (a + b)[i].questions@.len() && (a
                    + b)[i].questions@[k].id == id;
            if i < a.len() {
                assert(a[i].questions@[k].id == id);
            } else {
                assert(b[i - a.len()].questions@[k].id == id);
            }
        }
        if gen_sets_have_qid(a, id) {
            let (i, k) = choose|i: int, k: int|
                0 <= i < a.len() && 0 <= k < a[i].questions@.len() && a[i].questions@[k].id == id;
            assert((a + b)[i].questions@[k].id == id);
        }
        if gen_sets_have_qid(b, id) {
            let (i, k) = choose|i: int, k: int|
                0 <= i < b.len() && 0 <= k < b[i].questions@.len() && b[i].questions@[k].id == id;
            assert((a + b)[a.len() + i].questions@[k].id == id);
        }
    }
}

/// An exactly fitting input, on which success does not depend on the
/// shuffles: a single config asking for one set of at least one question, a
/// single tag config whose quota fits in that set, and exactly one input set
/// of the config's kind, every live question of which is eligible and
/// carries the whole tag group, with enough live questions to fill the set.
pub open spec fn exact_fit(exam: ExamInput) -> bool {
    &&& exam.config.question_sets@.len() == 1
    &&& exam.config.tags@.len() == 1
    &&& exam.config.question_sets@[0].number_of_set == 1
    &&& exam.config.question_sets@[0].number_of_questions >= 1
    &&& exam.config.tags@[0].number_of_questions >= 1
    &&& exam.config.tags@[0].number_of_questions
        <= exam.config.question_sets@[0].number_of_questions
    &&& exists|j: int|
        #![trigger exam.question_sets@[j]]
        0 <= j < exam.question_sets@.len() && exam.question_sets@[j].qtype
            == exam.config.question_sets@[0].qtype && (forall|i: int|
            0 <= i < exam.question_sets@.len() && i != j ==> (
            #[trigger] exam.question_sets@[i]).qtype != exam.config.question_sets@[0].qtype)
            && exam.question_sets@[j].questions@.filter(live_pred()).len()
            >= exam.config.question_sets@[0].number_of_questions && (forall|m: int|
            0 <= m < exam.question_sets@[j].questions@.len() && !(
            #[trigger] exam.question_sets@[j].questions@[m]).deprecated ==> q_eligible(
                exam.question_sets@[j].questions@[m],
                exam.config.question_sets@[0],
            ) && tags_superset(
                exam.question_sets@[j].questions@[m].tags@,
                exam.config.tags@[0].group@,
            ))
}

/// One generation attempt with injectable randomness and budget.  On success
/// the result satisfies every structural invariant of the exam; an empty
/// question-set configuration is always rejected; a timeout carries the
/// budget it exceeded.
pub fn generate_exam_with(exam: ExamInput, seed: u64, budget_ms: u64) -> (r: Result<
    GeneratedExam,
    ExamError,
>)
    requires
        wf_input(exam),
    ensures
        r matches Ok(g) ==> valid_generated_exam(exam, g),
        exam.config.question_sets@.len() == 0 ==> r == Err::<GeneratedExam, ExamError>(
            ExamError::InvalidConfiguration(InvalidKind::NoQuestionSetConfigs),
        ),
        r matches Err(e) ==> match e {
            ExamError::Timeout(b) => b == budget_ms,
            ExamError::InvalidConfiguration(k) => match k {
                InvalidKind::NoQuestionSetConfigs => exam.config.question_sets@.len() == 0,
                InvalidKind::NotEnoughQuestionsOfType { qtype } => exists|ci: int|
                    0 <= ci < exam.config.question_sets@.len()
                        && (#[trigger] exam.config.question_sets@[ci]).qtype == qtype,
                InvalidKind::NotEnoughAnswers { question_id } => exists|ci: int|
                    0 <= ci < exam.config.question_sets@.len() && names_ineligible_question(
                        exam.question_sets@,
                        question_id,
                        #[trigger] exam.config.question_sets@[ci],
                    ),
                InvalidKind::UnmetTagQuota { group } => exists|ti: int|
                    0 <= ti < exam.config.tags@.len()
                        && (#[trigger] exam.config.tags@[ti]).group == group,
            },
        },
        exact_fit(exam) ==> r is Ok,
{
    let mut rng = crate::randomness::rng_from_seed(seed);
    generate_exam_core(exam, &mut rng, budget_ms)
}

/// Generates an exam for the given input, with operating-system randomness
/// and the fixed attempt budget.
pub fn generate_exam(exam: ExamInput) -> (r: Result<GeneratedExam, ExamError>)
    requires
        wf_input(exam),
    ensures
        r matches Ok(g) ==> valid_generated_exam(exam, g),
        exam.config.question_sets@.len() == 0 ==> r == Err::<GeneratedExam, ExamError>(
            ExamError::InvalidConfiguration(InvalidKind::NoQuestionSetConfigs),
        ),
        r matches Err(e) ==> match e {
            ExamError::Timeout(b) => b == ATTEMPT_TIMEOUT_IN_MS,
            ExamError::InvalidConfiguration(k) => match k {
                InvalidKind::NoQuestionSetConfigs => exam.config.question_sets@.len() == 0,
                InvalidKind::NotEnoughQuestionsOfType { qtype } => exists|ci: int|
                    0 <= ci < exam.config.question_sets@.len()
                        && (#[trigger] exam.config.question_sets@[ci]).qtype == qtype,
                InvalidKind::NotEnoughAnswers { question_id } => exists|ci: int|
                    0 <= ci < exam.config.question_sets@.len() && names_ineligible_question(
                        exam.question_sets@,
                        question_id,
                        #[trigger] exam.config.question_sets@[ci],
                    ),
                InvalidKind::UnmetTagQuota { group } => exists|ti: int|
                    0 <= ti < exam.config.tags@.len()
                        && (#[trigger] exam.config.tags@[ti]).group == group,
            },
        },
        exact_fit(exam) ==> r is Ok,
{
    let mut rng = crate::randomness::rng_from_entropy();
    generate_exam_core(exam, &mut rng, ATTEMPT_TIMEOUT_IN_MS)
}

/// On an exactly fitting input, the prepared pool saturates the single
/// normalized config.
#[verifier::rlimit(100)]
proof fn lemma_exact_fit_saturates(
    exam: ExamInput,
    cfgs: Seq<QuestionSetConfig>,
    tags_s: Seq<TagConfig>,
    pool: Seq<QuestionSet>,
)
    requires
        exact_fit(exam),
        wf_input(exam),
        cfgs.to_multiset() == exam.config.question_sets@.to_multiset(),
        tags_s.to_multiset() == exam.config.tags@.to_multiset(),
        pool_wf(pool, exam.question_sets@),
        forall|i: int|
            0 <= i < pool.len() ==> #[trigger] pool_set_prepared(pool, exam.question_sets@, i),
        forall|j: int|
            0 <= j < exam.question_sets@.len() ==> #[trigger] input_set_present(
                pool,
                exam.question_sets@,
                j,
            ),
    ensures
        cfgs.len() == 1,
        cfgs[0] == exam.config.question_sets@[0],
        tags_s.len() == 1,
        tags_s[0] == exam.config.tags@[0],
        exists|s: int| saturating_set(pool, tags_s, cfgs[0], s),
{
    cfgs.to_multiset_ensures();
    exam.config.question_sets@.to_multiset_ensures();
    assert(cfgs.len() == 1);
    assert(cfgs.contains(cfgs[0]));
    assert(cfgs.to_multiset().count(cfgs[0]) > 0);
    assert(exam.config.question_sets@.to_multiset().count(cfgs[0]) > 0);
    assert(exam.config.question_sets@.contains(cfgs[0]));
    assert(cfgs[0] == exam.config.question_sets@[0]);
    tags_s.to_multiset_ensures();
    exam.config.tags@.to_multiset_ensures();
    assert(tags_s.len() == 1);
    assert(tags_s.contains(tags_s[0]));
    assert(tags_s.to_multiset().count(tags_s[0]) > 0);
    assert(exam.config.tags@.to_multiset().count(tags_s[0]) > 0);
    assert(exam.config.tags@.contains(tags_s[0]));
    assert(tags_s[0] == exam.config.tags@[0]);
    let c = cfgs[0];
    let j = choose|j: int|
        #![trigger exam.question_sets@[j]]
        0 <= j < exam.question_sets@.len() && exam.question_sets@[j].qtype == c.qtype
            && (forall|i: int|
            0 <= i < exam.question_sets@.len() && i != j ==> (
            #[trigger] exam.question_sets@[i]).qtype != c.qtype)
            && exam.question_sets@[j].questions@.filter(live_pred()).len()
            >= c.number_of_questions && (forall|m: int|
            0 <= m < exam.question_sets@[j].questions@.len() && !(
            #[trigger] exam.question_sets@[j].questions@[m]).deprecated ==> q_eligible(
        exam.question_sets@[j].questions@[m],
        c,
            ) && tags_superset(
        exam.question_sets@[j].questions@[m].tags@,
        exam.config.tags@[0].group@,
            ));
    assert(input_set_present(pool, exam.question_sets@, j));
    let pi = choose|pi: int|
        0 <= pi < pool.len() && (#[trigger] pool[pi]).id
            == exam.question_sets@[j].id;
    assert(pool_set_prepared(pool, exam.question_sets@, pi));
    let j2 = choose|j2: int|
        0 <= j2 < exam.question_sets@.len() && prepared_from(
            pool[pi],
            #[trigger] exam.question_sets@[j2],
        );
    assert(exam.question_sets@[j2].id == exam.question_sets@[j].id);
    assert(j2 == j);
    assert(prepared_from(pool[pi], exam.question_sets@[j]));
    // No other pool set carries the config's kind.
    assert forall|i2: int|
        0 <= i2 < pool.len() && i2 != pi implies (
    #[trigger] pool[i2]).qtype != c.qtype by {
        if pool[i2].qtype == c.qtype {
            assert(pool_set_prepared(pool, exam.question_sets@, i2));
            let j3 = choose|j3: int|
        0 <= j3 < exam.question_sets@.len() && prepared_from(
            pool[i2],
            #[trigger] exam.question_sets@[j3],
        );
            assert(exam.question_sets@[j3].qtype == c.qtype);
            assert(j3 == j);
            assert(pool[i2].id == pool[pi].id);
        }
    }
    // Every question of the saturating pool set is eligible and
    // carries the whole tag group.
    assert forall|k: int|
        0 <= k < pool[pi].questions@.len() implies q_eligible(
        #[trigger] pool[pi].questions@[k],
        c,
    ) && tags_superset(pool[pi].questions@[k].tags@, tags_s[0].group@) by {
        let pq = pool[pi].questions@[k];
        assert(question_from(pq, exam.question_sets@[j]));
        let m = choose|m: int|
            0 <= m < exam.question_sets@[j].questions@.len() && (
            #[trigger] exam.question_sets@[j].questions@[m]).id == pq.id
        && !exam.question_sets@[j].questions@[m].deprecated && !pq.deprecated
        && pq.tags == exam.question_sets@[j].questions@[m].tags
        && pq.answers@.to_multiset()
        == exam.question_sets@[j].questions@[m].answers@.to_multiset();
        let oq = exam.question_sets@[j].questions@[m];
        assert(q_eligible(oq, c) && tags_superset(oq.tags@, exam.config.tags@[0].group@));
        assert(crate::model::answers_ms(pq) == crate::model::answers_ms(oq));
        assert(pq.tags@ == oq.tags@);
        assert(tags_s[0].group@ == exam.config.tags@[0].group@);
    }
    assert(saturating_set(pool, tags_s, c, pi));
}

/// The attempt itself: prepare the pool, normalize the configs, allocate
/// config by config, verify the tag quotas, and assemble the result.
fn generate_exam_core(exam: ExamInput, rng: &mut rand::rngs::StdRng, budget_ms: u64) -> (r:
    Result<GeneratedExam, ExamError>)
    requires
        wf_input(exam),
    ensures
        r matches Ok(g) ==> valid_generated_exam(exam, g),
        exam.config.question_sets@.len() == 0 ==> r == Err::<GeneratedExam, ExamError>(
            ExamError::InvalidConfiguration(InvalidKind::NoQuestionSetConfigs),
        ),
        r matches Err(e) ==> match e {
            ExamError::Timeout(b) => b == budget_ms,
            ExamError::InvalidConfiguration(k) => match k {
                InvalidKind::NoQuestionSetConfigs => exam.config.question_sets@.len() == 0,
                InvalidKind::NotEnoughQuestionsOfType { qtype } => exists|ci: int|
                    0 <= ci < exam.config.question_sets@.len()
                        && (#[trigger] exam.config.question_sets@[ci]).qtype == qtype,
                InvalidKind::NotEnoughAnswers { question_id } => exists|ci: int|
                    0 <= ci < exam.config.question_sets@.len() && names_ineligible_question(
                        exam.question_sets@,
                        question_id,
                        #[trigger] exam.config.question_sets@[ci],
                    ),
                InvalidKind::UnmetTagQuota { group } => exists|ti: int|
                    0 <= ti < exam.config.tags@.len()
                        && (#[trigger] exam.config.tags@[ti]).group == group,
            },
        },
        exact_fit(exam) ==> r is Ok,
{
    broadcast use vstd::set::group_set_axioms;

    let start = crate::clock::instant_now();
    let ghost exam0 = exam;
    let ExamInput { id: exam_id, question_sets, config } = exam;
    let ghost orig = question_sets@;

    if config.question_sets.len() == 0 {
        return Err(ExamError::InvalidConfiguration(InvalidKind::NoQuestionSetConfigs));
    }

    let mut pool = crate::prepare::prepare_pool(question_sets, rng);
    let cfgs = crate::prepare::normalize_configs(config.question_sets, rng);
    let mut tag_cfgs = sort_tags_by_specificity(config.tags);
    let ghost tags_sorted0 = tag_cfgs@;
    let ghost tags_orig = exam0.config.tags@;

    let mut all_sets: Vec<GeneratedQuestionSet> = Vec::new();
    let ghost mut bigw: Seq<Set<u64>> = Seq::new(tag_cfgs@.len(), |t: int| Set::<u64>::empty());
    proof {
        assert forall|t: int| 0 <= t < tag_cfgs@.len() implies tag_entry_ok(
            orig,
            tags_sorted0[t],
            #[trigger] tag_cfgs@[t],
            bigw[t],
            all_sets@,
        ) by {
            assert(bigw[t] =~= Set::<u64>::empty());
            assert(bigw[t].len() == 0);
        }
        assert(blocks_match(orig, cfgs@.take(0), all_sets@));
    }

    // On an exactly fitting input, the prepared pool saturates the single
    // config, so the attempt cannot fail.
    let ghost fit = exact_fit(exam0);
    let ghost pool_init = pool@;
    let ghost tags_init = tag_cfgs@;
    proof {
        if fit {
            lemma_exact_fit_saturates(exam0, cfgs@, tags_init, pool_init);
        }
    }

    let mut ci: usize = 0;
    while ci < cfgs.len()
        invariant
            ci <= cfgs@.len(),
            pool_wf(pool@, orig),
            blocks_match(orig, cfgs@.take(ci as int), all_sets@),
            gen_qids_distinct(all_sets@),
            forall|id: u64| gen_sets_have_qid(all_sets@, id) ==> !pool_has_qid(pool@, id),
            tags_ok(orig, tags_sorted0, tag_cfgs@, bigw, all_sets@),
            fit ==> cfgs@.len() == 1,
            fit && ci == 0 ==> pool@ == pool_init && tag_cfgs@ == tags_init && (exists|s: int|
                saturating_set(pool_init, tags_init, cfgs@[0], s)),
            fit && ci >= 1 ==> tag_cfgs@.len() == 1 && tag_cfgs@[0].number_of_questions == 0,
        decreases cfgs@.len() - ci,
    {
        let c = cfgs[ci];
        let ghost pool_before = pool@;
        let ghost tags_before = tag_cfgs@;
        let ghost all_before = all_sets@;
        let ghost bigw_before = bigw;
        match fill_config(&mut pool, &mut tag_cfgs, &c, &start, budget_ms, rng, Ghost(orig)) {
            Err(e) => {
                proof {
                    // The failing config is one of the input's.
                    cfgs@.to_multiset_ensures();
                    exam0.config.question_sets@.to_multiset_ensures();
                    assert(cfgs@.contains(c));
                    assert(cfgs@.to_multiset().count(c) > 0);
                    assert(exam0.config.question_sets@.to_multiset().count(c) > 0);
                    assert(exam0.config.question_sets@.contains(c));
                    if fit {
                        // An exactly fitting input cannot fail here.
                        assert(ci == 0);
                        assert(false);
                    }
                }
                return Err(e);
            },
            Ok(bw) => {
                let block = bw.0;
                let ghost wcall = bw.1@;
                proof {
                    // Combine the per-call tag witnesses into the running ones.
                    bigw = Seq::new(
                        tags_sorted0.len(),
                        |t: int| bigw_before[t].union(wcall[t]),
                    );
                    lemma_gen_qid_concat(all_before, block@);
                    assert forall|t: int| 0 <= t < tag_cfgs@.len() implies tag_entry_ok(
                        orig,
                        tags_sorted0[t],
                        #[trigger] tag_cfgs@[t],
                        bigw[t],
                        all_before + block@,
                    ) by {
                        assert(tag_entry_ok(
                            orig,
                            tags_sorted0[t],
                            tags_before[t],
                            bigw_before[t],
                            all_before,
                        ));
                        assert(tag_entry_ok(
                            orig,
                            tags_before[t],
                            tag_cfgs@[t],
                            wcall[t],
                            block@,
                        ));
                        assert(bigw_before[t].disjoint(wcall[t])) by {
                            assert forall|id: u64|
                                bigw_before[t].contains(id) implies !wcall[t].contains(id) by {
                                if wcall[t].contains(id) {
                                    assert(gen_sets_have_qid(block@, id));
                                    assert(pool_has_qid(pool_before, id));
                                    assert(gen_sets_have_qid(all_before, id));
                                }
                            }
                        }
                        lemma_disjoint_union_len(bigw_before[t], wcall[t]);
                        assert forall|id: u64| bigw[t].contains(id) implies gen_sets_have_qid(
                            all_before + block@,
                            id,
                        ) && qid_matches_group(orig, id, tags_sorted0[t].group@) by {
                            if bigw_before[t].contains(id) {
                                assert(gen_sets_have_qid(all_before, id));
                            } else {
                                assert(wcall[t].contains(id));
                                assert(gen_sets_have_qid(block@, id));
                                assert(tags_before[t].group == tags_sorted0[t].group);
                            }
                        }
                    }
                    // The new block continues the per-config layout.
                    lemma_blocks_match_push(
                        orig,
                        cfgs@.take(ci as int),
                        all_before,
                        c,
                        block@,
                    );
                    assert(cfgs@.take(ci as int).push(cfgs@[ci as int]) =~= cfgs@.take(
                        ci as int + 1,
                    ));
                    // Distinctness across the concatenation.
                    assert forall|i: int, k: int, j: int, l: int|
                        0 <= i < (all_before + block@).len() && 0 <= k < (all_before
                            + block@)[i].questions@.len() && 0 <= j < (all_before + block@).len()
                            && 0 <= l < (all_before + block@)[j].questions@.len() && (i != j || k
                            != l) implies (#[trigger] (all_before + block@)[i].questions@[k]).id
                        != (#[trigger] (all_before + block@)[j].questions@[l]).id by {
                        let n = all_before.len() as int;
                        if i < n && j < n {
                            assert((all_before + block@)[i] == all_before[i]);
                            assert((all_before + block@)[j] == all_before[j]);
                        } else if i >= n && j >= n {
                            assert((all_before + block@)[i] == block@[i - n]);
                            assert((all_before + block@)[j] == block@[j - n]);
                        } else if i < n && j >= n {
                            assert((all_before + block@)[i] == all_before[i]);
                            assert((all_before + block@)[j] == block@[j - n]);
                            let idl = all_before[i].questions@[k].id;
                            assert(gen_sets_have_qid(all_before, idl));
                            let idr = block@[j - n].questions@[l].id;
                            assert(gen_sets_have_qid(block@, idr));
                            assert(pool_has_qid(pool_before, idr));
                        } else {
                            assert((all_before + block@)[j] == all_before[j]);
                            assert((all_before + block@)[i] == block@[i - n]);
                            let idl = all_before[j].questions@[l].id;
                            assert(gen_sets_have_qid(all_before, idl));
                            let idr = block@[i - n].questions@[k].id;
                            assert(gen_sets_have_qid(block@, idr));
                            assert(pool_has_qid(pool_before, idr));
                        }
                    }
                    assert forall|id: u64|
                        gen_sets_have_qid(all_before + block@, id) implies !pool_has_qid(
                        pool@,
                        id,
                    ) by {
                        if gen_sets_have_qid(all_before, id) {
                            assert(!pool_has_qid(pool_before, id));
                            if pool_has_qid(pool@, id) {
                                assert(pool_has_qid(pool_before, id));
                            }
                        } else {
                            assert(gen_sets_have_qid(block@, id));
                        }
                    }
                }
                let mut b = block;
                all_sets.append(&mut b);
                proof {
                    assert(all_sets@ == all_before + block@);
                    if fit {
                        assert(ci == 0);
                        assert(tag_cfgs@.len() == 1 && tag_cfgs@[0].number_of_questions == 0);
                    }
                }
            },
        }
        ci = ci + 1;
    }

    // Verify that every tag quota was fully satisfied.
    let mut t: usize = 0;
    while t < tag_cfgs.len()
        invariant
            forall|tt: int|
                0 <= tt < t as int ==> (#[trigger] tag_cfgs@[tt]).number_of_questions == 0,
            tags_ok(orig, tags_sorted0, tag_cfgs@, bigw, all_sets@),
            blocks_match(orig, cfgs@.take(cfgs@.len() as int), all_sets@),
            gen_qids_distinct(all_sets@),
            fit ==> tag_cfgs@.len() == 1 && tag_cfgs@[0].number_of_questions == 0,
        decreases tag_cfgs@.len() - t,
    {
        if tag_cfgs[t].number_of_questions > 0 {
            proof {
                if fit {
                    assert(false);
                }
                // The starved tag config is one of the input's.
                assert(tag_cfgs@[t as int].group == tags_sorted0[t as int].group);
                tags_sorted0.to_multiset_ensures();
                exam0.config.tags@.to_multiset_ensures();
                assert(tags_sorted0.contains(tags_sorted0[t as int]));
                assert(tags_sorted0.to_multiset().count(tags_sorted0[t as int]) > 0);
                assert(exam0.config.tags@.to_multiset().count(tags_sorted0[t as int]) > 0);
                assert(exam0.config.tags@.contains(tags_sorted0[t as int]));
            }
            let tc = remove_tag(&mut tag_cfgs, t);
            return Err(
                ExamError::InvalidConfiguration(InvalidKind::UnmetTagQuota { group: tc.group }),
            );
        }
        t = t + 1;
    }

    // Every sorted quota is met; carry that over to the input order.
    proof {
        assert(cfgs@.take(cfgs@.len() as int) == cfgs@);
        assert(orig == exam0.question_sets@);
        assert(tags_orig == exam0.config.tags@);
        assert forall|ti: int|
            0 <= ti < exam0.config.tags@.len() implies exists|s: Set<u64>|
            s.len() >= (#[trigger] exam0.config.tags@[ti]).number_of_questions
                && tag_witness_ok(
                exam0.question_sets@,
                exam0.config.tags@[ti].group@,
                s,
                all_sets@,
            ) by {
            tags_orig.to_multiset_ensures();
            tags_sorted0.to_multiset_ensures();
            assert(tags_orig.contains(tags_orig[ti]));
            assert(tags_orig.to_multiset().count(tags_orig[ti]) > 0);
            assert(tags_sorted0.to_multiset().count(tags_orig[ti]) > 0);
            assert(tags_sorted0.contains(tags_orig[ti]));
            let tj = choose|tj: int|
                0 <= tj < tags_sorted0.len() && tags_sorted0[tj] == tags_orig[ti];
            assert(tag_entry_ok(
                orig,
                tags_sorted0[tj],
                tag_cfgs@[tj],
                bigw[tj],
                all_sets@,
            ));
            assert(tag_cfgs@[tj].number_of_questions == 0);
            assert(bigw[tj].len() >= tags_sorted0[tj].number_of_questions);
            assert(tag_witness_ok(
                exam0.question_sets@,
                exam0.config.tags@[ti].group@,
                bigw[tj],
                all_sets@,
            ));
        }
    }

    let fresh_id = crate::randomness::random_u64(rng);
    let g = GeneratedExam {
        id: fresh_id,
        exam_id,
        question_sets: all_sets,
        deprecated: false,
        version: 1,
    };
    proof {
        assert(cfgs@.to_multiset() == exam0.config.question_sets@.to_multiset());
        assert(g.question_sets@ == all_sets@);
        assert forall|ti: int| 0 <= ti < exam0.config.tags@.len() implies tag_quota_met_for(
            exam0,
            ti,
            g.question_sets@,
        ) by {
            let s = choose|s: Set<u64>|
                s.len() >= exam0.config.tags@[ti].number_of_questions && tag_witness_ok(
                    exam0.question_sets@,
                    exam0.config.tags@[ti].group@,
                    s,
                    all_sets@,
                );
            assert(s.len() >= exam0.config.tags@[ti].number_of_questions && tag_witness_ok(
                exam0.question_sets@,
                exam0.config.tags@[ti].group@,
                s,
                g.question_sets@,
            ));
        }
        assert(blocks_match(orig, cfgs@, g.question_sets@));
        assert(tag_quotas_met(exam0, g.question_sets@));
        assert(valid_generated_exam(exam0, g));
    }
    Ok(g)
}

/// Removes one tag config, handing it back whole.
fn remove_tag(tags: &mut Vec<TagConfig>, t: usize) -> (r: TagConfig)
    requires
        t < old(tags)@.len(),
    ensures
        r == old(tags)@[t as int],
{
    tags.remove(t)
}

} // verus!
