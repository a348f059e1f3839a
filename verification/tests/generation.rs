use exam_engine::engine::{generate_exam, generate_exam_with, ATTEMPT_TIMEOUT_IN_MS};
use exam_engine::model::{
    Answer, ExamConfig, ExamError, ExamInput, GeneratedExam, InvalidKind, Question, QuestionSet,
    QuestionSetConfig, QuestionType, TagConfig,
};
use exam_engine::wellformed::check_input;

fn answer(id: u64, is_correct: bool) -> Answer {
    Answer { id, text: format!("answer {id}"), is_correct }
}

fn question(id: u64, tags: &[&str], answers: Vec<Answer>) -> Question {
    Question {
        id,
        text: format!("question {id}"),
        tags: tags.iter().map(|t| t.to_string()).collect(),
        deprecated: false,
        answers,
    }
}

fn set(id: u64, qtype: QuestionType, questions: Vec<Question>) -> QuestionSet {
    QuestionSet { id, qtype, context: None, questions }
}

fn config(
    qtype: QuestionType,
    number_of_set: usize,
    number_of_questions: usize,
    number_of_correct_answers: usize,
    number_of_incorrect_answers: usize,
) -> QuestionSetConfig {
    QuestionSetConfig {
        qtype,
        number_of_set,
        number_of_questions,
        number_of_correct_answers,
        number_of_incorrect_answers,
    }
}

fn input(
    question_sets: Vec<QuestionSet>,
    tags: Vec<TagConfig>,
    configs: Vec<QuestionSetConfig>,
) -> ExamInput {
    ExamInput {
        id: 999,
        question_sets,
        config: ExamConfig { name: "exam".to_string(), tags, question_sets: configs },
    }
}

/// Checks every structural invariant of a generated exam against its input.
fn assert_invariants(exam: &ExamInput, g: &GeneratedExam) {
    assert_eq!(g.exam_id, exam.id);
    assert!(!g.deprecated);
    assert_eq!(g.version, 1);

    let find_set = |id: u64| exam.question_sets.iter().find(|s| s.id == id).expect("source set");
    let find_question = |sid: u64, qid: u64| {
        find_set(sid).questions.iter().find(|q| q.id == qid).expect("source question")
    };

    // Invariant 1: per config, exactly number_of_set sets of its kind, each
    // with exactly number_of_questions questions.  (No two configs of this
    // test suite share a kind.)
    for c in &exam.config.question_sets {
        let matching: Vec<_> = g
            .question_sets
            .iter()
            .filter(|gs| find_set(gs.id).qtype == c.qtype)
            .collect();
        assert_eq!(matching.len(), c.number_of_set);
        for gs in matching {
            assert_eq!(gs.questions.len(), c.number_of_questions);
            // Invariant 2: answer shape of each question under this config.
            for gq in &gs.questions {
                let src = find_question(gs.id, gq.id);
                assert!(!src.deprecated);
                assert_eq!(
                    gq.answers.len(),
                    c.number_of_correct_answers + c.number_of_incorrect_answers
                );
                let mut seen: Vec<u64> = vec![];
                let mut correct = 0;
                let mut incorrect = 0;
                for aid in &gq.answers {
                    assert!(!seen.contains(aid), "duplicate answer id {aid}");
                    seen.push(*aid);
                    let a = src.answers.iter().find(|a| a.id == *aid).expect("own answer");
                    if a.is_correct {
                        correct += 1;
                    } else {
                        incorrect += 1;
                    }
                }
                assert_eq!(correct, c.number_of_correct_answers);
                assert_eq!(incorrect, c.number_of_incorrect_answers);
            }
        }
    }

    // Invariant 3: no question id is used twice anywhere.
    let mut all_qids: Vec<u64> = vec![];
    for gs in &g.question_sets {
        for gq in &gs.questions {
            assert!(!all_qids.contains(&gq.id), "question {} reused", gq.id);
            all_qids.push(gq.id);
        }
    }

    // Invariant 4: each tag quota is covered by distinct chosen questions.
    for t in &exam.config.tags {
        let mut covered = 0;
        for gs in &g.question_sets {
            for gq in &gs.questions {
                let src = find_question(gs.id, gq.id);
                if t.group.iter().all(|needed| src.tags.contains(needed)) {
                    covered += 1;
                }
            }
        }
        assert!(
            covered >= t.number_of_questions,
            "tag group {:?} covered only {covered} times",
            t.group
        );
    }
}

fn scenario_a_input() -> ExamInput {
    let q1 = question(1, &["html"], vec![answer(11, true), answer(12, false)]);
    let q2 = question(2, &["html"], vec![answer(21, true), answer(22, false)]);
    input(
        vec![set(100, QuestionType::MultipleChoice, vec![q1, q2])],
        vec![TagConfig { group: vec!["html".to_string()], number_of_questions: 2 }],
        vec![config(QuestionType::MultipleChoice, 1, 2, 1, 1)],
    )
}

#[test]
fn scenario_exact_fit_succeeds() {
    let exam = scenario_a_input();
    assert!(check_input(&exam));
    for seed in [1u64, 7, 42] {
        let g = generate_exam_with(exam.clone(), seed, 5000).expect("exact fit must succeed");
        assert_eq!(g.question_sets.len(), 1);
        assert_eq!(g.question_sets[0].id, 100);
        assert_eq!(g.question_sets[0].questions.len(), 2);
        for gq in &g.question_sets[0].questions {
            assert_eq!(gq.answers.len(), 2);
        }
        assert_invariants(&exam, &g);
    }
}

#[test]
fn scenario_insufficient_answers_names_question() {
    // Same as the exact fit, but question 2 has no incorrect answer.
    let q1 = question(1, &["html"], vec![answer(11, true), answer(12, false)]);
    let q2 = question(2, &["html"], vec![answer(21, true), answer(22, true)]);
    let exam = input(
        vec![set(100, QuestionType::MultipleChoice, vec![q1, q2])],
        vec![TagConfig { group: vec!["html".to_string()], number_of_questions: 2 }],
        vec![config(QuestionType::MultipleChoice, 1, 2, 1, 1)],
    );
    let r = generate_exam_with(exam, 5, 5000);
    match r {
        Err(ExamError::InvalidConfiguration(InvalidKind::NotEnoughAnswers { question_id })) => {
            assert_eq!(question_id, 2);
        }
        other => panic!("expected NotEnoughAnswers for question 2, got {other:?}"),
    }
}

#[test]
fn scenario_insufficient_pool_names_type() {
    // Two sets of the dialogue kind required, only one in the pool.
    let q1 = question(1, &[], vec![answer(11, true), answer(12, false)]);
    let exam = input(
        vec![set(100, QuestionType::Dialogue, vec![q1])],
        vec![],
        vec![config(QuestionType::Dialogue, 2, 1, 1, 1)],
    );
    let r = generate_exam_with(exam, 5, 5000);
    match r {
        Err(ExamError::InvalidConfiguration(InvalidKind::NotEnoughQuestionsOfType { qtype })) => {
            assert_eq!(qtype, QuestionType::Dialogue);
        }
        other => panic!("expected NotEnoughQuestionsOfType, got {other:?}"),
    }
}

#[test]
fn scenario_unsolvable_tag_quota_names_group() {
    // Three css questions required, only two exist anywhere.
    let q1 = question(1, &["css"], vec![answer(11, true), answer(12, false)]);
    let q2 = question(2, &["css"], vec![answer(21, true), answer(22, false)]);
    let q3 = question(3, &["js"], vec![answer(31, true), answer(32, false)]);
    let q4 = question(4, &["js"], vec![answer(41, true), answer(42, false)]);
    let exam = input(
        vec![set(100, QuestionType::MultipleChoice, vec![q1, q2, q3, q4])],
        vec![TagConfig { group: vec!["css".to_string()], number_of_questions: 3 }],
        vec![config(QuestionType::MultipleChoice, 1, 2, 1, 1)],
    );
    let r = generate_exam_with(exam, 5, 5000);
    match r {
        Err(ExamError::InvalidConfiguration(InvalidKind::UnmetTagQuota { group })) => {
            assert_eq!(group, vec!["css".to_string()]);
        }
        other => panic!("expected UnmetTagQuota for css, got {other:?}"),
    }
}

#[test]
fn scenario_zero_budget_times_out() {
    // Solvable, but completion work is needed and the budget is zero.
    let q1 = question(1, &[], vec![answer(11, true), answer(12, false)]);
    let exam = input(
        vec![set(100, QuestionType::MultipleChoice, vec![q1])],
        vec![],
        vec![config(QuestionType::MultipleChoice, 1, 1, 1, 1)],
    );
    let r = generate_exam_with(exam, 5, 0);
    match r {
        Err(ExamError::Timeout(budget)) => assert_eq!(budget, 0),
        other => panic!("expected Timeout, got {other:?}"),
    }
}

#[test]
fn empty_question_set_config_is_rejected() {
    let q1 = question(1, &[], vec![answer(11, true), answer(12, false)]);
    let exam = input(vec![set(100, QuestionType::MultipleChoice, vec![q1])], vec![], vec![]);
    let r = generate_exam_with(exam, 5, 5000);
    assert!(matches!(
        r,
        Err(ExamError::InvalidConfiguration(InvalidKind::NoQuestionSetConfigs))
    ));
}

#[test]
fn mixed_kinds_and_tags_satisfy_all_invariants() {
    let mut mc_sets = vec![];
    for s in 0..3u64 {
        let mut questions = vec![];
        for q in 0..3u64 {
            let qid = 10 * (s + 1) + q;
            let tags: &[&str] = if q == 0 { &["html", "css"] } else { &["js"] };
            questions.push(question(
                qid,
                tags,
                vec![
                    answer(qid * 10, true),
                    answer(qid * 10 + 1, true),
                    answer(qid * 10 + 2, false),
                    answer(qid * 10 + 3, false),
                ],
            ));
        }
        mc_sets.push(set(s + 1, QuestionType::MultipleChoice, questions));
    }
    for s in 0..2u64 {
        let qid = 100 * (s + 1);
        mc_sets.push(set(
            s + 50,
            QuestionType::Dialogue,
            vec![question(qid, &["listening"], vec![answer(qid + 1, true), answer(qid + 2, false)])],
        ));
    }
    let exam = input(
        mc_sets,
        vec![TagConfig { group: vec!["html".to_string()], number_of_questions: 2 }],
        vec![
            config(QuestionType::MultipleChoice, 2, 2, 1, 2),
            config(QuestionType::Dialogue, 1, 1, 1, 1),
        ],
    );
    assert!(check_input(&exam));
    for seed in [3u64, 99, 2024] {
        match generate_exam_with(exam.clone(), seed, 5000) {
            Ok(g) => {
                assert_eq!(g.question_sets.len(), 3);
                assert_invariants(&exam, &g);
            }
            Err(e) => panic!("expected success on seed {seed}, got {e:?}"),
        }
    }
}

#[test]
fn empty_pool_cannot_serve_a_quota() {
    let exam = input(vec![], vec![], vec![config(QuestionType::MultipleChoice, 1, 1, 1, 1)]);
    let r = generate_exam_with(exam, 5, 5000);
    assert!(matches!(
        r,
        Err(ExamError::InvalidConfiguration(InvalidKind::NotEnoughQuestionsOfType { .. }))
    ));
}

#[test]
fn zero_set_quota_yields_an_empty_exam() {
    let q1 = question(1, &[], vec![answer(11, true), answer(12, false)]);
    let exam = input(
        vec![set(100, QuestionType::MultipleChoice, vec![q1])],
        vec![],
        vec![config(QuestionType::MultipleChoice, 0, 1, 1, 1)],
    );
    let g = generate_exam_with(exam.clone(), 5, 5000).expect("zero quota is trivially met");
    assert!(g.question_sets.is_empty());
    assert_invariants(&exam, &g);
}

#[test]
fn deprecated_questions_are_never_chosen() {
    let q1 = question(1, &[], vec![answer(11, true), answer(12, false)]);
    let q2 = question(2, &[], vec![answer(21, true), answer(22, false)]);
    let mut q3 = question(3, &[], vec![answer(31, true), answer(32, false)]);
    q3.deprecated = true;
    let exam = input(
        vec![set(100, QuestionType::MultipleChoice, vec![q1, q2, q3])],
        vec![],
        vec![config(QuestionType::MultipleChoice, 1, 2, 1, 1)],
    );
    for seed in [1u64, 2, 3, 4, 5] {
        let g = generate_exam_with(exam.clone(), seed, 5000).expect("two live questions suffice");
        for gs in &g.question_sets {
            for gq in &gs.questions {
                assert_ne!(gq.id, 3, "deprecated question chosen");
            }
        }
        assert_invariants(&exam, &g);
    }
}

#[test]
fn sibling_configs_of_one_kind_share_the_pool() {
    let q1 = question(1, &[], vec![answer(11, true), answer(12, false)]);
    let q2 = question(2, &[], vec![answer(21, true), answer(22, false)]);
    let exam = input(
        vec![
            set(100, QuestionType::MultipleChoice, vec![q1]),
            set(200, QuestionType::MultipleChoice, vec![q2]),
        ],
        vec![],
        vec![
            config(QuestionType::MultipleChoice, 1, 1, 1, 1),
            config(QuestionType::MultipleChoice, 1, 1, 1, 1),
        ],
    );
    for seed in [8u64, 9, 10] {
        let g = generate_exam_with(exam.clone(), seed, 5000).expect("both slots can be filled");
        assert_eq!(g.question_sets.len(), 2);
        for gs in &g.question_sets {
            assert_eq!(gs.questions.len(), 1);
        }
        let mut qids: Vec<u64> =
            g.question_sets.iter().flat_map(|s| s.questions.iter().map(|q| q.id)).collect();
        qids.sort();
        assert_eq!(qids, vec![1, 2]);
    }
}

#[test]
fn generate_exam_uses_fixed_budget() {
    let exam = scenario_a_input();
    let g = generate_exam(exam.clone()).expect("exact fit must succeed");
    assert_invariants(&exam, &g);
    assert_eq!(ATTEMPT_TIMEOUT_IN_MS, 5000);
}

#[test]
fn generated_question_answers_are_selected_not_copied() {
    // Four answers per question, only three chosen: any unchanged hand-back
    // of the full answer list would have the wrong length.
    let q1 = question(
        1,
        &[],
        vec![answer(11, true), answer(12, true), answer(13, false), answer(14, false)],
    );
    let exam = input(
        vec![set(100, QuestionType::MultipleChoice, vec![q1])],
        vec![],
        vec![config(QuestionType::MultipleChoice, 1, 1, 1, 2)],
    );
    let g = generate_exam_with(exam.clone(), 11, 5000).expect("must succeed");
    let gq = &g.question_sets[0].questions[0];
    assert_eq!(gq.answers.len(), 3);
    assert_invariants(&exam, &g);
}
