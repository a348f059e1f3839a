use exam_engine::model::{
    Answer, ExamConfig, ExamInput, Question, QuestionSet, QuestionSetConfig, QuestionType,
    TagConfig,
};
use exam_engine::validate::{validate_config, ConfigIssue};
use exam_engine::wellformed::check_input;

fn answer(id: u64, is_correct: bool) -> Answer {
    Answer { id, text: format!("answer {id}"), is_correct }
}

fn question(id: u64, tags: &[&str], answers: Vec<Answer>) -> Question {
    Question {
        id,
        text: format!("question {id}"),
        tags: tags.iter().map(|t| t.to_string()).collect(),
        deprecated: false,
        answers,
    }
}

fn set(id: u64, qtype: QuestionType, questions: Vec<Question>) -> QuestionSet {
    QuestionSet { id, qtype, context: None, questions }
}

fn base_input() -> ExamInput {
    let q1 = question(1, &["html"], vec![answer(11, true), answer(12, false)]);
    let q2 = question(2, &["html"], vec![answer(21, true), answer(22, false)]);
    ExamInput {
        id: 7,
        question_sets: vec![set(100, QuestionType::MultipleChoice, vec![q1, q2])],
        config: ExamConfig {
            name: "exam".to_string(),
            tags: vec![TagConfig { group: vec!["html".to_string()], number_of_questions: 2 }],
            question_sets: vec![QuestionSetConfig {
                qtype: QuestionType::MultipleChoice,
                number_of_set: 1,
                number_of_questions: 2,
                number_of_correct_answers: 1,
                number_of_incorrect_answers: 1,
            }],
        },
    }
}

#[test]
fn solvable_config_passes() {
    assert!(validate_config(&base_input()).is_ok());
}

#[test]
fn empty_name_is_reported() {
    let mut exam = base_input();
    exam.config.name = String::new();
    assert!(matches!(validate_config(&exam), Err(ConfigIssue::EmptyName)));
}

#[test]
fn missing_tagged_questions_are_reported() {
    let mut exam = base_input();
    exam.config.tags[0].number_of_questions = 3;
    assert!(matches!(
        validate_config(&exam),
        Err(ConfigIssue::NotEnoughTaggedQuestions { tag_index: 0 })
    ));
}

#[test]
fn missing_sets_are_reported() {
    let mut exam = base_input();
    exam.config.question_sets[0].number_of_set = 2;
    assert!(matches!(
        validate_config(&exam),
        Err(ConfigIssue::NotEnoughSetsOfType { config_index: 0 })
    ));
}

#[test]
fn missing_questions_overall_are_reported() {
    let mut exam = base_input();
    // A second set of the kind exists but the two sets together still hold
    // fewer questions than 2 sets x 2 questions need.
    exam.question_sets.push(set(
        101,
        QuestionType::MultipleChoice,
        vec![question(3, &[], vec![answer(31, true), answer(32, false)])],
    ));
    exam.config.question_sets[0].number_of_set = 2;
    assert!(matches!(
        validate_config(&exam),
        Err(ConfigIssue::NotEnoughQuestionsOfType { config_index: 0 })
    ));
}

#[test]
fn no_single_large_set_is_reported() {
    let mut exam = base_input();
    // Four questions in total, but no single set holds three.
    exam.question_sets.push(set(
        101,
        QuestionType::MultipleChoice,
        vec![
            question(3, &[], vec![answer(31, true), answer(32, false)]),
            question(4, &[], vec![answer(41, true), answer(42, false)]),
        ],
    ));
    exam.config.question_sets[0].number_of_questions = 3;
    assert!(matches!(
        validate_config(&exam),
        Err(ConfigIssue::NoSingleSetLargeEnough { config_index: 0 })
    ));
}

#[test]
fn missing_correct_answers_are_reported() {
    let mut exam = base_input();
    exam.config.question_sets[0].number_of_correct_answers = 2;
    match validate_config(&exam) {
        Err(ConfigIssue::NotEnoughCorrectAnswers { question_id, set_id }) => {
            assert_eq!(question_id, 1);
            assert_eq!(set_id, 100);
        }
        other => panic!("expected NotEnoughCorrectAnswers, got {other:?}"),
    }
}

#[test]
fn missing_incorrect_answers_are_reported() {
    let mut exam = base_input();
    exam.config.question_sets[0].number_of_incorrect_answers = 2;
    match validate_config(&exam) {
        Err(ConfigIssue::NotEnoughIncorrectAnswers { question_id, set_id }) => {
            assert_eq!(question_id, 1);
            assert_eq!(set_id, 100);
        }
        other => panic!("expected NotEnoughIncorrectAnswers, got {other:?}"),
    }
}

#[test]
fn well_formed_input_is_accepted() {
    assert!(check_input(&base_input()));
}

#[test]
fn duplicate_set_ids_are_rejected() {
    let mut exam = base_input();
    exam.question_sets.push(set(
        100,
        QuestionType::Dialogue,
        vec![question(3, &[], vec![answer(31, true)])],
    ));
    assert!(!check_input(&exam));
}

#[test]
fn duplicate_question_ids_are_rejected() {
    let mut exam = base_input();
    exam.question_sets.push(set(
        101,
        QuestionType::Dialogue,
        vec![question(1, &[], vec![answer(31, true)])],
    ));
    assert!(!check_input(&exam));
}

#[test]
fn duplicate_answer_ids_are_rejected() {
    let mut exam = base_input();
    exam.question_sets[0].questions[0].answers.push(answer(11, false));
    assert!(!check_input(&exam));
}
