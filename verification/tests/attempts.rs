use exam_engine::attempt::{
    construct_attempt, Attempt, ExamEnvironmentExam, ExamEnvironmentExamAttempt,
    ExamEnvironmentMultipleChoiceQuestionAttempt, ExamEnvironmentQuestionSetAttempt,
};
use exam_engine::model::{Answer, ExamConfig, Question, QuestionSet, QuestionType};

fn answer(id: u64, is_correct: bool) -> Answer {
    Answer { id, text: format!("answer {id}"), is_correct }
}

fn question(id: u64, tags: &[&str], answers: Vec<Answer>) -> Question {
    Question {
        id,
        text: format!("question {id}"),
        tags: tags.iter().map(|t| t.to_string()).collect(),
        deprecated: false,
        answers,
    }
}

fn sample_exam() -> ExamEnvironmentExam {
    ExamEnvironmentExam {
        id: 1,
        question_sets: vec![
            QuestionSet {
                id: 10,
                qtype: QuestionType::MultipleChoice,
                context: Some("ctx".to_string()),
                questions: vec![
                    question(101, &["html"], vec![answer(1011, true), answer(1012, false)]),
                    question(102, &[], vec![answer(1021, true), answer(1022, false)]),
                ],
            },
            QuestionSet {
                id: 20,
                qtype: QuestionType::Dialogue,
                context: None,
                questions: vec![question(201, &[], vec![answer(2011, true)])],
            },
        ],
        config: ExamConfig { name: "exam".to_string(), tags: vec![], question_sets: vec![] },
        prerequisites: vec![77],
        deprecated: false,
        version: 1,
    }
}

#[test]
fn construct_attempt_joins_answered_questions() {
    let exam = sample_exam();
    let attempt = ExamEnvironmentExamAttempt {
        id: 500,
        exam_id: 1,
        generated_exam_id: 600,
        question_sets: vec![ExamEnvironmentQuestionSetAttempt {
            id: 10,
            questions: vec![ExamEnvironmentMultipleChoiceQuestionAttempt {
                id: 102,
                answers: vec![1021],
                submission_time_ms: 123456,
            }],
        }],
        start_time_ms: 100000,
    };
    let r: Attempt = construct_attempt(&exam, &attempt);
    assert_eq!(r.id, 500);
    assert_eq!(r.prerequisites, vec![77]);
    assert!(!r.deprecated);
    assert_eq!(r.start_time_ms, 100000);
    assert_eq!(r.config.name, "exam");
    // Only set 10 was touched, and within it only question 102 was answered.
    assert_eq!(r.question_sets.len(), 1);
    let rs = &r.question_sets[0];
    assert_eq!(rs.id, 10);
    assert_eq!(rs.context.as_deref(), Some("ctx"));
    assert_eq!(rs.questions.len(), 1);
    let rq = &rs.questions[0];
    assert_eq!(rq.id, 102);
    assert_eq!(rq.text, "question 102");
    assert_eq!(rq.selected, vec![1021]);
    assert_eq!(rq.submission_time_ms, 123456);
    assert_eq!(rq.answers.len(), 2);
}

#[test]
fn construct_attempt_of_untouched_exam_is_empty() {
    let exam = sample_exam();
    let attempt = ExamEnvironmentExamAttempt {
        id: 501,
        exam_id: 1,
        generated_exam_id: 601,
        question_sets: vec![],
        start_time_ms: 5,
    };
    let r = construct_attempt(&exam, &attempt);
    assert!(r.question_sets.is_empty());
}
