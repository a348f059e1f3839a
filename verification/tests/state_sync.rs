use exam_engine::answers::select_answers;
use exam_engine::api::ExamCreatorUser;
use exam_engine::engine::{
    is_question_set_config_fulfilled, is_retryable, QuestionSetConfigWithQuestions,
};
use exam_engine::model::{
    Answer, ExamError, GeneratedQuestion, GeneratedQuestionSet, InvalidKind, Question,
    QuestionSetConfig, QuestionType,
};
use exam_engine::presence::{
    remove_inactive_users, remove_user, set_user_activity, Activity, ClientSync,
    ExamCreatorDatabaseEnvironment, ExamCreatorUserSettings, User,
};
use rand::SeedableRng;

fn user(name: &str, email: &str, last_active: usize) -> User {
    User {
        name: name.to_string(),
        email: email.to_string(),
        picture: String::new(),
        activity: Activity { page: "/".to_string(), last_active },
        settings: ExamCreatorUserSettings {
            database_environment: ExamCreatorDatabaseEnvironment::Production,
        },
    }
}

#[test]
fn remove_user_drops_only_that_email() {
    let mut sync = ClientSync {
        users: vec![user("a", "a@x", 1), user("b", "b@x", 2), user("c", "c@x", 3)],
        exams: vec![],
    };
    remove_user(&mut sync, &"b@x".to_string());
    let emails: Vec<_> = sync.users.iter().map(|u| u.email.clone()).collect();
    assert_eq!(emails, vec!["a@x".to_string(), "c@x".to_string()]);
}

#[test]
fn set_user_activity_updates_the_matching_user() {
    let mut sync = ClientSync {
        users: vec![user("a", "a@x", 1), user("b", "b@x", 2)],
        exams: vec![],
    };
    set_user_activity(&mut sync, &"b@x".to_string(), "/exams/3".to_string(), 777);
    assert_eq!(sync.users[0].activity.last_active, 1);
    assert_eq!(sync.users[1].activity.page, "/exams/3");
    assert_eq!(sync.users[1].activity.last_active, 777);
}

#[test]
fn set_user_activity_ignores_missing_users() {
    let mut sync = ClientSync { users: vec![user("a", "a@x", 1)], exams: vec![] };
    set_user_activity(&mut sync, &"zz@x".to_string(), "/p".to_string(), 777);
    assert_eq!(sync.users.len(), 1);
    assert_eq!(sync.users[0].activity.last_active, 1);
}

#[test]
fn inactive_users_are_cleaned_up() {
    let mut sync = ClientSync {
        users: vec![user("a", "a@x", 1000), user("b", "b@x", 4500), user("c", "c@x", 6000)],
        exams: vec![],
    };
    // Window of 1000ms ending at 5000: only activity after 4000 survives.
    remove_inactive_users(&mut sync, 5000, 1000);
    let emails: Vec<_> = sync.users.iter().map(|u| u.email.clone()).collect();
    assert_eq!(emails, vec!["b@x".to_string(), "c@x".to_string()]);
}

#[test]
fn to_session_prefers_the_online_entry() {
    let creator = ExamCreatorUser {
        id: 1,
        name: "fresh name".to_string(),
        email: "a@x".to_string(),
        picture: Some("pic".to_string()),
        settings: ExamCreatorUserSettings {
            database_environment: ExamCreatorDatabaseEnvironment::Staging,
        },
    };
    let online = vec![user("old name", "a@x", 123)];
    let session = creator.to_session(&online, 999);
    assert_eq!(session.name, "old name");
    assert_eq!(session.activity.last_active, 123);

    let session2 = creator.to_session(&vec![], 999);
    assert_eq!(session2.name, "fresh name");
    assert_eq!(session2.picture, "pic");
    assert_eq!(session2.activity.page, "/");
    assert_eq!(session2.activity.last_active, 999);
}

#[test]
fn retryability_follows_the_error_kind() {
    assert!(is_retryable(&ExamError::Timeout(5000)));
    assert!(!is_retryable(&ExamError::InvalidConfiguration(InvalidKind::NoQuestionSetConfigs)));
}

#[test]
fn fulfilled_check_counts_sets_and_questions() {
    let c = QuestionSetConfig {
        qtype: QuestionType::MultipleChoice,
        number_of_set: 1,
        number_of_questions: 2,
        number_of_correct_answers: 1,
        number_of_incorrect_answers: 1,
    };
    let full = QuestionSetConfigWithQuestions {
        config: c,
        question_sets: vec![GeneratedQuestionSet {
            id: 1,
            questions: vec![
                GeneratedQuestion { id: 1, answers: vec![1, 2] },
                GeneratedQuestion { id: 2, answers: vec![3, 4] },
            ],
        }],
    };
    assert!(is_question_set_config_fulfilled(&full));
    let short = QuestionSetConfigWithQuestions {
        config: c,
        question_sets: vec![GeneratedQuestionSet {
            id: 1,
            questions: vec![GeneratedQuestion { id: 1, answers: vec![1, 2] }],
        }],
    };
    assert!(!is_question_set_config_fulfilled(&short));
}

#[test]
fn answer_selection_takes_the_exact_split() {
    let q = Question {
        id: 5,
        text: "q".to_string(),
        tags: vec![],
        deprecated: false,
        answers: vec![
            Answer { id: 51, text: "a".to_string(), is_correct: true },
            Answer { id: 52, text: "b".to_string(), is_correct: true },
            Answer { id: 53, text: "c".to_string(), is_correct: true },
            Answer { id: 54, text: "d".to_string(), is_correct: false },
            Answer { id: 55, text: "e".to_string(), is_correct: false },
        ],
    };
    let c = QuestionSetConfig {
        qtype: QuestionType::MultipleChoice,
        number_of_set: 1,
        number_of_questions: 1,
        number_of_correct_answers: 2,
        number_of_incorrect_answers: 1,
    };
    let mut rng = rand::rngs::StdRng::seed_from_u64(99);
    let gq = select_answers(&q, &c, &mut rng).expect("enough answers");
    assert_eq!(gq.id, 5);
    assert_eq!(gq.answers.len(), 3);
    let mut seen = vec![];
    let mut correct = 0;
    for aid in &gq.answers {
        assert!(!seen.contains(aid));
        seen.push(*aid);
        let a = q.answers.iter().find(|a| a.id == *aid).expect("own answer");
        if a.is_correct {
            correct += 1;
        }
    }
    assert_eq!(correct, 2);

    // And it fails, naming the question, when the split cannot be met.
    let mut too_many = c;
    too_many.number_of_incorrect_answers = 3;
    match select_answers(&q, &too_many, &mut rng) {
        Err(ExamError::InvalidConfiguration(InvalidKind::NotEnoughAnswers { question_id })) => {
            assert_eq!(question_id, 5);
        }
        other => panic!("expected NotEnoughAnswers, got {other:?}"),
    }
}
