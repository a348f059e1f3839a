//! The document and transfer shapes that the service's routes exchange,
//! modelled as plain values.
use vstd::prelude::*;

use crate::model::{ExamConfig, QuestionSet};
use crate::presence::{Activity, ExamCreatorDatabaseEnvironment, ExamCreatorUserSettings, User};

verus! {

/// An exam under construction, as stored for its editors.
#[derive(Clone, Debug)]
pub struct ExamCreatorExam {
    pub id: u64,
    pub question_sets: Vec<QuestionSet>,
    pub config: ExamConfig,
    pub prerequisites: Vec<u64>,
    pub deprecated: bool,
    pub version: i64,
}

/// An editor account.
#[derive(Clone, Debug)]
pub struct ExamCreatorUser {
    pub id: u64,
    pub name: String,
    pub email: String,
    pub picture: Option<String>,
    pub settings: ExamCreatorUserSettings,
}

/// Token carried in a websocket URL's query, where headers cannot be sent.
#[derive(Clone, Debug)]
pub struct QueryAuth {
    pub token: String,
}

/// The identity an OAuth provider reports for a logged-in user.
#[derive(Clone, Debug)]
pub struct GitHubUserInfo {
    pub id: i64,
    pub avatar_url: String,
    pub email: Option<String>,
    pub name: Option<String>,
}

/// One email address an OAuth provider lists for a user.
#[derive(Clone, Debug)]
pub struct GitHubUserEmail {
    pub email: String,
    pub primary: bool,
    pub verified: bool,
}

/// Body of the development-only login route.
#[derive(Clone, Debug)]
pub struct DevLoginBody {
    pub name: String,
    pub email: String,
}

/// An exam together with the environments it is already deployed to.
#[derive(Clone, Debug)]
pub struct GetExam {
    pub exam: ExamCreatorExam,
    pub database_environments: Vec<ExamCreatorDatabaseEnvironment>,
}

/// Body of the generation routes: how many exams to generate.
#[derive(Clone, Debug)]
pub struct PutGenerateExamBody {
    pub count: i16,
}

/// An exam together with how many attempts were made against it.
#[derive(Clone, Debug)]
pub struct GetExamMetrics {
    pub exam: ExamCreatorExam,
    pub number_of_attempts: u64,
}

/// A sampled snapshot of one exam's attempts and generations, cached until
/// `expire_at_ms` (milliseconds since the epoch).
#[derive(Clone, Debug)]
pub struct GetExamMetricsById {
    pub exam: crate::attempt::ExamEnvironmentExam,
    pub attempts: Vec<crate::attempt::ExamEnvironmentExamAttempt>,
    pub generations: Vec<crate::model::GeneratedExam>,
    pub expire_at_ms: u64,
}

/// The review state of a moderated exam attempt.
#[derive(Clone, Copy, Debug, PartialEq, Eq, Structural)]
pub enum ExamEnvironmentExamModerationStatus {
    Pending,
    Approved,
    Denied,
}

/// Filters of the moderation listing route.
#[derive(Clone, Debug)]
pub struct GetModerationsQuery {
    pub status: Option<ExamEnvironmentExamModerationStatus>,
    pub skip: Option<u64>,
    pub limit: Option<i64>,
}

/// Moderation tallies of one environment, by review state.
#[derive(Clone, Copy, Debug, PartialEq, Eq, Structural)]
pub struct ModerationCount {
    pub pending: u64,
    pub approved: u64,
    pub denied: u64,
}

/// Moderation tallies of both environments.
#[derive(Clone, Copy, Debug, PartialEq, Eq, Structural)]
pub struct GetModerationsCountResponse {
    pub staging: ModerationCount,
    pub production: ModerationCount,
}

impl ExamCreatorUser {
    /// The presence entry for this user: the one already online under their
    /// email, or a fresh one on their default page, active now.
    pub fn to_session(&self, users: &Vec<User>, now_ms: usize) -> (r: User)
        ensures
            (exists|i: int|
                0 <= i < users@.len() && (#[trigger] users@[i]).email@ == self.email@) ==> exists|
                i: int,
            |
                0 <= i < users@.len() && (#[trigger] users@[i]).email@ == self.email@ && r
                    == users@[i] && (forall|j: int|
                    0 <= j < i ==> (#[trigger] users@[j]).email@ != self.email@),
            !(exists|i: int|
                0 <= i < users@.len() && (#[trigger] users@[i]).email@ == self.email@) ==> {
                &&& r.name@ == self.name@
                &&& r.email@ == self.email@
                &&& (self.picture matches Some(p) ==> r.picture@ == p@)
                &&& (self.picture is None ==> r.picture@ == Seq::<char>::empty())
                &&& r.activity.page@ == "/"@
                &&& r.activity.last_active == now_ms
                &&& r.settings == self.settings
            },
    {
        let mut i: usize = 0;
        while i < users.len()
            invariant
                i <= users@.len(),
                forall|j: int| 0 <= j < i as int ==> (#[trigger] users@[j]).email@ != self.email@,
            decreases users@.len() - i,
        {
            if users[i].email == self.email {
                return crate::presence::clone_user(&users[i]);
            }
            i = i + 1;
        }
        let picture = match &self.picture {
            Some(p) => p.clone(),
            None => String::new(),
        };
        User {
            name: self.name.clone(),
            email: self.email.clone(),
            picture,
            activity: Activity { page: "/".to_owned(), last_active: now_ms },
            settings: ExamCreatorUserSettings {
                database_environment: self.settings.database_environment,
            },
        }
    }
}

} // verus!
