//! Ephemeral presence state shared by connected editor clients: who is
//! online, what they are editing, and the unsaved exams.
use vstd::prelude::*;

use crate::api::ExamCreatorExam;

verus! {

/// Which database environment a user works against.
#[derive(Clone, Copy, Debug, PartialEq, Eq, Structural)]
pub enum ExamCreatorDatabaseEnvironment {
    Production,
    Staging,
}

/// A user's settings.
#[derive(Clone, Debug)]
pub struct ExamCreatorUserSettings {
    pub database_environment: ExamCreatorDatabaseEnvironment,
}

/// A user's last observed activity.
#[derive(Clone, Debug)]
pub struct Activity {
    /// The pathname of the user's current page.
    pub page: String,
    /// The last time the user was active, in milliseconds since the epoch.
    pub last_active: usize,
}

/// An online user.
#[derive(Clone, Debug)]
pub struct User {
    pub name: String,
    pub email: String,
    pub picture: String,
    pub activity: Activity,
    pub settings: ExamCreatorUserSettings,
}

/// A user as presented to their own session.
#[derive(Clone, Debug)]
pub struct SessionUser {
    pub name: String,
    pub email: String,
    pub picture: String,
    pub activity: Activity,
    pub web_socket_token: String,
    pub settings: ExamCreatorUserSettings,
}

/// Ephemeral sync data of the server: online users' activity and updated
/// exams not yet saved.
#[derive(Clone, Debug)]
pub struct ClientSync {
    pub users: Vec<User>,
    pub exams: Vec<ExamCreatorExam>,
}

/// The events broadcast to connected clients.
#[derive(Clone, Debug)]
pub enum SocketEvents {
    ExamUpdate(ExamCreatorExam),
    UsersUpdate(Vec<User>),
    ActivityUpdate(Activity),
}

/// The predicate "this user's email differs from `email`".
pub open spec fn email_differs(email: Seq<char>) -> spec_fn(User) -> bool {
    |u: User| u.email@ != email
}

/// The predicate "this user was active within the window ending at `now`".
pub open spec fn active_within(now: int, timeout_ms: int) -> spec_fn(User) -> bool {
    |u: User| u.activity.last_active + timeout_ms > now
}

/// Removes the user with the given email from the users list.
pub fn remove_user(client_sync: &mut ClientSync, email: &String)
    ensures
        final(client_sync).users@ == old(client_sync).users@.filter(email_differs(email@)),
        final(client_sync).exams@ == old(client_sync).exams@,
{
    broadcast use Seq::lemma_filter_push;
    broadcast use Seq::lemma_take_succ_push;
    broadcast use Seq::lemma_take_len;

    let ghost users0 = client_sync.users@;
    let mut kept: Vec<User> = Vec::new();
    let mut i: usize = 0;
    while i < client_sync.users.len()
        invariant
            i <= users0.len(),
            client_sync.users@ == users0,
            kept@ == users0.take(i as int).filter(email_differs(email@)),
        decreases users0.len() - i,
    {
        if !(client_sync.users[i].email == *email) {
            let u = clone_user(&client_sync.users[i]);
            kept.push(u);
        }
        i = i + 1;
    }
    proof {
        assert(users0.take(users0.len() as int) == users0);
    }
    client_sync.users = kept;
}

/// Sets the activity of the user with the given email to the given page and
/// time; a missing user leaves the state unchanged.
pub fn set_user_activity(client_sync: &mut ClientSync, email: &String, page: String, now_ms: usize)
    ensures
        final(client_sync).exams@ == old(client_sync).exams@,
        final(client_sync).users@.len() == old(client_sync).users@.len(),
        forall|i: int|
            0 <= i < old(client_sync).users@.len() && old(client_sync).users@[i].email@ != email@
                ==> final(client_sync).users@[i] == old(client_sync).users@[i],
        forall|i: int|
            0 <= i < old(client_sync).users@.len() && (#[trigger] old(
                client_sync,
            ).users@[i]).email@ == email@ && (forall|j: int|
                0 <= j < i ==> (#[trigger] old(client_sync).users@[j]).email@ != email@)
                ==> final(client_sync).users@[i].name == old(client_sync).users@[i].name
                    && final(client_sync).users@[i].email == old(client_sync).users@[i].email
                    && final(client_sync).users@[i].picture == old(
                    client_sync,
                ).users@[i].picture && final(client_sync).users@[i].settings == old(
                    client_sync,
                ).users@[i].settings && final(client_sync).users@[i].activity.page == page
                    && final(client_sync).users@[i].activity.last_active == now_ms,
        forall|i: int|
            0 <= i < old(client_sync).users@.len() && (exists|j: int|
                0 <= j < i && (#[trigger] old(client_sync).users@[j]).email@ == email@)
                ==> final(client_sync).users@[i] == old(client_sync).users@[i],
{
    let n = client_sync.users.len();
    let mut i: usize = 0;
    while i < n
        invariant
            n == old(client_sync).users@.len(),
            i <= n,
            client_sync.exams@ == old(client_sync).exams@,
            client_sync.users@.len() == old(client_sync).users@.len(),
            forall|j: int| 0 <= j < i as int ==> (#[trigger] old(
                client_sync,
            ).users@[j]).email@ != email@,
            forall|j: int| 0 <= j < n as int ==> client_sync.users@[j] == old(
                client_sync,
            ).users@[j],
        decreases n - i,
    {
        if client_sync.users[i].email == *email {
            client_sync.users[i].activity.page = page;
            client_sync.users[i].activity.last_active = now_ms;
            proof {
                assert(final(client_sync).users@[i as int].email == old(
                    client_sync,
                ).users@[i as int].email);
            }
            return ;
        }
        i = i + 1;
    }
}

/// Drops every user whose last activity lies further back than the timeout.
pub fn remove_inactive_users(client_sync: &mut ClientSync, now_ms: usize, timeout_ms: usize)
    ensures
        final(client_sync).users@ == old(client_sync).users@.filter(
            active_within(now_ms as int, timeout_ms as int),
        ),
        final(client_sync).exams@ == old(client_sync).exams@,
{
    broadcast use Seq::lemma_filter_push;
    broadcast use Seq::lemma_take_succ_push;
    broadcast use Seq::lemma_take_len;

    let ghost users0 = client_sync.users@;
    let mut kept: Vec<User> = Vec::new();
    let mut i: usize = 0;
    while i < client_sync.users.len()
        invariant
            i <= users0.len(),
            client_sync.users@ == users0,
            kept@ == users0.take(i as int).filter(active_within(now_ms as int, timeout_ms as int)),
        decreases users0.len() - i,
    {
        let last = client_sync.users[i].activity.last_active;
        let active = now_ms < last || now_ms - last < timeout_ms;
        proof {
            assert(active == (last + timeout_ms > now_ms));
        }
        if active {
            let u = clone_user(&client_sync.users[i]);
            kept.push(u);
        }
        i = i + 1;
    }
    proof {
        assert(users0.take(users0.len() as int) == users0);
    }
    client_sync.users = kept;
}

/// A field-for-field copy of a user.
pub fn clone_user(u: &User) -> (r: User)
    ensures
        r == *u,
{
    User {
        name: u.name.clone(),
        email: u.email.clone(),
        picture: u.picture.clone(),
        activity: Activity {
            page: u.activity.page.clone(),
            last_active: u.activity.last_active,
        },
        settings: ExamCreatorUserSettings {
            database_environment: u.settings.database_environment,
        },
    }
}

} // verus!
