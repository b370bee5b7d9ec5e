//! Carrying out a command: what each command asks of the remote services,
//! and the answers that need no service at all.

use crate::command::{tell_view, Command, CommandView, TellView, TellWhat};
use crate::messages::{closing_phrases, greeting_message_with, greeting_text, workend_message, workend_text};
use crate::persistent::{is_user_working, remaining_works, work_of_task, working, RemainingWork, UserLastTimes};
use crate::remote::CurrentTaskState;
use crate::random::{random_i64, random_index};
use crate::remote::{FullUserInfo, GitHubResponse};
use crate::text::{i64_to_decimal, signed_decimal, str_eq};
use std::sync::Arc;
use vstd::prelude::*;

verus! {

/// Why a command could not be carried out.
pub enum ProcessError {
    /// The Slack user is linked to no GitHub account.
    UserUnidentifiable,
    /// What was asked to be counted cannot be counted.
    UncountableObjective,
    /// A request failed; the text describes the failure.
    Network(String),
    /// The request was not understood; the text says why.
    RecognizationFailure(String),
    /// A request to the GitHub API failed; the text describes the failure.
    GithubAPIError(String),
}

/// Whom a command is about: a Slack user, or a GitHub account (id, login).
pub enum User<'s> {
    Slack(&'s str),
    GitHub(i32, String),
}

impl<'s> User<'s> {
    /// The GitHub account (id, login) of the user. `linked` is the account
    /// that the store links to the Slack user, looked up by the caller; it
    /// is read only for a Slack user.
    pub fn identify_as_github_id(self, linked: Option<(i32, String)>) -> (r: Result<(i32, String), ProcessError>)
        ensures
            match self {
                User::Slack(_) => match linked {
                    Some(a) => r == Ok::<(i32, String), ProcessError>(a),
                    None => r == Err::<(i32, String), ProcessError>(ProcessError::UserUnidentifiable),
                },
                User::GitHub(id, login) => r == Ok::<(i32, String), ProcessError>((id, login)),
            },
    {
        match self {
            User::Slack(_) => match linked {
                Some(a) => Ok(a),
                None => Err(ProcessError::UserUnidentifiable),
            },
            User::GitHub(id, login) => Ok((id, login)),
        }
    }
}

/// Another handle on the shared value (`Arc::clone`); the handle points to
/// the same value.
#[verifier::external_body]
fn share<R>(a: &Arc<R>) -> (r: Arc<R>)
    ensures
        r == *a,
{
    a.clone()
}

/// Carries out commands against the remote services `R`.
pub struct CommandExecutor<R> {
    pub remote: Arc<R>,
}

/// What carrying out a command takes.
pub enum Action {
    /// Answer at once with this text.
    Reply(String),
    /// Greet the user; `true` when greeted politely.
    Greet(bool),
    /// Answer a random number.
    RandomNumber,
    /// List the user's remaining tasks, under the name the user gave them.
    ReportTasks(String),
    /// Count the user's remaining tasks: the name given, and whether the
    /// remaining ones were asked for.
    CountTasks(String, bool),
    /// Count the issues with unresolved questions: the name given, and
    /// whether the remaining ones were asked for.
    CountUnresolvedIssues(String, bool),
    /// List the issues with unresolved questions.
    ReportUnresolvedIssues,
    /// Report pull requests: the name given, those assigned to the owner,
    /// those waiting for the owner's review.
    ReportPullRequests(String, bool, bool),
    /// The thing asked to be counted cannot be counted.
    Uncountable,
}

/// Mathematical value of an [`Action`].
pub enum ActionView {
    Reply(Seq<char>),
    Greet(bool),
    RandomNumber,
    ReportTasks(Seq<char>),
    CountTasks(Seq<char>, bool),
    CountUnresolvedIssues(Seq<char>, bool),
    ReportUnresolvedIssues,
    ReportPullRequests(Seq<char>, bool, bool),
    Uncountable,
}

impl View for Action {
    type V = ActionView;

    open spec fn view(&self) -> ActionView {
        match self {
            Action::Reply(s) => ActionView::Reply(s@),
            Action::Greet(b) => ActionView::Greet(*b),
            Action::RandomNumber => ActionView::RandomNumber,
            Action::ReportTasks(s) => ActionView::ReportTasks(s@),
            Action::CountTasks(s, b) => ActionView::CountTasks(s@, *b),
            Action::CountUnresolvedIssues(s, b) => ActionView::CountUnresolvedIssues(s@, *b),
            Action::ReportUnresolvedIssues => ActionView::ReportUnresolvedIssues,
            Action::ReportPullRequests(s, a, u) => ActionView::ReportPullRequests(s@, *a, *u),
            Action::Uncountable => ActionView::Uncountable,
        }
    }
}

pub open spec fn msg_tell_what() -> Seq<char> {
    "何について知りたいの？"@
}

pub open spec fn msg_resolved_issues() -> Seq<char> {
    "Issues(unresolved=false)?"@
}

/// How a count is answered.
pub open spec fn count_plan(t: TellView) -> ActionView {
    match t {
        TellView::Issues(uc, afr, unresolved) => if unresolved {
            ActionView::CountUnresolvedIssues(uc, afr)
        } else {
            ActionView::Uncountable
        },
        TellView::Tasks(uc, afr, _) => ActionView::CountTasks(uc, afr),
        _ => ActionView::Uncountable,
    }
}

/// What carrying out a command takes.
pub open spec fn plan_spec(c: CommandView) -> ActionView {
    match c {
        CommandView::Greeting(polite) => ActionView::Greet(polite),
        CommandView::Tell(None) => ActionView::Reply(msg_tell_what()),
        CommandView::Tell(Some(t)) => match t {
            TellView::RandomNumber => ActionView::RandomNumber,
            TellView::Tasks(uc, _, _) => ActionView::ReportTasks(uc),
            TellView::CountOf(b) => count_plan(*b),
            TellView::Issues(_, _, unresolved) => if unresolved {
                ActionView::ReportUnresolvedIssues
            } else {
                ActionView::Reply(msg_resolved_issues())
            },
            TellView::PullRequests(oa, ur, uc) => ActionView::ReportPullRequests(uc, oa, ur),
        },
        CommandView::EndWorking(_, _) => ActionView::Reply(workend_text()),
    }
}

impl<R> CommandExecutor<R> {
    /// An executor that shares the given remote services.
    pub fn new(remote: &Arc<R>) -> (r: Self)
        ensures
            r.remote == *remote,
    {
        CommandExecutor { remote: share(remote) }
    }

    fn count_plan(what: TellWhat) -> (r: Action)
        ensures
            r@ == count_plan(what@),
    {
        match what {
            TellWhat::Issues { user_calls, ask_for_remains, unresolved } => if unresolved {
                Action::CountUnresolvedIssues(user_calls, ask_for_remains)
            } else {
                Action::Uncountable
            },
            TellWhat::Tasks(user_calls, afr, _) => Action::CountTasks(user_calls, afr),
            _ => Action::Uncountable,
        }
    }

    /// What carrying out `cmd` takes.
    pub fn plan(&self, cmd: Command) -> (r: Action)
        ensures
            r@ == plan_spec(cmd@),
    {
        match cmd {
            Command::Greeting(polite) => Action::Greet(polite),
            Command::Tell(None) => Action::Reply(String::from_str("何について知りたいの？")),
            Command::Tell(Some(tw)) => match tw {
                TellWhat::RandomNumber => Action::RandomNumber,
                TellWhat::Tasks(user_calls, _, _) => Action::ReportTasks(user_calls),
                TellWhat::CountOf(b) => Self::count_plan(*b),
                TellWhat::Issues { unresolved, .. } => if unresolved {
                    Action::ReportUnresolvedIssues
                } else {
                    Action::Reply(String::from_str("Issues(unresolved=false)?"))
                },
                TellWhat::PullRequests { opened_assignee, unreviewed, user_calls } => Action::ReportPullRequests(
                    user_calls,
                    opened_assignee,
                    unreviewed,
                ),
            },
            Command::EndWorking(_, _) => Action::Reply(workend_message()),
        }
    }
}

/// A random number, written in decimal.
pub fn random_number_reply() -> (r: String)
    ensures
        exists|n: i64| r@ == signed_decimal(n as int),
{
    let n = random_i64();
    i64_to_decimal(n)
}

/// The phrases around a newcomer's names (before, after).
pub open spec fn first_contact_phrases() -> Seq<(Seq<char>, Seq<char>)> {
    seq![
        ("はじめまして！"@, "...さん？"@),
        ("わぁー、"@, "さん？はじめまして！"@),
        (""@, "さん！これからよろしくね。"@),
    ]
}

/// The answer to a newcomer who gave the GitHub login `login`, given what
/// GitHub answered about that login.
pub open spec fn first_contact_text(login: Seq<char>, resp: GitHubResponse<FullUserInfo>, pick: int) -> Seq<
    char,
> {
    match resp {
        GitHubResponse::Success(u) => {
            let p = first_contact_phrases()[pick];
            p.0 + login + "("@ + u.name@ + ")"@ + p.1
        },
        GitHubResponse::Failed { message } => if message@ == "Not Found"@ {
            "誰......？"@
        } else {
            "GitHubResponse Failed: "@ + message@
        },
    }
}

/// The answer to a newcomer, with the given choice of phrases.
pub fn first_contact_reply_with(login: &str, resp: &GitHubResponse<FullUserInfo>, pick: usize) -> (r: String)
    requires
        pick < 3,
    ensures
        r@ == first_contact_text(login@, *resp, pick as int),
{
    match resp {
        GitHubResponse::Success(u) => {
            let (pre, post) = if pick == 0 {
                ("はじめまして！", "...さん？")
            } else if pick == 1 {
                ("わぁー、", "さん？はじめまして！")
            } else {
                ("", "さん！これからよろしくね。")
            };
            let mut s = String::from_str(pre);
            s.append(login);
            s.append("(");
            s.append(u.name.as_str());
            s.append(")");
            s.append(post);
            s
        },
        GitHubResponse::Failed { message } => if str_eq(message.as_str(), "Not Found") {
            String::from_str("誰......？")
        } else {
            let mut s = String::from_str("GitHubResponse Failed: ");
            s.append(message.as_str());
            s
        },
    }
}

/// The answer to a newcomer, with the phrases picked at random.
pub fn first_contact_reply(login: &str, resp: &GitHubResponse<FullUserInfo>) -> (r: String)
    ensures
        exists|pick: int| 0 <= pick < 3 && r@ == first_contact_text(login@, *resp, pick),
{
    let pick = random_index(3);
    first_contact_reply_with(login, resp, pick)
}


/// How a member is greeted: at once when already at work, else once the
/// remaining tasks are gathered.
pub enum GreetingStep {
    Greet(String),
    GatherTasks,
}

/// The first step of a greeting, given when the member last came in and
/// left (as the store holds it).
pub fn greeting_step(last: &Option<UserLastTimes>, polite: bool) -> (r: GreetingStep)
    ensures
        working(*last) ==> (r matches GreetingStep::Greet(s) && exists|hello: int|
            0 <= hello < 2 && s@ == #[trigger] greeting_text(None, polite, hello, 0, 0)),
        !working(*last) ==> r is GatherTasks,
{
    if is_user_working(last) {
        let hello = random_index(2);
        GreetingStep::Greet(greeting_message_with(None, polite, hello, 0, 0))
    } else {
        GreetingStep::GatherTasks
    }
}

/// The greeting with the gathered tasks, and the works to record for the
/// day, one per task in order.
pub fn greeting_with_tasks(tasks: Vec<CurrentTaskState>, polite: bool) -> (r: (Vec<RemainingWork>, String))
    ensures
        r.0@.len() == tasks@.len(),
        forall|i: int| 0 <= i < tasks@.len() ==> #[trigger] r.0@[i] == work_of_task(tasks@[i]),
        exists|hello: int, intro: int, closing: int|
            0 <= hello < 2 && 0 <= intro < 2 && 0 <= closing < closing_phrases(tasks@.len() == 0, polite).len()
                && r.1@ == #[trigger] greeting_text(Some(tasks@), polite, hello, intro, closing),
{
    let works = remaining_works(&tasks);
    let ghost ts = tasks@;
    let hello = random_index(2);
    let intro = random_index(2);
    let closing = random_index(if polite && tasks.len() == 0 {
        2
    } else {
        3
    });
    let msg = greeting_message_with(Some(tasks), polite, hello, intro, closing);
    assert(msg@ == greeting_text(Some(ts), polite, hello as int, intro as int, closing as int));
    (works, msg)
}


/// Remaining tasks can always be counted, and so can the issues with
/// unresolved questions: a count of tasks is carried out by counting the
/// tasks under the name given, whatever the day; a count of unresolved
/// issues by counting those issues. Other issues, numbers and pull
/// requests cannot be counted.
pub proof fn law_counts_of_tasks_and_issues(name: Seq<char>, remaining: bool, day: int)
    ensures
        plan_spec(CommandView::Tell(Some(TellView::CountOf(Box::new(TellView::Tasks(name, remaining, day))))))
            == ActionView::CountTasks(name, remaining),
        plan_spec(CommandView::Tell(Some(TellView::CountOf(Box::new(TellView::Issues(name, remaining, true))))))
            == ActionView::CountUnresolvedIssues(name, remaining),
        plan_spec(CommandView::Tell(Some(TellView::CountOf(Box::new(TellView::Issues(name, remaining, false))))))
            == ActionView::Uncountable,
        plan_spec(CommandView::Tell(Some(TellView::CountOf(Box::new(TellView::RandomNumber)))))
            == ActionView::Uncountable,
        plan_spec(CommandView::Tell(Some(TellView::CountOf(Box::new(TellView::PullRequests(remaining, remaining, name))))))
            == ActionView::Uncountable,
{
}

} // verus!
