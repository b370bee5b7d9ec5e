//! What the GitHub and ZenHub APIs answer, and the messages written from it.

use crate::text::{count_matches, count_occurrences, decimal, join, join_strings, lemma_count_bound, str_eq, u64_to_decimal};
use vstd::prelude::*;
use vstd::string::StrSliceExecFns;

verus! {

pub struct RepositoryInfo {
    pub id: usize,
}

pub struct PullRequestUrls {
    pub html_url: String,
}

pub struct IssueInfo {
    pub html_url: String,
    pub number: usize,
    pub title: String,
    pub body: String,
    pub pull_request: Option<PullRequestUrls>,
}

pub struct PullRequestInfo {
    pub number: usize,
    pub html_url: String,
    pub title: String,
    pub body: String,
    pub assignees: Vec<UserInfo>,
    pub requested_reviewers: Vec<UserInfo>,
}

pub struct UserInfo {
    pub login: String,
    pub id: u64,
}

pub struct FullUserInfo {
    pub login: String,
    pub id: u64,
    pub name: String,
}

pub struct ExtraIssueInfo {
    pub is_epic: bool,
    pub pipeline: PipelineInfo,
}

pub struct PipelineInfo {
    pub name: String,
}

/// An answer of the GitHub API: what was asked for, or the API's message.
pub enum GitHubResponse<T> {
    Success(T),
    Failed { message: String },
}

impl<T> GitHubResponse<T> {
    /// Applies `mapper` to a successful answer.
    pub fn map<F, U>(self, mapper: F) -> (r: GitHubResponse<U>) where F: FnOnce(T) -> U
        requires
            self matches GitHubResponse::Success(v) ==> call_requires(mapper, (v,)),
        ensures
            match self {
                GitHubResponse::Success(v) => r matches GitHubResponse::Success(u) && call_ensures(
                    mapper,
                    (v,),
                    u,
                ),
                GitHubResponse::Failed { message } => r == GitHubResponse::<U>::Failed { message },
            },
    {
        match self {
            GitHubResponse::Success(v) => GitHubResponse::Success(mapper(v)),
            GitHubResponse::Failed { message } => GitHubResponse::Failed { message },
        }
    }

    /// The answer of a successful call.
    pub fn unwrap(self) -> (r: T)
        requires
            self is Success,
        ensures
            self == GitHubResponse::Success(r),
    {
        match self {
            GitHubResponse::Success(v) => v,
            GitHubResponse::Failed { .. } => vstd::pervasive::unreached(),
        }
    }
}

/// A task (issue or pull request) assigned to a member: its number, title,
/// link, checklist progress (checked, total), kind and board column.
pub struct CurrentTaskState {
    pub number: usize,
    pub title: String,
    pub url: String,
    pub progress: (usize, usize),
    pub is_pr: bool,
    pub pipeline_stage_name: String,
}

/// An unchecked item of a Markdown checklist.
pub open spec fn unchecked_mark() -> Seq<char> {
    seq!['-', ' ', '[', ' ', ']']
}

/// A checked item of a Markdown checklist.
pub open spec fn checked_mark() -> Seq<char> {
    seq!['-', ' ', '[', 'x', ']']
}

/// The checklist progress of a body: checked items, and all items.
pub open spec fn progress_of(body: Seq<char>) -> (nat, nat) {
    (
        count_matches(body, checked_mark()),
        count_matches(body, unchecked_mark()) + count_matches(body, checked_mark()),
    )
}

/// The checklist progress of a body: checked items, and all items.
pub fn checklist_progress(body: &str) -> (r: (usize, usize))
    ensures
        (r.0 as nat, r.1 as nat) == progress_of(body@),
        r.0 <= r.1,
{
    proof {
        reveal_strlit("- [ ]");
        reveal_strlit("- [x]");
        assert("- [ ]"@ =~= unchecked_mark());
        assert("- [x]"@ =~= checked_mark());
    }
    let len = body.unicode_len();
    let unchecked = count_occurrences(body, "- [ ]");
    let checked = count_occurrences(body, "- [x]");
    proof {
        lemma_count_bound(body@, unchecked_mark());
        lemma_count_bound(body@, checked_mark());
    }
    (checked, unchecked + checked)
}

impl CurrentTaskState {
    /// The task state of an issue, with the board column that ZenHub gives.
    pub fn from_issue(issue: IssueInfo, exinfo: ExtraIssueInfo) -> (r: Self)
        ensures
            r.number == issue.number,
            r.title == issue.title,
            r.url == issue.html_url,
            (r.progress.0 as nat, r.progress.1 as nat) == progress_of(issue.body@),
            r.is_pr == issue.pull_request is Some,
            r.pipeline_stage_name == exinfo.pipeline.name,
    {
        let progress = checklist_progress(issue.body.as_str());
        CurrentTaskState {
            number: issue.number,
            title: issue.title,
            url: issue.html_url,
            progress,
            is_pr: issue.pull_request.is_some(),
            pipeline_stage_name: exinfo.pipeline.name,
        }
    }
}

/// The board column, emphasized while in progress.
pub open spec fn stage_text(name: Seq<char>) -> Seq<char> {
    if name == "In Progress"@ {
        "*"@ + name + " ステージ*"@
    } else {
        name + " ステージ"@
    }
}

fn stage_string(name: &str) -> (r: String)
    ensures
        r@ == stage_text(name@),
{
    if str_eq(name, "In Progress") {
        let mut s = String::from_str("*");
        s.append(name);
        s.append(" ステージ*");
        s
    } else {
        let mut s = String::from_str(name);
        s.append(" ステージ");
        s
    }
}

/// The icon of a task.
pub open spec fn icon_text(is_pr: bool) -> Seq<char> {
    if is_pr {
        "pr"@
    } else {
        "issue-o"@
    }
}

/// A task line: link, icon, number, title, then the details.
pub open spec fn task_line(t: CurrentTaskState, misc: Seq<char>) -> Seq<char> {
    "<"@ + t.url@ + "|:"@ + icon_text(t.is_pr) + ":#"@ + decimal(t.number as nat) + ">: "@ + t.title@
        + " ("@ + misc + ")"@
}

/// The line that reports the progress of a task.
pub open spec fn achievement_text(t: CurrentTaskState) -> Seq<char> {
    let stage = stage_text(t.pipeline_stage_name@);
    let misc = if t.progress.1 == 0 {
        stage
    } else {
        stage + ", "@ + decimal(t.progress.1 as nat) + "個中"@ + decimal(t.progress.0 as nat) + "個完了"@
    };
    task_line(t, misc)
}

/// The line that reports how much of a task is unresolved.
pub open spec fn unresolved_text(t: CurrentTaskState) -> Seq<char> {
    let stage = stage_text(t.pipeline_stage_name@);
    let misc = if t.progress.1 == 0 {
        stage
    } else {
        stage + ", "@ + decimal(t.progress.1 as nat) + "個中"@ + decimal((t.progress.1 - t.progress.0) as nat)
            + "個未解決"@
    };
    task_line(t, misc)
}

fn task_line_string(t: &CurrentTaskState, misc: &str) -> (r: String)
    ensures
        r@ == task_line(*t, misc@),
{
    let mut s = String::from_str("<");
    s.append(t.url.as_str());
    s.append("|:");
    s.append(if t.is_pr {
        "pr"
    } else {
        "issue-o"
    });
    s.append(":#");
    let num = u64_to_decimal(t.number as u64);
    s.append(num.as_str());
    s.append(">: ");
    s.append(t.title.as_str());
    s.append(" (");
    s.append(misc);
    s.append(")");
    s
}

/// Writes the progress of a task.
pub struct TaskAchievementWriter(pub CurrentTaskState);

impl TaskAchievementWriter {
    pub fn to_string(&self) -> (r: String)
        ensures
            r@ == achievement_text(self.0),
    {
        let t = &self.0;
        let stage = stage_string(t.pipeline_stage_name.as_str());
        let misc = if t.progress.1 == 0 {
            stage
        } else {
            let mut m = stage;
            m.append(", ");
            let total = u64_to_decimal(t.progress.1 as u64);
            m.append(total.as_str());
            m.append("個中");
            let done = u64_to_decimal(t.progress.0 as u64);
            m.append(done.as_str());
            m.append("個完了");
            m
        };
        task_line_string(t, misc.as_str())
    }
}

/// Writes how much of a task is unresolved.
pub struct TaskUnresolvedCountWriter(pub CurrentTaskState);

impl TaskUnresolvedCountWriter {
    pub fn to_string(&self) -> (r: String)
        requires
            self.0.progress.0 <= self.0.progress.1,
        ensures
            r@ == unresolved_text(self.0),
    {
        let t = &self.0;
        let stage = stage_string(t.pipeline_stage_name.as_str());
        let misc = if t.progress.1 == 0 {
            stage
        } else {
            let mut m = stage;
            m.append(", ");
            let total = u64_to_decimal(t.progress.1 as u64);
            m.append(total.as_str());
            m.append("個中");
            let left = u64_to_decimal((t.progress.1 - t.progress.0) as u64);
            m.append(left.as_str());
            m.append("個未解決");
            m
        };
        task_line_string(t, misc.as_str())
    }
}

/// A pull request with its board column and checklist progress
/// (checked, total).
pub struct OpenedPullRequestFormatter<'p>(pub &'p PullRequestInfo, pub ExtraIssueInfo, pub usize, pub usize);

/// The line that lists an open pull request.
pub open spec fn pr_line(pr: PullRequestInfo, stage_name: Seq<char>, checked: nat, total: nat) -> Seq<char> {
    let stage = stage_text(stage_name);
    let misc = if total == 0 {
        stage
    } else {
        stage + ", "@ + decimal(checked) + "個中"@ + decimal(total) + "個完了"@
    };
    "<"@ + pr.html_url@ + "|#"@ + decimal(pr.number as nat) + ">: "@ + pr.title@ + " ("@ + misc + ")"@
}

impl<'p> OpenedPullRequestFormatter<'p> {
    /// The formatter of a pull request, with the board column that ZenHub gives.
    pub fn new(pr: &'p PullRequestInfo, einfo: ExtraIssueInfo) -> (r: Self)
        ensures
            r.0 == pr,
            r.1 == einfo,
            (r.2 as nat, r.3 as nat) == progress_of(pr.body@),
    {
        let (checked, total) = checklist_progress(pr.body.as_str());
        OpenedPullRequestFormatter(pr, einfo, checked, total)
    }

    pub fn to_string(&self) -> (r: String)
        ensures
            r@ == pr_line(*self.0, self.1.pipeline.name@, self.2 as nat, self.3 as nat),
    {
        let stage = stage_string(self.1.pipeline.name.as_str());
        let misc = if self.3 == 0 {
            stage
        } else {
            let mut m = stage;
            m.append(", ");
            let a = u64_to_decimal(self.2 as u64);
            m.append(a.as_str());
            m.append("個中");
            let b = u64_to_decimal(self.3 as u64);
            m.append(b.as_str());
            m.append("個完了");
            m
        };
        let mut s = String::from_str("<");
        s.append(self.0.html_url.as_str());
        s.append("|#");
        let num = u64_to_decimal(self.0.number as u64);
        s.append(num.as_str());
        s.append(">: ");
        s.append(self.0.title.as_str());
        s.append(" (");
        s.append(misc.as_str());
        s.append(")");
        s
    }
}

} // verus!
