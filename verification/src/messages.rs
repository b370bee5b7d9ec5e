//! The messages with which the assistant answers: greetings, task and
//! pull request reports. Where a phrase is picked at random, a
//! function here takes the pick as an argument and another one draws it.

use crate::random::random_index;
use crate::remote::{
    achievement_text, unresolved_text, CurrentTaskState, PullRequestInfo, TaskAchievementWriter,
    TaskUnresolvedCountWriter, UserInfo,
};
use crate::text::{decimal, join, join_strings, str_eq, u64_to_decimal};
use vstd::prelude::*;

verus! {

/// The opening greeting (two phrasings each).
pub open spec fn hello_phrases(polite: bool) -> Seq<Seq<char>> {
    if polite {
        seq!["おはようございます！"@, "おはようございまーす！"@]
    } else {
        seq!["おはよう！"@, "おはよ！"@]
    }
}

/// What introduces the task list (two phrasings each).
pub open spec fn intro_phrases(empty: bool, polite: bool) -> Seq<Seq<char>> {
    if empty {
        if polite {
            seq!["今日のタスクは...0です！"@, "残ってるお仕事はありませんよー。"@]
        } else {
            seq!["今残ってるタスクはないかな。"@, "今日の献立は......えーっと......ないかも"@]
        }
    } else {
        if polite {
            seq!["今日のタスクはこれですよー！"@, "残りのお仕事はこちらでーす。"@]
        } else {
            seq!["今残ってるタスクはこれだよ。"@, "今日の献立だよー:issue-o::pr::issue-o::pr:"@]
        }
    }
}

/// What closes the greeting.
pub open spec fn closing_phrases(empty: bool, polite: bool) -> Seq<Seq<char>> {
    if polite {
        if empty {
            seq!["それじゃ、今日も張り切って行きましょー！！"@, "毎日お疲れ様、今日も一日頑張って行きましょっ！"@]
        } else {
            seq![
                "それじゃ、今日も張り切って行きましょー！！"@,
                "毎日お疲れ様、今日も一日頑張って行きましょっ！"@,
                "まだまだ課題は山積みですよ！でもほどほどにこなしていきましょうね！"@,
            ]
        }
    } else {
        seq![
            "それじゃ、今日もはりきっていこー！！"@,
            "いつもお疲れ様。今日も頑張ってね！！"@,
            "毎日頑張ってるね！今日も無理せずいこうね！！"@,
        ]
    }
}

/// The progress lines of the tasks.
pub open spec fn task_lines(ts: Seq<CurrentTaskState>) -> Seq<Seq<char>> {
    Seq::new(ts.len(), |i: int| achievement_text(ts[i]))
}

/// The morning greeting; with the task list when it is given.
pub open spec fn greeting_text(
    tasks: Option<Seq<CurrentTaskState>>,
    polite: bool,
    hello: int,
    intro: int,
    closing: int,
) -> Seq<char> {
    let h = hello_phrases(polite)[hello];
    match tasks {
        Some(ts) => {
            let empty = ts.len() == 0;
            h + intro_phrases(empty, polite)[intro] + "\n"@ + join(task_lines(ts), "\n"@) + "\n"@
                + closing_phrases(empty, polite)[closing]
        },
        None => h,
    }
}

fn hello_phrase(polite: bool, i: usize) -> (r: &'static str)
    requires
        i < 2,
    ensures
        r@ == hello_phrases(polite)[i as int],
{
    if polite {
        if i == 0 {
            "おはようございます！"
        } else {
            "おはようございまーす！"
        }
    } else {
        if i == 0 {
            "おはよう！"
        } else {
            "おはよ！"
        }
    }
}

fn intro_phrase(empty: bool, polite: bool, i: usize) -> (r: &'static str)
    requires
        i < 2,
    ensures
        r@ == intro_phrases(empty, polite)[i as int],
{
    if empty {
        if polite {
            if i == 0 {
                "今日のタスクは...0です！"
            } else {
                "残ってるお仕事はありませんよー。"
            }
        } else {
            if i == 0 {
                "今残ってるタスクはないかな。"
            } else {
                "今日の献立は......えーっと......ないかも"
            }
        }
    } else {
        if polite {
            if i == 0 {
                "今日のタスクはこれですよー！"
            } else {
                "残りのお仕事はこちらでーす。"
            }
        } else {
            if i == 0 {
                "今残ってるタスクはこれだよ。"
            } else {
                "今日の献立だよー:issue-o::pr::issue-o::pr:"
            }
        }
    }
}

fn closing_count(empty: bool, polite: bool) -> (r: usize)
    ensures
        r == closing_phrases(empty, polite).len(),
{
    if polite && empty {
        2
    } else {
        3
    }
}

fn closing_phrase(empty: bool, polite: bool, i: usize) -> (r: &'static str)
    requires
        i < closing_phrases(empty, polite).len(),
    ensures
        r@ == closing_phrases(empty, polite)[i as int],
{
    if polite {
        if i == 0 {
            "それじゃ、今日も張り切って行きましょー！！"
        } else if i == 1 {
            "毎日お疲れ様、今日も一日頑張って行きましょっ！"
        } else {
            "まだまだ課題は山積みですよ！でもほどほどにこなしていきましょうね！"
        }
    } else {
        if i == 0 {
            "それじゃ、今日もはりきっていこー！！"
        } else if i == 1 {
            "いつもお疲れ様。今日も頑張ってね！！"
        } else {
            "毎日頑張ってるね！今日も無理せずいこうね！！"
        }
    }
}

/// The progress lines of the tasks.
pub fn task_line_strings(tasks: Vec<CurrentTaskState>) -> (r: Vec<String>)
    ensures
        Seq::new(r@.len(), |i: int| r@[i]@) == task_lines(tasks@),
{
    let ghost ts = tasks@;
    let mut out: Vec<String> = Vec::new();
    let mut tasks = tasks;
    let n = tasks.len();
    let mut i: usize = 0;
    while i < n
        invariant
            n == ts.len(),
            tasks@ == ts,
            i <= n,
            out@.len() == i,
            forall|k: int| 0 <= k < i ==> (#[trigger] out@[k])@ == achievement_text(ts[k]),
        decreases n - i,
    {
        let w = TaskAchievementWriter(CurrentTaskState {
            number: tasks[i].number,
            title: tasks[i].title.clone(),
            url: tasks[i].url.clone(),
            progress: tasks[i].progress,
            is_pr: tasks[i].is_pr,
            pipeline_stage_name: tasks[i].pipeline_stage_name.clone(),
        });
        assert(w.0 == ts[i as int]);
        out.push(w.to_string());
        i += 1;
    }
    assert(Seq::new(out@.len(), |i: int| out@[i]@) =~= task_lines(ts));
    out
}

pub open spec fn opt_tasks_view(t: Option<Vec<CurrentTaskState>>) -> Option<Seq<CurrentTaskState>> {
    match t {
        Some(v) => Some(v@),
        None => None,
    }
}

/// The morning greeting with the given phrase choices.
pub fn greeting_message_with(
    tasks: Option<Vec<CurrentTaskState>>,
    polite: bool,
    hello: usize,
    intro: usize,
    closing: usize,
) -> (r: String)
    requires
        hello < 2,
        tasks matches Some(ts) ==> intro < 2 && closing < closing_phrases(ts@.len() == 0, polite).len(),
    ensures
        r@ == greeting_text(opt_tasks_view(tasks), polite, hello as int, intro as int, closing as int),
{
    let h = hello_phrase(polite, hello);
    match tasks {
        Some(ts) => {
            let empty = ts.len() == 0;
            let intro_text = intro_phrase(empty, polite, intro);
            let closing_text = closing_phrase(empty, polite, closing);
            let lines = task_line_strings(ts);
            let body = join_strings(&lines, "\n");
            let mut s = String::from_str(h);
            s.append(intro_text);
            s.append("\n");
            s.append(body.as_str());
            s.append("\n");
            s.append(closing_text);
            s
        },
        None => String::from_str(h),
    }
}

/// The morning greeting, with phrases picked at random.
pub fn greeting_message(tasks: Option<Vec<CurrentTaskState>>, polite: bool) -> (r: String)
    ensures
        exists|hello: int, intro: int, closing: int|
            0 <= hello < 2 && 0 <= intro < 2 && 0 <= closing && (tasks matches Some(ts) ==> closing
                < closing_phrases(ts@.len() == 0, polite).len()) && r@ == greeting_text(
                opt_tasks_view(tasks),
                polite,
                hello,
                intro,
                closing,
            ),
{
    let hello = random_index(2);
    let (intro, closing) = match &tasks {
        Some(ts) => (random_index(2), random_index(closing_count(ts.len() == 0, polite))),
        None => (0, 0),
    };
    let r = greeting_message_with(tasks, polite, hello, intro, closing);
    assert(r@ == greeting_text(opt_tasks_view(tasks), polite, hello as int, intro as int, closing as int));
    r
}

/// The message at the end of the working day.
pub open spec fn workend_text() -> Seq<char> {
    "今日も一日お疲れさま！"@
}

pub fn workend_message() -> (r: String)
    ensures
        r@ == workend_text(),
{
    String::from_str("今日も一日お疲れさま！")
}

/// The answer to 「〜の数は？」.
pub open spec fn count_text(count: nat, user_calls: Seq<char>, ask_for_remains: bool) -> Seq<char> {
    user_calls + "は"@ + (if ask_for_remains {
        "あと"@
    } else {
        ""@
    }) + decimal(count) + "個だよー"@
}

pub fn report_count(count: usize, user_calls: &str, ask_for_remains: bool) -> (r: String)
    ensures
        r@ == count_text(count as nat, user_calls@, ask_for_remains),
{
    let mut s = String::from_str(user_calls);
    s.append("は");
    s.append(if ask_for_remains {
        "あと"
    } else {
        ""
    });
    let d = u64_to_decimal(count as u64);
    s.append(d.as_str());
    s.append("個だよー");
    s
}

/// The list of remaining tasks.
pub open spec fn tasks_text(user_calls: Seq<char>, tasks: Seq<CurrentTaskState>) -> Seq<char> {
    user_calls + "は以下の通りだよ:\n"@ + join(task_lines(tasks), "\n"@)
}

pub fn report_tasks(user_calls: &str, tasks: Vec<CurrentTaskState>) -> (r: String)
    ensures
        r@ == tasks_text(user_calls@, tasks@),
{
    let lines = task_line_strings(tasks);
    let body = join_strings(&lines, "\n");
    let mut s = String::from_str(user_calls);
    s.append("は以下の通りだよ:\n");
    s.append(body.as_str());
    s
}

/// The list of issues that still have unresolved questions.
pub open spec fn unresolved_issues_text(tasks: Seq<CurrentTaskState>) -> Seq<char> {
    if tasks.len() == 0 {
        "未解決の課題はないかなぁ"@
    } else {
        "まだ解決してないことがあるのは以下の課題だよー。忘れないようにね！"@ + "\n"@ + join(
            Seq::new(tasks.len(), |i: int| unresolved_text(tasks[i])),
            "\n"@,
        )
    }
}

pub fn report_unresolved_issues(tasks: Vec<CurrentTaskState>) -> (r: String)
    requires
        forall|i: int| 0 <= i < tasks@.len() ==> (#[trigger] tasks@[i]).progress.0 <= tasks@[i].progress.1,
    ensures
        r@ == unresolved_issues_text(tasks@),
{
    if tasks.len() == 0 {
        return String::from_str("未解決の課題はないかなぁ");
    }
    let ghost ts = tasks@;
    let mut lines: Vec<String> = Vec::new();
    let n = tasks.len();
    let mut i: usize = 0;
    while i < n
        invariant
            n == ts.len(),
            tasks@ == ts,
            forall|k: int| 0 <= k < ts.len() ==> (#[trigger] ts[k]).progress.0 <= ts[k].progress.1,
            i <= n,
            lines@.len() == i,
            forall|k: int| 0 <= k < i ==> (#[trigger] lines@[k])@ == unresolved_text(ts[k]),
        decreases n - i,
    {
        let w = TaskUnresolvedCountWriter(CurrentTaskState {
            number: tasks[i].number,
            title: tasks[i].title.clone(),
            url: tasks[i].url.clone(),
            progress: tasks[i].progress,
            is_pr: tasks[i].is_pr,
            pipeline_stage_name: tasks[i].pipeline_stage_name.clone(),
        });
        assert(w.0 == ts[i as int]);
        lines.push(w.to_string());
        i += 1;
    }
    assert(Seq::new(lines@.len(), |i: int| lines@[i]@) =~= Seq::new(
        ts.len(),
        |i: int| unresolved_text(ts[i]),
    ));
    let body = join_strings(&lines, "\n");
    let mut s = String::from_str("まだ解決してないことがあるのは以下の課題だよー。忘れないようにね！");
    s.append("\n");
    s.append(body.as_str());
    s
}

/// The member whose pull requests are asked about.
pub open spec fn owner_login() -> Seq<char> {
    "Pctg-x8"@
}

/// Whether one of the users has the login `login`.
pub open spec fn has_login(us: Seq<UserInfo>, login: Seq<char>) -> bool {
    exists|i: int| 0 <= i < us.len() && (#[trigger] us[i]).login@ == login
}

/// Whether a pull request is one of those asked about: assigned to the
/// owner, or waiting for the owner's review.
pub open spec fn pr_wanted(pr: PullRequestInfo, opened_assignee: bool, unreviewed: bool) -> bool {
    (opened_assignee && has_login(pr.assignees@, owner_login())) || (unreviewed && has_login(
        pr.requested_reviewers@,
        owner_login(),
    ))
}

/// The indices, in order, of the wanted pull requests among the first `n`.
pub open spec fn wanted_upto(prs: Seq<PullRequestInfo>, opened_assignee: bool, unreviewed: bool, n: nat) -> Seq<
    usize,
>
    decreases n,
{
    if n == 0 {
        seq![]
    } else {
        let rest = wanted_upto(prs, opened_assignee, unreviewed, (n - 1) as nat);
        if pr_wanted(prs[n - 1], opened_assignee, unreviewed) {
            rest.push((n - 1) as usize)
        } else {
            rest
        }
    }
}

fn has_login_exec(us: &Vec<UserInfo>, login: &str) -> (r: bool)
    ensures
        r == has_login(us@, login@),
{
    let n = us.len();
    let mut i: usize = 0;
    while i < n
        invariant
            n == us@.len(),
            i <= n,
            forall|k: int| 0 <= k < i ==> (#[trigger] us@[k]).login@ != login@,
        decreases n - i,
    {
        if str_eq(us[i].login.as_str(), login) {
            return true;
        }
        i += 1;
    }
    false
}

/// The indices, in order, of the pull requests assigned to the owner (when
/// `opened_assignee`) or waiting for the owner's review (when `unreviewed`).
pub fn wanted_pullrequests(prs: &Vec<PullRequestInfo>, opened_assignee: bool, unreviewed: bool) -> (r: Vec<usize>)
    ensures
        r@ == wanted_upto(prs@, opened_assignee, unreviewed, prs@.len()),
{
    let mut out: Vec<usize> = Vec::new();
    let n = prs.len();
    let mut i: usize = 0;
    proof {
        reveal_strlit("Pctg-x8");
    }
    while i < n
        invariant
            n == prs@.len(),
            i <= n,
            out@ == wanted_upto(prs@, opened_assignee, unreviewed, i as nat),
        decreases n - i,
    {
        let pr = &prs[i];
        let wanted = (opened_assignee && has_login_exec(&pr.assignees, "Pctg-x8")) || (unreviewed
            && has_login_exec(&pr.requested_reviewers, "Pctg-x8"));
        if wanted {
            out.push(i);
        }
        i += 1;
    }
    out
}

/// The wanted pull requests are exactly those asked about, each once, in
/// the order in which they come.
pub proof fn law_wanted_is_filter(prs: Seq<PullRequestInfo>, opened_assignee: bool, unreviewed: bool, n: nat)
    requires
        n <= prs.len(),
        prs.len() <= usize::MAX,
    ensures
        forall|i: int|
            0 <= i < n ==> (wanted_upto(prs, opened_assignee, unreviewed, n).contains(i as usize) <==> pr_wanted(
                prs[i],
                opened_assignee,
                unreviewed,
            )),
        forall|j: int, k: int|
            0 <= j < k < wanted_upto(prs, opened_assignee, unreviewed, n).len() ==> #[trigger] wanted_upto(
                prs,
                opened_assignee,
                unreviewed,
                n,
            )[j] < #[trigger] wanted_upto(prs, opened_assignee, unreviewed, n)[k],
        forall|j: int|
            0 <= j < wanted_upto(prs, opened_assignee, unreviewed, n).len() ==> #[trigger] wanted_upto(
                prs,
                opened_assignee,
                unreviewed,
                n,
            )[j] < n,
    decreases n,
{
    if n > 0 {
        let m = (n - 1) as nat;
        law_wanted_is_filter(prs, opened_assignee, unreviewed, m);
        let w0 = wanted_upto(prs, opened_assignee, unreviewed, m);
        let w = wanted_upto(prs, opened_assignee, unreviewed, n);
        assert forall|i: int| 0 <= i < n implies (w.contains(i as usize) <==> pr_wanted(
            prs[i],
            opened_assignee,
            unreviewed,
        )) by {
            if i < m {
                if w.contains(i as usize) {
                    let j = choose|j: int| 0 <= j < w.len() && w[j] == i as usize;
                    if j < w0.len() {
                        assert(w0[j] == i as usize);
                    }
                }
                if w0.contains(i as usize) {
                    let j = choose|j: int| 0 <= j < w0.len() && w0[j] == i as usize;
                    assert(w[j] == i as usize);
                }
            } else {
                if pr_wanted(prs[i], opened_assignee, unreviewed) {
                    assert(w[w.len() - 1] == i as usize);
                } else if w.contains(i as usize) {
                    let j = choose|j: int| 0 <= j < w.len() && w[j] == i as usize;
                    assert(w0[j] < m);
                }
            }
        }
    }
}

/// An index below `n` drawn at random; `None` when `n` is zero.
pub fn choose_index(n: usize) -> (r: Option<usize>)
    ensures
        r is None <==> n == 0,
        r matches Some(i) ==> i < n,
{
    if n == 0 {
        None
    } else {
        Some(random_index(n))
    }
}

/// What is answered when no pull request is open.
pub open spec fn no_pr_phrases() -> Seq<Seq<char>> {
    seq![
        "開いてるPRはないみたい"@,
        "開いてるPRはないみたいだね。その調子！"@,
        "うーん、ちょっと見当たらないかも......？"@,
        "今は届いてなさそうだね"@,
    ]
}

/// What is answered when none of the pull requests asked about is found.
pub open spec fn none_found_phrases(user_calls: Seq<char>) -> Seq<Seq<char>> {
    seq![
        user_calls + "はないみたい"@,
        user_calls + "はないみたいだね。その調子！"@,
        "うーん、ちょっと見当たらないかも......？"@,
        "今は届いてなさそうだね"@,
    ]
}

/// The answer that shows one open pull request, picked by the caller, or
/// says that none is open.
pub open spec fn picked_pr_text(line: Option<Seq<char>>, pick: int) -> Seq<char> {
    match line {
        Some(l) => "はい。\n"@ + l,
        None => no_pr_phrases()[pick],
    }
}

/// The answer that lists the pull requests asked about.
pub open spec fn found_prs_text(user_calls: Seq<char>, lines: Seq<Seq<char>>, pick: int) -> Seq<char> {
    if lines.len() == 0 {
        none_found_phrases(user_calls)[pick]
    } else {
        user_calls + "はこれかなー\n"@ + join(lines, "\n"@)
    }
}

/// The texts of the strings.
pub open spec fn string_views(ls: Seq<String>) -> Seq<Seq<char>> {
    Seq::new(ls.len(), |i: int| ls[i]@)
}

pub open spec fn opt_str_view(s: Option<&str>) -> Option<Seq<char>> {
    match s {
        Some(x) => Some(x@),
        None => None,
    }
}

fn no_pr_phrase(pick: usize) -> (r: &'static str)
    requires
        pick < 4,
    ensures
        r@ == no_pr_phrases()[pick as int],
{
    if pick == 0 {
        "開いてるPRはないみたい"
    } else if pick == 1 {
        "開いてるPRはないみたいだね。その調子！"
    } else if pick == 2 {
        "うーん、ちょっと見当たらないかも......？"
    } else {
        "今は届いてなさそうだね"
    }
}

/// The answer about a pull request picked among the open ones (its line),
/// or, when none is open, the phrase `pick`.
pub fn picked_pullrequest_reply_with(line: Option<&str>, pick: usize) -> (r: String)
    requires
        line is None ==> pick < 4,
    ensures
        r@ == picked_pr_text(opt_str_view(line), pick as int),
{
    match line {
        Some(l) => {
            let mut s = String::from_str("はい。\n");
            s.append(l);
            s
        },
        None => String::from_str(no_pr_phrase(pick)),
    }
}

/// The answer about a pull request picked among the open ones, with the
/// phrase picked at random.
pub fn picked_pullrequest_reply(line: Option<&str>) -> (r: String)
    ensures
        exists|pick: int| 0 <= pick < 4 && r@ == picked_pr_text(opt_str_view(line), pick),
{
    let pick = random_index(4);
    picked_pullrequest_reply_with(line, pick)
}

/// The answer that lists the pull requests asked about (their lines), or,
/// when there is none, the phrase `pick`.
pub fn found_pullrequests_reply_with(user_calls: &str, lines: &Vec<String>, pick: usize) -> (r: String)
    requires
        lines@.len() == 0 ==> pick < 4,
    ensures
        r@ == found_prs_text(user_calls@, string_views(lines@), pick as int),
{
    if lines.len() == 0 {
        let mut s = String::new();
        if pick == 0 {
            s.append(user_calls);
            s.append("はないみたい");
        } else if pick == 1 {
            s.append(user_calls);
            s.append("はないみたいだね。その調子！");
        } else if pick == 2 {
            s.append("うーん、ちょっと見当たらないかも......？");
        } else {
            s.append("今は届いてなさそうだね");
        }
        s
    } else {
        let body = join_strings(lines, "\n");
        let mut s = String::from_str(user_calls);
        s.append("はこれかなー\n");
        s.append(body.as_str());
        s
    }
}

/// The answer that lists the pull requests asked about, with the phrase
/// picked at random.
pub fn found_pullrequests_reply(user_calls: &str, lines: &Vec<String>) -> (r: String)
    ensures
        exists|pick: int|
            0 <= pick < 4 && r@ == #[trigger] found_prs_text(user_calls@, string_views(lines@), pick),
{
    let pick = random_index(4);
    found_pullrequests_reply_with(user_calls, lines, pick)
}


/// The first of the lines, if any.
pub open spec fn first_line(lines: Seq<String>) -> Option<Seq<char>> {
    if lines.len() == 0 {
        None
    } else {
        Some(lines[0]@)
    }
}

/// The pull requests that a report shows, by index: one picked at random
/// among the open ones when none in particular is asked about (none when
/// none is open); else those asked about, in order.
pub fn pick_pullrequests(prs: &Vec<PullRequestInfo>, opened_assignee: bool, unreviewed: bool) -> (r: Vec<usize>)
    ensures
        !opened_assignee && !unreviewed ==> r@.len() == (if prs@.len() == 0 {
            0int
        } else {
            1int
        }) && forall|i: int| 0 <= i < r@.len() ==> #[trigger] r@[i] < prs@.len(),
        opened_assignee || unreviewed ==> r@ == wanted_upto(prs@, opened_assignee, unreviewed, prs@.len()),
{
    if !opened_assignee && !unreviewed {
        match choose_index(prs.len()) {
            Some(i) => vec![i],
            None => Vec::new(),
        }
    } else {
        wanted_pullrequests(prs, opened_assignee, unreviewed)
    }
}

/// The report on pull requests, given the lines of those picked by
/// [`pick_pullrequests`] for the same question, with a phrase picked at
/// random where one is needed.
pub fn pullrequests_reply(user_calls: &str, opened_assignee: bool, unreviewed: bool, lines: &Vec<String>) -> (r:
    String)
    requires
        !opened_assignee && !unreviewed ==> lines@.len() <= 1,
    ensures
        !opened_assignee && !unreviewed ==> exists|pick: int|
            0 <= pick < 4 && r@ == #[trigger] picked_pr_text(first_line(lines@), pick),
        opened_assignee || unreviewed ==> exists|pick: int|
            0 <= pick < 4 && r@ == #[trigger] found_prs_text(user_calls@, string_views(lines@), pick),
{
    if !opened_assignee && !unreviewed {
        if lines.len() == 0 {
            picked_pullrequest_reply(None)
        } else {
            picked_pullrequest_reply(Some(lines[0].as_str()))
        }
    } else {
        found_pullrequests_reply(user_calls, lines)
    }
}

} // verus!
