use koyuki::bot::{
    calling_forms, error_reply, idle_reply, idle_reply_with, mention, next_occurrence, Reply, DAY_SECS,
};
use koyuki::cabocha::{Chunk, Token, TreeRef};
use koyuki::callform::CallingForm;
use koyuki::command::{Command, DayOffset, TellWhat};
use koyuki::detector::Preverb;
use koyuki::exec::{
    greeting_step, greeting_with_tasks, GreetingStep,
    first_contact_reply, first_contact_reply_with, random_number_reply, Action, CommandExecutor, ProcessError, User,
};
use koyuki::persistent::{Moment, TimeOfDay, UserLastTimes};
use koyuki::remote::CurrentTaskState;
use koyuki::remote::{FullUserInfo, GitHubResponse};
use koyuki::slack::{ApiResult, AUTH_TEST_ENDPOINT};
use std::sync::Arc;

fn executor() -> CommandExecutor<()> {
    CommandExecutor::new(&Arc::new(()))
}

fn octocat() -> GitHubResponse<FullUserInfo> {
    GitHubResponse::Success(FullUserInfo { login: "octocat".to_string(), id: 1, name: "The Octocat".to_string() })
}

#[test]
fn identifying_users() {
    match User::Slack("U1").identify_as_github_id(Some((3, "alice".to_string()))) {
        Ok((id, login)) => assert_eq!((id, login.as_str()), (3, "alice")),
        Err(_) => panic!("a linked member is identified"),
    }
    assert!(matches!(User::Slack("U1").identify_as_github_id(None), Err(ProcessError::UserUnidentifiable)));
    match User::GitHub(9, "bob".to_string()).identify_as_github_id(None) {
        Ok((id, login)) => assert_eq!((id, login.as_str()), (9, "bob")),
        Err(_) => panic!("a GitHub account needs no lookup"),
    }
}

#[test]
fn planning_commands() {
    let e = executor();
    assert!(matches!(e.plan(Command::Greeting(true)), Action::Greet(true)));
    match e.plan(Command::Tell(None)) {
        Action::Reply(s) => assert_eq!(s, "何について知りたいの？"),
        _ => panic!("a reply is due"),
    }
    assert!(matches!(e.plan(Command::Tell(Some(TellWhat::RandomNumber))), Action::RandomNumber));
    match e.plan(Command::Tell(Some(TellWhat::Tasks("献立".to_string(), false, DayOffset(0))))) {
        Action::ReportTasks(s) => assert_eq!(s, "献立"),
        _ => panic!("tasks are listed"),
    }
    let issues = TellWhat::Issues { user_calls: "未解決の課題".to_string(), ask_for_remains: true, unresolved: true };
    match e.plan(Command::Tell(Some(issues.count_of()))) {
        Action::CountUnresolvedIssues(s, r) => {
            assert_eq!(s, "未解決の課題");
            assert!(r);
        },
        _ => panic!("unresolved issues are counted"),
    }
    assert!(matches!(e.plan(Command::Tell(Some(TellWhat::RandomNumber.count_of()))), Action::Uncountable));
    let solved = TellWhat::Issues { user_calls: "課題".to_string(), ask_for_remains: false, unresolved: false };
    match e.plan(Command::Tell(Some(solved))) {
        Action::Reply(s) => assert_eq!(s, "Issues(unresolved=false)?"),
        _ => panic!("a reply is due"),
    }
    let prs = TellWhat::PullRequests { opened_assignee: true, unreviewed: false, user_calls: "残ってるPR".to_string() };
    match e.plan(Command::Tell(Some(prs))) {
        Action::ReportPullRequests(s, a, u) => {
            assert_eq!(s, "残ってるPR");
            assert!(a && !u);
        },
        _ => panic!("pull requests are reported"),
    }
    match e.plan(Command::EndWorking(None, DayOffset(0))) {
        Action::Reply(s) => assert_eq!(s, "今日も一日お疲れさま！"),
        _ => panic!("a reply is due"),
    }
}

#[test]
fn random_numbers_are_decimal() {
    let s = random_number_reply();
    assert!(s.parse::<i64>().is_ok());
}

#[test]
fn first_contact_replies() {
    assert_eq!(first_contact_reply_with("octocat", &octocat(), 0), "はじめまして！octocat(The Octocat)...さん？");
    assert_eq!(first_contact_reply_with("octocat", &octocat(), 1), "わぁー、octocat(The Octocat)さん？はじめまして！");
    assert_eq!(first_contact_reply_with("octocat", &octocat(), 2), "octocat(The Octocat)さん！これからよろしくね。");
    let missing = GitHubResponse::Failed { message: "Not Found".to_string() };
    assert_eq!(first_contact_reply_with("nobody", &missing, 0), "誰......？");
    let other = GitHubResponse::Failed { message: "Bad credentials".to_string() };
    assert_eq!(first_contact_reply("x", &other), "GitHubResponse Failed: Bad credentials");
    assert!(first_contact_reply("octocat", &octocat()).contains("octocat(The Octocat)"));
}

#[test]
fn failures_are_answered() {
    let m = |e: ProcessError| match error_reply(e) {
        Reply::Mention(s) => (true, s),
        Reply::ErrorReport(s) => (false, s),
    };
    assert_eq!(m(ProcessError::RecognizationFailure("「x」？".to_string())), (true, "ごめんね、「x」？".to_string()));
    assert_eq!(m(ProcessError::UserUnidentifiable), (true, "だれ......？".to_string()));
    assert_eq!(m(ProcessError::UncountableObjective), (true, "数えられないよ！？".to_string()));
    assert_eq!(m(ProcessError::Network("timeout".to_string())), (false, "NetworkError: timeout".to_string()));
    assert_eq!(
        m(ProcessError::GithubAPIError("502".to_string())),
        (false, "Network Error while requesting to github api: 502".to_string())
    );
}

#[test]
fn replies_mention_the_user() {
    assert_eq!(mention("UALICE", "おはよう！"), "<@UALICE> おはよう！");
    assert_eq!(idle_reply_with(1), "呼んだー？");
    let r = idle_reply();
    assert!(["なぁに？", "呼んだー？", "呼んだ？", "どうしたの？"].contains(&r.as_str()));
}

#[test]
fn next_occurrences() {
    let midnight: i64 = 1609459200;
    let now = Moment { secs: midnight + 9 * 3600, nanos: 0 };
    let ten = TimeOfDay { secs: 10 * 3600, nanos: 0 };
    let eight = TimeOfDay { secs: 8 * 3600, nanos: 0 };
    assert_eq!(next_occurrence(&now, &ten), midnight + 10 * 3600);
    assert_eq!(next_occurrence(&now, &eight), midnight + DAY_SECS + 8 * 3600);
    let nine = TimeOfDay { secs: 9 * 3600, nanos: 0 };
    assert_eq!(next_occurrence(&now, &nine), midnight + 9 * 3600);
    let just_after = Moment { secs: midnight + 9 * 3600, nanos: 1 };
    assert_eq!(next_occurrence(&just_after, &nine), midnight + DAY_SECS + 9 * 3600);
    let before_epoch = Moment { secs: -1, nanos: 0 };
    assert_eq!(next_occurrence(&before_epoch, &TimeOfDay { secs: 86399, nanos: 0 }), -1);
    assert_eq!(next_occurrence(&before_epoch, &TimeOfDay { secs: 0, nanos: 0 }), 0);
}

fn tok(surface: &str, features: &[&str]) -> Token {
    Token { surface: surface.to_string(), features: features.iter().map(|s| s.to_string()).collect() }
}

#[test]
fn tell_preverb_reads_roots_as_what_to_tell() {
    let tree = TreeRef::new(
        vec![Chunk { link: -1, head_pos: 0, func_pos: 0, token_size: 1, token_pos: 0 }],
        vec![tok("タスク", &["名詞", "一般", "*", "*", "*", "*", "タスク", "タスク", "タスク"])],
    )
    .unwrap();
    let (roots, links) = tree.build_reverse_deps_tree();
    let forms = calling_forms(&tree, &roots, &links, Some(Preverb::Tell));
    assert_eq!(forms.len(), 1);
    match &forms[0] {
        CallingForm::Verb(v, _, env) => {
            assert_eq!(*v, "教える");
            assert_eq!(env.args.without_postposition.len(), 1);
            assert!(env.prenoun.is_none());
        },
        _ => panic!("expected 教える"),
    }
    match Command::encode(&forms[0]) {
        Ok(Command::Tell(Some(TellWhat::Tasks(n, _, _)))) => assert_eq!(n, "タスク"),
        _ => panic!("expected tasks"),
    }
    let plain = calling_forms(&tree, &roots, &links, None);
    assert_eq!(plain.len(), 0);
}

#[test]
fn slack_answers() {
    assert_eq!(ApiResult::Answered(3u8).into_result(), Ok(3));
    assert_eq!(ApiResult::<u8>::Errored("invalid_auth".to_string()).into_result(), Err("invalid_auth".to_string()));
    assert_eq!(AUTH_TEST_ENDPOINT, "https://slack.com/api/auth.test");
}

#[test]
fn greeting_steps() {
    let at = |i: i64, o: i64| Some(UserLastTimes { itime: Moment { secs: i, nanos: 0 }, otime: Moment { secs: o, nanos: 0 } });
    match greeting_step(&at(10, 5), false) {
        GreetingStep::Greet(m) => assert!(m == "おはよう！" || m == "おはよ！"),
        GreetingStep::GatherTasks => panic!("a member at work is greeted at once"),
    }
    assert!(matches!(greeting_step(&at(5, 10), true), GreetingStep::GatherTasks));
    assert!(matches!(greeting_step(&None, true), GreetingStep::GatherTasks));
    let t = CurrentTaskState {
        number: 3,
        title: "t".to_string(),
        url: "u".to_string(),
        progress: (1, 2),
        is_pr: false,
        pipeline_stage_name: "Backlog".to_string(),
    };
    let (works, m) = greeting_with_tasks(vec![t], true);
    assert_eq!(works.len(), 1);
    assert_eq!((works[0].issue_id, works[0].progress), (3, Some((1, 2))));
    assert!(m.contains("<u|:issue-o:#3>: t (Backlog ステージ, 2個中1個完了)"));
    let (none, m2) = greeting_with_tasks(vec![], true);
    assert!(none.is_empty());
    assert!(m2.contains("\n\n"));
}
