use koyuki::messages::{
    choose_index, found_pullrequests_reply, pick_pullrequests, pullrequests_reply, found_pullrequests_reply_with, greeting_message,
    greeting_message_with, picked_pullrequest_reply, picked_pullrequest_reply_with, report_count,
    report_tasks, report_unresolved_issues, task_line_strings, wanted_pullrequests, workend_message,
};
use koyuki::remote::{
    checklist_progress, CurrentTaskState, ExtraIssueInfo, GitHubResponse, IssueInfo, OpenedPullRequestFormatter,
    PipelineInfo, PullRequestInfo, PullRequestUrls, TaskAchievementWriter, TaskUnresolvedCountWriter, UserInfo,
};

fn task(number: usize, progress: (usize, usize), is_pr: bool, stage: &str) -> CurrentTaskState {
    CurrentTaskState {
        number,
        title: "Fix the build".to_string(),
        url: "https://example.com/i".to_string(),
        progress,
        is_pr,
        pipeline_stage_name: stage.to_string(),
    }
}

fn user(login: &str) -> UserInfo {
    UserInfo { login: login.to_string(), id: 1 }
}

fn pr(number: usize, assignees: Vec<UserInfo>, reviewers: Vec<UserInfo>) -> PullRequestInfo {
    PullRequestInfo {
        number,
        html_url: format!("https://example.com/pull/{}", number),
        title: "Add a feature".to_string(),
        body: "- [x] write\n- [ ] test\n- [x] review".to_string(),
        assignees,
        requested_reviewers: reviewers,
    }
}

fn board(stage: &str) -> ExtraIssueInfo {
    ExtraIssueInfo { is_epic: false, pipeline: PipelineInfo { name: stage.to_string() } }
}

#[test]
fn checklist_counts() {
    assert_eq!(checklist_progress("- [ ] a\n- [x] b\n- [x] c"), (2, 3));
    assert_eq!(checklist_progress("nothing"), (0, 0));
    assert_eq!(checklist_progress("- [X] upper case is not checked"), (0, 0));
}

#[test]
fn task_from_issue() {
    let issue = IssueInfo {
        html_url: "https://example.com/i/3".to_string(),
        number: 3,
        title: "T".to_string(),
        body: "- [ ] a\n- [x] b".to_string(),
        pull_request: Some(PullRequestUrls { html_url: "https://example.com/p/3".to_string() }),
    };
    let t = CurrentTaskState::from_issue(issue, board("Backlog"));
    assert_eq!(t.number, 3);
    assert_eq!(t.url, "https://example.com/i/3");
    assert_eq!(t.progress, (1, 2));
    assert!(t.is_pr);
    assert_eq!(t.pipeline_stage_name, "Backlog");
}

#[test]
fn task_lines() {
    let a = TaskAchievementWriter(task(12, (1, 3), false, "In Progress")).to_string();
    assert_eq!(a, "<https://example.com/i|:issue-o:#12>: Fix the build (*In Progress ステージ*, 3個中1個完了)");
    let b = TaskAchievementWriter(task(7, (0, 0), true, "Review")).to_string();
    assert_eq!(b, "<https://example.com/i|:pr:#7>: Fix the build (Review ステージ)");
    let c = TaskUnresolvedCountWriter(task(12, (1, 3), false, "In Progress")).to_string();
    assert_eq!(c, "<https://example.com/i|:issue-o:#12>: Fix the build (*In Progress ステージ*, 3個中2個未解決)");
}

#[test]
fn pull_request_line() {
    let p = pr(5, vec![], vec![]);
    let f = OpenedPullRequestFormatter::new(&p, board("Review"));
    assert_eq!((f.2, f.3), (2, 3));
    assert_eq!(f.to_string(), "<https://example.com/pull/5|#5>: Add a feature (Review ステージ, 2個中3個完了)");
}

#[test]
fn greeting_without_tasks() {
    assert_eq!(greeting_message_with(None, true, 0, 0, 0), "おはようございます！");
    assert_eq!(greeting_message_with(None, false, 1, 0, 0), "おはよ！");
}

#[test]
fn greeting_with_no_task_left() {
    let s = greeting_message_with(Some(vec![]), false, 1, 0, 2);
    assert_eq!(s, "おはよ！今残ってるタスクはないかな。\n\n毎日頑張ってるね！今日も無理せずいこうね！！");
    let p = greeting_message_with(Some(vec![]), true, 0, 1, 1);
    assert_eq!(p, "おはようございます！残ってるお仕事はありませんよー。\n\n毎日お疲れ様、今日も一日頑張って行きましょっ！");
}

#[test]
fn greeting_with_tasks() {
    let s = greeting_message_with(Some(vec![task(1, (0, 0), false, "Backlog"), task(2, (1, 2), true, "Review")]), true, 1, 0, 2);
    assert_eq!(
        s,
        "おはようございまーす！今日のタスクはこれですよー！\n<https://example.com/i|:issue-o:#1>: Fix the build (Backlog ステージ)\n<https://example.com/i|:pr:#2>: Fix the build (Review ステージ, 2個中1個完了)\nまだまだ課題は山積みですよ！でもほどほどにこなしていきましょうね！"
    );
}

#[test]
fn random_greeting_is_one_of_the_phrasings() {
    let s = greeting_message(None, false);
    assert!(s == "おはよう！" || s == "おはよ！");
    let t = greeting_message(Some(vec![]), true);
    assert!(t.starts_with("おはようございます！") || t.starts_with("おはようございまーす！"));
}

#[test]
fn counts_and_reports() {
    assert_eq!(report_count(3, "タスク", true), "タスクはあと3個だよー");
    assert_eq!(report_count(10, "課題", false), "課題は10個だよー");
    assert_eq!(workend_message(), "今日も一日お疲れさま！");
    let r = report_tasks("今日のタスク", vec![task(1, (0, 0), false, "Backlog")]);
    assert_eq!(r, "今日のタスクは以下の通りだよ:\n<https://example.com/i|:issue-o:#1>: Fix the build (Backlog ステージ)");
    assert_eq!(report_tasks("タスク", vec![]), "タスクは以下の通りだよ:\n");
    assert_eq!(task_line_strings(vec![]).len(), 0);
}

#[test]
fn unresolved_issue_reports() {
    assert_eq!(report_unresolved_issues(vec![]), "未解決の課題はないかなぁ");
    let r = report_unresolved_issues(vec![task(4, (1, 3), false, "In Progress")]);
    assert_eq!(
        r,
        "まだ解決してないことがあるのは以下の課題だよー。忘れないようにね！\n<https://example.com/i|:issue-o:#4>: Fix the build (*In Progress ステージ*, 3個中2個未解決)"
    );
}

#[test]
fn wanted_pull_requests_are_filtered() {
    let prs = vec![
        pr(1, vec![user("Pctg-x8")], vec![]),
        pr(2, vec![user("someone")], vec![user("Pctg-x8")]),
        pr(3, vec![], vec![]),
    ];
    assert_eq!(wanted_pullrequests(&prs, true, false), vec![0]);
    assert_eq!(wanted_pullrequests(&prs, false, true), vec![1]);
    assert_eq!(wanted_pullrequests(&prs, true, true), vec![0, 1]);
    assert_eq!(wanted_pullrequests(&prs, false, false), Vec::<usize>::new());
}

#[test]
fn pull_request_replies() {
    assert_eq!(picked_pullrequest_reply_with(Some("<u|#1>: x"), 0), "はい。\n<u|#1>: x");
    assert_eq!(picked_pullrequest_reply_with(None, 3), "今は届いてなさそうだね");
    assert_eq!(found_pullrequests_reply_with("未確認のPR", &vec![], 0), "未確認のPRはないみたい");
    assert_eq!(found_pullrequests_reply_with("未確認のPR", &vec![], 1), "未確認のPRはないみたいだね。その調子！");
    assert_eq!(
        found_pullrequests_reply_with("残ってるPR", &vec!["a".to_string(), "b".to_string()], 0),
        "残ってるPRはこれかなー\na\nb"
    );
    let r = picked_pullrequest_reply(None);
    assert!(["開いてるPRはないみたい", "開いてるPRはないみたいだね。その調子！", "うーん、ちょっと見当たらないかも......？", "今は届いてなさそうだね"].contains(&r.as_str()));
    let f = found_pullrequests_reply("PR", &vec!["x".to_string()]);
    assert_eq!(f, "PRはこれかなー\nx");
}

#[test]
fn choosing_indices() {
    assert_eq!(choose_index(0), None);
    for _ in 0..20 {
        let i = choose_index(3).unwrap();
        assert!(i < 3);
    }
}

#[test]
fn github_responses() {
    let r: GitHubResponse<u32> = GitHubResponse::Success(2);
    match r.map(|x| x * 10) {
        GitHubResponse::Success(v) => assert_eq!(v, 20),
        _ => panic!("a success stays a success"),
    }
    let f: GitHubResponse<u32> = GitHubResponse::Failed { message: "Not Found".to_string() };
    match f.map(|x| x + 1) {
        GitHubResponse::Failed { message } => assert_eq!(message, "Not Found"),
        _ => panic!("a failure stays a failure"),
    }
    assert_eq!(GitHubResponse::Success(5u8).unwrap(), 5);
}

#[test]
fn picking_pull_requests_for_a_report() {
    let prs = vec![pr(1, vec![user("Pctg-x8")], vec![]), pr(2, vec![], vec![user("Pctg-x8")])];
    assert_eq!(pick_pullrequests(&prs, false, true), vec![1]);
    assert_eq!(pick_pullrequests(&prs, true, true), vec![0, 1]);
    let any = pick_pullrequests(&prs, false, false);
    assert_eq!(any.len(), 1);
    assert!(any[0] < 2);
    assert!(pick_pullrequests(&vec![], false, false).is_empty());
    assert_eq!(pullrequests_reply("PR", false, false, &vec!["l".to_string()]), "はい。\nl");
    assert_eq!(pullrequests_reply("未確認のPR", false, true, &vec!["a".to_string()]), "未確認のPRはこれかなー\na");
    let none = pullrequests_reply("PR", false, false, &vec![]);
    assert!(none.contains("PR") || none.contains("今は") || none.contains("うーん"));
}
