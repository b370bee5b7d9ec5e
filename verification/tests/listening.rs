use koyuki::bot::{is_respondable_message, rewriting_rules, Listener, Understanding};
use koyuki::detector::{CallBy, CallingSentenceDetector, Preverb};
use koyuki::rewriter::Rewriter;

#[test]
fn mention_calls_the_assistant() {
    let d = CallingSentenceDetector::new("UBOT");
    let (pv, by, rest) = d.check("<@UBOT>  おはよう").unwrap();
    assert_eq!(pv, None);
    assert_eq!(by, CallBy::Mention);
    assert_eq!(rest, "おはよう");
}

#[test]
fn name_calls_the_assistant() {
    let d = CallingSentenceDetector::new("UBOT");
    let (pv, by, rest) = d.check("こゆきちゃん、おはよう").unwrap();
    assert_eq!(pv, None);
    assert_eq!(by, CallBy::Name);
    assert_eq!(rest, "おはよう");
    let (_, by2, rest2) = d.check("こーゆーきさん!タスクは?").unwrap();
    assert_eq!(by2, CallBy::Name);
    assert_eq!(rest2, "タスクは?");
}

#[test]
fn other_sentences_do_not_call() {
    let d = CallingSentenceDetector::new("UBOT");
    assert!(d.check("おはよう").is_none());
    assert!(d.check("<@UOTHER> おはよう").is_none());
}

#[test]
fn leading_calls_are_dropped() {
    assert_eq!(CallingSentenceDetector::strip_precalls("ねぇねぇ、こゆきちゃん"), "こゆきちゃん");
    assert_eq!(CallingSentenceDetector::strip_precalls("はーい、こゆきちゃん"), "こゆきちゃん");
    assert_eq!(CallingSentenceDetector::strip_precalls("はこ"), "はこ");
    assert_eq!(CallingSentenceDetector::strip_precalls("こゆき"), "こゆき");
    let d = CallingSentenceDetector::new("UBOT");
    let (_, by, rest) = d.check("ねえねえ こゆきちゃん、タスクは?").unwrap();
    assert_eq!(by, CallBy::Name);
    assert_eq!(rest, "タスクは?");
}

#[test]
fn tell_before_the_call() {
    let d = CallingSentenceDetector::new("UBOT");
    let (pv, by, rest) = d.check("教えて！こゆきちゃん、タスク").unwrap();
    assert_eq!(pv, Some(Preverb::Tell));
    assert_eq!(by, CallBy::Name);
    assert_eq!(rest, "タスク");
}

#[test]
fn first_contact_after_the_call() {
    let d = CallingSentenceDetector::new("UBOT");
    let (pv, rest) = d.strip_preverbs_after("はじめまして！ Pctg-x8です");
    assert_eq!(pv, Some(Preverb::FirstContact));
    assert_eq!(rest, "Pctg-x8です");
    let (none, same) = d.strip_preverbs_after("おはよう");
    assert_eq!(none, None);
    assert_eq!(same, "おはよう");
}

#[test]
fn rewriting_normalizes_spellings() {
    let r = Rewriter::new(rewriting_rules());
    assert_eq!(r.rewrite("おはよー"), "おはよう");
    assert_eq!(r.rewrite("おはよね"), "おはようね");
    assert_eq!(r.rewrite("おはよ"), "おはよう");
    assert_eq!(r.rewrite("おはよう"), "おはよう");
    assert_eq!(r.rewrite("残りのタスク"), "残ってるタスク");
    assert_eq!(r.rewrite("おはようございますー"), "おはようございます");
    assert_eq!(r.rewrite(":pr:ある？"), "PRある？");
    assert_eq!(r.rewrite("なんかある"), "なにかある");
}

#[test]
fn rewriting_without_rules_keeps_the_text() {
    let r = Rewriter::new(vec![]);
    assert_eq!(r.rewrite("おはよー"), "おはよー");
}

#[test]
fn newcomer_gives_login() {
    let l = Listener::new("UBOT");
    match l.understand("<@UBOT> はじめまして！ Pctg-x8です！") {
        Some(Understanding::FirstContact(login)) => assert_eq!(login, "Pctg-x8"),
        _ => panic!("expected a first contact"),
    }
    match l.understand("はじめまして、こゆきちゃん！ octo_cat でーす") {
        Some(Understanding::Request(pv, rest)) => {
            assert_eq!(pv, Some(Preverb::FirstContact));
            assert_eq!(rest, " octo_cat でーす");
        },
        _ => panic!("a login followed by a space is no introduction"),
    }
}

#[test]
fn requests_are_rewritten() {
    let l = Listener::new("UBOT");
    match l.understand("こゆきちゃん、おはよー") {
        Some(Understanding::Request(pv, rest)) => {
            assert_eq!(pv, None);
            assert_eq!(rest, "おはよう");
        },
        _ => panic!("expected a request"),
    }
    assert!(l.understand("おはよう").is_none());
}

#[test]
fn respondable_messages() {
    assert!(is_respondable_message("UBOT", Some("UALICE"), false));
    assert!(!is_respondable_message("UBOT", Some("UBOT"), false));
    assert!(!is_respondable_message("UBOT", None, false));
    assert!(!is_respondable_message("UBOT", Some("UALICE"), true));
}
