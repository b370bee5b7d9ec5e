use koyuki::cabocha::{Chunk, Token, TreeRef};
use koyuki::callform::CallingForm;
use koyuki::command::{Command, DayOffset, TellWhat, TimeAt};
use koyuki::args::{JpArgument, JpArguments};

fn tok(surface: &str, features: &[&str]) -> Token {
    Token { surface: surface.to_string(), features: features.iter().map(|s| s.to_string()).collect() }
}

fn chunk(link: i32, pos: usize, size: usize) -> Chunk {
    Chunk { link, head_pos: 0, func_pos: 0, token_size: size, token_pos: pos }
}

fn ohayou_gozaimasu() -> TreeRef {
    TreeRef::new(
        vec![chunk(-1, 0, 3)],
        vec![
            tok("おはよう", &["感動詞", "*", "*", "*", "*", "*", "おはよう", "オハヨウ", "オハヨー"]),
            tok("ござい", &["助動詞", "*", "*", "*", "五段・ラ行特殊", "連用形", "ござる", "ゴザイ", "ゴザイ"]),
            tok("ます", &["助動詞", "*", "*", "*", "特殊・マス", "基本形", "ます", "マス", "マス"]),
        ],
    )
    .expect("a well-formed tree")
}

fn go_home_at(hour: &str) -> TreeRef {
    TreeRef::new(
        vec![chunk(1, 0, 3), chunk(-1, 3, 1)],
        vec![
            tok(hour, &["名詞", "数", "*", "*", "*", "*", "*"]),
            tok("時", &["名詞", "接尾", "助数詞", "*", "*", "*", "時", "ジ", "ジ"]),
            tok("に", &["助詞", "格助詞", "一般", "*", "*", "*", "に", "ニ", "ニ"]),
            tok("帰る", &["動詞", "自立", "*", "*", "五段・ラ行", "基本形", "帰る", "カエル", "カエル"]),
        ],
    )
    .expect("a well-formed tree")
}

fn tasks_question() -> TreeRef {
    TreeRef::new(
        vec![chunk(-1, 0, 3)],
        vec![
            tok("タスク", &["名詞", "一般", "*", "*", "*", "*", "タスク", "タスク", "タスク"]),
            tok("は", &["助詞", "係助詞", "*", "*", "*", "*", "は", "ハ", "ワ"]),
            tok("?", &["記号", "一般", "*", "*", "*", "*", "?", "?", "?"]),
        ],
    )
    .expect("a well-formed tree")
}

#[test]
fn tree_refuses_chunk_beyond_tokens() {
    let r = TreeRef::new(vec![chunk(-1, 0, 2)], vec![tok("a", &["名詞", "*", "*", "*", "*", "*", "a"])]);
    assert!(r.is_none());
}

#[test]
fn tree_refuses_link_to_the_left() {
    let t = || tok("a", &["名詞", "*", "*", "*", "*", "*", "a"]);
    let r = TreeRef::new(vec![chunk(-1, 0, 1), chunk(0, 1, 1)], vec![t(), t()]);
    assert!(r.is_none());
}

#[test]
fn tree_refuses_token_without_base_form() {
    let r = TreeRef::new(vec![chunk(-1, 0, 1)], vec![tok("a", &["名詞", "*"])]);
    assert!(r.is_none());
}

#[test]
fn reverse_deps_lists_each_chunk_once() {
    let t = || tok("a", &["名詞", "*", "*", "*", "*", "*", "a"]);
    let tree = TreeRef::new(
        vec![chunk(2, 0, 1), chunk(2, 1, 1), chunk(-1, 2, 1), chunk(-1, 3, 1)],
        vec![t(), t(), t(), t()],
    )
    .unwrap();
    let (roots, links) = tree.build_reverse_deps_tree();
    assert_eq!(roots, vec![2, 3]);
    assert_eq!(links.len(), 1);
    assert_eq!(links.get(&2), Some(&vec![0, 1]));
}

#[test]
fn token_accessors() {
    let tree = ohayou_gozaimasu();
    let t = tree.token(0).unwrap();
    assert_eq!(t.surface_normalized(), "おはよう");
    assert_eq!(t.primary_part(), "感動詞");
    assert_eq!(t.base_form(), "おはよう");
    assert_eq!(t.reading_form(), Some("オハヨウ"));
    assert_eq!(t.features().len(), 9);
    assert!(tree.token(3).is_none());
    assert_eq!(tree.chunk_size(), 1);
    assert!(tree.chunk(0).unwrap().is_root());
    assert_eq!(tree.chunk(0).unwrap().tokens(&tree).len(), 3);
    let numeral = tok("18", &["名詞", "数", "*", "*", "*", "*", "*"]);
    assert_eq!(numeral.reading_form(), None);
}

#[test]
fn polite_greeting_is_read_as_greeting() {
    let tree = ohayou_gozaimasu();
    let (roots, links) = tree.build_reverse_deps_tree();
    assert!(CallingForm::parse_defined(&tree, roots[0]));
    let form = CallingForm::parse(&tree, roots[0], &links).unwrap();
    match &form {
        CallingForm::Kando(k, polite) => {
            assert_eq!(*k, "おはよう");
            assert!(*polite);
        },
        _ => panic!("expected an interjection"),
    }
    assert!(Command::encode_defined(&form));
    assert!(matches!(Command::encode(&form), Ok(Command::Greeting(true))));
}

#[test]
fn going_home_at_six() {
    let tree = go_home_at("18");
    let (roots, links) = tree.build_reverse_deps_tree();
    assert_eq!(roots, vec![1]);
    let form = CallingForm::parse(&tree, 1, &links).unwrap();
    match &form {
        CallingForm::Verb(v, m, _) => {
            assert_eq!(*v, "帰る");
            assert!(!m.negative && !m.done);
        },
        _ => panic!("expected a verb"),
    }
    assert!(Command::encode_defined(&form));
    match Command::encode(&form) {
        Ok(Command::EndWorking(Some(t), d)) => {
            assert_eq!((t.hour, t.minute, t.ambiguous), (18, 0, false));
            assert_eq!(d.0, 0);
        },
        _ => panic!("expected the end of the working day"),
    }
}

#[test]
fn going_home_at_an_impossible_hour_is_not_encodable() {
    let tree = go_home_at("25");
    let (_, links) = tree.build_reverse_deps_tree();
    let form = CallingForm::parse(&tree, 1, &links).unwrap();
    assert!(!Command::encode_defined(&form));
}

#[test]
fn asking_about_tasks() {
    let tree = tasks_question();
    let (_, links) = tree.build_reverse_deps_tree();
    let form = CallingForm::parse(&tree, 0, &links).unwrap();
    assert!(matches!(form, CallingForm::ObjectNameQuery("タスク", _)));
    match Command::encode(&form) {
        Ok(Command::Tell(Some(TellWhat::Tasks(name, remaining, d)))) => {
            assert_eq!(name, "タスク");
            assert!(!remaining);
            assert_eq!(d.0, 0);
        },
        _ => panic!("expected a question about tasks"),
    }
}

#[test]
fn parse_chunk_keeps_postposition_apart() {
    let tree = go_home_at("18");
    let (_, links) = tree.build_reverse_deps_tree();
    let (arg, pp) = JpArgument::parse_chunk(&tree, 0, &links);
    assert_eq!(pp, Some("に"));
    assert_eq!(arg.flat_text(), "18時");
    assert!(arg.mods.is_empty());
    let (verb, none) = JpArgument::parse_chunk(&tree, 1, &links);
    assert_eq!(none, None);
    assert_eq!(verb.mods.with_postposition.len(), 1);
    assert_eq!(verb.mods.with_postposition[0].0, "に");
    assert_eq!(verb.to_string(), "18時に帰る");
    assert!(verb.first_standing_verb().is_some());
    assert!(verb.is_reading_form1_of("カエル"));
    assert!(verb.is_exact_reading_forms_of(&[Some("カエル")]));
    assert!(!verb.is_exact_reading_forms_of(&[Some("カエル"), None]));
    assert!(verb.mods.any_first_postposition(&["で", "に"]).is_some());
    assert!(verb.mods.any_first_postposition(&["を"]).is_none());
}

#[test]
fn time_of_day_from_argument() {
    let tree = go_home_at("9");
    let (_, links) = tree.build_reverse_deps_tree();
    let (arg, _) = JpArgument::parse_chunk(&tree, 0, &links);
    assert!(TimeAt::is_time_of_day(&arg));
    let t = TimeAt::encode(&arg).ok().unwrap();
    assert_eq!((t.hour, t.minute), (9, 0));
    let empty = JpArgument { mods: JpArguments::new(), text: vec![] };
    match TimeAt::encode(&empty) {
        Err(m) => assert_eq!(m, "時間を指定してほしいな？"),
        Ok(_) => panic!("no time is given"),
    }
}

#[test]
fn day_offsets() {
    assert_eq!(DayOffset::encode("アシタ").map(|d| d.0), Some(1));
    assert_eq!(DayOffset::encode("ツギ").map(|d| d.0), Some(1));
    assert_eq!(DayOffset::encode("キノウ").map(|d| d.0), Some(-1));
    assert_eq!(DayOffset::encode("センジツ").map(|d| d.0), Some(-1));
    assert_eq!(DayOffset::encode("イマ").map(|d| d.0), Some(0));
    assert!(DayOffset::encode("アサッテ").is_none());
}

#[test]
fn nouns_without_modifiers() {
    let none = JpArguments::new();
    match TellWhat::encode_for1("献立", &none) {
        Ok(TellWhat::Tasks(n, false, d)) => {
            assert_eq!(n, "献立");
            assert_eq!(d.0, 0);
        },
        _ => panic!("expected tasks"),
    }
    assert!(matches!(TellWhat::encode_for1("数", &none), Ok(TellWhat::RandomNumber)));
    match TellWhat::encode_for1("PR", &none) {
        Ok(TellWhat::PullRequests { opened_assignee, unreviewed, user_calls }) => {
            assert!(!opened_assignee && !unreviewed);
            assert_eq!(user_calls, "PR");
        },
        _ => panic!("expected pull requests"),
    }
    match TellWhat::encode_for1("課題", &none) {
        Ok(TellWhat::Issues { user_calls, ask_for_remains, unresolved }) => {
            assert_eq!(user_calls, "課題");
            assert!(!ask_for_remains && !unresolved);
        },
        _ => panic!("expected issues"),
    }
    match TellWhat::encode_for1("ほげ", &none) {
        Err(m) => assert_eq!(m, "「ほげ」についてはよくわからないんだー......"),
        Ok(_) => panic!("unknown noun"),
    }
    assert!(matches!(TellWhat::RandomNumber.count_of(), TellWhat::CountOf(_)));
}

fn single_chunk(tokens: Vec<Token>) -> TreeRef {
    let n = tokens.len();
    TreeRef::new(vec![chunk(-1, 0, n)], tokens).expect("a well-formed tree")
}

#[test]
fn asking_about_the_assistant_herself() {
    let tree = single_chunk(vec![
        tok("こゆき", &["名詞", "固有名詞", "人名", "名", "*", "*", "こゆき", "コユキ", "コユキ"]),
        tok("は", &["助詞", "係助詞", "*", "*", "*", "*", "は", "ハ", "ワ"]),
        tok("?", &["記号", "一般", "*", "*", "*", "*", "?", "?", "?"]),
    ]);
    let (_, links) = tree.build_reverse_deps_tree();
    let form = CallingForm::parse(&tree, 0, &links).unwrap();
    assert!(matches!(form, CallingForm::PeopleNameQuery("こゆき", _)));
    match koyuki::bot::command_of(&form) {
        Err(koyuki::exec::ProcessError::RecognizationFailure(m)) => assert_eq!(m, "私がどうかしたの？"),
        _ => panic!("a question about the assistant is no command"),
    }
}

#[test]
fn unknown_interjection_is_not_understood() {
    let tree = single_chunk(vec![tok(
        "こんにちは",
        &["感動詞", "*", "*", "*", "*", "*", "こんにちは", "コンニチハ", "コンニチワ"],
    )]);
    let (_, links) = tree.build_reverse_deps_tree();
    let form = CallingForm::parse(&tree, 0, &links).unwrap();
    assert!(matches!(form, CallingForm::Kando("こんにちは", false)));
    match Command::encode(&form) {
        Err(m) => assert_eq!(m, "なに話してくれたのかちょっとわからないや......"),
        Ok(_) => panic!("only おはよう is a greeting"),
    }
}

#[test]
fn what_without_subject_asks_back() {
    let tree = single_chunk(vec![
        tok("なに", &["名詞", "代名詞", "一般", "*", "*", "*", "なに", "ナニ", "ナニ"]),
        tok("?", &["記号", "一般", "*", "*", "*", "*", "?", "?", "?"]),
    ]);
    let (_, links) = tree.build_reverse_deps_tree();
    let form = CallingForm::parse(&tree, 0, &links).unwrap();
    assert!(matches!(form, CallingForm::MeishiQuery("ナニ", _)));
    assert!(matches!(Command::encode(&form), Ok(Command::Tell(None))));
}

#[test]
fn noun_question_without_reading_is_not_parsable() {
    let tree = single_chunk(vec![
        tok("ほげ", &["名詞", "一般", "*", "*", "*", "*", "*"]),
        tok("?", &["記号", "一般", "*", "*", "*", "*", "?", "?", "?"]),
    ]);
    assert!(!CallingForm::parse_defined(&tree, 0));
}

#[test]
fn unknown_verb_is_asked_about() {
    let tree = single_chunk(vec![tok("走る", &["動詞", "自立", "*", "*", "五段・ラ行", "基本形", "走る", "ハシル", "ハシル"])]);
    let (_, links) = tree.build_reverse_deps_tree();
    let form = CallingForm::parse(&tree, 0, &links).unwrap();
    match Command::encode(&form) {
        Err(m) => assert_eq!(m, "「走る」ってなに？"),
        Ok(_) => panic!("走る is no command"),
    }
}

fn time_error(tokens: &[Token]) -> String {
    let arg = JpArgument { mods: JpArguments::new(), text: tokens.iter().collect() };
    match TimeAt::encode(&arg) {
        Err(m) => m,
        Ok(t) => panic!("no time expected, got {}:{}", t.hour, t.minute),
    }
}

#[test]
fn times_that_cannot_be_read() {
    let num = |s: &str| tok(s, &["名詞", "数", "*", "*", "*", "*", "*"]);
    let ji = tok("時", &["名詞", "接尾", "助数詞", "*", "*", "*", "時", "ジ", "ジ"]);
    let colon = tok(":", &["記号", "一般", "*", "*", "*", "*", ":", ":", ":"]);
    let fun = tok("分", &["名詞", "接尾", "助数詞", "*", "*", "*", "分", "フン", "フン"]);
    assert_eq!(time_error(&[num("十")]), "何時かわからないや......");
    assert_eq!(time_error(&[num("18"), fun]), "何時かわからないや......");
    assert_eq!(time_error(&[num("18"), ji.clone_token(), num("三十")]), "何分かわからないや......");
    assert_eq!(time_error(&[num("18"), colon.clone_token()]), "時間指定間違えてたりしない？");
    assert_eq!(time_error(&[num("18"), colon, num("半")]), "何分かわからないや......");
    let arg = JpArgument { mods: JpArguments::new(), text: vec![&ji] };
    assert!(TimeAt::is_time_of_day(&arg));
}

trait CloneToken {
    fn clone_token(&self) -> Token;
}
impl CloneToken for Token {
    fn clone_token(&self) -> Token {
        Token { surface: self.surface.clone(), features: self.features.clone() }
    }
}

#[test]
fn time_with_minutes_and_approximation() {
    let num = |s: &str| tok(s, &["名詞", "数", "*", "*", "*", "*", "*"]);
    let colon = tok(":", &["記号", "一般", "*", "*", "*", "*", ":", ":", ":"]);
    let kurai = tok("くらい", &["助詞", "副助詞", "*", "*", "*", "*", "くらい", "クライ", "クライ"]);
    let (h, m) = (num("17"), num("45"));
    let arg = JpArgument { mods: JpArguments::new(), text: vec![&h, &colon, &m, &kurai] };
    let t = TimeAt::encode(&arg).ok().unwrap();
    assert_eq!((t.hour, t.minute, t.ambiguous), (17, 45, true));
}

#[test]
fn dependency_trace() {
    let tree = go_home_at("18");
    let (roots, links) = tree.build_reverse_deps_tree();
    assert_eq!(
        koyuki::trace::rdeptree_dump(&tree, &roots, &links),
        "dump-rdeptree:\n- 帰る(帰る)<動詞/自立/*>\n - 18(*)<名詞/数>-時(時)<名詞/接尾>-に(に)<助詞/格助詞>\n"
    );
    let running = TreeRef::new(
        vec![chunk(1, 0, 2), chunk(-1, 2, 1)],
        vec![
            tok("走っ", &["動詞", "自立", "*", "*", "五段・ラ行", "連用タ接続", "走る", "ハシッ", "ハシッ"]),
            tok("て", &["助詞", "接続助詞", "*", "*", "*", "*", "て", "テ", "テ"]),
            tok("帰る", &["動詞", "自立", "*", "*", "五段・ラ行", "基本形", "帰る", "カエル", "カエル"]),
        ],
    )
    .unwrap();
    let (r2, l2) = running.build_reverse_deps_tree();
    assert_eq!(
        koyuki::trace::rdeptree_dump(&running, &r2, &l2),
        "dump-rdeptree:\n- 帰る(帰る)<動詞/自立/*>\n - 走っ(走る)<動詞/自立>-て(て)<助詞/接続助詞> {Verbs:[\"走る\"]}\n"
    );
}
