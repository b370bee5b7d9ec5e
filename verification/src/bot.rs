//! The assistant's conversation: which messages it answers, how a message
//! is read into requests, how failures are answered, and when members are
//! greeted.

use crate::args::{args_add, empty_args, parse_chunk_spec, EnvView, JpArguments, JpCallingEnv, JpArgument};
use crate::cabocha::{linkmap_view, linkmap_wf, TreeRef};
use crate::callform::{form_defined, form_spec, form_wf, CallingForm, FormView, VerbModifier};
use crate::command::{command_defined, command_spec, Command};
use crate::detector::{check_spec, preverbs_after_spec, CallingSentenceDetector, Preverb};
use crate::exec::ProcessError;
use crate::pattern::{regex_capture, Pattern};
use crate::persistent::{Moment, TimeOfDay};
use crate::random::random_index;
use crate::rewriter::{rewrite_spec, Rewriter};
use crate::text::str_eq;
use std::collections::BTreeMap;
use vstd::arithmetic::div_mod::lemma_fundamental_div_mod_converse;
use vstd::prelude::*;

verus! {

/// A notification due to a member: the Slack id, the GitHub id and login.
pub enum UserNotify {
    /// The working day begins.
    Hello(String, i32, String),
    /// The working day ends.
    ByeReport(String, i32, String),
}

/// Whether the assistant answers a message: one written by a user other
/// than the assistant itself, and with no subtype (no edit, no bot post).
pub fn is_respondable_message(bot_user: &str, user: Option<&str>, has_subtype: bool) -> (r: bool)
    ensures
        r == (user matches Some(u) && u@ != bot_user@ && !has_subtype),
{
    match user {
        None => false,
        Some(u) => !str_eq(u, bot_user) && !has_subtype,
    }
}

/// A reply that mentions `user`.
pub open spec fn mention_text(user: Seq<char>, msg: Seq<char>) -> Seq<char> {
    "<@"@ + user + "> "@ + msg
}

/// A reply that mentions `user`.
pub fn mention(user: &str, msg: &str) -> (r: String)
    ensures
        r@ == mention_text(user@, msg@),
{
    let mut s = String::from_str("<@");
    s.append(user);
    s.append("> ");
    s.append(msg);
    s
}

/// The channel where the daily greetings are posted.
pub const RESPONSE_CHANNEL: &'static str = "CDQ0SLXG8";

/// How a failure is answered: a reply to the user, or an error report
/// (with its detail) posted beside the user's message.
pub enum Reply {
    Mention(String),
    ErrorReport(String),
}

/// Mathematical value of a [`Reply`].
pub enum ReplyView {
    Mention(Seq<char>),
    ErrorReport(Seq<char>),
}

impl View for Reply {
    type V = ReplyView;

    open spec fn view(&self) -> ReplyView {
        match self {
            Reply::Mention(s) => ReplyView::Mention(s@),
            Reply::ErrorReport(s) => ReplyView::ErrorReport(s@),
        }
    }
}

/// How each failure is answered.
pub open spec fn error_reply_spec(e: ProcessError) -> ReplyView {
    match e {
        ProcessError::RecognizationFailure(m) => ReplyView::Mention("ごめんね、"@ + m@),
        ProcessError::UserUnidentifiable => ReplyView::Mention("だれ......？"@),
        ProcessError::UncountableObjective => ReplyView::Mention("数えられないよ！？"@),
        ProcessError::Network(d) => ReplyView::ErrorReport("NetworkError: "@ + d@),
        ProcessError::GithubAPIError(d) => ReplyView::ErrorReport(
            "Network Error while requesting to github api: "@ + d@,
        ),
    }
}

/// How a failure is answered.
pub fn error_reply(e: ProcessError) -> (r: Reply)
    ensures
        r@ == error_reply_spec(e),
{
    match e {
        ProcessError::RecognizationFailure(m) => {
            let mut s = String::from_str("ごめんね、");
            s.append(m.as_str());
            Reply::Mention(s)
        },
        ProcessError::UserUnidentifiable => Reply::Mention(String::from_str("だれ......？")),
        ProcessError::UncountableObjective => Reply::Mention(String::from_str("数えられないよ！？")),
        ProcessError::Network(d) => {
            let mut s = String::from_str("NetworkError: ");
            s.append(d.as_str());
            Reply::ErrorReport(s)
        },
        ProcessError::GithubAPIError(d) => {
            let mut s = String::from_str("Network Error while requesting to github api: ");
            s.append(d.as_str());
            Reply::ErrorReport(s)
        },
    }
}

/// What is answered to a call that asks for nothing.
pub open spec fn idle_phrases() -> Seq<Seq<char>> {
    seq!["なぁに？"@, "呼んだー？"@, "呼んだ？"@, "どうしたの？"@]
}

/// The answer to a call that asks for nothing, phrase `pick`.
pub fn idle_reply_with(pick: usize) -> (r: String)
    requires
        pick < 4,
    ensures
        r@ == idle_phrases()[pick as int],
{
    String::from_str(
        if pick == 0 {
            "なぁに？"
        } else if pick == 1 {
            "呼んだー？"
        } else if pick == 2 {
            "呼んだ？"
        } else {
            "どうしたの？"
        },
    )
}

/// The answer to a call that asks for nothing, picked at random.
pub fn idle_reply() -> (r: String)
    ensures
        exists|pick: int| 0 <= pick < 4 && r@ == idle_phrases()[pick],
{
    let pick = random_index(4);
    idle_reply_with(pick)
}

/// Seconds in a day.
pub const DAY_SECS: i64 = 86400;

/// The next time, at or after `now` (to the nanosecond), that the clock
/// reads `at`; as seconds since the epoch, on the day of `now` or the next.
pub open spec fn next_occurrence_spec(now: Moment, at: TimeOfDay) -> int {
    let day = (now.secs as int) / (DAY_SECS as int);
    let tod = (now.secs as int) % (DAY_SECS as int);
    let passed = tod > at.secs || (tod == at.secs && now.nanos > at.nanos);
    (if passed {
        day + 1
    } else {
        day
    }) * DAY_SECS + at.secs
}

/// The next time, at or after `now`, that the clock reads `at`.
pub fn next_occurrence(now: &Moment, at: &TimeOfDay) -> (r: i64)
    requires
        at.secs < DAY_SECS,
        i64::MIN + DAY_SECS <= now.secs <= i64::MAX - 2 * DAY_SECS,
    ensures
        r == next_occurrence_spec(*now, *at),
{
    let secs = now.secs;
    let (day, tod): (i64, i64) = if secs >= 0 {
        let s = secs as u64;
        proof {
            lemma_fundamental_div_mod_converse(secs as int, DAY_SECS as int, (s / 86400) as int, (s % 86400) as int);
        }
        ((s / 86400) as i64, (s % 86400) as i64)
    } else {
        let m = (-(secs + 1)) as u64;
        let q = (m / 86400) as i64;
        let rem = (m % 86400) as i64;
        proof {
            assert(m == 86400 * (m / 86400) + m % 86400) by (nonlinear_arith);
            lemma_fundamental_div_mod_converse(secs as int, DAY_SECS as int, -q - 1, 86399 - rem);
        }
        (-q - 1, 86399 - rem)
    };
    proof {
        assert(day * DAY_SECS <= secs) by (nonlinear_arith)
            requires
                day == (secs as int) / (DAY_SECS as int),
                DAY_SECS == 86400,
        ;
        assert(day * DAY_SECS > secs - DAY_SECS) by (nonlinear_arith)
            requires
                day == (secs as int) / (DAY_SECS as int),
                DAY_SECS == 86400,
        ;
    }
    let passed = tod > at.secs as i64 || (tod == at.secs as i64 && now.nanos > at.nanos);
    let d = if passed {
        day + 1
    } else {
        day
    };
    d * DAY_SECS + at.secs as i64
}

/// The next occurrence is the first moment at or after `now` at which the
/// clock reads `at`: it reads `at`, it does not come before `now`, and it
/// comes no more than a day after it.
pub proof fn law_next_occurrence_is_next(now: Moment, at: TimeOfDay)
    requires
        at.secs < DAY_SECS,
    ensures
        ({
            let r = next_occurrence_spec(now, at);
            &&& r % (DAY_SECS as int) == at.secs
            &&& now.secs <= r
            &&& r == now.secs ==> now.nanos <= at.nanos
            &&& r <= now.secs + DAY_SECS
        }),
{
    let d = DAY_SECS as int;
    let day = (now.secs as int) / d;
    let tod = (now.secs as int) % d;
    let passed = tod > at.secs || (tod == at.secs && now.nanos > at.nanos);
    let k = if passed {
        day + 1
    } else {
        day
    };
    let r = k * d + at.secs;
    assert(now.secs == day * d + tod && 0 <= tod < d) by (nonlinear_arith)
        requires
            d == 86400,
            day == (now.secs as int) / d,
            tod == (now.secs as int) % d,
    ;
    assert(k * d == day * d + (if passed { d } else { 0 })) by (nonlinear_arith)
        requires
            k == (if passed { day + 1 } else { day }),
    ;
    lemma_fundamental_div_mod_converse(r, d, k, at.secs as int);
}

/// The rewriting rules applied before a request is read: a pattern, and
/// the template that replaces its matches (`$2` stands for group 2).
pub open spec fn bot_rules() -> Seq<(Seq<char>, Seq<char>)> {
    seq![
        ("おは(よー|よっ|よん|よ([^う])|よ$)"@, "おはよう$2"@),
        ("残っている|残りの"@, "残ってる"@),
        ("ございます(ー|っ)+|ござます"@, "ございます"@),
        (":pr:"@, "PR"@),
        ("なんかある"@, "なにかある"@),
    ]
}

/// The rewriting rules applied before a request is read.
pub fn rewriting_rules() -> (r: Vec<(&'static str, &'static str)>)
    ensures
        Seq::new(r@.len(), |i: int| (r@[i].0@, r@[i].1@)) == bot_rules(),
{
    let r = vec![
        ("おは(よー|よっ|よん|よ([^う])|よ$)", "おはよう$2"),
        ("残っている|残りの", "残ってる"),
        ("ございます(ー|っ)+|ござます", "ございます"),
        (":pr:", "PR"),
        ("なんかある", "なにかある"),
    ];
    assert(Seq::new(r@.len(), |i: int| (r@[i].0@, r@[i].1@)) =~= bot_rules());
    r
}

/// How a newcomer introduces itself: 「<GitHub login>です」.
pub const GREETING_PATTERN: &'static str = r#"^([A-Za-z0-9\-_]+)で[\-~ー〜っ]*す[\-~ー〜っ！!。.]*"#;

/// What a message calling the assistant asks.
pub enum Understanding {
    /// A newcomer introduces itself with its GitHub login.
    FirstContact(String),
    /// A request, to be read from the text, with the verb said before the
    /// call.
    Request(Option<Preverb>, String),
}

/// Mathematical value of an [`Understanding`].
pub enum UnderstandingView {
    FirstContact(Seq<char>),
    Request(Option<Preverb>, Seq<char>),
}

impl View for Understanding {
    type V = UnderstandingView;

    open spec fn view(&self) -> UnderstandingView {
        match self {
            Understanding::FirstContact(s) => UnderstandingView::FirstContact(s@),
            Understanding::Request(p, s) => UnderstandingView::Request(*p, s@),
        }
    }
}

/// What a message asks the assistant whose mention is `header`, with the
/// rewriting rules `rules`: nothing when it does not call the assistant;
/// else, after rewriting, a trailing 「はじめまして」 is taken as the
/// preverb unless one came before the call, and a newcomer's
/// 「<login>です」 gives its login.
pub open spec fn understand_spec(header: Seq<char>, rules: Seq<(Seq<char>, Seq<char>)>, text: Seq<char>) -> Option<
    UnderstandingView,
> {
    match check_spec(header, text) {
        None => None,
        Some((pv, _, rest)) => {
            let rewritten = rewrite_spec(rules, rest);
            let (pv2, rest2) = if pv == Some(Preverb::FirstContact) {
                (pv, rewritten)
            } else {
                let (p, r) = preverbs_after_spec(rewritten);
                (
                    match p {
                        Some(x) => Some(x),
                        None => pv,
                    },
                    r,
                )
            };
            if pv2 == Some(Preverb::FirstContact) {
                match regex_capture(GREETING_PATTERN@, rest2, 1) {
                    Some(login) => Some(UnderstandingView::FirstContact(login)),
                    None => Some(UnderstandingView::Request(pv2, rest2)),
                }
            } else {
                Some(UnderstandingView::Request(pv2, rest2))
            }
        },
    }
}

pub open spec fn understanding_view(r: Option<Understanding>) -> Option<UnderstandingView> {
    match r {
        Some(u) => Some(u@),
        None => None,
    }
}

fn is_first_contact(p: Option<Preverb>) -> (r: bool)
    ensures
        r == (p == Some(Preverb::FirstContact)),
{
    match p {
        Some(Preverb::FirstContact) => true,
        _ => false,
    }
}

/// Reads the messages addressed to the assistant.
pub struct Listener {
    detector: CallingSentenceDetector,
    rewriter: Rewriter,
    greeting: Pattern,
}

impl Listener {
    #[verifier::type_invariant]
    spec fn greeting_kept(self) -> bool {
        self.greeting.source() == GREETING_PATTERN@
    }

    /// The mention that calls the assistant.
    pub closed spec fn header(&self) -> Seq<char> {
        self.detector.header()
    }

    /// The rewriting rules.
    pub closed spec fn rules(&self) -> Seq<(Seq<char>, Seq<char>)> {
        self.rewriter.rules()
    }

    /// A listener for the assistant whose user id is `bot_user`.
    pub fn new(bot_user: &str) -> (r: Self)
        ensures
            r.header() == crate::detector::mention_of(bot_user@),
            r.rules() == bot_rules(),
    {
        let detector = CallingSentenceDetector::new(bot_user);
        let rewriter = Rewriter::new(rewriting_rules());
        let greeting = Pattern::new(GREETING_PATTERN);
        Listener { detector, rewriter, greeting }
    }

    /// What `text` asks the assistant, if it calls it.
    pub fn understand(&self, text: &str) -> (r: Option<Understanding>)
        ensures
            understanding_view(r) == understand_spec(self.header(), self.rules(), text@),
    {
        proof {
            use_type_invariant(self);
        }
        let (pv, _by, rest) = match self.detector.check(text) {
            Some(c) => c,
            None => return None,
        };
        let rewritten = self.rewriter.rewrite(rest.as_str());
        let (pv2, rest2) = if is_first_contact(pv) {
            (pv, rewritten)
        } else {
            let (p, r) = self.detector.strip_preverbs_after(rewritten.as_str());
            (
                match p {
                    Some(x) => Some(x),
                    None => pv,
                },
                r,
            )
        };
        if is_first_contact(pv2) {
            match self.greeting.capture(rest2.as_str(), 1) {
                Some(login) => Some(Understanding::FirstContact(login)),
                None => Some(Understanding::Request(pv2, rest2)),
            }
        } else {
            Some(Understanding::Request(pv2, rest2))
        }
    }
}

/// The request 「教える」 that a root chunk makes after the preverb
/// 「教えて」: the chunk is its only argument.
pub open spec fn tell_form(tree: TreeRef, ci: nat, lm: Map<usize, Seq<usize>>) -> FormView {
    let (a, pp) = parse_chunk_spec(tree, ci, lm);
    FormView::Verb("教える"@, false, false, EnvView { args: args_add(empty_args(), a, pp), prenoun: None })
}

/// The request that a root chunk makes.
pub open spec fn root_form(tree: TreeRef, ci: nat, lm: Map<usize, Seq<usize>>, tell: bool) -> Option<FormView> {
    if tell {
        Some(tell_form(tree, ci, lm))
    } else {
        form_spec(tree, ci, lm)
    }
}

/// The requests made by the first `n` root chunks, in order.
pub open spec fn forms_upto(
    tree: TreeRef,
    roots: Seq<usize>,
    lm: Map<usize, Seq<usize>>,
    tell: bool,
    n: nat,
) -> Seq<FormView>
    decreases n,
{
    if n == 0 {
        seq![]
    } else {
        let rest = forms_upto(tree, roots, lm, tell, (n - 1) as nat);
        match root_form(tree, roots[n - 1] as nat, lm, tell) {
            Some(f) => rest.push(f),
            None => rest,
        }
    }
}

pub open spec fn forms_view(v: Seq<CallingForm>) -> Seq<FormView> {
    Seq::new(v.len(), |i: int| v[i]@)
}

/// The requests made by the root chunks `roots`: each root read as the
/// argument of 「教える」 after the preverb 「教えて」, else by its own form
/// (roots that make none are left out).
pub fn calling_forms<'s>(
    tree: &'s TreeRef,
    roots: &Vec<usize>,
    linkmap: &BTreeMap<usize, Vec<usize>>,
    preverb: Option<Preverb>,
) -> (r: Vec<CallingForm<'s>>)
    requires
        tree.wf(),
        linkmap_wf(linkmap_view(linkmap@), tree.chunks@.len()),
        forall|i: int| 0 <= i < roots@.len() ==> #[trigger] roots@[i] < tree.chunks@.len(),
        preverb != Some(Preverb::Tell) ==> forall|i: int|
            0 <= i < roots@.len() ==> form_defined(*tree, #[trigger] roots@[i] as nat),
    ensures
        forms_view(r@) == forms_upto(
            *tree,
            roots@,
            linkmap_view(linkmap@),
            preverb == Some(Preverb::Tell),
            roots@.len(),
        ),
        forall|i: int| 0 <= i < r@.len() ==> form_wf(#[trigger] r@[i]@),
{
    let ghost lm = linkmap_view(linkmap@);
    let tell = match preverb {
        Some(Preverb::Tell) => true,
        _ => false,
    };
    let mut out: Vec<CallingForm<'s>> = Vec::new();
    let n = roots.len();
    let mut i: usize = 0;
    while i < n
        invariant
            n == roots@.len(),
            i <= n,
            tree.wf(),
            linkmap_wf(lm, tree.chunks@.len()),
            lm == linkmap_view(linkmap@),
            tell == (preverb == Some(Preverb::Tell)),
            forall|k: int| 0 <= k < roots@.len() ==> #[trigger] roots@[k] < tree.chunks@.len(),
            !tell ==> forall|k: int| 0 <= k < roots@.len() ==> form_defined(*tree, #[trigger] roots@[k] as nat),
            forms_view(out@) == forms_upto(*tree, roots@, lm, tell, i as nat),
            forall|k: int| 0 <= k < out@.len() ==> form_wf(#[trigger] out@[k]@),
        decreases n - i,
    {
        let ci = roots[i];
        assert(roots@[i as int] == ci);
        let ghost before = out@;
        if tell {
            let (arg, pp) = JpArgument::parse_chunk(tree, ci, linkmap);
            proof {
                crate::args::lemma_parse_chunk_wf(*tree, ci as nat, lm);
                crate::args::lemma_empty_wf();
                crate::args::lemma_add_wf(empty_args(), arg@, crate::args::opt_str_view(pp));
            }
            let args = JpArguments::from_argument(arg, pp);
            let env = JpCallingEnv::from_args(args);
            out.push(CallingForm::Verb("教える", VerbModifier::default(), env));
            proof {
                reveal_strlit("教える");
            }
        } else {
            match CallingForm::parse(tree, ci, linkmap) {
                Some(f) => out.push(f),
                None => {},
            }
        }
        assert(forms_view(out@) =~= forms_upto(*tree, roots@, lm, tell, (i + 1) as nat)) by {
            assert(forms_view(before) == forms_upto(*tree, roots@, lm, tell, i as nat));
            if out@.len() > before.len() {
                assert(forall|k: int| 0 <= k < before.len() ==> out@[k] == before[k]);
            } else {
                assert(out@ == before);
            }
        }
        i += 1;
    }
    out
}

/// The command that a request gives; a request that gives none is a
/// recognition failure, whose text says why.
pub fn command_of(form: &CallingForm) -> (r: Result<Command, ProcessError>)
    requires
        form_wf(form@),
        command_defined(form@),
    ensures
        match command_spec(form@) {
            Ok(c) => r matches Ok(x) && x@ == c,
            Err(m) => r matches Err(ProcessError::RecognizationFailure(e)) && e@ == m,
        },
{
    match Command::encode(form) {
        Ok(c) => Ok(c),
        Err(m) => Err(ProcessError::RecognizationFailure(m)),
    }
}

} // verus!
