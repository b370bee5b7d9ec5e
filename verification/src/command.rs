//! Commands understood from a calling form: greetings, questions about
//! tasks, pull requests and issues, and the end of the working day.

use crate::args::{
    arg_wf, args_is_empty, args_string, args_wf, first_standing_verb, first_with, flat_text,
    has_readings, is_reading_form1, lemma_first_with_elem, lemma_standing_verb_elem, opt_strs_view,
    ArgView, ArgsView, JpArgument, JpArguments,
};
use crate::cabocha::{feature, features_agree, reading_of, token_wf, Token};
use crate::callform::{form_wf, CallingForm, FormView};
use crate::args::{features_agree2, opt_str_eq, opt_str_view};
use crate::text::{cat2, cat3, parse_u32, parse_u32_spec, str_eq};
use vstd::prelude::*;

verus! {

/// A day relative to today.
pub struct DayOffset(pub isize);

/// The day that a reading designates: tomorrow (アシタ, ツギ), yesterday
/// (キノウ, マエ, センジツ) or today (キョウ, イマ).
pub open spec fn day_offset_spec(reading: Seq<char>) -> Option<int> {
    if reading == "アシタ"@ || reading == "ツギ"@ {
        Some(1)
    } else if reading == "キノウ"@ || reading == "マエ"@ || reading == "センジツ"@ {
        Some(-1)
    } else if reading == "キョウ"@ || reading == "イマ"@ {
        Some(0)
    } else {
        None
    }
}

pub open spec fn opt_day_view(d: Option<DayOffset>) -> Option<int> {
    match d {
        Some(x) => Some(x.0 as int),
        None => None,
    }
}

impl DayOffset {
    pub fn encode(reading: &str) -> (r: Option<DayOffset>)
        ensures
            opt_day_view(r) == day_offset_spec(reading@),
    {
        if str_eq(reading, "アシタ") || str_eq(reading, "ツギ") {
            Some(DayOffset(1))
        } else if str_eq(reading, "キノウ") || str_eq(reading, "マエ") || str_eq(reading, "センジツ") {
            Some(DayOffset(-1))
        } else if str_eq(reading, "キョウ") || str_eq(reading, "イマ") {
            Some(DayOffset(0))
        } else {
            None
        }
    }
}

/// A time of day (hour and minute), and whether it was given loosely
/// (「10時くらい」, 「およそ」).
pub struct TimeAt {
    pub hour: u32,
    pub minute: u32,
    pub ambiguous: bool,
}

/// The number that a numeral token writes (`Some(None)` when it does not
/// parse), or `None` when the token is no numeral.
pub open spec fn numeric(t: Token) -> Option<Option<u32>> {
    if features_agree(t, seq!["名詞"@, "数"@]) {
        Some(parse_u32_spec(t.surface@))
    } else {
        None
    }
}

pub open spec fn msg_which_hour() -> Seq<char> {
    "何時かわからないや......"@
}

pub open spec fn msg_which_minute() -> Seq<char> {
    "何分かわからないや......"@
}

/// The hour and minute written by `ts` (「10時」, 「10時30」, 「10:30」), or
/// the message that explains why none is.
pub open spec fn time_parts(ts: Seq<Token>) -> Result<(u32, u32), Seq<char>> {
    if ts.len() >= 1 && numeric(ts[0]) is Some {
        match numeric(ts[0])->0 {
            None => Err(msg_which_hour()),
            Some(h) => if ts.len() >= 2 && reading_of(ts[1]) == Some("ジ"@) {
                let m = if ts.len() >= 3 && numeric(ts[2]) is Some {
                    numeric(ts[2])->0
                } else {
                    Some(0u32)
                };
                match m {
                    Some(m) => Ok((h, m)),
                    None => Err(msg_which_minute()),
                }
            } else if ts.len() >= 2 && ts[1].surface@ == ":"@ {
                if ts.len() >= 3 && numeric(ts[2]) is Some {
                    match numeric(ts[2])->0 {
                        Some(m) => Ok((h, m)),
                        None => Err(msg_which_minute()),
                    }
                } else {
                    Err("時間指定間違えてたりしない？"@)
                }
            } else {
                Err(msg_which_hour())
            },
        }
    } else {
        Err("時間を指定してほしいな？"@)
    }
}

/// The time that an argument writes is a time of day when it writes one.
pub open spec fn time_valid(a: ArgView) -> bool {
    time_parts(a.text) matches Ok((h, m)) ==> h < 24 && m < 60
}

/// Some token of the argument reads クライ or グライ, or some argument
/// without postposition that modifies it holds a token read オヨソ.
pub open spec fn is_ambiguous(a: ArgView) -> bool {
    ||| exists|i: int|
        0 <= i < a.text.len() && (reading_of(#[trigger] a.text[i]) == Some("クライ"@) || reading_of(
            a.text[i],
        ) == Some("グライ"@))
    ||| exists|i: int, j: int|
        0 <= i < a.mods.without.len() && 0 <= j < a.mods.without[i].text.len() && reading_of(
            #[trigger] a.mods.without[i].text[j],
        ) == Some("オヨソ"@)
}

pub open spec fn time_at_spec(a: ArgView) -> Result<(u32, u32, bool), Seq<char>> {
    match time_parts(a.text) {
        Ok((h, m)) => Ok((h, m, is_ambiguous(a))),
        Err(e) => Err(e),
    }
}

/// What a token says as a number (see [`numeric`]).
fn token_as_numeric(t: &Token) -> (r: Option<Option<u32>>)
    ensures
        r == numeric(*t),
{
    if features_agree2(t, "名詞", "数") {
        Some(parse_u32(t.surface_normalized()))
    } else {
        None
    }
}

impl TimeAt {
    /// Whether the time that an argument writes, if it writes one, is a
    /// time of day.
    pub fn is_time_of_day(a: &JpArgument) -> (r: bool)
        ensures
            r == time_valid(a@),
    {
        match Self::encode_core(a) {
            Ok((h, m)) => h < 24 && m < 60,
            Err(_) => true,
        }
    }

    /// The time that an argument gives.
    pub fn encode(a: &JpArgument) -> (r: Result<TimeAt, String>)
        requires
            time_valid(a@),
        ensures
            match (r, time_at_spec(a@)) {
                (Ok(t), Ok((h, m, amb))) => t.hour == h && t.minute == m && t.ambiguous == amb,
                (Err(e), Err(e2)) => e@ == e2,
                _ => false,
            },
    {
        let (hour, minute) = match Self::encode_core(a) {
            Ok(hm) => hm,
            Err(e) => return Err(e),
        };
        let ghost av = a@;
        let n = a.text.len();
        let mut amb = false;
        let mut i: usize = 0;
        while i < n
            invariant
                n == a.text@.len(),
                av == a@,
                i <= n,
                amb == exists|k: int|
                    0 <= k < i && (reading_of(#[trigger] av.text[k]) == Some("クライ"@) || reading_of(
                        av.text[k],
                    ) == Some("グライ"@)),
            decreases n - i,
        {
            assert(av.text[i as int] == *a.text@[i as int]);
            let rf = a.text[i].reading_form();
            if opt_str_eq(rf, Some("クライ")) || opt_str_eq(rf, Some("グライ")) {
                amb = true;
            }
            i += 1;
        }
        let nw = a.mods.without_postposition.len();
        let mut k: usize = 0;
        while k < nw
            invariant
                nw == a.mods.without_postposition@.len(),
                av == a@,
                k <= nw,
                amb == ((exists|x: int|
                    0 <= x < av.text.len() && (reading_of(#[trigger] av.text[x]) == Some("クライ"@)
                        || reading_of(av.text[x]) == Some("グライ"@))) || (exists|x: int, y: int|
                    0 <= x < k && 0 <= y < av.mods.without[x].text.len() && reading_of(
                        #[trigger] av.mods.without[x].text[y],
                    ) == Some("オヨソ"@))),
            decreases nw - k,
        {
            let b = &a.mods.without_postposition[k];
            assert(av.mods.without[k as int] == b@);
            let nb = b.text.len();
            let mut j: usize = 0;
            let mut found = false;
            while j < nb
                invariant
                    nb == b.text@.len(),
                    av.mods.without[k as int] == b@,
                    j <= nb,
                    found == exists|y: int|
                        0 <= y < j && reading_of(#[trigger] b@.text[y]) == Some("オヨソ"@),
                decreases nb - j,
            {
                assert(b@.text[j as int] == *b.text@[j as int]);
                if opt_str_eq(b.text[j].reading_form(), Some("オヨソ")) {
                    found = true;
                }
                j += 1;
            }
            if found {
                amb = true;
            }
            proof {
                if found {
                    let y = choose|y: int| 0 <= y < nb && reading_of(#[trigger] b@.text[y]) == Some("オヨソ"@);
                    assert(reading_of(av.mods.without[k as int].text[y]) == Some("オヨソ"@));
                }
            }
            k += 1;
        }
        assert(amb == is_ambiguous(av));
        Ok(TimeAt { hour, minute, ambiguous: amb })
    }

    fn encode_core(a: &JpArgument) -> (r: Result<(u32, u32), String>)
        ensures
            match (r, time_parts(a@.text)) {
                (Ok(x), Ok(y)) => x == y,
                (Err(e), Err(e2)) => e@ == e2,
                _ => false,
            },
    {
        let ghost ts = a@.text;
        let n = a.text.len();
        if n >= 1 {
            assert(ts[0] == *a.text@[0]);
        }
        if n >= 2 {
            assert(ts[1] == *a.text@[1]);
        }
        if n >= 3 {
            assert(ts[2] == *a.text@[2]);
        }
        let t0 = if n >= 1 {
            token_as_numeric(a.text[0])
        } else {
            None
        };
        match t0 {
            Some(first) => {
                let first_num = match first {
                    Some(v) => v,
                    None => return Err(String::from_str("何時かわからないや......")),
                };
                if n >= 2 && opt_str_eq(a.text[1].reading_form(), Some("ジ")) {
                    let t2 = if n >= 3 {
                        token_as_numeric(a.text[2])
                    } else {
                        None
                    };
                    let second = match t2 {
                        Some(x) => x,
                        None => Some(0u32),
                    };
                    match second {
                        Some(m) => Ok((first_num, m)),
                        None => Err(String::from_str("何分かわからないや......")),
                    }
                } else if n >= 2 && str_eq(a.text[1].surface_normalized(), ":") {
                    let t2 = if n >= 3 {
                        token_as_numeric(a.text[2])
                    } else {
                        None
                    };
                    match t2 {
                        Some(Some(m)) => Ok((first_num, m)),
                        Some(None) => Err(String::from_str("何分かわからないや......")),
                        None => Err(String::from_str("時間指定間違えてたりしない？")),
                    }
                } else {
                    Err(String::from_str("何時かわからないや......"))
                }
            },
            None => Err(String::from_str("時間を指定してほしいな？")),
        }
    }
}


/// What a user asks to be told.
pub enum TellWhat {
    /// Tasks (タスク, メニュー, 献立): how the user called them, whether the
    /// remaining ones are asked for, and the day.
    Tasks(String, bool, DayOffset),
    /// The number of something (〜の数).
    CountOf(Box<TellWhat>),
    /// A number, any number.
    RandomNumber,
    /// Pull requests: those assigned and still open, those not reviewed
    /// yet, and how the user called them.
    PullRequests { opened_assignee: bool, unreviewed: bool, user_calls: String },
    /// Issues: how the user called them, whether the remaining ones are
    /// asked for, and whether the unresolved ones are.
    Issues { user_calls: String, ask_for_remains: bool, unresolved: bool },
}

/// Mathematical value of a [`TellWhat`].
pub enum TellView {
    Tasks(Seq<char>, bool, int),
    CountOf(Box<TellView>),
    RandomNumber,
    PullRequests(bool, bool, Seq<char>),
    Issues(Seq<char>, bool, bool),
}

pub open spec fn tell_view(t: TellWhat) -> TellView
    decreases t,
{
    match t {
        TellWhat::Tasks(s, r, d) => TellView::Tasks(s@, r, d.0 as int),
        TellWhat::CountOf(b) => TellView::CountOf(Box::new(tell_view(*b))),
        TellWhat::RandomNumber => TellView::RandomNumber,
        TellWhat::PullRequests { opened_assignee, unreviewed, user_calls } => TellView::PullRequests(
            opened_assignee,
            unreviewed,
            user_calls@,
        ),
        TellWhat::Issues { user_calls, ask_for_remains, unresolved } => TellView::Issues(
            user_calls@,
            ask_for_remains,
            unresolved,
        ),
    }
}

impl View for TellWhat {
    type V = TellView;

    open spec fn view(&self) -> TellView {
        tell_view(*self)
    }
}

pub open spec fn msg_unknown(what: Seq<char>) -> Seq<char> {
    "「"@ + what + "」についてはよくわからないんだー......"@
}

pub open spec fn msg_meaning_of(what: Seq<char>) -> Seq<char> {
    "「"@ + what + "」ってどういう意味？"@
}

pub open spec fn msg_what_is(what: Seq<char>) -> Seq<char> {
    "「"@ + what + "」ってなに？"@
}

pub open spec fn msg_not_understood() -> Seq<char> {
    "言ってる意味がよくわからないや......"@
}

/// The first independent verb of `a` reads ノコッ (残っ-).
pub open spec fn asks_remaining(a: ArgView) -> bool {
    match first_standing_verb(a) {
        Some(t) => reading_of(t) == Some("ノコッ"@),
        None => false,
    }
}

/// The flags (assigned and open, not reviewed) that the modifiers of 「PR」
/// ask for: 「未確認の」 asks for unreviewed ones, 「残っている」 for open
/// ones, recursively.
pub open spec fn pr_flags(mods: ArgsView) -> Result<(bool, bool), Seq<char>>
    decreases mods,
{
    if args_is_empty(mods) {
        Ok((false, false))
    } else {
        match first_with(mods, seq!["の"@], 1) {
            Some(a) => {
                proof {
                    lemma_first_with_elem(mods, seq!["の"@], 1);
                }
                if has_readings(a, seq![Some("ミ"@), Some("カクニン"@)]) {
                    match pr_flags(a.mods) {
                        Ok((o, _u)) => Ok((o, true)),
                        Err(e) => Err(e),
                    }
                } else {
                    Err(msg_meaning_of(flat_text(a)))
                }
            },
            None => if mods.without.len() > 0 {
                let a = mods.without[0];
                match first_standing_verb(a) {
                    Some(t) => if reading_of(t) == Some("ノコッ"@) {
                        match pr_flags(a.mods) {
                            Ok((_o, u)) => Ok((true, u)),
                            Err(e) => Err(e),
                        }
                    } else {
                        Err(msg_what_is(feature(t, 6)))
                    },
                    None => Err("言ってる意味がよくわからないや......(これ見えないはずだよね？)"@),
                }
            } else {
                Err(msg_not_understood())
            },
        }
    }
}

/// Whether the modifiers of 「課題」 ask for unresolved ones (「未解決の」),
/// recursively.
pub open spec fn issue_flag(mods: ArgsView) -> Result<bool, Seq<char>>
    decreases mods,
{
    if args_is_empty(mods) {
        Ok(false)
    } else {
        match first_with(mods, seq!["の"@], 1) {
            Some(a) => {
                proof {
                    lemma_first_with_elem(mods, seq!["の"@], 1);
                }
                if has_readings(a, seq![Some("ミ"@), Some("カイケツ"@)]) {
                    match issue_flag(a.mods) {
                        Ok(_) => Ok(true),
                        Err(e) => Err(e),
                    }
                } else {
                    Err(msg_meaning_of(flat_text(a)))
                }
            },
            None => Err(msg_not_understood()),
        }
    }
}

/// Some argument without postposition asks for the remaining ones.
pub open spec fn any_asks_remaining(mods: ArgsView) -> bool {
    exists|i: int| 0 <= i < mods.without.len() && asks_remaining(#[trigger] mods.without[i])
}

pub open spec fn is_tasks_noun(noun: Seq<char>) -> bool {
    noun == "タスク"@ || noun == "メニュー"@ || noun == "献立"@
}

/// What the noun `noun`, with its modifiers `mods`, asks to be told.
pub open spec fn for1_spec(noun: Seq<char>, mods: ArgsView) -> Result<TellView, Seq<char>>
    decreases mods, 1nat,
{
    if is_tasks_noun(noun) {
        match first_with(mods, seq!["の"@], 1) {
            Some(a) => if a.text.len() >= 1 {
                let d = match reading_of(a.text[0]) {
                    Some(r) => day_offset_spec(r),
                    None => None,
                };
                match d {
                    Some(d) => Ok(TellView::Tasks(flat_text(a) + "の"@ + noun, false, d)),
                    None => Err(msg_what_is(flat_text(a) + "の"@ + noun)),
                }
            } else {
                Ok(TellView::Tasks(flat_text(a) + "の"@ + noun, false, 0))
            },
            None => if mods.without.len() > 0 {
                let a = mods.without[0];
                Ok(TellView::Tasks(flat_text(a) + noun, asks_remaining(a), 0))
            } else {
                Ok(TellView::Tasks(noun, false, 0))
            },
        }
    } else if noun == "数"@ {
        match first_with(mods, seq!["の"@], 1) {
            Some(p) => {
                proof {
                    lemma_first_with_elem(mods, seq!["の"@], 1);
                }
                match tell_encode_spec(p) {
                    Ok(t) => Ok(TellView::CountOf(Box::new(t))),
                    Err(e) => Err(e),
                }
            },
            None => Ok(TellView::RandomNumber),
        }
    } else if noun == "PR"@ {
        match pr_flags(mods) {
            Ok((o, u)) => Ok(TellView::PullRequests(o, u, args_string(mods) + "PR"@)),
            Err(e) => Err(e),
        }
    } else if noun == "課題"@ {
        match issue_flag(mods) {
            Ok(u) => Ok(TellView::Issues(args_string(mods) + "課題"@, any_asks_remaining(mods), u)),
            Err(e) => Err(e),
        }
    } else {
        Err(msg_unknown(noun))
    }
}

/// What an argument made of a single noun asks to be told.
pub open spec fn tell_encode_spec(a: ArgView) -> Result<TellView, Seq<char>>
    decreases a, 0nat,
{
    if a.text.len() != 1 {
        Err(msg_unknown(flat_text(a)))
    } else {
        for1_spec(a.text[0].surface@, a.mods)
    }
}

pub open spec fn tell_result_view(r: Result<TellWhat, String>) -> Result<TellView, Seq<char>> {
    match r {
        Ok(t) => Ok(t@),
        Err(e) => Err(e@),
    }
}

proof fn lemma_first_with_wf(m: ArgsView, pps: Seq<Seq<char>>, n: nat)
    requires
        args_wf(m),
    ensures
        first_with(m, pps, n) matches Some(x) ==> arg_wf(x),
{
    lemma_first_with_elem(m, pps, n);
}

proof fn lemma_verb_wf(a: ArgView)
    requires
        arg_wf(a),
    ensures
        first_standing_verb(a) matches Some(t) ==> token_wf(t),
{
    lemma_standing_verb_elem(a.text, a.text.len());
}

/// The modifiers of 「PR」: see [`pr_flags`].
fn descending_pr(mods: &JpArguments) -> (r: Result<(bool, bool), String>)
    requires
        args_wf(mods@),
    ensures
        match (r, pr_flags(mods@)) {
            (Ok(x), Ok(y)) => x == y,
            (Err(e), Err(e2)) => e@ == e2,
            _ => false,
        },
    decreases mods@,
{
    if mods.is_empty() {
        return Ok((false, false));
    }
    match mods.first_pp1("の") {
        Some(a) => {
            proof {
                lemma_first_with_elem(mods@, seq!["の"@], 1);
                lemma_first_with_wf(mods@, seq!["の"@], 1);
            }
            let readings: [Option<&str>; 2] = [Some("ミ"), Some("カクニン")];
            let ok = a.is_exact_reading_forms_of(&readings);
            assert(opt_strs_view(readings@) =~= seq![Some("ミ"@), Some("カクニン"@)]);
            if ok {
                match descending_pr(&a.mods) {
                    Ok((o, _u)) => Ok((o, true)),
                    Err(e) => Err(e),
                }
            } else {
                let f = a.flat_text();
                Err(cat3("「", f.as_str(), "」ってどういう意味？"))
            }
        },
        None => {
            if mods.without_postposition.len() > 0 {
                let a = &mods.without_postposition[0];
                assert(mods@.without[0] == a@);
                assert(arg_wf(a@));
                match a.first_standing_verb() {
                    Some(t) => {
                        proof {
                            lemma_verb_wf(a@);
                        }
                        if opt_str_eq(t.reading_form(), Some("ノコッ")) {
                            assert(decreases_to!(mods@ => mods@.without[0]));
                            match descending_pr(&a.mods) {
                                Ok((_o, u)) => Ok((true, u)),
                                Err(e) => Err(e),
                            }
                        } else {
                            Err(cat3("「", t.base_form(), "」ってなに？"))
                        }
                    },
                    None => Err(
                        String::from_str("言ってる意味がよくわからないや......(これ見えないはずだよね？)"),
                    ),
                }
            } else {
                Err(String::from_str("言ってる意味がよくわからないや......"))
            }
        },
    }
}

/// The modifiers of 「課題」: see [`issue_flag`].
fn descending_issues(mods: &JpArguments) -> (r: Result<bool, String>)
    requires
        args_wf(mods@),
    ensures
        match (r, issue_flag(mods@)) {
            (Ok(x), Ok(y)) => x == y,
            (Err(e), Err(e2)) => e@ == e2,
            _ => false,
        },
    decreases mods@,
{
    if mods.is_empty() {
        return Ok(false);
    }
    match mods.first_pp1("の") {
        Some(a) => {
            proof {
                lemma_first_with_elem(mods@, seq!["の"@], 1);
                lemma_first_with_wf(mods@, seq!["の"@], 1);
            }
            let readings: [Option<&str>; 2] = [Some("ミ"), Some("カイケツ")];
            let ok = a.is_exact_reading_forms_of(&readings);
            assert(opt_strs_view(readings@) =~= seq![Some("ミ"@), Some("カイケツ"@)]);
            if ok {
                match descending_issues(&a.mods) {
                    Ok(_) => Ok(true),
                    Err(e) => Err(e),
                }
            } else {
                let f = a.flat_text();
                Err(cat3("「", f.as_str(), "」ってどういう意味？"))
            }
        },
        None => Err(String::from_str("言ってる意味がよくわからないや......")),
    }
}

impl JpArgument<'_> {
    /// The first independent verb reads ノコッ (残っ-).
    pub fn asks_remaining(&self) -> (r: bool)
        ensures
            r == asks_remaining(self@),
    {
        match self.first_standing_verb() {
            Some(t) => opt_str_eq(t.reading_form(), Some("ノコッ")),
            None => false,
        }
    }
}

impl TellWhat {
    /// What the noun `noun`, with its modifiers `mods`, asks to be told.
    pub fn encode_for1(noun: &str, mods: &JpArguments) -> (r: Result<Self, String>)
        requires
            args_wf(mods@),
        ensures
            tell_result_view(r) == for1_spec(noun@, mods@),
        decreases mods@, 1nat,
    {
        if str_eq(noun, "タスク") || str_eq(noun, "メニュー") || str_eq(noun, "献立") {
            match mods.first_pp1("の") {
                Some(a) => {
                    let f = a.flat_text();
                    let label = cat3(f.as_str(), "の", noun);
                    if a.text.len() >= 1 {
                        assert(a@.text[0] == *a.text@[0]);
                        let d = match a.text[0].reading_form() {
                            Some(r) => DayOffset::encode(r),
                            None => None,
                        };
                        match d {
                            Some(d) => Ok(TellWhat::Tasks(label, false, d)),
                            None => Err(cat3("「", label.as_str(), "」ってなに？")),
                        }
                    } else {
                        Ok(TellWhat::Tasks(label, false, DayOffset(0)))
                    }
                },
                None => {
                    if mods.without_postposition.len() > 0 {
                        let a = &mods.without_postposition[0];
                        assert(mods@.without[0] == a@);
                        let remaining = a.asks_remaining();
                        let f = a.flat_text();
                        Ok(TellWhat::Tasks(cat2(f.as_str(), noun), remaining, DayOffset(0)))
                    } else {
                        Ok(TellWhat::Tasks(String::from_str(noun), false, DayOffset(0)))
                    }
                },
            }
        } else if str_eq(noun, "数") {
            match mods.first_pp1("の") {
                Some(p) => {
                    proof {
                        lemma_first_with_elem(mods@, seq!["の"@], 1);
                        lemma_first_with_wf(mods@, seq!["の"@], 1);
                    }
                    match Self::encode(p) {
                        Ok(t) => Ok(t.count_of()),
                        Err(e) => Err(e),
                    }
                },
                None => Ok(TellWhat::RandomNumber),
            }
        } else if str_eq(noun, "PR") {
            match descending_pr(mods) {
                Ok((opened_assignee, unreviewed)) => {
                    let s = mods.to_string();
                    Ok(
                        TellWhat::PullRequests {
                            opened_assignee,
                            unreviewed,
                            user_calls: cat2(s.as_str(), "PR"),
                        },
                    )
                },
                Err(e) => Err(e),
            }
        } else if str_eq(noun, "課題") {
            match descending_issues(mods) {
                Ok(unresolved) => {
                    let s = mods.to_string();
                    let n = mods.without_postposition.len();
                    let mut remains = false;
                    let mut i: usize = 0;
                    while i < n
                        invariant
                            n == mods@.without.len(),
                            n == mods.without_postposition@.len(),
                            i <= n,
                            remains == exists|k: int| 0 <= k < i && asks_remaining(#[trigger] mods@.without[k]),
                        decreases n - i,
                    {
                        assert(mods@.without[i as int] == mods.without_postposition@[i as int]@);
                        if mods.without_postposition[i].asks_remaining() {
                            remains = true;
                        }
                        i += 1;
                    }
                    Ok(
                        TellWhat::Issues {
                            user_calls: cat2(s.as_str(), "課題"),
                            ask_for_remains: remains,
                            unresolved,
                        },
                    )
                },
                Err(e) => Err(e),
            }
        } else {
            Err(cat3("「", noun, "」についてはよくわからないんだー......"))
        }
    }

    /// What an argument made of a single noun asks to be told.
    pub fn encode(a: &JpArgument) -> (r: Result<Self, String>)
        requires
            arg_wf(a@),
        ensures
            tell_result_view(r) == tell_encode_spec(a@),
        decreases a@, 0nat,
    {
        if a.text.len() != 1 {
            let f = a.flat_text();
            return Err(cat3("「", f.as_str(), "」についてはよくわからないんだー......"));
        }
        assert(a@.text[0] == *a.text@[0]);
        Self::encode_for1(a.text[0].surface_normalized(), &a.mods)
    }

    /// The number of what `self` designates.
    pub fn count_of(self) -> (r: Self)
        ensures
            r@ == TellView::CountOf(Box::new(self@)),
    {
        TellWhat::CountOf(Box::new(self))
    }
}


/// A command.
pub enum Command {
    /// Good morning; `true` when said politely (おはようございます).
    Greeting(bool),
    /// Tell me (教えて, なに？, ある？); `None` when it is not said what.
    Tell(Option<TellWhat>),
    /// I am going home (帰る), possibly at a given time, on a given day.
    EndWorking(Option<TimeAt>, DayOffset),
}

/// Mathematical value of a [`Command`].
pub enum CommandView {
    Greeting(bool),
    Tell(Option<TellView>),
    EndWorking(Option<(u32, u32, bool)>, int),
}

pub open spec fn opt_tell_view(t: Option<TellWhat>) -> Option<TellView> {
    match t {
        Some(x) => Some(x@),
        None => None,
    }
}

pub open spec fn opt_time_view(t: Option<TimeAt>) -> Option<(u32, u32, bool)> {
    match t {
        Some(x) => Some((x.hour, x.minute, x.ambiguous)),
        None => None,
    }
}

impl View for Command {
    type V = CommandView;

    open spec fn view(&self) -> CommandView {
        match self {
            Command::Greeting(b) => CommandView::Greeting(*b),
            Command::Tell(t) => CommandView::Tell(opt_tell_view(*t)),
            Command::EndWorking(t, d) => CommandView::EndWorking(opt_time_view(*t), d.0 as int),
        }
    }
}

pub open spec fn command_result_view(r: Result<Command, String>) -> Result<CommandView, Seq<char>> {
    match r {
        Ok(c) => Ok(c@),
        Err(e) => Err(e@),
    }
}

/// The first argument under one of `pps`, else the first argument without
/// postposition.
pub open spec fn first_or_bare(args: ArgsView, pps: Seq<Seq<char>>) -> Option<ArgView> {
    match first_with(args, pps, pps.len()) {
        Some(a) => Some(a),
        None => if args.without.len() > 0 {
            Some(args.without[0])
        } else {
            None
        },
    }
}

/// What an optional argument asks to be told, counted when `count` holds.
pub open spec fn tell_of(a: Option<ArgView>, count: bool) -> Result<CommandView, Seq<char>> {
    match a {
        Some(a) => match tell_encode_spec(a) {
            Ok(t) => Ok(
                CommandView::Tell(
                    Some(
                        if count {
                            TellView::CountOf(Box::new(t))
                        } else {
                            t
                        },
                    ),
                ),
            ),
            Err(e) => Err(e),
        },
        None => Ok(CommandView::Tell(None)),
    }
}

/// The day given under は to 「帰る」, today by default.
pub open spec fn end_day(args: ArgsView) -> int {
    match first_with(args, seq!["は"@], 1) {
        Some(x) => if x.text.len() == 1 {
            match day_offset_spec(reading_of(x.text[0])->0) {
                Some(d) => d,
                None => 0,
            }
        } else {
            0
        },
        None => 0,
    }
}

/// 「ある？」: something exists (with a count asked by いくつ).
pub open spec fn exists_spec(args: ArgsView, prenoun: Option<Token>) -> Result<CommandView, Seq<char>> {
    if args_is_empty(args) && prenoun is None {
        Err("言ってる意味がよくわからないんだけど......"@)
    } else {
        let count = exists|i: int|
            0 <= i < args.without.len() && (is_reading_form1(#[trigger] args.without[i], "イクツ"@)
                || is_reading_form1(args.without[i], "イクツカ"@));
        let tw: Result<Option<TellView>, Seq<char>> = match prenoun {
            Some(x) => match for1_spec(x.surface@, args) {
                Ok(t) => Ok(Some(t)),
                Err(e) => Err(e),
            },
            None => match first_with(args, seq!["って"@, "は"@, "が"@], 3) {
                Some(a) => match tell_encode_spec(a) {
                    Ok(t) => Ok(Some(t)),
                    Err(e) => Err(e),
                },
                None => Ok(None),
            },
        };
        match tw {
            Ok(Some(t)) => Ok(
                CommandView::Tell(
                    Some(
                        if count {
                            TellView::CountOf(Box::new(t))
                        } else {
                            t
                        },
                    ),
                ),
            ),
            Ok(None) => Ok(CommandView::Tell(None)),
            Err(e) => Err(e),
        }
    }
}

/// The command that a calling form gives, or the message that explains why
/// it gives none.
pub open spec fn command_spec(f: FormView) -> Result<CommandView, Seq<char>> {
    match f {
        FormView::Verb(n, _, _, e) => if n == "教える"@ {
            tell_of(first_or_bare(e.args, seq!["を"@, "について"@]), false)
        } else if n == "帰る"@ {
            match first_with(e.args, seq!["に"@, "で"@], 2) {
                Some(x) => match time_at_spec(x) {
                    Ok(t) => Ok(CommandView::EndWorking(Some(t), end_day(e.args))),
                    Err(m) => Err(m),
                },
                None => Ok(CommandView::EndWorking(None, end_day(e.args))),
            }
        } else if n == "ある"@ {
            exists_spec(e.args, e.prenoun)
        } else {
            Err("「"@ + n + "」ってなに？"@)
        },
        FormView::Kando(k, polite) => if k == "おはよう"@ {
            Ok(CommandView::Greeting(polite))
        } else {
            Err("なに話してくれたのかちょっとわからないや......"@)
        },
        FormView::MeishiQuery(n, e) => if n == "ナニ"@ {
            tell_of(first_or_bare(e.args, seq!["って"@, "は"@]), false)
        } else if n == "イクツ"@ {
            tell_of(first_or_bare(e.args, seq!["って"@, "は"@]), true)
        } else {
            Err("「"@ + n + "」？"@)
        },
        FormView::ObjectNameQuery(n, e) => match for1_spec(n, e.args) {
            Ok(t) => Ok(CommandView::Tell(Some(t))),
            Err(m) => Err(m),
        },
        FormView::PeopleNameQuery(n, _) => if n == "こゆき"@ {
            Err("私がどうかしたの？"@)
        } else {
            Err("「"@ + n + "」ってだれ？"@)
        },
    }
}

/// Where [`Command::encode`] is defined: the day given to 「帰る」 is a known
/// word, and its time is a time of day.
pub open spec fn command_defined(f: FormView) -> bool {
    match f {
        FormView::Verb(n, _, _, e) => n == "帰る"@ ==> {
            &&& (first_with(e.args, seq!["は"@], 1) matches Some(x) ==> (x.text.len() == 1 ==> reading_of(
                x.text[0],
            ) is Some))
            &&& (first_with(e.args, seq!["に"@, "で"@], 2) matches Some(x) ==> time_valid(x))
        },
        _ => true,
    }
}

impl Command {
    /// Whether [`Command::encode`] is defined on the form: a 「帰る」 names
    /// its day by a word with a reading, and its time by a time of day.
    pub fn encode_defined(form: &CallingForm) -> (r: bool)
        requires
            form_wf(form@),
        ensures
            r == command_defined(form@),
    {
        match form {
            CallingForm::Verb(n, _, e) => {
                if str_eq(n, "帰る") {
                    proof {
                        lemma_first_with_wf(e@.args, seq!["は"@], 1);
                        lemma_first_with_wf(e@.args, seq!["に"@, "で"@], 2);
                    }
                    let day_ok = match e.args.first_pp1("は") {
                        Some(x) => {
                            if x.text.len() == 1 {
                                assert(x@.text[0] == *x.text@[0]);
                                x.text[0].reading_form().is_some()
                            } else {
                                true
                            }
                        },
                        None => true,
                    };
                    let time_ok = match e.args.first_pp2("に", "で") {
                        Some(x) => TimeAt::is_time_of_day(x),
                        None => true,
                    };
                    day_ok && time_ok
                } else {
                    true
                }
            },
            _ => true,
        }
    }

    /// The command that a calling form gives.
    pub fn encode(form: &CallingForm) -> (r: Result<Self, String>)
        requires
            form_wf(form@),
            command_defined(form@),
        ensures
            command_result_view(r) == command_spec(form@),
    {
        match form {
            CallingForm::Verb(n, _, e) => {
                if str_eq(n, "教える") {
                    Self::encode_tell(&e.args, "を", "について", false)
                } else if str_eq(n, "帰る") {
                    let d = match e.args.first_pp1("は") {
                        Some(x) => {
                            if x.text.len() == 1 {
                                assert(x@.text[0] == *x.text@[0]);
                                match DayOffset::encode(x.text[0].reading_form().unwrap()) {
                                    Some(d) => d,
                                    None => DayOffset(0),
                                }
                            } else {
                                DayOffset(0)
                            }
                        },
                        None => DayOffset(0),
                    };
                    assert(d.0 as int == end_day(e@.args));
                    match e.args.first_pp2("に", "で") {
                        Some(x) => match TimeAt::encode(x) {
                            Ok(t) => Ok(Command::EndWorking(Some(t), d)),
                            Err(m) => Err(m),
                        },
                        None => Ok(Command::EndWorking(None, d)),
                    }
                } else if str_eq(n, "ある") {
                    Self::encode_exists(e)
                } else {
                    Err(cat3("「", n, "」ってなに？"))
                }
            },
            CallingForm::Kando(k, polite) => Self::encode_kando(k, *polite),
            CallingForm::MeishiQuery(n, e) => {
                if str_eq(n, "ナニ") {
                    Self::encode_tell(&e.args, "って", "は", false)
                } else if str_eq(n, "イクツ") {
                    Self::encode_tell(&e.args, "って", "は", true)
                } else {
                    Err(cat3("「", n, "」？"))
                }
            },
            CallingForm::ObjectNameQuery(n, e) => match TellWhat::encode_for1(n, &e.args) {
                Ok(t) => Ok(Command::Tell(Some(t))),
                Err(m) => Err(m),
            },
            CallingForm::PeopleNameQuery(n, _) => {
                if str_eq(n, "こゆき") {
                    Err(String::from_str("私がどうかしたの？"))
                } else {
                    Err(cat3("「", n, "」ってだれ？"))
                }
            },
        }
    }

    /// 「教えて」 and its variants: what the first argument under `p` or `q`
    /// (else the first bare argument) asks, counted when `count` holds.
    fn encode_tell(args: &JpArguments, p: &str, q: &str, count: bool) -> (r: Result<Self, String>)
        requires
            args_wf(args@),
        ensures
            command_result_view(r) == tell_of(first_or_bare(args@, seq![p@, q@]), count),
    {
        let a = match args.first_pp2(p, q) {
            Some(a) => Some(a),
            None => {
                if args.without_postposition.len() > 0 {
                    assert(args@.without[0] == args.without_postposition@[0]@);
                    Some(&args.without_postposition[0])
                } else {
                    None
                }
            },
        };
        proof {
            lemma_first_with_wf(args@, seq![p@, q@], 2);
        }
        match a {
            Some(a) => match TellWhat::encode(a) {
                Ok(t) => Ok(
                    Command::Tell(
                        Some(
                            if count {
                                t.count_of()
                            } else {
                                t
                            },
                        ),
                    ),
                ),
                Err(m) => Err(m),
            },
            None => Ok(Command::Tell(None)),
        }
    }

    fn encode_kando(kando: &str, following_desumasu: bool) -> (r: Result<Self, String>)
        ensures
            command_result_view(r) == command_spec(FormView::Kando(kando@, following_desumasu)),
    {
        if str_eq(kando, "おはよう") {
            Ok(Command::Greeting(following_desumasu))
        } else {
            Err(String::from_str("なに話してくれたのかちょっとわからないや......"))
        }
    }

    /// 「ある？」
    fn encode_exists(env: &crate::args::JpCallingEnv) -> (r: Result<Self, String>)
        requires
            args_wf(env@.args),
        ensures
            command_result_view(r) == exists_spec(env@.args, env@.prenoun),
    {
        if env.args.is_empty() && env.prenoun.is_none() {
            return Err(String::from_str("言ってる意味がよくわからないんだけど......"));
        }
        let ghost args = env@.args;
        let n = env.args.without_postposition.len();
        let mut count = false;
        let mut i: usize = 0;
        while i < n
            invariant
                n == args.without.len(),
                n == env.args.without_postposition@.len(),
                args == env@.args,
                i <= n,
                count == exists|k: int|
                    0 <= k < i && (is_reading_form1(#[trigger] args.without[k], "イクツ"@)
                        || is_reading_form1(args.without[k], "イクツカ"@)),
            decreases n - i,
        {
            let x = &env.args.without_postposition[i];
            assert(args.without[i as int] == x@);
            if x.is_reading_form1_of("イクツ") || x.is_reading_form1_of("イクツカ") {
                count = true;
            }
            i += 1;
        }
        let tw = match env.prenoun {
            Some(x) => match TellWhat::encode_for1(x.surface_normalized(), &env.args) {
                Ok(t) => Some(t),
                Err(m) => return Err(m),
            },
            None => match env.args.first_pp3("って", "は", "が") {
                Some(a) => {
                    proof {
                        lemma_first_with_wf(args, seq!["って"@, "は"@, "が"@], 3);
                    }
                    match TellWhat::encode(a) {
                        Ok(t) => Some(t),
                        Err(m) => return Err(m),
                    }
                },
                None => None,
            },
        };
        match tw {
            Some(t) => Ok(
                Command::Tell(
                    Some(
                        if count {
                            t.count_of()
                        } else {
                            t
                        },
                    ),
                ),
            ),
            None => Ok(Command::Tell(None)),
        }
    }
}


/// The day named by a single word read `r` under の: today for キョウ and
/// イマ, tomorrow for アシタ and ツギ, yesterday for キノウ, マエ and センジツ.
pub open spec fn named_day(r: Seq<char>) -> Option<int> {
    if r == "キョウ"@ || r == "イマ"@ {
        Some(0)
    } else if r == "アシタ"@ || r == "ツギ"@ {
        Some(1)
    } else if r == "キノウ"@ || r == "マエ"@ || r == "センジツ"@ {
        Some(-1)
    } else {
        None
    }
}

/// A tasks noun (タスク, メニュー, 献立) modified under の by a word that
/// names a day asks for the tasks of that day (today for 今日の), named by
/// the modifier, の and the noun, not the remaining ones only.
pub proof fn law_tasks_of_a_day(noun: Seq<char>, mods: ArgsView, r: Seq<char>)
    ensures
        ({
            &&& is_tasks_noun(noun)
            &&& first_with(mods, seq!["の"@], 1) is Some
            &&& first_with(mods, seq!["の"@], 1)->0.text.len() >= 1
            &&& reading_of(first_with(mods, seq!["の"@], 1)->0.text[0]) == Some(r)
            &&& named_day(r) is Some
        }) ==> for1_spec(noun, mods) == Ok::<TellView, Seq<char>>(
            TellView::Tasks(flat_text(first_with(mods, seq!["の"@], 1)->0) + "の"@ + noun, false, named_day(r)->0),
        ),
{
    reveal_strlit("キョウ");
    reveal_strlit("イマ");
    reveal_strlit("アシタ");
    reveal_strlit("ツギ");
    reveal_strlit("キノウ");
    reveal_strlit("マエ");
    reveal_strlit("センジツ");
    let k = "キョウ"@;
    let i = "イマ"@;
    assert(k != "アシタ"@ && k != "ツギ"@ && k != "キノウ"@ && k != "マエ"@ && k != "センジツ"@) by {
        assert(k[0] != "アシタ"@[0]);
        assert(k.len() != "ツギ"@.len());
        assert(k[1] != "キノウ"@[1]);
        assert(k.len() != "マエ"@.len());
        assert(k.len() != "センジツ"@.len());
    }
    assert(i != "アシタ"@ && i != "ツギ"@ && i != "キノウ"@ && i != "マエ"@ && i != "センジツ"@) by {
        assert(i.len() != "アシタ"@.len());
        assert(i[0] != "ツギ"@[0]);
        assert(i.len() != "キノウ"@.len());
        assert(i[0] != "マエ"@[0]);
        assert(i.len() != "センジツ"@.len());
    }
    let a = "アシタ"@;
    let t = "ツギ"@;
    assert(a != "キノウ"@ && a != "マエ"@ && a != "センジツ"@) by {
        assert(a[0] != "キノウ"@[0]);
        assert(a.len() != "マエ"@.len());
        assert(a.len() != "センジツ"@.len());
    }
    assert(t != "キノウ"@ && t != "マエ"@ && t != "センジツ"@) by {
        assert(t.len() != "キノウ"@.len());
        assert(t[0] != "マエ"@[0]);
        assert(t.len() != "センジツ"@.len());
    }
    assert(day_offset_spec(k) == Some(0int));
    assert(day_offset_spec(i) == Some(0int));
    assert(day_offset_spec(a) == Some(1int));
    assert(day_offset_spec(t) == Some(1int));
    assert(day_offset_spec("キノウ"@) == Some(-1int));
    assert(day_offset_spec("マエ"@) == Some(-1int));
    assert(day_offset_spec("センジツ"@) == Some(-1int));
    assert(named_day(r) is Some ==> day_offset_spec(r) == named_day(r));
}

} // verus!
