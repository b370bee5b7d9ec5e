//! Detection of the sentences that call the assistant: by its name
//! (こゆきちゃん, こゆきさん) or by a mention, possibly after a call such as
//! 「ねぇねぇ」 or 「はーい、」 and a leading 「教えて」 or 「はじめまして」.

use crate::pattern::{regex_split_first, Pattern};
use crate::text::{cat3, skip_chars, starts_with};
use vstd::prelude::*;
use vstd::string::StrSliceExecFns;

verus! {

/// How the assistant was called.
#[derive(Debug, Clone, Copy, PartialEq, Eq, Structural)]
pub enum CallBy {
    Name,
    Mention,
}

/// A verb that comes before the call and changes how the rest is read.
#[derive(Debug, Clone, Copy, PartialEq, Eq, Structural)]
pub enum Preverb {
    Tell,
    FirstContact,
}

/// The assistant's name, repeated, with its honorific.
pub const NAME_PATTERN: &'static str = r#"^(こ[\-ー~〜]*ゆ[\-ー~〜]*き[\-ー~〜]*(ち[\-ー~〜]*ゃ[\-ー~〜]*ん[\-ー~〜]*|さ[\-ー~〜]*ん[\-ー~〜]*)[!！、,  ?？]?)+"#;

/// 「教えて」 at the head.
pub const TELL_HEAD_PATTERN: &'static str = r#"^(教えて|おしえて)[ー\-〜~、,！!  ]*"#;

/// 「はじめまして」 at the head.
pub const FIRST_CONTACT_PATTERN: &'static str = r#"^(はじめまして|初めまして)[！! 、,\-ー~〜 っ]*"#;

/// Detects calls.
pub struct CallingSentenceDetector {
    name_rx: Pattern,
    mention_header: String,
    tell_head_rx: Pattern,
    firstcontact_rx: Pattern,
}

pub open spec fn nee1() -> Seq<char> {
    seq!['ね', 'ぇ']
}

pub open spec fn nee2() -> Seq<char> {
    seq!['ね', 'え']
}

/// `s` without the repetitions of ねぇ/ねえ at its head.
pub open spec fn strip_nee(s: Seq<char>) -> Seq<char>
    decreases s.len(),
{
    if nee1().is_prefix_of(s) || nee2().is_prefix_of(s) {
        strip_nee(s.skip(2))
    } else {
        s
    }
}

/// A punctuation mark that may follow ねぇねぇ (kind 0), a dash that may
/// lengthen は (kind 1), or white space after a mention (kind 2).
pub open spec fn in_kind(c: char, kind: u8) -> bool {
    if kind == 0 {
        c == '、' || c == ',' || c == ' ' || c == '~' || c == '〜' || c == '-' || c == 'ー'
    } else if kind == 1 {
        c == '~' || c == '〜' || c == '-' || c == 'ー'
    } else {
        c == ' ' || c == '\n' || c == '\t'
    }
}

/// The number of leading characters of `s` of the given kind.
pub open spec fn lead_of(s: Seq<char>, kind: u8) -> nat
    decreases s.len(),
{
    if s.len() > 0 && in_kind(s[0], kind) {
        1 + lead_of(s.skip(1), kind)
    } else {
        0
    }
}

/// The text after 「はい」 and one separator.
pub open spec fn after_hai(q: Seq<char>) -> Option<Seq<char>> {
    if q.len() >= 2 && q[0] == 'い' && (q[1] == '、' || q[1] == ',' || q[1] == ' ') {
        Some(q.skip(2))
    } else {
        None
    }
}

/// `s` without a leading call such as 「ねぇねぇ、」 or 「はーい、」.
pub open spec fn strip_precalls_spec(s: Seq<char>) -> Seq<char> {
    if nee1().is_prefix_of(s) || nee2().is_prefix_of(s) {
        let p = strip_nee(s);
        p.skip(lead_of(p, 0) as int)
    } else if s.len() > 0 && s[0] == 'は' {
        let p = s.skip(1);
        let q = p.skip(lead_of(p, 1) as int);
        match after_hai(q) {
            Some(r) => r,
            None => s,
        }
    } else {
        s
    }
}

/// The text after the first match of `pattern`, if there is one.
pub open spec fn rest_after(pattern: Seq<char>, s: Seq<char>) -> Option<Seq<char>> {
    match regex_split_first(pattern, s) {
        Some((_a, _b, c)) => Some(c),
        None => None,
    }
}

/// A leading 「教えて」 or 「はじめまして」, and the text after it.
pub open spec fn precall_verbs_spec(s: Seq<char>) -> (Option<Preverb>, Seq<char>) {
    match rest_after(TELL_HEAD_PATTERN@, s) {
        Some(r) => (Some(Preverb::Tell), r),
        None => match rest_after(FIRST_CONTACT_PATTERN@, s) {
            Some(r) => (Some(Preverb::FirstContact), r),
            None => (None, s),
        },
    }
}

/// The mention that starts a sentence addressed to `id`.
pub open spec fn mention_of(id: Seq<char>) -> Seq<char> {
    "<@"@ + id + ">"@
}

/// Whether a sentence calls the assistant whose mention is `header`: the
/// preverb, how it was called, and the rest of the sentence.
pub open spec fn check_spec(header: Seq<char>, input: Seq<char>) -> Option<(Option<Preverb>, CallBy, Seq<char>)> {
    let s1 = strip_precalls_spec(input);
    let (pv, s2) = precall_verbs_spec(s1);
    if header.is_prefix_of(s2) {
        let s3 = s2.skip(header.len() as int);
        Some((pv, CallBy::Mention, s3.skip(lead_of(s3, 2) as int)))
    } else {
        match rest_after(NAME_PATTERN@, s2) {
            Some(r) => Some((pv, CallBy::Name, r)),
            None => None,
        }
    }
}

/// A leading 「はじめまして」 and the text after it.
pub open spec fn preverbs_after_spec(s: Seq<char>) -> (Option<Preverb>, Seq<char>) {
    match rest_after(FIRST_CONTACT_PATTERN@, s) {
        Some(r) => (Some(Preverb::FirstContact), r),
        None => (None, s),
    }
}

pub open spec fn check_view(r: Option<(Option<Preverb>, CallBy, String)>) -> Option<(Option<Preverb>, CallBy, Seq<char>)> {
    match r {
        Some((p, c, s)) => Some((p, c, s@)),
        None => None,
    }
}


pub open spec fn pv_view(r: (Option<Preverb>, String)) -> (Option<Preverb>, Seq<char>) {
    (r.0, r.1@)
}

/// A message that begins with the assistant's mention, and in which neither
/// 「教えて」 nor 「はじめまして」 is found, calls the assistant by mention;
/// what follows is the rest after the white space.
pub proof fn law_mention_calls(id: Seq<char>, rest: Seq<char>)
    ensures
        regex_split_first(TELL_HEAD_PATTERN@, mention_of(id) + rest) is None && regex_split_first(
            FIRST_CONTACT_PATTERN@,
            mention_of(id) + rest,
        ) is None ==> check_spec(mention_of(id), mention_of(id) + rest) == Some(
            (None::<Preverb>, CallBy::Mention, rest.skip(lead_of(rest, 2) as int)),
        ),
{
    reveal_strlit("<@");
    reveal_strlit(">");
    let h = mention_of(id);
    let s = h + rest;
    assert(s[0] == '<');
    assert(!nee1().is_prefix_of(s));
    assert(!nee2().is_prefix_of(s));
    assert(strip_precalls_spec(s) == s);
    assert(h.is_prefix_of(s));
    assert(s.skip(h.len() as int) =~= rest);
}

/// `s` without its prefix `p`, when it has it.
fn strip_prefix<'a>(s: &'a str, p: &str) -> (r: Option<&'a str>)
    ensures
        r matches Some(x) ==> p@.is_prefix_of(s@) && x@ == s@.skip(p@.len() as int),
        r is None ==> !p@.is_prefix_of(s@),
{
    if starts_with(s, p) {
        Some(skip_chars(s, p.unicode_len()))
    } else {
        None
    }
}

proof fn lemma_lead_step(s: Seq<char>, i: int, kind: u8)
    requires
        0 <= i < s.len(),
        in_kind(s[i], kind),
    ensures
        lead_of(s.skip(i), kind) == 1 + lead_of(s.skip(i + 1), kind),
{
    assert(s.skip(i).skip(1) =~= s.skip(i + 1));
}

/// The number of leading characters of `s` of the given kind.
fn lead_count(s: &str, kind: u8) -> (r: usize)
    ensures
        r == lead_of(s@, kind),
        r <= s@.len(),
{
    let n = s.unicode_len();
    let mut i: usize = 0;
    assert(s@.skip(0) =~= s@);
    while i < n
        invariant
            n == s@.len(),
            i <= n,
            lead_of(s@, kind) == i + lead_of(s@.skip(i as int), kind),
        decreases n - i,
    {
        let c = s.get_char(i);
        let hit = if kind == 0 {
            c == '、' || c == ',' || c == ' ' || c == '~' || c == '〜' || c == '-' || c == 'ー'
        } else if kind == 1 {
            c == '~' || c == '〜' || c == '-' || c == 'ー'
        } else {
            c == ' ' || c == '\n' || c == '\t'
        };
        if !hit {
            assert(s@.skip(i as int)[0] == c);
            return i;
        }
        proof {
            lemma_lead_step(s@, i as int, kind);
        }
        i += 1;
    }
    assert(s@.skip(n as int).len() == 0);
    n
}

impl CallingSentenceDetector {
    #[verifier::type_invariant]
    spec fn patterns_kept(self) -> bool {
        &&& self.name_rx.source() == NAME_PATTERN@
        &&& self.tell_head_rx.source() == TELL_HEAD_PATTERN@
        &&& self.firstcontact_rx.source() == FIRST_CONTACT_PATTERN@
    }

    /// The mention that the detector looks for.
    pub closed spec fn header(&self) -> Seq<char> {
        self.mention_header@
    }

    /// A detector for the assistant whose user id is `mention_id`.
    pub fn new(mention_id: &str) -> (r: Self)
        ensures
            r.header() == mention_of(mention_id@),
    {
        let name_rx = Pattern::new(NAME_PATTERN);
        let tell_head_rx = Pattern::new(TELL_HEAD_PATTERN);
        let firstcontact_rx = Pattern::new(FIRST_CONTACT_PATTERN);
        CallingSentenceDetector {
            name_rx,
            tell_head_rx,
            firstcontact_rx,
            mention_header: cat3("<@", mention_id, ">"),
        }
    }

    /// `input` without a leading call such as 「ねぇねぇ、」 or 「はーい、」.
    pub fn strip_precalls(input: &str) -> (r: &str)
        ensures
            r@ == strip_precalls_spec(input@),
    {
        proof {
            reveal_strlit("ねぇ");
            reveal_strlit("ねえ");
            reveal_strlit("は");
            assert("ねぇ"@ =~= nee1());
            assert("ねえ"@ =~= nee2());
            assert("は"@ =~= seq!['は']);
        }
        let first = match strip_prefix(input, "ねぇ") {
            Some(p) => Some(p),
            None => strip_prefix(input, "ねえ"),
        };
        if let Some(p) = first {
            let mut p0 = p;
            assert(strip_nee(input@) == strip_nee(p0@));
            loop
                invariant
                    strip_nee(input@) == strip_nee(p0@),
                    "ねぇ"@ == nee1(),
                    "ねえ"@ == nee2(),
                ensures
                    strip_nee(p0@) == p0@,
                    strip_nee(input@) == strip_nee(p0@),
                decreases p0@.len(),
            {
                let next = match strip_prefix(p0, "ねぇ") {
                    Some(x) => Some(x),
                    None => strip_prefix(p0, "ねえ"),
                };
                match next {
                    Some(x) => {
                        p0 = x;
                    },
                    None => {
                        break ;
                    },
                }
            }
            assert(strip_nee(p0@) == p0@);
            let k = lead_count(p0, 0);
            return skip_chars(p0, k);
        }
        match strip_prefix(input, "は") {
            Some(p) => {
                assert("は"@.is_prefix_of(input@));
                assert(input@.subrange(0, 1) =~= seq!['は']);
                assert(input@.subrange(0, 1)[0] == input@[0]);
                assert(input@[0] == 'は');
                assert(p@ == input@.skip(1));
                let k = lead_count(p, 1);
                let q = skip_chars(p, k);
                let qn = q.unicode_len();
                if qn >= 2 && q.get_char(0) == 'い' {
                    let c = q.get_char(1);
                    if c == '、' || c == ',' || c == ' ' {
                        return skip_chars(q, 2);
                    }
                }
                input
            },
            None => {
                assert(!(input@.len() > 0 && input@[0] == 'は')) by {
                    if input@.len() > 0 && input@[0] == 'は' {
                        assert("は"@ =~= input@.subrange(0, 1));
                    }
                }
                input
            },
        }
    }

    /// A leading 「教えて」 or 「はじめまして」, and the text after it.
    fn strip_precall_verbs(&self, input: &str) -> (r: (Option<Preverb>, String))
        ensures
            pv_view(r) == precall_verbs_spec(input@),
    {
        proof {
            use_type_invariant(self);
        }
        match self.tell_head_rx.split_first(input) {
            Some((_a, _b, c)) => (Some(Preverb::Tell), c),
            None => match self.firstcontact_rx.split_first(input) {
                Some((_a, _b, c)) => (Some(Preverb::FirstContact), c),
                None => (None, String::from_str(input)),
            },
        }
    }

    /// Whether `input` calls the assistant: the preverb, how it was called,
    /// and the rest of the sentence.
    pub fn check(&self, input: &str) -> (r: Option<(Option<Preverb>, CallBy, String)>)
        ensures
            check_view(r) == check_spec(self.header(), input@),
    {
        proof {
            use_type_invariant(self);
        }
        let s1 = Self::strip_precalls(input);
        let (preverb, s2) = self.strip_precall_verbs(s1);
        let s2 = s2.as_str();
        let header = self.mention_header.as_str();
        if starts_with(s2, header) {
            let s3 = skip_chars(s2, header.unicode_len());
            let k = lead_count(s3, 2);
            let rest = skip_chars(s3, k);
            return Some((preverb, CallBy::Mention, String::from_str(rest)));
        }
        match self.name_rx.split_first(s2) {
            Some((_a, _b, c)) => Some((preverb, CallBy::Name, c)),
            None => None,
        }
    }

    /// A leading 「はじめまして」 and the text after it.
    pub fn strip_preverbs_after(&self, input: &str) -> (r: (Option<Preverb>, String))
        ensures
            pv_view(r) == preverbs_after_spec(input@),
    {
        proof {
            use_type_invariant(self);
        }
        match self.firstcontact_rx.split_first(input) {
            Some((_a, _b, c)) => (Some(Preverb::FirstContact), c),
            None => (None, String::from_str(input)),
        }
    }
}


proof fn lemma_dashes_lead(d: Seq<char>, rest: Seq<char>)
    requires
        forall|i: int| 0 <= i < d.len() ==> in_kind(#[trigger] d[i], 1),
        rest.len() > 0,
        !in_kind(rest[0], 1),
    ensures
        lead_of(d + rest, 1) == d.len(),
    decreases d.len(),
{
    if d.len() > 0 {
        assert((d + rest).skip(1) =~= d.skip(1) + rest);
        lemma_dashes_lead(d.skip(1), rest);
    } else {
        assert(d + rest =~= rest);
    }
}

/// 「は」, any number of dashes (none included), 「い」 and one separator
/// (、 , or a space) form a leading call: stripping the leading calls from
/// it followed by any text gives that text.
pub proof fn law_hai_is_a_call(dashes: Seq<char>, sep: char, s: Seq<char>)
    requires
        forall|i: int| 0 <= i < dashes.len() ==> in_kind(#[trigger] dashes[i], 1),
        sep == '、' || sep == ',' || sep == ' ',
    ensures
        strip_precalls_spec(seq!['は'] + dashes + seq!['い', sep] + s) == s,
{
    let input = seq!['は'] + dashes + seq!['い', sep] + s;
    let rest = seq!['い', sep] + s;
    assert(!nee1().is_prefix_of(input)) by {
        assert(input[0] == 'は');
    }
    assert(!nee2().is_prefix_of(input)) by {
        assert(input[0] == 'は');
    }
    let p = input.skip(1);
    assert(p =~= dashes + rest);
    lemma_dashes_lead(dashes, rest);
    let q = p.skip(dashes.len() as int);
    assert(q =~= rest);
    assert(q.skip(2) =~= s);
}

} // verus!
