//! The calling form of a root chunk: what kind of request a sentence makes
//! (a verb, a question about a noun, an interjection, ...).

use crate::args::{args_wf, env_spec, EnvView, JpCallingEnv};
use crate::cabocha::{feature, features_agree, linkmap_view, linkmap_wf, reading_of, Token, TreeRef};
use crate::args::features_agree2;
use crate::args::features_agree3;
use crate::text::str_eq;
use std::collections::BTreeMap;
use vstd::prelude::*;

verus! {

/// Auxiliaries attached to a verb: negation (ない) and completion (た).
pub struct VerbModifier {
    pub negative: bool,
    pub done: bool,
}

impl Default for VerbModifier {
    fn default() -> (r: Self)
        ensures
            !r.negative && !r.done,
    {
        VerbModifier { negative: false, done: false }
    }
}

/// The form of a request.
pub enum CallingForm<'s> {
    /// A verb in its base form, its auxiliaries and its arguments.
    Verb(&'s str, VerbModifier, JpCallingEnv<'s>),
    /// `<noun> ?`: the noun's reading and the arguments.
    MeishiQuery(&'s str, JpCallingEnv<'s>),
    /// An interjection in its base form, and whether です/ます follows it.
    Kando(&'s str, bool),
    /// `<noun> は ?`
    ObjectNameQuery(&'s str, JpCallingEnv<'s>),
    /// `<personal name> は ?`, a special case of `ObjectNameQuery`.
    PeopleNameQuery(&'s str, JpCallingEnv<'s>),
}

/// Mathematical value of a [`CallingForm`].
pub enum FormView {
    Verb(Seq<char>, bool, bool, EnvView),
    MeishiQuery(Seq<char>, EnvView),
    Kando(Seq<char>, bool),
    ObjectNameQuery(Seq<char>, EnvView),
    PeopleNameQuery(Seq<char>, EnvView),
}

impl<'s> View for CallingForm<'s> {
    type V = FormView;

    open spec fn view(&self) -> FormView {
        match self {
            CallingForm::Verb(s, m, e) => FormView::Verb(s@, m.negative, m.done, e@),
            CallingForm::MeishiQuery(s, e) => FormView::MeishiQuery(s@, e@),
            CallingForm::Kando(s, d) => FormView::Kando(s@, *d),
            CallingForm::ObjectNameQuery(s, e) => FormView::ObjectNameQuery(s@, e@),
            CallingForm::PeopleNameQuery(s, e) => FormView::PeopleNameQuery(s@, e@),
        }
    }
}

/// The arguments of a form are well formed at every depth.
pub open spec fn form_wf(f: FormView) -> bool {
    match f {
        FormView::Verb(_, _, _, e) => args_wf(e.args),
        FormView::MeishiQuery(_, e) => args_wf(e.args),
        FormView::Kando(_, _) => true,
        FormView::ObjectNameQuery(_, e) => args_wf(e.args),
        FormView::PeopleNameQuery(_, e) => args_wf(e.args),
    }
}

/// An independent verb.
pub open spec fn is_standing_verb(t: Token) -> bool {
    features_agree(t, seq!["動詞"@, "自立"@])
}

/// An interjection.
pub open spec fn is_kando(t: Token) -> bool {
    feature(t, 0) == "感動詞"@
}

/// An auxiliary that can modify a verb.
pub open spec fn is_verb_modifier(t: Token) -> bool {
    feature(t, 0) == "助動詞"@ || features_agree(t, seq!["動詞"@, "接尾"@]) || features_agree(
        t,
        seq!["動詞"@, "非自立"@],
    )
}

/// Some token at a position in `lo..hi` is a verb auxiliary with base form `base`.
pub open spec fn has_modifier(ts: Seq<Token>, lo: int, hi: int, base: Seq<char>) -> bool
    decreases hi - lo,
{
    if hi <= lo {
        false
    } else {
        has_modifier(ts, lo, hi - 1, base) || (is_verb_modifier(ts[hi - 1]) && feature(ts[hi - 1], 6)
            == base)
    }
}

/// Some token at a position in `lo..hi` is written です or ます.
pub open spec fn has_desumasu(ts: Seq<Token>, lo: int, hi: int) -> bool
    decreases hi - lo,
{
    if hi <= lo {
        false
    } else {
        has_desumasu(ts, lo, hi - 1) || ts[hi - 1].surface@ == "ます"@ || ts[hi - 1].surface@
            == "です"@
    }
}

/// Index of the first token, among the first `n`, that is a verb or an interjection.
pub open spec fn first_head(ts: Seq<Token>, n: nat) -> Option<nat>
    decreases n,
{
    if n == 0 {
        None
    } else {
        match first_head(ts, (n - 1) as nat) {
            Some(i) => Some(i),
            None => if is_standing_verb(ts[n - 1]) || is_kando(ts[n - 1]) {
                Some((n - 1) as nat)
            } else {
                None
            },
        }
    }
}

/// The chunk ends with は/って followed by `?`.
pub open spec fn is_anon_query(ts: Seq<Token>) -> bool {
    &&& ts.len() >= 2
    &&& (ts[ts.len() - 2].surface@ == "は"@ || ts[ts.len() - 2].surface@ == "って"@)
    &&& ts[ts.len() - 1].surface@ == "?"@
}

pub open spec fn is_people_query(ts: Seq<Token>) -> bool {
    is_anon_query(ts) && features_agree(ts[0], seq!["名詞"@, "固有名詞"@, "人名"@])
}

pub open spec fn is_object_query(ts: Seq<Token>) -> bool {
    is_anon_query(ts) && !is_people_query(ts) && feature(ts[0], 0) == "名詞"@
}

pub open spec fn is_meishi_query(ts: Seq<Token>) -> bool {
    &&& !is_people_query(ts)
    &&& !is_object_query(ts)
    &&& ts.len() >= 2
    &&& ts[1].surface@ == "?"@
    &&& feature(ts[0], 0) == "名詞"@
}

/// The form of the request made by chunk `pc`, if it makes one.
pub open spec fn form_spec(tree: TreeRef, pc: nat, lm: Map<usize, Seq<usize>>) -> Option<FormView> {
    let ts = tree.chunk_tokens(pc as int);
    let env = env_spec(tree, pc, lm);
    if is_people_query(ts) {
        Some(FormView::PeopleNameQuery(ts[0].surface@, env))
    } else if is_object_query(ts) {
        Some(FormView::ObjectNameQuery(ts[0].surface@, env))
    } else if is_meishi_query(ts) {
        Some(FormView::MeishiQuery(reading_of(ts[0])->0, env))
    } else {
        match first_head(ts, ts.len()) {
            Some(i) => if is_standing_verb(ts[i as int]) {
                Some(
                    FormView::Verb(
                        feature(ts[i as int], 6),
                        has_modifier(ts, (i + 1) as int, ts.len() as int, "ない"@),
                        has_modifier(ts, (i + 1) as int, ts.len() as int, "た"@),
                        env,
                    ),
                )
            } else {
                Some(FormView::Kando(feature(ts[i as int], 6), has_desumasu(ts, (i + 1) as int, ts.len() as int)))
            },
            None => None,
        }
    }
}

/// The chunk does not ask `<noun> ?` about a noun without reading.
pub open spec fn form_defined(tree: TreeRef, pc: nat) -> bool {
    let ts = tree.chunk_tokens(pc as int);
    is_meishi_query(ts) ==> reading_of(ts[0]) is Some
}

proof fn lemma_first_head_stable(ts: Seq<Token>, i: nat, n: nat)
    requires
        i <= n,
        first_head(ts, i) is Some,
    ensures
        first_head(ts, n) == first_head(ts, i),
    decreases n - i,
{
    if i < n {
        lemma_first_head_stable(ts, i, (n - 1) as nat);
    }
}

impl<'s> CallingForm<'s> {
    /// Whether [`CallingForm::parse`] is defined on chunk `primary_chunk`.
    pub fn parse_defined(tree: &'s TreeRef, primary_chunk: usize) -> (r: bool)
        requires
            tree.wf(),
            primary_chunk < tree.chunks@.len(),
        ensures
            r == form_defined(*tree, primary_chunk as nat),
    {
        let c = &tree.chunks[primary_chunk];
        assert(tree.chunks@[primary_chunk as int] == *c);
        let toks = c.tokens(tree);
        let ghost ts = tree.chunk_tokens(primary_chunk as int);
        assert(toks@.len() == ts.len());
        assert forall|i: int| 0 <= i < ts.len() implies *toks@[i] == ts[i] by {}
        let (people, object) = Self::anon_query_kind(&toks);
        let meishi = !people && !object && toks.len() >= 2 && str_eq(toks[1].surface_normalized(), "?")
            && str_eq(toks[0].primary_part(), "名詞");
        !meishi || toks[0].reading_form().is_some()
    }

    /// Whether the tokens ask about a personal name, or about an object.
    fn anon_query_kind(toks: &Vec<&Token>) -> (r: (bool, bool))
        requires
            toks@.len() >= 1,
            forall|i: int| 0 <= i < toks@.len() ==> crate::cabocha::token_wf(*toks@[i]),
        ensures
            ({
                let ts = Seq::new(toks@.len(), |i: int| *toks@[i]);
                r == (is_people_query(ts), is_object_query(ts))
            }),
    {
        let ghost ts = Seq::new(toks@.len(), |i: int| *toks@[i]);
        let n = toks.len();
        let anon = n >= 2 && (str_eq(toks[n - 2].surface_normalized(), "は") || str_eq(
            toks[n - 2].surface_normalized(),
            "って",
        )) && str_eq(toks[n - 1].surface_normalized(), "?");
        assert(anon == is_anon_query(ts));
        let people = anon && features_agree3(toks[0], "名詞", "固有名詞", "人名");
        let object = anon && !people && str_eq(toks[0].primary_part(), "名詞");
        (people, object)
    }

    /// The form of the request made by chunk `primary_chunk`, if it makes one.
    pub fn parse(tree: &'s TreeRef, primary_chunk: usize, linkmap: &BTreeMap<usize, Vec<usize>>) -> (r:
        Option<Self>)
        requires
            tree.wf(),
            primary_chunk < tree.chunks@.len(),
            linkmap_wf(linkmap_view(linkmap@), tree.chunks@.len()),
            form_defined(*tree, primary_chunk as nat),
        ensures
            r matches Some(f) ==> form_spec(*tree, primary_chunk as nat, linkmap_view(linkmap@)) == Some(
                f@,
            ) && form_wf(f@),
            r is None ==> form_spec(*tree, primary_chunk as nat, linkmap_view(linkmap@)) is None,
    {
        let ghost lm = linkmap_view(linkmap@);
        let c = &tree.chunks[primary_chunk];
        assert(tree.chunks@[primary_chunk as int] == *c);
        let toks = c.tokens(tree);
        let ghost ts = tree.chunk_tokens(primary_chunk as int);
        assert(toks@.len() == ts.len());
        assert forall|i: int| 0 <= i < ts.len() implies *toks@[i] == ts[i] by {}
        assert forall|i: int| 0 <= i < ts.len() implies crate::cabocha::token_wf(*toks@[i]) by {
            assert(ts[i] == tree.tokens@[c.token_pos + i]);
        }
        assert(Seq::new(toks@.len(), |i: int| *toks@[i]) =~= ts);
        let n = toks.len();
        let (people, object) = Self::anon_query_kind(&toks);
        if people {
            let env = JpCallingEnv::parse(tree, primary_chunk, linkmap);
            return Some(CallingForm::PeopleNameQuery(toks[0].surface_normalized(), env));
        }
        if object {
            let env = JpCallingEnv::parse(tree, primary_chunk, linkmap);
            return Some(CallingForm::ObjectNameQuery(toks[0].surface_normalized(), env));
        }
        if n >= 2 && str_eq(toks[1].surface_normalized(), "?") && str_eq(toks[0].primary_part(), "名詞") {
            let reading = toks[0].reading_form().unwrap();
            let env = JpCallingEnv::parse(tree, primary_chunk, linkmap);
            return Some(CallingForm::MeishiQuery(reading, env));
        }
        let mut i: usize = 0;
        while i < n
            invariant
                tree.wf(),
                primary_chunk < tree.chunks@.len(),
                linkmap_wf(linkmap_view(linkmap@), tree.chunks@.len()),
                lm == linkmap_view(linkmap@),
                ts == tree.chunk_tokens(primary_chunk as int),
                !is_people_query(ts) && !is_object_query(ts) && !is_meishi_query(ts),
                n == ts.len(),
                toks@.len() == n,
                forall|k: int| 0 <= k < n ==> *toks@[k] == ts[k],
                forall|k: int| 0 <= k < n ==> crate::cabocha::token_wf(ts[k]),
                i <= n,
                first_head(ts, i as nat) is None,
            decreases n - i,
        {
            let tok = toks[i];
            assert(*tok == ts[i as int]);
            assert(crate::cabocha::token_wf(ts[i as int]));
            if features_agree2(tok, "動詞", "自立") {
                assert(first_head(ts, (i + 1) as nat) == Some(i as nat));
                proof {
                    lemma_first_head_stable(ts, (i + 1) as nat, n as nat);
                }
                let mut mods = VerbModifier { negative: false, done: false };
                let mut j: usize = i + 1;
                while j < n
                    invariant
                        n == ts.len(),
                        toks@.len() == n,
                        forall|k: int| 0 <= k < n ==> *toks@[k] == ts[k],
                        forall|k: int| 0 <= k < n ==> crate::cabocha::token_wf(ts[k]),
                        i < j <= n,
                        mods.negative == has_modifier(ts, i + 1, j as int, "ない"@),
                        mods.done == has_modifier(ts, i + 1, j as int, "た"@),
                    decreases n - j,
                {
                    let x = toks[j];
                    assert(*x == ts[j as int]);
                    assert(crate::cabocha::token_wf(ts[j as int]));
                    proof {
                        reveal_strlit("た");
                        reveal_strlit("ない");
                        assert("た"@.len() == 1);
                        assert("ない"@.len() == 2);
                        assert("た"@ != "ない"@);
                    }
                    let is_mod = str_eq(x.primary_part(), "助動詞") || features_agree2(x, "動詞", "接尾")
                        || features_agree2(x, "動詞", "非自立");
                    assert(is_mod == is_verb_modifier(ts[j as int]));
                    if is_mod {
                        let b = x.base_form();
                        if str_eq(b, "た") {
                            mods.done = true;
                        } else if str_eq(b, "ない") {
                            mods.negative = true;
                        }
                    }
                    j += 1;
                }
                let env = JpCallingEnv::parse(tree, primary_chunk, linkmap);
                return Some(CallingForm::Verb(tok.base_form(), mods, env));
            } else if str_eq(tok.primary_part(), "感動詞") {
                assert(first_head(ts, (i + 1) as nat) == Some(i as nat));
                proof {
                    lemma_first_head_stable(ts, (i + 1) as nat, n as nat);
                }
                let mut found = false;
                let mut j: usize = i + 1;
                while j < n
                    invariant
                        n == ts.len(),
                        toks@.len() == n,
                        forall|k: int| 0 <= k < n ==> *toks@[k] == ts[k],
                        i < j <= n,
                        found == has_desumasu(ts, i + 1, j as int),
                    decreases n - j,
                {
                    let x = toks[j];
                    assert(*x == ts[j as int]);
                    if str_eq(x.surface_normalized(), "ます") || str_eq(x.surface_normalized(), "です") {
                        found = true;
                    }
                    j += 1;
                }
                return Some(CallingForm::Kando(tok.base_form(), found));
            }
            i += 1;
        }
        None
    }
}


/// A chunk that starts with a noun and ends with は or って then `?` asks
/// about that noun, the same way whichever of the two it uses: about a
/// personal name when the noun is one, else about an object; with the
/// chunk's arguments.
pub proof fn law_noun_questions(tree: TreeRef, pc: nat, lm: Map<usize, Seq<usize>>)
    ensures
        ({
            let ts = tree.chunk_tokens(pc as int);
            &&& ts.len() >= 2
            &&& (ts[ts.len() - 2].surface@ == "は"@ || ts[ts.len() - 2].surface@ == "って"@)
            &&& ts[ts.len() - 1].surface@ == "?"@
            &&& feature(ts[0], 0) == "名詞"@
        }) ==> form_spec(tree, pc, lm) == Some(
            if features_agree(tree.chunk_tokens(pc as int)[0], seq!["名詞"@, "固有名詞"@, "人名"@]) {
                FormView::PeopleNameQuery(tree.chunk_tokens(pc as int)[0].surface@, env_spec(tree, pc, lm))
            } else {
                FormView::ObjectNameQuery(tree.chunk_tokens(pc as int)[0].surface@, env_spec(tree, pc, lm))
            },
        ),
{
}

} // verus!
