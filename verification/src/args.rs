//! Arguments of a predicate: the chunks that depend on it, grouped by the
//! postposition (particle) that ends them.

use crate::cabocha::{feature, features_agree, linkmap_view, linkmap_wf, reading_of, Token, TreeRef};
use crate::text::str_eq;
use std::collections::BTreeMap;
use vstd::prelude::*;

verus! {

/// One argument: the chunks that modify it and its own tokens (without the
/// trailing postposition).
pub struct JpArgument<'s> {
    pub mods: JpArguments<'s>,
    pub text: Vec<&'s Token>,
}

/// The arguments of a predicate. Those that end with a postposition are
/// grouped by it, in the order in which each postposition first occurs.
pub struct JpArguments<'s> {
    pub with_postposition: Vec<(&'s str, Vec<JpArgument<'s>>)>,
    pub without_postposition: Vec<JpArgument<'s>>,
}

/// Mathematical value of a [`JpArgument`].
pub struct ArgView {
    pub mods: ArgsView,
    pub text: Seq<Token>,
}

/// Mathematical value of a [`JpArguments`].
pub struct ArgsView {
    pub with: Seq<(Seq<char>, Seq<ArgView>)>,
    pub without: Seq<ArgView>,
}

pub open spec fn arg_view(a: JpArgument) -> ArgView
    decreases a,
{
    ArgView {
        mods: args_view(a.mods),
        text: Seq::new(a.text@.len(), |i: int| *a.text@[i]),
    }
}

pub open spec fn args_view(m: JpArguments) -> ArgsView
    decreases m,
{
    ArgsView {
        with: Seq::new(
            m.with_postposition@.len(),
            |i: int|
                if 0 <= i < m.with_postposition@.len() {
                    let e = m.with_postposition@[i];
                    (
                        e.0@,
                        Seq::new(
                            e.1@.len(),
                            |j: int|
                                if 0 <= j < e.1@.len() {
                                    arg_view(e.1@[j])
                                } else {
                                    arbitrary()
                                },
                        ),
                    )
                } else {
                    arbitrary()
                },
        ),
        without: Seq::new(
            m.without_postposition@.len(),
            |i: int|
                if 0 <= i < m.without_postposition@.len() {
                    arg_view(m.without_postposition@[i])
                } else {
                    arbitrary()
                },
        ),
    }
}

impl<'s> View for JpArgument<'s> {
    type V = ArgView;

    open spec fn view(&self) -> ArgView {
        arg_view(*self)
    }
}

impl<'s> View for JpArguments<'s> {
    type V = ArgsView;

    open spec fn view(&self) -> ArgsView {
        args_view(*self)
    }
}

pub open spec fn empty_args() -> ArgsView {
    ArgsView { with: seq![], without: seq![] }
}

pub open spec fn opt_str_view(o: Option<&str>) -> Option<Seq<char>> {
    match o {
        Some(s) => Some(s@),
        None => None,
    }
}

/// Index of the first group among the first `n` whose postposition is `key`.
pub open spec fn key_index(es: Seq<(Seq<char>, Seq<ArgView>)>, key: Seq<char>, n: nat) -> Option<nat>
    decreases n,
{
    if n == 0 {
        None
    } else {
        match key_index(es, key, (n - 1) as nat) {
            Some(i) => Some(i),
            None => if es[n - 1].0 == key {
                Some((n - 1) as nat)
            } else {
                None
            },
        }
    }
}

/// `m` with `a` added, under the postposition `pp` when there is one.
pub open spec fn args_add(m: ArgsView, a: ArgView, pp: Option<Seq<char>>) -> ArgsView {
    match pp {
        Some(p) => match key_index(m.with, p, m.with.len()) {
            Some(i) => ArgsView {
                with: m.with.update(i as int, (m.with[i as int].0, m.with[i as int].1.push(a))),
                without: m.without,
            },
            None => ArgsView { with: m.with.push((p, seq![a])), without: m.without },
        },
        None => ArgsView { with: m.with, without: m.without.push(a) },
    }
}

/// The first argument placed under the first of `pps` (in the order of
/// `pps`) that occurs among the groups.
pub open spec fn first_with(m: ArgsView, pps: Seq<Seq<char>>, n: nat) -> Option<ArgView>
    decreases n,
{
    if n == 0 {
        None
    } else {
        match first_with(m, pps, (n - 1) as nat) {
            Some(a) => Some(a),
            None => match key_index(m.with, pps[n - 1], m.with.len()) {
                Some(i) => if m.with[i as int].1.len() > 0 {
                    Some(m.with[i as int].1[0])
                } else {
                    None
                },
                None => None,
            },
        }
    }
}

/// Every group holds at least one argument, and every token has its base
/// form, at every depth.
pub open spec fn args_wf(m: ArgsView) -> bool
    decreases m, 0nat,
{
    &&& forall|i: int| 0 <= i < m.with.len() ==> (#[trigger] m.with[i]).1.len() > 0
    &&& forall|i: int, j: int|
        0 <= i < m.with.len() && 0 <= j < m.with[i].1.len() ==> arg_wf(#[trigger] m.with[i].1[j])
    &&& forall|i: int| 0 <= i < m.without.len() ==> arg_wf(#[trigger] m.without[i])
}

pub open spec fn arg_wf(a: ArgView) -> bool
    decreases a, 1nat,
{
    &&& args_wf(a.mods)
    &&& forall|j: int| 0 <= j < a.text.len() ==> crate::cabocha::token_wf(#[trigger] a.text[j])
}

/// The surfaces of `ts` written one after the other.
pub open spec fn surfaces(ts: Seq<Token>) -> Seq<char>
    decreases ts.len(),
{
    if ts.len() == 0 {
        seq![]
    } else {
        surfaces(ts.drop_last()) + ts.last().surface@
    }
}

/// The text of an argument, without what modifies it.
pub open spec fn flat_text(a: ArgView) -> Seq<char> {
    surfaces(a.text)
}

/// The text of an argument, with what modifies it before it.
pub open spec fn arg_string(a: ArgView) -> Seq<char>
    decreases a, 1nat, 0nat,
{
    args_string(a.mods) + surfaces(a.text)
}

/// All arguments as text: each group's arguments followed by the
/// postposition, then the arguments without one.
pub open spec fn args_string(m: ArgsView) -> Seq<char>
    decreases m, 0nat, 0nat,
{
    groups_string(m.with, m.with.len()) + list_string(m.without, m.without.len(), seq![])
}

pub open spec fn groups_string(es: Seq<(Seq<char>, Seq<ArgView>)>, n: nat) -> Seq<char>
    decreases es, n, 0nat,
{
    if n == 0 || n > es.len() {
        seq![]
    } else {
        groups_string(es, (n - 1) as nat) + list_string(es[n - 1].1, es[n - 1].1.len(), es[n - 1].0)
    }
}

pub open spec fn list_string(xs: Seq<ArgView>, n: nat, suffix: Seq<char>) -> Seq<char>
    decreases xs, n, 0nat,
{
    if n == 0 || n > xs.len() {
        seq![]
    } else {
        list_string(xs, (n - 1) as nat, suffix) + arg_string(xs[n - 1]) + suffix
    }
}

/// The first of the first `n` tokens that is an independent verb.
pub open spec fn standing_verb(ts: Seq<Token>, n: nat) -> Option<Token>
    decreases n,
{
    if n == 0 {
        None
    } else {
        match standing_verb(ts, (n - 1) as nat) {
            Some(t) => Some(t),
            None => if features_agree(ts[n - 1], seq!["動詞"@, "自立"@]) {
                Some(ts[n - 1])
            } else {
                None
            },
        }
    }
}

pub open spec fn first_standing_verb(a: ArgView) -> Option<Token> {
    standing_verb(a.text, a.text.len())
}

/// The argument is the single token read `reading`.
pub open spec fn is_reading_form1(a: ArgView, reading: Seq<char>) -> bool {
    a.text.len() == 1 && reading_of(a.text[0]) == Some(reading)
}

/// The readings of the argument's tokens are exactly `readings`.
pub open spec fn has_readings(a: ArgView, readings: Seq<Option<Seq<char>>>) -> bool {
    &&& a.text.len() == readings.len()
    &&& forall|i: int| 0 <= i < readings.len() ==> reading_of(#[trigger] a.text[i]) == readings[i]
}

pub open spec fn args_is_empty(m: ArgsView) -> bool {
    m.with.len() == 0 && m.without.len() == 0
}

// ---------------------------------------------------------------------
// Parsing from a dependency tree
// ---------------------------------------------------------------------

/// Largest element plus one (0 for no element).
pub open spec fn bound(cs: Seq<usize>) -> nat
    decreases cs.len(),
{
    if cs.len() == 0 {
        0
    } else {
        let b = bound(cs.drop_last());
        if cs.last() + 1 > b {
            (cs.last() + 1) as nat
        } else {
            b
        }
    }
}

pub proof fn lemma_bound(cs: Seq<usize>)
    ensures
        forall|i: int| 0 <= i < cs.len() ==> cs[i] < bound(cs),
    decreases cs.len(),
{
    if cs.len() > 0 {
        lemma_bound(cs.drop_last());
        assert forall|i: int| 0 <= i < cs.len() implies cs[i] < bound(cs) by {
            if i < cs.len() - 1 {
                assert(cs[i] == cs.drop_last()[i]);
            }
        }
    }
}

pub proof fn lemma_bound_le(cs: Seq<usize>, b: nat)
    requires
        forall|i: int| 0 <= i < cs.len() ==> cs[i] < b,
    ensures
        bound(cs) <= b,
    decreases cs.len(),
{
    if cs.len() > 0 {
        assert forall|i: int| 0 <= i < cs.drop_last().len() implies cs.drop_last()[i] < b by {
            assert(cs.drop_last()[i] == cs[i]);
        }
        lemma_bound_le(cs.drop_last(), b);
    }
}

/// A postposition token: a particle, or a particle-like connective.
pub open spec fn is_pp_token(t: Token) -> bool {
    feature(t, 0) == "助詞"@ || feature(t, 1) == "助詞類接続"@
}

/// The argument formed by chunk `ci` and everything that depends on it,
/// and the postposition that ends the chunk.
pub open spec fn parse_chunk_spec(tree: TreeRef, ci: nat, lm: Map<usize, Seq<usize>>) -> (
    ArgView,
    Option<Seq<char>>,
)
    decreases ci + 1, 1nat, 0nat,
{
    let mods = if lm.contains_key(ci as usize) && bound(lm[ci as usize]) <= ci {
        parse_chunks_spec(tree, lm[ci as usize], lm, lm[ci as usize].len())
    } else {
        empty_args()
    };
    let toks = tree.chunk_tokens(ci as int);
    if toks.len() > 0 && is_pp_token(toks.last()) {
        (ArgView { mods, text: toks.drop_last() }, Some(toks.last().surface@))
    } else {
        (ArgView { mods, text: toks }, None)
    }
}

/// The arguments formed by the first `n` of the chunks `cs`.
pub open spec fn parse_chunks_spec(tree: TreeRef, cs: Seq<usize>, lm: Map<usize, Seq<usize>>, n: nat) -> ArgsView
    decreases bound(cs), 2nat, n,
{
    if n == 0 || n > cs.len() {
        empty_args()
    } else {
        proof {
            lemma_bound(cs);
        }
        let (a, pp) = parse_chunk_spec(tree, cs[n - 1] as nat, lm);
        args_add(parse_chunks_spec(tree, cs, lm, (n - 1) as nat), a, pp)
    }
}

proof fn lemma_args_view_empty<'s>(m: JpArguments<'s>)
    requires
        m.with_postposition@.len() == 0,
        m.without_postposition@.len() == 0,
    ensures
        args_view(m) == empty_args(),
{
    assert(args_view(m).with =~= empty_args().with);
    assert(args_view(m).without =~= empty_args().without);
}

impl<'s> JpArguments<'s> {
    pub fn new() -> (r: Self)
        ensures
            r@ == empty_args(),
    {
        let r = JpArguments { with_postposition: Vec::new(), without_postposition: Vec::new() };
        proof {
            lemma_args_view_empty(r);
        }
        r
    }

    pub fn is_empty(&self) -> (r: bool)
        ensures
            r == args_is_empty(self@),
    {
        self.with_postposition.len() == 0 && self.without_postposition.len() == 0
    }

    /// Adds an argument, under its postposition when it has one.
    pub fn push_arg(&mut self, a: JpArgument<'s>, pp: Option<&'s str>)
        ensures
            final(self)@ == args_add(old(self)@, a@, opt_str_view(pp)),
    {
        let ghost m0 = self@;
        let ghost w0 = self.with_postposition@;
        let ghost o0 = self.without_postposition@;
        match pp {
            Some(p) => {
                let n = self.with_postposition.len();
                let mut i: usize = 0;
                while i < n
                    invariant
                        n == self.with_postposition@.len(),
                        i <= n,
                        self@ == m0,
                        m0 == old(self)@,
                        pp == Some(p),
                        self.with_postposition@ == w0,
                        self.without_postposition@ == o0,
                        key_index(m0.with, p@, i as nat) is None,
                    decreases n - i,
                {
                    assert(m0.with[i as int].0 == self.with_postposition@[i as int].0@);
                    if str_eq(self.with_postposition[i].0, p) {
                        assert(key_index(m0.with, p@, (i + 1) as nat) == Some(i as nat));
                        proof {
                            lemma_key_index_stable(m0.with, p@, (i + 1) as nat, n as nat);
                        }
                        let (k, mut v) = self.with_postposition.remove(i);
                        let ghost v0 = v;
                        v.push(a);
                        self.with_postposition.insert(i, (k, v));
                        assert(self.with_postposition@ =~= w0.update(i as int, (k, v)));
                        proof {
                            let m1 = self@;
                            let want = args_add(m0, a@, Some(p@));
                            assert(m1.without =~= want.without);
                            assert forall|x: int| 0 <= x < m1.with.len() implies m1.with[x]
                                == want.with[x] by {
                                if x == i {
                                    assert(w0[x].1@ == v0@);
                                    assert(m1.with[x].1 =~= want.with[x].1);
                                    assert(m1.with[x].0 == want.with[x].0);
                                } else {
                                    assert(self.with_postposition@[x] == w0[x]);
                                }
                            }
                            assert(m1.with =~= want.with);
                            assert(m1 == want);
                            assert(opt_str_view(pp) == Some(p@));
                            assert(m0 == old(self)@);
                            assert(self@ == args_add(old(self)@, a@, opt_str_view(pp)));
                        }
                        return;
                    }
                    i += 1;
                }
                let mut v: Vec<JpArgument<'s>> = Vec::new();
                v.push(a);
                self.with_postposition.push((p, v));
                assert(self.with_postposition@ =~= w0.push((p, v)));
                proof {
                    let m1 = self@;
                    let want = args_add(m0, a@, Some(p@));
                    assert(m1.without =~= want.without);
                    assert forall|x: int| 0 <= x < m1.with.len() implies m1.with[x] == want.with[x] by {
                        if x == n {
                            assert(m1.with[x].1 =~= want.with[x].1);
                        } else {
                            assert(self.with_postposition@[x] == w0[x]);
                        }
                    }
                    assert(m1.with =~= want.with);
                }
            },
            None => {
                self.without_postposition.push(a);
                proof {
                    let m1 = self@;
                    let want = args_add(m0, a@, None);
                    assert(m1.with =~= want.with);
                    assert forall|x: int| 0 <= x < m1.without.len() implies m1.without[x]
                        == want.without[x] by {
                        if x < m0.without.len() {
                            assert(self.without_postposition@[x] == o0[x]);
                        }
                    }
                    assert(m1.without =~= want.without);
                }
            },
        }
    }
}

proof fn lemma_key_index_stable(es: Seq<(Seq<char>, Seq<ArgView>)>, key: Seq<char>, i: nat, n: nat)
    requires
        i <= n,
        key_index(es, key, i) is Some,
    ensures
        key_index(es, key, n) == key_index(es, key, i),
    decreases n - i,
{
    if i < n {
        lemma_key_index_stable(es, key, i, (n - 1) as nat);
    }
}


proof fn lemma_text_view<'s>(v: Vec<&'s Token>, ts: Seq<Token>)
    requires
        v@.len() == ts.len(),
        forall|i: int| 0 <= i < ts.len() ==> *v@[i] == ts[i],
    ensures
        Seq::new(v@.len(), |i: int| *v@[i]) == ts,
{
    assert(Seq::new(v@.len(), |i: int| *v@[i]) =~= ts);
}

impl<'s> JpArgument<'s> {
    /// The argument formed by chunk `chunk_index` and the chunks that depend
    /// on it (directly or not), and the postposition that ends the chunk.
    pub fn parse_chunk(tree: &'s TreeRef, chunk_index: usize, linkmap: &BTreeMap<usize, Vec<usize>>) -> (r: (
        Self,
        Option<&'s str>,
    ))
        requires
            tree.wf(),
            chunk_index < tree.chunks@.len(),
            linkmap_wf(linkmap_view(linkmap@), tree.chunks@.len()),
        ensures
            (r.0@, opt_str_view(r.1)) == parse_chunk_spec(*tree, chunk_index as nat, linkmap_view(linkmap@)),
        decreases chunk_index + 1, 1nat,
    {
        let ghost lm = linkmap_view(linkmap@);
        let mods = match linkmap.get(&chunk_index) {
            Some(cs) => {
                assert(lm.contains_key(chunk_index) && lm[chunk_index] == cs@);
                proof {
                    lemma_bound_le(cs@, chunk_index as nat);
                    assert forall|j: int| 0 <= j < cs@.len() implies cs@[j] < tree.chunks@.len() by {
                        assert(cs@[j] < chunk_index);
                    }
                }
                JpArguments::parse_chunks(tree, cs.as_slice(), linkmap)
            },
            None => {
                assert(!lm.contains_key(chunk_index));
                JpArguments::new()
            },
        };
        let c = &tree.chunks[chunk_index];
        assert(tree.chunks@[chunk_index as int] == *c);
        let mut tokens = c.tokens(tree);
        let ghost all = tree.chunk_tokens(chunk_index as int);
        assert(tokens@.len() == all.len());
        assert forall|i: int| 0 <= i < all.len() implies *tokens@[i] == all[i] by {}
        let n = tokens.len();
        let last = tokens[n - 1];
        assert(*last == all.last());
        assert(token_wf_of(tree, c.token_pos + n - 1));
        let is_pp = str_eq(last.features[0].as_str(), "助詞") || str_eq(
            last.features[1].as_str(),
            "助詞類接続",
        );
        if is_pp {
            let pp = tokens.pop().unwrap();
            proof {
                lemma_text_view(tokens, all.drop_last());
            }
            (JpArgument { mods, text: tokens }, Some(pp.surface_normalized()))
        } else {
            proof {
                lemma_text_view(tokens, all);
            }
            (JpArgument { mods, text: tokens }, None)
        }
    }
}

/// Token `i` of the tree has its base form.
pub open spec fn token_wf_of(tree: &TreeRef, i: int) -> bool {
    crate::cabocha::token_wf(tree.tokens@[i])
}

impl<'s> JpArguments<'s> {
    /// The arguments formed by the chunks `chunks` (each with what depends on it).
    pub fn parse_chunks(tree: &'s TreeRef, chunks: &[usize], linkmap: &BTreeMap<usize, Vec<usize>>) -> (r: Self)
        requires
            tree.wf(),
            forall|j: int| 0 <= j < chunks@.len() ==> chunks@[j] < tree.chunks@.len(),
            linkmap_wf(linkmap_view(linkmap@), tree.chunks@.len()),
        ensures
            r@ == parse_chunks_spec(*tree, chunks@, linkmap_view(linkmap@), chunks@.len()),
        decreases bound(chunks@), 2nat,
    {
        let mut this = JpArguments::new();
        let n = chunks.len();
        let mut i: usize = 0;
        proof {
            lemma_bound(chunks@);
        }
        while i < n
            invariant
                n == chunks@.len(),
                i <= n,
                tree.wf(),
                forall|j: int| 0 <= j < chunks@.len() ==> chunks@[j] < tree.chunks@.len(),
                forall|j: int| 0 <= j < chunks@.len() ==> chunks@[j] < bound(chunks@),
                linkmap_wf(linkmap_view(linkmap@), tree.chunks@.len()),
                this@ == parse_chunks_spec(*tree, chunks@, linkmap_view(linkmap@), i as nat),
            decreases n - i,
        {
            let ci = chunks[i];
            let (a, pp) = JpArgument::parse_chunk(tree, ci, linkmap);
            this.push_arg(a, pp);
            i += 1;
        }
        this
    }
}


/// The characters of each string slice.
pub open spec fn strs_view(s: Seq<&str>) -> Seq<Seq<char>> {
    Seq::new(s.len(), |i: int| s[i]@)
}

/// The readings given as optional string slices.
pub open spec fn opt_strs_view(s: Seq<Option<&str>>) -> Seq<Option<Seq<char>>> {
    Seq::new(s.len(), |i: int| opt_str_view(s[i]))
}

proof fn lemma_first_with_none_stable(m: ArgsView, pps: Seq<Seq<char>>, i: nat, n: nat)
    requires
        i <= n,
        first_with(m, pps, i) is Some,
    ensures
        first_with(m, pps, n) == first_with(m, pps, i),
    decreases n - i,
{
    if i < n {
        lemma_first_with_none_stable(m, pps, i, (n - 1) as nat);
    }
}

proof fn lemma_standing_verb_stable(ts: Seq<Token>, i: nat, n: nat)
    requires
        i <= n,
        standing_verb(ts, i) is Some,
    ensures
        standing_verb(ts, n) == standing_verb(ts, i),
    decreases n - i,
{
    if i < n {
        lemma_standing_verb_stable(ts, i, (n - 1) as nat);
    }
}

/// Whether the leading features of `t` agree with `a` and `b`.
pub fn features_agree2(t: &Token, a: &str, b: &str) -> (r: bool)
    ensures
        r == features_agree(*t, seq![a@, b@]),
{
    let n = t.features.len();
    let ok0 = n < 1 || str_eq(t.features[0].as_str(), a);
    let ok1 = n < 2 || str_eq(t.features[1].as_str(), b);
    proof {
        let pat = seq![a@, b@];
        if ok0 && ok1 {
            assert forall|i: int| 0 <= i < t.features@.len() && 0 <= i < pat.len() implies feature(
                *t,
                i,
            ) == pat[i] by {}
        } else if !ok0 {
            assert(feature(*t, 0) != pat[0]);
        } else {
            assert(feature(*t, 1) != pat[1]);
        }
    }
    ok0 && ok1
}

/// Whether the leading features of `t` agree with `a`, `b` and `c`.
pub fn features_agree3(t: &Token, a: &str, b: &str, c: &str) -> (r: bool)
    ensures
        r == features_agree(*t, seq![a@, b@, c@]),
{
    let n = t.features.len();
    let ok0 = n < 1 || str_eq(t.features[0].as_str(), a);
    let ok1 = n < 2 || str_eq(t.features[1].as_str(), b);
    let ok2 = n < 3 || str_eq(t.features[2].as_str(), c);
    proof {
        let pat = seq![a@, b@, c@];
        if ok0 && ok1 && ok2 {
            assert forall|i: int| 0 <= i < t.features@.len() && 0 <= i < pat.len() implies feature(
                *t,
                i,
            ) == pat[i] by {}
        } else if !ok0 {
            assert(feature(*t, 0) != pat[0]);
        } else if !ok1 {
            assert(feature(*t, 1) != pat[1]);
        } else {
            assert(feature(*t, 2) != pat[2]);
        }
    }
    ok0 && ok1 && ok2
}

/// Equality of two optional string slices.
pub fn opt_str_eq(a: Option<&str>, b: Option<&str>) -> (r: bool)
    ensures
        r == (opt_str_view(a) == opt_str_view(b)),
{
    match (a, b) {
        (Some(x), Some(y)) => str_eq(x, y),
        (None, None) => true,
        _ => false,
    }
}

impl<'s> JpArgument<'s> {
    /// The argument is the single token read `reading`.
    pub fn is_reading_form1_of(&self, reading: &str) -> (r: bool)
        ensures
            r == is_reading_form1(self@, reading@),
    {
        if self.text.len() != 1 {
            return false;
        }
        let rf = self.text[0].reading_form();
        assert(self@.text[0] == *self.text@[0]);
        opt_str_eq(rf, Some(reading))
    }

    /// The readings of the argument's tokens are exactly `readings`.
    pub fn is_exact_reading_forms_of(&self, readings: &[Option<&str>]) -> (r: bool)
        ensures
            r == has_readings(self@, opt_strs_view(readings@)),
    {
        let n = self.text.len();
        if n != readings.len() {
            return false;
        }
        let ghost rs = opt_strs_view(readings@);
        let mut i: usize = 0;
        while i < n
            invariant
                n == self.text@.len(),
                n == readings@.len(),
                rs == opt_strs_view(readings@),
                i <= n,
                forall|j: int| 0 <= j < i ==> reading_of(#[trigger] self@.text[j]) == rs[j],
            decreases n - i,
        {
            assert(self@.text[i as int] == *self.text@[i as int]);
            if !opt_str_eq(self.text[i].reading_form(), readings[i]) {
                return false;
            }
            i += 1;
        }
        true
    }

    /// The first independent verb of the argument.
    pub fn first_standing_verb(&self) -> (r: Option<&'s Token>)
        ensures
            r matches Some(t) ==> first_standing_verb(self@) == Some(*t),
            r is None ==> first_standing_verb(self@) is None,
    {
        let n = self.text.len();
        let mut i: usize = 0;
        while i < n
            invariant
                n == self.text@.len(),
                i <= n,
                standing_verb(self@.text, i as nat) is None,
            decreases n - i,
        {
            let t = self.text[i];
            assert(self@.text[i as int] == *t);
            if features_agree2(t, "動詞", "自立") {
                assert(standing_verb(self@.text, (i + 1) as nat) == Some(*t));
                proof {
                    lemma_standing_verb_stable(self@.text, (i + 1) as nat, n as nat);
                }
                return Some(t);
            }
            i += 1;
        }
        None
    }

    /// The argument's own text.
    pub fn flat_text(&self) -> (r: String)
        ensures
            r@ == flat_text(self@),
    {
        let mut out = String::new();
        let n = self.text.len();
        let mut i: usize = 0;
        while i < n
            invariant
                n == self.text@.len(),
                i <= n,
                out@ == surfaces(self@.text.take(i as int)),
            decreases n - i,
        {
            assert(self@.text.take((i + 1) as int).drop_last() =~= self@.text.take(i as int));
            assert(self@.text[i as int] == *self.text@[i as int]);
            out.append(self.text[i].surface_normalized());
            i += 1;
        }
        assert(self@.text.take(n as int) =~= self@.text);
        out
    }
}

impl<'s> JpArguments<'s> {
    /// The first argument placed under the first of `pps` that occurs.
    pub fn any_first_postposition(&self, pps: &[&str]) -> (r: Option<&JpArgument<'s>>)
        requires
            args_wf(self@),
        ensures
            r matches Some(a) ==> first_with(self@, strs_view(pps@), pps@.len()) == Some(a@),
            r is None ==> first_with(self@, strs_view(pps@), pps@.len()) is None,
    {
        let ghost m = self@;
        let ghost ps = strs_view(pps@);
        let np = pps.len();
        let ne = self.with_postposition.len();
        let mut k: usize = 0;
        while k < np
            invariant
                np == pps@.len(),
                ne == self.with_postposition@.len(),
                m == self@,
                ps == strs_view(pps@),
                args_wf(m),
                k <= np,
                first_with(m, ps, k as nat) is None,
            decreases np - k,
        {
            let p = pps[k];
            let mut i: usize = 0;
            while i < ne
                invariant
                    np == pps@.len(),
                    ne == self.with_postposition@.len(),
                    m == self@,
                    ps == strs_view(pps@),
                    args_wf(m),
                    k < np,
                    p == pps@[k as int],
                    i <= ne,
                    first_with(m, ps, k as nat) is None,
                    key_index(m.with, p@, i as nat) is None,
                decreases ne - i,
            {
                assert(m.with[i as int].0 == self.with_postposition@[i as int].0@);
                if str_eq(self.with_postposition[i].0, p) {
                    assert(key_index(m.with, p@, (i + 1) as nat) == Some(i as nat));
                    proof {
                        lemma_key_index_stable(m.with, p@, (i + 1) as nat, ne as nat);
                    }
                    assert(m.with[i as int].1.len() > 0);
                    let a = &self.with_postposition[i].1[0];
                    assert(m.with[i as int].1[0] == a@);
                    assert(first_with(m, ps, (k + 1) as nat) == Some(a@));
                    proof {
                        lemma_first_with_none_stable(m, ps, (k + 1) as nat, np as nat);
                    }
                    return Some(a);
                }
                i += 1;
            }
            k += 1;
        }
        None
    }
}


impl<'s> JpArgument<'s> {
    /// What modifies the argument, then the argument itself, as text.
    pub fn to_string(&self) -> (r: String)
        ensures
            r@ == arg_string(self@),
        decreases self, 1nat,
    {
        let mut out = self.mods.to_string();
        let t = self.flat_text();
        out.append(t.as_str());
        out
    }
}

impl<'s> JpArguments<'s> {
    /// All arguments as text (see [`args_string`]).
    pub fn to_string(&self) -> (r: String)
        ensures
            r@ == args_string(self@),
        decreases self, 0nat,
    {
        let ghost m = self@;
        let mut out = String::new();
        let ne = self.with_postposition.len();
        let mut i: usize = 0;
        while i < ne
            invariant
                ne == self.with_postposition@.len(),
                m == self@,
                i <= ne,
                out@ == groups_string(m.with, i as nat),
            decreases ne - i,
        {
            let key = self.with_postposition[i].0;
            let group = &self.with_postposition[i].1;
            let ghost g = m.with[i as int];
            assert(g.0 == key@);
            assert(g.1.len() == group@.len());
            let nb = group.len();
            let mut j: usize = 0;
            while j < nb
                invariant
                    ne == self.with_postposition@.len(),
                    m == self@,
                    i < ne,
                    g == m.with[i as int],
                    g.0 == key@,
                    nb == group@.len(),
                    g.1.len() == nb,
                    *group == self.with_postposition@[i as int].1,
                    j <= nb,
                    out@ == groups_string(m.with, i as nat) + list_string(g.1, j as nat, g.0),
                decreases nb - j,
            {
                let x = &group[j];
                assert(g.1[j as int] == x@);
                assert(decreases_to!(self => self.with_postposition));
                assert(decreases_to!(self.with_postposition => self.with_postposition@));
                assert(decreases_to!(self.with_postposition@ => self.with_postposition@[i as int]));
                assert(decreases_to!(self.with_postposition@[i as int] => self.with_postposition@[i as int].1));
                assert(decreases_to!(*group => group@));
                assert(decreases_to!(group@ => group@[j as int]));
                let xs = x.to_string();
                out.append(xs.as_str());
                out.append(key);
                j += 1;
            }
            i += 1;
        }
        let no = self.without_postposition.len();
        let mut k: usize = 0;
        while k < no
            invariant
                no == self.without_postposition@.len(),
                ne == m.with.len(),
                m == self@,
                k <= no,
                out@ == groups_string(m.with, ne as nat) + list_string(m.without, k as nat, seq![]),
            decreases no - k,
        {
            let x = &self.without_postposition[k];
            assert(m.without[k as int] == x@);
            assert(decreases_to!(self => self.without_postposition));
            assert(decreases_to!(self.without_postposition => self.without_postposition@));
            assert(decreases_to!(self.without_postposition@ => self.without_postposition@[k as int]));
            let xs = x.to_string();
            out.append(xs.as_str());
            k += 1;
        }
        assert(out@ =~= args_string(m));
        out
    }
}


pub proof fn lemma_empty_wf()
    ensures
        args_wf(empty_args()),
{
}

/// A found group is one of the first `n`, under the key sought.
pub proof fn lemma_key_index_some(es: Seq<(Seq<char>, Seq<ArgView>)>, key: Seq<char>, n: nat)
    ensures
        key_index(es, key, n) matches Some(i) ==> i < n && es[i as int].0 == key,
        key_index(es, key, n) is None ==> forall|j: int| 0 <= j < n ==> es[j].0 != key,
    decreases n,
{
    if n > 0 {
        lemma_key_index_some(es, key, (n - 1) as nat);
    }
}

pub proof fn lemma_add_wf(m: ArgsView, a: ArgView, pp: Option<Seq<char>>)
    requires
        args_wf(m),
        arg_wf(a),
    ensures
        args_wf(args_add(m, a, pp)),
{
    let r = args_add(m, a, pp);
    match pp {
        Some(p) => {
        lemma_key_index_some(m.with, p, m.with.len());
        match key_index(m.with, p, m.with.len()) {
            Some(i) => {
                assert forall|x: int, y: int|
                    0 <= x < r.with.len() && 0 <= y < r.with[x].1.len() implies arg_wf(
                    #[trigger] r.with[x].1[y],
                ) by {
                    if x == i && y == m.with[x].1.len() {
                    } else {
                        assert(r.with[x].1[y] == m.with[x].1[y]);
                    }
                }
            },
            None => {
                assert forall|x: int, y: int|
                    0 <= x < r.with.len() && 0 <= y < r.with[x].1.len() implies arg_wf(
                    #[trigger] r.with[x].1[y],
                ) by {
                    if x == m.with.len() {
                    } else {
                        assert(r.with[x] == m.with[x]);
                    }
                }
            },
        }
        },
        None => {
            assert forall|x: int| 0 <= x < r.without.len() implies arg_wf(
                #[trigger] r.without[x],
            ) by {
                if x < m.without.len() {
                    assert(r.without[x] == m.without[x]);
                }
            }
        },
    }
}

/// What the parser builds holds no empty group.
pub proof fn lemma_parse_chunk_wf(tree: TreeRef, ci: nat, lm: Map<usize, Seq<usize>>)
    requires
        tree.wf(),
        ci < tree.chunks@.len(),
        linkmap_wf(lm, tree.chunks@.len()),
    ensures
        arg_wf(parse_chunk_spec(tree, ci, lm).0),
    decreases ci + 1, 1nat, 0nat,
{
    if lm.contains_key(ci as usize) && bound(lm[ci as usize]) <= ci {
        let cs = lm[ci as usize];
        assert forall|j: int| 0 <= j < cs.len() implies #[trigger] cs[j] < tree.chunks@.len() by {
            assert(cs[j] < ci);
        }
        lemma_parse_chunks_wf(tree, lm[ci as usize], lm, lm[ci as usize].len());
    }
    let c = tree.chunks@[ci as int];
    let toks = tree.chunk_tokens(ci as int);
    assert forall|j: int| 0 <= j < toks.len() implies crate::cabocha::token_wf(#[trigger] toks[j]) by {
        assert(toks[j] == tree.tokens@[c.token_pos + j]);
    }
}

pub proof fn lemma_parse_chunks_wf(tree: TreeRef, cs: Seq<usize>, lm: Map<usize, Seq<usize>>, n: nat)
    requires
        tree.wf(),
        forall|j: int| 0 <= j < cs.len() ==> cs[j] < tree.chunks@.len(),
        linkmap_wf(lm, tree.chunks@.len()),
    ensures
        args_wf(parse_chunks_spec(tree, cs, lm, n)),
    decreases bound(cs), 2nat, n,
{
    if n == 0 || n > cs.len() {
    } else {
        lemma_bound(cs);
        lemma_parse_chunk_wf(tree, cs[n - 1] as nat, lm);
        lemma_parse_chunks_wf(tree, cs, lm, (n - 1) as nat);
        let (a, pp) = parse_chunk_spec(tree, cs[n - 1] as nat, lm);
        lemma_add_wf(parse_chunks_spec(tree, cs, lm, (n - 1) as nat), a, pp);
    }
}


/// The arguments of a predicate, and the noun that directly precedes the
/// verb inside the predicate's chunk (as in 「献立ある」), if any.
pub struct JpCallingEnv<'s> {
    pub args: JpArguments<'s>,
    pub prenoun: Option<&'s Token>,
}

/// Mathematical value of a [`JpCallingEnv`].
pub struct EnvView {
    pub args: ArgsView,
    pub prenoun: Option<Token>,
}

pub open spec fn opt_token_view(t: Option<&Token>) -> Option<Token> {
    match t {
        Some(x) => Some(*x),
        None => None,
    }
}

impl<'s> View for JpCallingEnv<'s> {
    type V = EnvView;

    open spec fn view(&self) -> EnvView {
        EnvView { args: self.args@, prenoun: opt_token_view(self.prenoun) }
    }
}

/// The arguments of the predicate in chunk `vc`: the chunks depending on it.
pub open spec fn chunk_args_spec(tree: TreeRef, vc: nat, lm: Map<usize, Seq<usize>>) -> ArgsView {
    if lm.contains_key(vc as usize) && bound(lm[vc as usize]) <= vc {
        parse_chunks_spec(tree, lm[vc as usize], lm, lm[vc as usize].len())
    } else {
        empty_args()
    }
}

/// The first token of chunk `vc` when it is a noun followed by a verb.
pub open spec fn prenoun_spec(tree: TreeRef, vc: nat) -> Option<Token> {
    let pos = tree.chunks@[vc as int].token_pos as int;
    let t0 = tree.tokens@[pos];
    if feature(t0, 0) == "名詞"@ && pos + 1 < tree.tokens@.len() && feature(tree.tokens@[pos + 1], 0)
        == "動詞"@ {
        Some(t0)
    } else {
        None
    }
}

pub open spec fn env_spec(tree: TreeRef, vc: nat, lm: Map<usize, Seq<usize>>) -> EnvView {
    EnvView { args: chunk_args_spec(tree, vc, lm), prenoun: prenoun_spec(tree, vc) }
}

impl<'s> JpCallingEnv<'s> {
    /// The calling environment of the predicate in chunk `verb_chunk`.
    pub fn parse(tree: &'s TreeRef, verb_chunk: usize, linkmap: &BTreeMap<usize, Vec<usize>>) -> (r: Self)
        requires
            tree.wf(),
            verb_chunk < tree.chunks@.len(),
            linkmap_wf(linkmap_view(linkmap@), tree.chunks@.len()),
        ensures
            r@ == env_spec(*tree, verb_chunk as nat, linkmap_view(linkmap@)),
            args_wf(r@.args),
    {
        let ghost lm = linkmap_view(linkmap@);
        let c = &tree.chunks[verb_chunk];
        assert(tree.chunks@[verb_chunk as int] == *c);
        let pos = c.token_pos;
        let t0 = &tree.tokens[pos];
        assert(crate::cabocha::token_wf(tree.tokens@[pos as int]));
        let next_is_verb = pos < tree.tokens.len() - 1 && {
            assert(crate::cabocha::token_wf(tree.tokens@[pos + 1]));
            str_eq(tree.tokens[pos + 1].primary_part(), "動詞")
        };
        let prenoun = if str_eq(t0.primary_part(), "名詞") && next_is_verb {
            Some(t0)
        } else {
            None
        };
        let args = match linkmap.get(&verb_chunk) {
            Some(cs) => {
                assert(lm.contains_key(verb_chunk) && lm[verb_chunk] == cs@);
                proof {
                    lemma_bound_le(cs@, verb_chunk as nat);
                    assert forall|j: int| 0 <= j < cs@.len() implies cs@[j] < tree.chunks@.len() by {
                        assert(cs@[j] < verb_chunk);
                    }
                    lemma_parse_chunks_wf(*tree, cs@, lm, cs@.len());
                }
                JpArguments::parse_chunks(tree, cs.as_slice(), linkmap)
            },
            None => {
                proof {
                    lemma_empty_wf();
                }
                JpArguments::new()
            },
        };
        JpCallingEnv { args, prenoun }
    }

    /// An environment with the given arguments and no preceding noun.
    pub fn from_args(args: JpArguments<'s>) -> (r: Self)
        ensures
            r@ == (EnvView { args: args@, prenoun: None }),
    {
        JpCallingEnv { args, prenoun: None }
    }
}

impl<'s> JpArguments<'s> {
    /// The arguments made of a single argument, placed under its
    /// postposition when it has one.
    pub fn from_argument(arg: JpArgument<'s>, pp: Option<&'s str>) -> (r: Self)
        ensures
            r@ == args_add(empty_args(), arg@, opt_str_view(pp)),
    {
        let mut r = JpArguments::new();
        r.push_arg(arg, pp);
        r
    }
}


/// A found argument is the first of one of the groups.
pub proof fn lemma_first_with_elem(m: ArgsView, pps: Seq<Seq<char>>, n: nat)
    ensures
        first_with(m, pps, n) matches Some(x) ==> exists|i: int|
            0 <= i < m.with.len() && 0 < m.with[i].1.len() && x == #[trigger] m.with[i].1[0],
    decreases n,
{
    if n > 0 {
        lemma_first_with_elem(m, pps, (n - 1) as nat);
        lemma_key_index_some(m.with, pps[n - 1], m.with.len());
    }
}

/// A found verb is one of the tokens.
pub proof fn lemma_standing_verb_elem(ts: Seq<Token>, n: nat)
    requires
        n <= ts.len(),
    ensures
        standing_verb(ts, n) matches Some(t) ==> exists|i: int| 0 <= i < n && t == #[trigger] ts[i],
    decreases n,
{
    if n > 0 {
        lemma_standing_verb_elem(ts, (n - 1) as nat);
    }
}

impl<'s> JpArguments<'s> {
    /// The first argument placed under `p`.
    pub fn first_pp1(&self, p: &str) -> (r: Option<&JpArgument<'s>>)
        requires
            args_wf(self@),
        ensures
            r matches Some(a) ==> first_with(self@, seq![p@], 1) == Some(a@),
            r is None ==> first_with(self@, seq![p@], 1) is None,
    {
        let pps: [&str; 1] = [p];
        let r = self.any_first_postposition(&pps);
        assert(strs_view(pps@) =~= seq![p@]);
        r
    }

    /// The first argument placed under `p`, else under `q`.
    pub fn first_pp2(&self, p: &str, q: &str) -> (r: Option<&JpArgument<'s>>)
        requires
            args_wf(self@),
        ensures
            r matches Some(a) ==> first_with(self@, seq![p@, q@], 2) == Some(a@),
            r is None ==> first_with(self@, seq![p@, q@], 2) is None,
    {
        let pps: [&str; 2] = [p, q];
        let r = self.any_first_postposition(&pps);
        assert(strs_view(pps@) =~= seq![p@, q@]);
        r
    }

    /// The first argument placed under `p`, else under `q`, else under `t`.
    pub fn first_pp3(&self, p: &str, q: &str, t: &str) -> (r: Option<&JpArgument<'s>>)
        requires
            args_wf(self@),
        ensures
            r matches Some(a) ==> first_with(self@, seq![p@, q@, t@], 3) == Some(a@),
            r is None ==> first_with(self@, seq![p@, q@, t@], 3) is None,
    {
        let pps: [&str; 3] = [p, q, t];
        let r = self.any_first_postposition(&pps);
        assert(strs_view(pps@) =~= seq![p@, q@, t@]);
        r
    }
}


/// When a predicate chunk starts with a noun token and the next token is a
/// verb (「PRある」), the noun is the predicate's preceding noun; when its
/// first token is no noun, or its second is no verb, there is none.
pub proof fn law_prenoun(tree: TreeRef, vc: nat, lm: Map<usize, Seq<usize>>)
    requires
        tree.wf(),
        vc < tree.chunks@.len(),
    ensures
        ({
            let ts = tree.chunk_tokens(vc as int);
            ts.len() >= 2 && feature(ts[0], 0) == "名詞"@ && feature(ts[1], 0) == "動詞"@
        }) ==> env_spec(tree, vc, lm).prenoun == Some(tree.chunk_tokens(vc as int)[0]),
        feature(tree.chunk_tokens(vc as int)[0], 0) != "名詞"@ ==> env_spec(tree, vc, lm).prenoun is None,
        ({
            let ts = tree.chunk_tokens(vc as int);
            ts.len() >= 2 && feature(ts[1], 0) != "動詞"@
        }) ==> env_spec(tree, vc, lm).prenoun is None,
{
    let c = tree.chunks@[vc as int];
    let ts = tree.chunk_tokens(vc as int);
    assert(c.token_size >= 1 && c.token_pos + c.token_size <= tree.tokens@.len());
    assert(ts[0] == tree.tokens@[c.token_pos as int]);
    if ts.len() >= 2 {
        assert(ts[1] == tree.tokens@[c.token_pos + 1]);
    }
}

} // verus!
