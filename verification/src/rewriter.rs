//! Normalization of colloquial spellings before parsing (おはよー → おはよう,
//! 残りの → 残ってる, ...).

use crate::pattern::{regex_replace_all, Pattern};
use vstd::prelude::*;

verus! {

/// An ordered list of rewriting rules: a pattern and the template that
/// replaces each of its matches (`$n` stands for group `n`).
pub struct Rewriter {
    rules: Vec<(Pattern, String)>,
}

/// `s` after applying each rule in turn, every match at once.
pub open spec fn rewrite_spec(rules: Seq<(Seq<char>, Seq<char>)>, s: Seq<char>) -> Seq<char>
    decreases rules.len(),
{
    if rules.len() == 0 {
        s
    } else {
        let r = rules.last();
        regex_replace_all(r.0, rewrite_spec(rules.drop_last(), s), r.1)
    }
}

/// Without rules, rewriting leaves every text as it is.
pub proof fn law_no_rules_no_change(s: Seq<char>)
    ensures
        rewrite_spec(Seq::empty(), s) == s,
{
}

impl Rewriter {
    /// The rules, as pattern texts and templates.
    pub closed spec fn rules(&self) -> Seq<(Seq<char>, Seq<char>)> {
        Seq::new(self.rules@.len(), |i: int| (self.rules@[i].0.source(), self.rules@[i].1@))
    }

    /// A rewriter with the given (pattern, template) rules, applied in order.
    pub fn new(rules: Vec<(&str, &str)>) -> (r: Self)
        ensures
            r.rules() == Seq::new(rules@.len(), |i: int| (rules@[i].0@, rules@[i].1@)),
    {
        let mut compiled: Vec<(Pattern, String)> = Vec::new();
        let n = rules.len();
        let mut i: usize = 0;
        while i < n
            invariant
                n == rules@.len(),
                i <= n,
                compiled@.len() == i,
                forall|k: int|
                    0 <= k < i ==> (#[trigger] compiled@[k]).0.source() == rules@[k].0@
                        && compiled@[k].1@ == rules@[k].1@,
            decreases n - i,
        {
            let (p, t) = rules[i];
            compiled.push((Pattern::new(p), String::from_str(t)));
            i += 1;
        }
        let r = Rewriter { rules: compiled };
        assert(r.rules() =~= Seq::new(rules@.len(), |i: int| (rules@[i].0@, rules@[i].1@)));
        r
    }

    /// `src` after applying every rule in turn.
    pub fn rewrite(&self, src: &str) -> (r: String)
        ensures
            r@ == rewrite_spec(self.rules(), src@),
    {
        let mut out = String::from_str(src);
        let n = self.rules.len();
        let mut i: usize = 0;
        while i < n
            invariant
                n == self.rules@.len(),
                i <= n,
                out@ == rewrite_spec(self.rules().take(i as int), src@),
            decreases n - i,
        {
            assert(self.rules().take((i + 1) as int).drop_last() =~= self.rules().take(i as int));
            let next = self.rules[i].0.replace_all(out.as_str(), self.rules[i].1.as_str());
            out = next;
            i += 1;
        }
        assert(self.rules().take(n as int) =~= self.rules());
        out
    }
}

} // verus!
