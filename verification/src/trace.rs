//! The trace of a parsed request: each root chunk, then the chunks that
//! depend on it, indented by depth, with their verbs.

use crate::args::{bound, lemma_bound, lemma_bound_le, strs_view};
use crate::cabocha::{feature, linkmap_view, linkmap_wf, token_wf, Token, TreeRef};
use crate::text::{join, join_strings, str_eq};
use std::collections::BTreeMap;
use vstd::prelude::*;

verus! {

/// What `format!("{:?}", items)` writes for a list of string slices
/// (`Debug` of a `Vec<&str>`).
pub uninterp spec fn debug_str_list(items: Seq<Seq<char>>) -> Seq<char>;

/// The `Debug` writing of a list of string slices.
#[verifier::external_body]
fn debug_list(items: &Vec<&str>) -> (r: String)
    ensures
        r@ == debug_str_list(strs_view(items@)),
{
    format!("{:?}", items)
}

/// A token: its surface, its base form, and its first `k` features.
pub open spec fn token_label(t: Token, k: nat) -> Seq<char> {
    t.surface@ + "("@ + feature(t, 6) + ")<"@ + join(Seq::new(k, |i: int| feature(t, i)), "/"@) + ">"@
}

/// The tokens of chunk `c`, labelled and joined by `-`.
pub open spec fn chunk_chain(tree: TreeRef, c: int, k: nat) -> Seq<char> {
    let ts = tree.chunk_tokens(c);
    join(Seq::new(ts.len(), |i: int| token_label(ts[i], k)), "-"@)
}

/// The base forms of the verbs among `ts`, in order.
pub open spec fn verbs_of(ts: Seq<Token>) -> Seq<Seq<char>>
    decreases ts.len(),
{
    if ts.len() == 0 {
        seq![]
    } else {
        let p = verbs_of(ts.drop_last());
        if feature(ts.last(), 0) == "動詞"@ {
            p.push(feature(ts.last(), 6))
        } else {
            p
        }
    }
}

/// `n` spaces.
pub open spec fn spaces(n: nat) -> Seq<char>
    decreases n,
{
    if n == 0 {
        seq![]
    } else {
        spaces((n - 1) as nat) + " "@
    }
}

/// The line of a dependent chunk at the given depth.
pub open spec fn dependent_line(tree: TreeRef, c: nat, depth: nat) -> Seq<char> {
    let verbs = verbs_of(tree.chunk_tokens(c as int));
    spaces(depth) + "- "@ + chunk_chain(tree, c as int, 2) + (if verbs.len() > 0 {
        " {Verbs:"@ + debug_str_list(verbs) + "}"@
    } else {
        ""@
    }) + "\n"@
}

/// The lines of chunk `c` and of the chunks that depend on it.
pub open spec fn subtree_text(tree: TreeRef, lm: Map<usize, Seq<usize>>, c: nat, depth: nat) -> Seq<char>
    decreases c + 1, 1nat, 0nat,
{
    let kids = if lm.contains_key(c as usize) && bound(lm[c as usize]) <= c {
        children_text(tree, lm, lm[c as usize], depth + 1, lm[c as usize].len())
    } else {
        seq![]
    };
    dependent_line(tree, c, depth) + kids
}

/// The lines of the first `n` chunks `cs` and of their dependents.
pub open spec fn children_text(tree: TreeRef, lm: Map<usize, Seq<usize>>, cs: Seq<usize>, depth: nat, n: nat) -> Seq<
    char,
>
    decreases bound(cs), 2nat, n,
{
    if n == 0 || n > cs.len() {
        seq![]
    } else {
        proof {
            lemma_bound(cs);
        }
        children_text(tree, lm, cs, depth, (n - 1) as nat) + subtree_text(tree, lm, cs[n - 1] as nat, depth)
    }
}

/// The lines of the first `n` roots, each followed by its dependents.
pub open spec fn roots_text(tree: TreeRef, roots: Seq<usize>, lm: Map<usize, Seq<usize>>, n: nat) -> Seq<char>
    decreases n,
{
    if n == 0 || n > roots.len() {
        seq![]
    } else {
        let r = roots[n - 1];
        let kids = if lm.contains_key(r) {
            children_text(tree, lm, lm[r], 1, lm[r].len())
        } else {
            seq![]
        };
        roots_text(tree, roots, lm, (n - 1) as nat) + "- "@ + chunk_chain(tree, r as int, 3) + "\n"@ + kids
    }
}

/// The whole trace.
pub open spec fn dump_text(tree: TreeRef, roots: Seq<usize>, lm: Map<usize, Seq<usize>>) -> Seq<char> {
    "dump-rdeptree:\n"@ + roots_text(tree, roots, lm, roots.len())
}

fn token_label_string(t: &Token, k: usize) -> (r: String)
    requires
        token_wf(*t),
        k <= 7,
    ensures
        r@ == token_label(*t, k as nat),
{
    let mut feats: Vec<String> = Vec::new();
    let mut i: usize = 0;
    while i < k
        invariant
            i <= k <= 7,
            token_wf(*t),
            feats@.len() == i,
            forall|j: int| 0 <= j < i ==> (#[trigger] feats@[j])@ == feature(*t, j),
        decreases k - i,
    {
        feats.push(t.features[i].clone());
        i += 1;
    }
    assert(Seq::new(feats@.len(), |j: int| feats@[j]@) =~= Seq::new(k as nat, |j: int| feature(*t, j)));
    let fs = join_strings(&feats, "/");
    let mut s = String::from_str(t.surface_normalized());
    s.append("(");
    s.append(t.base_form());
    s.append(")<");
    s.append(fs.as_str());
    s.append(">");
    s
}

fn chunk_chain_string(tree: &TreeRef, c: usize, k: usize) -> (r: String)
    requires
        tree.wf(),
        c < tree.chunks@.len(),
        k <= 7,
    ensures
        r@ == chunk_chain(*tree, c as int, k as nat),
{
    let ch = &tree.chunks[c];
    assert(tree.chunks@[c as int] == *ch);
    let toks = ch.tokens(tree);
    let ghost ts = tree.chunk_tokens(c as int);
    assert forall|j: int| 0 <= j < toks@.len() implies *toks@[j] == ts[j] && token_wf(ts[j]) by {
        assert(ts[j] == tree.tokens@[ch.token_pos + j]);
    }
    let mut labels: Vec<String> = Vec::new();
    let n = toks.len();
    let mut i: usize = 0;
    while i < n
        invariant
            n == toks@.len(),
            n == ts.len(),
            i <= n,
            k <= 7,
            forall|j: int| 0 <= j < n ==> *toks@[j] == ts[j] && token_wf(ts[j]),
            labels@.len() == i,
            forall|j: int| 0 <= j < i ==> (#[trigger] labels@[j])@ == token_label(ts[j], k as nat),
        decreases n - i,
    {
        assert(*toks@[i as int] == ts[i as int] && token_wf(ts[i as int]));
        labels.push(token_label_string(toks[i], k));
        i += 1;
    }
    assert(Seq::new(labels@.len(), |j: int| labels@[j]@) =~= Seq::new(ts.len(), |j: int| token_label(ts[j], k as nat)));
    join_strings(&labels, "-")
}

fn dependent_line_string(tree: &TreeRef, c: usize, depth: usize) -> (r: String)
    requires
        tree.wf(),
        c < tree.chunks@.len(),
    ensures
        r@ == dependent_line(*tree, c as nat, depth as nat),
{
    let mut s = String::new();
    let mut d: usize = 0;
    while d < depth
        invariant
            d <= depth,
            s@ == spaces(d as nat),
        decreases depth - d,
    {
        s.append(" ");
        d += 1;
    }
    let ch = &tree.chunks[c];
    assert(tree.chunks@[c as int] == *ch);
    let toks = ch.tokens(tree);
    let ghost ts = tree.chunk_tokens(c as int);
    assert forall|j: int| 0 <= j < toks@.len() implies *toks@[j] == ts[j] && token_wf(ts[j]) by {
        assert(ts[j] == tree.tokens@[ch.token_pos + j]);
    }
    let mut verbs: Vec<&str> = Vec::new();
    let n = toks.len();
    let mut i: usize = 0;
    while i < n
        invariant
            n == toks@.len(),
            n == ts.len(),
            i <= n,
            forall|j: int| 0 <= j < n ==> *toks@[j] == ts[j] && token_wf(ts[j]),
            strs_view(verbs@) == verbs_of(ts.take(i as int)),
        decreases n - i,
    {
        assert(ts.take(i + 1).drop_last() =~= ts.take(i as int));
        assert(ts.take(i + 1).last() == ts[i as int]);
        if str_eq(toks[i].primary_part(), "動詞") {
            verbs.push(toks[i].base_form());
        }
        assert(strs_view(verbs@) =~= verbs_of(ts.take(i + 1)));
        i += 1;
    }
    assert(ts.take(n as int) =~= ts);
    let ghost vs = verbs_of(ts);
    assert(strs_view(verbs@) == vs);
    assert(strs_view(verbs@).len() == verbs@.len());
    let ghost pre = s@;
    assert(pre == spaces(depth as nat));
    s.append("- ");
    let chain = chunk_chain_string(tree, c, 2);
    s.append(chain.as_str());
    if verbs.len() > 0 {
        s.append(" {Verbs:");
        let d = debug_list(&verbs);
        s.append(d.as_str());
        s.append("}");
    }
    s.append("\n");
    assert(chain@ == chunk_chain(*tree, c as int, 2));
    if verbs.len() > 0 {
        assert(s@ =~= pre + "- "@ + chain@ + " {Verbs:"@ + debug_str_list(vs) + "}"@ + "\n"@);
    } else {
        proof {
            reveal_strlit("");
        }
        assert(s@ =~= pre + "- "@ + chain@ + ""@ + "\n"@);
    }
    assert(s@ =~= dependent_line(*tree, c as nat, depth as nat));
    s
}

fn subtree_string(
    tree: &TreeRef,
    linkmap: &BTreeMap<usize, Vec<usize>>,
    c: usize,
    depth: usize,
    out: &mut String,
)
    requires
        tree.wf(),
        c < tree.chunks@.len(),
        linkmap_wf(linkmap_view(linkmap@), tree.chunks@.len()),
        depth + c <= usize::MAX,
    ensures
        final(out)@ == old(out)@ + subtree_text(*tree, linkmap_view(linkmap@), c as nat, depth as nat),
    decreases c + 1, 1nat,
{
    let ghost lm = linkmap_view(linkmap@);
    let line = dependent_line_string(tree, c, depth);
    out.append(line.as_str());
    match linkmap.get(&c) {
        Some(cs) => {
            assert(lm.contains_key(c) && lm[c] == cs@);
            proof {
                lemma_bound_le(cs@, c as nat);
            }
            if cs.len() > 0 {
                assert(cs@[0] < c);
                assert forall|j: int| 0 <= j < cs@.len() implies cs@[j] < tree.chunks@.len() && depth + 1
                    + cs@[j] <= usize::MAX by {
                    assert(cs@[j] < c);
                }
                children_string(tree, linkmap, cs.as_slice(), depth + 1, out);
            }
            assert(out@ =~= old(out)@ + subtree_text(*tree, lm, c as nat, depth as nat));
        },
        None => {
            assert(out@ =~= old(out)@ + subtree_text(*tree, lm, c as nat, depth as nat));
        },
    }
}

fn children_string(
    tree: &TreeRef,
    linkmap: &BTreeMap<usize, Vec<usize>>,
    cs: &[usize],
    depth: usize,
    out: &mut String,
)
    requires
        tree.wf(),
        forall|j: int| 0 <= j < cs@.len() ==> cs@[j] < tree.chunks@.len() && depth + cs@[j] <= usize::MAX,
        linkmap_wf(linkmap_view(linkmap@), tree.chunks@.len()),
    ensures
        final(out)@ == old(out)@ + children_text(
            *tree,
            linkmap_view(linkmap@),
            cs@,
            depth as nat,
            cs@.len(),
        ),
    decreases bound(cs@), 2nat,
{
    let ghost lm = linkmap_view(linkmap@);
    let n = cs.len();
    let mut i: usize = 0;
    proof {
        lemma_bound(cs@);
    }
    while i < n
        invariant
            n == cs@.len(),
            i <= n,
            tree.wf(),
            forall|j: int| 0 <= j < cs@.len() ==> cs@[j] < tree.chunks@.len() && depth + cs@[j] <= usize::MAX,
            forall|j: int| 0 <= j < cs@.len() ==> cs@[j] < bound(cs@),
            linkmap_wf(lm, tree.chunks@.len()),
            lm == linkmap_view(linkmap@),
            out@ == old(out)@ + children_text(*tree, lm, cs@, depth as nat, i as nat),
        decreases n - i,
    {
        subtree_string(tree, linkmap, cs[i], depth, out);
        assert(out@ =~= old(out)@ + children_text(*tree, lm, cs@, depth as nat, (i + 1) as nat));
        i += 1;
    }
}

/// The trace of a parsed request: its roots, each followed by the chunks
/// that depend on it, indented by depth, with the verbs they hold.
pub fn rdeptree_dump(tree: &TreeRef, roots: &Vec<usize>, linkmap: &BTreeMap<usize, Vec<usize>>) -> (r: String)
    requires
        tree.wf(),
        forall|j: int| 0 <= j < roots@.len() ==> #[trigger] roots@[j] < tree.chunks@.len(),
        linkmap_wf(linkmap_view(linkmap@), tree.chunks@.len()),
    ensures
        r@ == dump_text(*tree, roots@, linkmap_view(linkmap@)),
{
    let ghost lm = linkmap_view(linkmap@);
    let mut out = String::from_str("dump-rdeptree:\n");
    proof {
        reveal_strlit("dump-rdeptree:\n");
    }
    let n = roots.len();
    let mut i: usize = 0;
    while i < n
        invariant
            n == roots@.len(),
            i <= n,
            tree.wf(),
            forall|j: int| 0 <= j < roots@.len() ==> #[trigger] roots@[j] < tree.chunks@.len(),
            linkmap_wf(lm, tree.chunks@.len()),
            lm == linkmap_view(linkmap@),
            out@ == "dump-rdeptree:\n"@ + roots_text(*tree, roots@, lm, i as nat),
        decreases n - i,
    {
        let r = roots[i];
        assert(roots@[i as int] == r);
        out.append("- ");
        let chain = chunk_chain_string(tree, r, 3);
        out.append(chain.as_str());
        out.append("\n");
        match linkmap.get(&r) {
            Some(cs) => {
                assert(lm.contains_key(r) && lm[r] == cs@);
                assert forall|j: int| 0 <= j < cs@.len() implies cs@[j] < tree.chunks@.len() && 1 + cs@[j]
                    <= usize::MAX by {
                    assert(cs@[j] < r);
                }
                children_string(tree, linkmap, cs.as_slice(), 1, &mut out);
            },
            None => {},
        }
        assert(out@ =~= "dump-rdeptree:\n"@ + roots_text(*tree, roots@, lm, (i + 1) as nat));
        i += 1;
    }
    out
}

} // verus!
