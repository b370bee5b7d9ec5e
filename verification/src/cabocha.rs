//! Plain model of a CaboCha dependency tree: tokens with their MeCab
//! features, chunks (bunsetsu) that group consecutive tokens and point at the
//! chunk they modify.

use std::collections::BTreeMap;
use vstd::prelude::*;

verus! {

/// One morpheme: its normalized surface form and its feature list
/// (part of speech, sub-categories, ..., base form at index 6, reading at index 7).
pub struct Token {
    pub surface: String,
    pub features: Vec<String>,
}

/// One chunk: the range of tokens it holds and the chunk it depends on
/// (`link < 0` for the root).
pub struct Chunk {
    pub link: i32,
    pub head_pos: usize,
    pub func_pos: usize,
    pub token_size: usize,
    pub token_pos: usize,
}

/// A parsed sentence.
pub struct TreeRef {
    pub chunks: Vec<Chunk>,
    pub tokens: Vec<Token>,
}

/// The `i`-th feature of a token, as characters.
pub open spec fn feature(t: Token, i: int) -> Seq<char> {
    t.features@[i]@
}

/// A token carries at least the seven features up to its base form.
pub open spec fn token_wf(t: Token) -> bool {
    t.features@.len() >= 7
}

/// The reading (katakana) of a token, when the dictionary knows it.
pub open spec fn reading_of(t: Token) -> Option<Seq<char>> {
    if t.features@.len() > 7 {
        Some(feature(t, 7))
    } else {
        None
    }
}

/// The leading features of `t` agree with `pat` as far as both go.
pub open spec fn features_agree(t: Token, pat: Seq<Seq<char>>) -> bool {
    forall|i: int| 0 <= i < t.features@.len() && 0 <= i < pat.len() ==> feature(t, i) == pat[i]
}

impl Chunk {
    pub fn is_root(&self) -> (r: bool)
        ensures
            r == (self.link < 0),
    {
        self.link < 0
    }

    /// The tokens that this chunk holds.
    pub fn tokens<'c>(&self, source: &'c TreeRef) -> (r: Vec<&'c Token>)
        requires
            self.token_pos + self.token_size <= source.tokens@.len(),
        ensures
            r@.len() == self.token_size,
            forall|i: int|
                0 <= i < self.token_size ==> *r@[i] == source.tokens@[self.token_pos + i],
    {
        let mut r: Vec<&'c Token> = Vec::new();
        let mut i: usize = 0;
        while i < self.token_size
            invariant
                self.token_pos + self.token_size <= source.tokens@.len(),
                i <= self.token_size,
                r@.len() == i,
                forall|j: int| 0 <= j < i ==> *r@[j] == source.tokens@[self.token_pos + j],
            decreases self.token_size - i,
        {
            assert(source.tokens@.len() == source.tokens.len());
            r.push(&source.tokens[self.token_pos + i]);
            i += 1;
        }
        r
    }
}

impl Token {
    pub fn surface_normalized(&self) -> (r: &str)
        ensures
            r@ == self.surface@,
    {
        self.surface.as_str()
    }

    pub fn features(&self) -> (r: &[String])
        ensures
            r@ == self.features@,
    {
        self.features.as_slice()
    }

    /// Part of speech.
    pub fn primary_part(&self) -> (r: &str)
        requires
            self.features@.len() >= 1,
        ensures
            r@ == feature(*self, 0),
    {
        self.features[0].as_str()
    }

    /// Base (dictionary) form.
    pub fn base_form(&self) -> (r: &str)
        requires
            self.features@.len() >= 7,
        ensures
            r@ == feature(*self, 6),
    {
        self.features[6].as_str()
    }

    /// Reading in katakana.
    pub fn reading_form(&self) -> (r: Option<&str>)
        ensures
            r.is_some() == reading_of(*self).is_some(),
            r matches Some(s) ==> s@ == reading_of(*self)->0,
    {
        if self.features.len() > 7 {
            Some(self.features[7].as_str())
        } else {
            None
        }
    }
}

/// Indices `< n` of the chunks that depend on nothing, in order.
pub open spec fn roots_upto(cs: Seq<Chunk>, n: nat) -> Seq<usize>
    decreases n,
{
    if n == 0 {
        seq![]
    } else {
        let p = roots_upto(cs, (n - 1) as nat);
        if cs[n - 1].link < 0 {
            p.push((n - 1) as usize)
        } else {
            p
        }
    }
}

/// For each chunk index `k`, the indices `< n` of the chunks that depend on
/// `k`, in order; `k` is absent when none does.
pub open spec fn links_upto(cs: Seq<Chunk>, n: nat) -> Map<usize, Seq<usize>>
    decreases n,
{
    if n == 0 {
        Map::empty()
    } else {
        let m = links_upto(cs, (n - 1) as nat);
        let c = cs[n - 1];
        if c.link < 0 {
            m
        } else {
            let k = c.link as usize;
            let prev = if m.contains_key(k) {
                m[k]
            } else {
                seq![]
            };
            m.insert(k, prev.push((n - 1) as usize))
        }
    }
}

/// The index lists of a dependency map, as sequences.
pub open spec fn linkmap_view(m: Map<usize, Vec<usize>>) -> Map<usize, Seq<usize>> {
    m.map_values(|v: Vec<usize>| v@)
}

/// See [`TreeRef::wf`].
pub open spec fn parts_wf(chunks: Seq<Chunk>, tokens: Seq<Token>) -> bool {
    &&& forall|i: int| 0 <= i < tokens.len() ==> token_wf(#[trigger] tokens[i])
    &&& forall|i: int|
        0 <= i < chunks.len() ==> {
            let c = #[trigger] chunks[i];
            &&& c.token_size >= 1
            &&& c.token_pos + c.token_size <= tokens.len()
            &&& (c.link < 0 || (i < c.link < chunks.len()))
        }
}

/// The chunks listed under `k` all stand before `k`, and `k` is a chunk.
pub open spec fn linkmap_wf(lm: Map<usize, Seq<usize>>, n: nat) -> bool {
    forall|k: usize|
        #[trigger] lm.contains_key(k) ==> k < n && forall|j: int|
            0 <= j < lm[k].len() ==> lm[k][j] < k
}

/// In a well-formed tree, the dependency map lists each chunk under a chunk
/// to its right.
pub proof fn lemma_links_wf(cs: Seq<Chunk>, tokens: Seq<Token>, n: nat)
    requires
        parts_wf(cs, tokens),
        n <= cs.len(),
    ensures
        linkmap_wf(links_upto(cs, n), cs.len()),
    decreases n,
{
    if n > 0 {
        lemma_links_wf(cs, tokens, (n - 1) as nat);
        let c = cs[n - 1];
        assert(c.link < 0 || ((n - 1) < c.link < cs.len()));
    }
}

/// The reverse dependency tree lists every chunk exactly where it belongs:
/// among the roots when it depends on nothing, else under the chunk it
/// depends on; and nothing else is listed.
pub proof fn law_reverse_deps_partition(cs: Seq<Chunk>, n: nat)
    requires
        n <= cs.len(),
        cs.len() <= usize::MAX,
    ensures
        forall|i: int| 0 <= i < n ==> (roots_upto(cs, n).contains(i as usize) <==> cs[i].link < 0),
        forall|i: int|
            0 <= i < n && cs[i].link >= 0 ==> links_upto(cs, n).contains_key(cs[i].link as usize)
                && links_upto(cs, n)[cs[i].link as usize].contains(i as usize),
        forall|j: int| 0 <= j < roots_upto(cs, n).len() ==> {
            let r = #[trigger] roots_upto(cs, n)[j];
            r < n && cs[r as int].link < 0
        },
        forall|k: usize, j: int|
            links_upto(cs, n).contains_key(k) && 0 <= j < links_upto(cs, n)[k].len() ==> {
                let c = #[trigger] links_upto(cs, n)[k][j];
                c < n && cs[c as int].link >= 0 && cs[c as int].link as usize == k
            },
    decreases n,
{
    if n > 0 {
        law_reverse_deps_partition(cs, (n - 1) as nat);
        let m = (n - 1) as nat;
        let roots0 = roots_upto(cs, m);
        let links0 = links_upto(cs, m);
        let roots = roots_upto(cs, n);
        let links = links_upto(cs, n);
        let c = cs[m as int];
        assert forall|i: int| 0 <= i < n implies (roots.contains(i as usize) <==> cs[i].link < 0) by {
            if i < m {
                if roots.contains(i as usize) && !roots0.contains(i as usize) {
                    let j = choose|j: int| 0 <= j < roots.len() && roots[j] == i as usize;
                    assert(j == roots0.len());
                }
                if roots0.contains(i as usize) {
                    let j = choose|j: int| 0 <= j < roots0.len() && roots0[j] == i as usize;
                    assert(roots[j] == i as usize);
                }
            } else if c.link < 0 {
                assert(roots[roots.len() - 1] == i as usize);
            } else {
                if roots.contains(i as usize) {
                    let j = choose|j: int| 0 <= j < roots.len() && roots[j] == i as usize;
                    assert(roots0[j] < m);
                }
            }
        }
        assert forall|i: int|
            0 <= i < n && cs[i].link >= 0 implies links.contains_key(cs[i].link as usize)
                && links[cs[i].link as usize].contains(i as usize) by {
            let k = cs[i].link as usize;
            if i < m {
                let j = choose|j: int| 0 <= j < links0[k].len() && links0[k][j] == i as usize;
                if c.link >= 0 && c.link as usize == k {
                    assert(links[k][j] == i as usize);
                } else {
                    assert(links[k] == links0[k]);
                }
            } else {
                assert(links[k].last() == i as usize);
            }
        }
    }
}

impl TreeRef {
    /// Every chunk holds at least one token of the tree, and depends on a
    /// chunk to its right (or on nothing); every token has its base form.
    pub open spec fn wf(&self) -> bool {
        parts_wf(self.chunks@, self.tokens@)
    }

    pub open spec fn chunks_view(&self) -> Seq<Chunk> {
        self.chunks@
    }

    pub open spec fn tokens_view(&self) -> Seq<Token> {
        self.tokens@
    }

    /// The tokens of chunk `ci`.
    pub open spec fn chunk_tokens(&self, ci: int) -> Seq<Token> {
        let c = self.chunks@[ci];
        self.tokens@.subrange(c.token_pos as int, c.token_pos + c.token_size)
    }

    /// Builds a tree from its chunks and tokens when they form a well-formed tree.
    pub fn new(chunks: Vec<Chunk>, tokens: Vec<Token>) -> (r: Option<TreeRef>)
        ensures
            r matches Some(t) ==> t.wf() && t.chunks@ == chunks@ && t.tokens@ == tokens@,
            r is None ==> !parts_wf(chunks@, tokens@),
    {
        let nt = tokens.len();
        let mut i: usize = 0;
        while i < nt
            invariant
                nt == tokens@.len(),
                i <= nt,
                forall|j: int| 0 <= j < i ==> token_wf(#[trigger] tokens@[j]),
            decreases nt - i,
        {
            if tokens[i].features.len() < 7 {
                assert(!token_wf(tokens@[i as int]));
                return None;
            }
            i += 1;
        }
        let nc = chunks.len();
        let mut k: usize = 0;
        while k < nc
            invariant
                nc == chunks@.len(),
                nt == tokens@.len(),
                k <= nc,
                forall|j: int|
                    0 <= j < k ==> {
                        let c = #[trigger] chunks@[j];
                        &&& c.token_size >= 1
                        &&& c.token_pos + c.token_size <= nt
                        &&& (c.link < 0 || (j < c.link < nc))
                    },
            decreases nc - k,
        {
            let c = &chunks[k];
            let ok_size = c.token_size >= 1 && c.token_pos <= nt && c.token_size <= nt - c.token_pos;
            let ok_link = c.link < 0 || (k < (c.link as usize) && (c.link as usize) < nc);
            if !(ok_size && ok_link) {
                assert(!parts_wf(chunks@, tokens@)) by {
                    let cc = chunks@[k as int];
                    assert(cc == *c);
                }
                return None;
            }
            k += 1;
        }
        Some(TreeRef { chunks, tokens })
    }

    pub fn chunk_size(&self) -> (r: usize)
        ensures
            r == self.chunks@.len(),
    {
        self.chunks.len()
    }

    pub fn chunk(&self, index: usize) -> (r: Option<&Chunk>)
        ensures
            index < self.chunks@.len() ==> r == Some(&self.chunks@[index as int]),
            index >= self.chunks@.len() ==> r is None,
    {
        if index < self.chunks.len() {
            Some(&self.chunks[index])
        } else {
            None
        }
    }

    pub fn token(&self, index: usize) -> (r: Option<&Token>)
        ensures
            index < self.tokens@.len() ==> r == Some(&self.tokens@[index as int]),
            index >= self.tokens@.len() ==> r is None,
    {
        if index < self.tokens.len() {
            Some(&self.tokens[index])
        } else {
            None
        }
    }

    pub fn chunks(&self) -> (r: &[Chunk])
        ensures
            r@ == self.chunks@,
    {
        self.chunks.as_slice()
    }

    /// The root chunks, and for each chunk the chunks that depend on it.
    pub fn build_reverse_deps_tree(&self) -> (r: (Vec<usize>, BTreeMap<usize, Vec<usize>>))
        ensures
            r.0@ == roots_upto(self.chunks@, self.chunks@.len()),
            linkmap_view(r.1@) == links_upto(self.chunks@, self.chunks@.len()),
            self.wf() ==> linkmap_wf(linkmap_view(r.1@), self.chunks@.len()),
    {
        proof {
            if self.wf() {
                lemma_links_wf(self.chunks@, self.tokens@, self.chunks@.len());
            }
        }
        let mut roots: Vec<usize> = Vec::new();
        let mut linked: BTreeMap<usize, Vec<usize>> = BTreeMap::new();
        let n = self.chunks.len();
        let mut ci: usize = 0;
        while ci < n
            invariant
                n == self.chunks@.len(),
                ci <= n,
                roots@ == roots_upto(self.chunks@, ci as nat),
                linkmap_view(linked@) == links_upto(self.chunks@, ci as nat),
            decreases n - ci,
        {
            let c = &self.chunks[ci];
            if c.is_root() {
                roots.push(ci);
            } else {
                let k = c.link as usize;
                let ghost before = linked@;
                let mut v = match linked.remove(&k) {
                    Some(v) => v,
                    None => Vec::new(),
                };
                v.push(ci);
                linked.insert(k, v);
                assert(linkmap_view(linked@) =~= links_upto(self.chunks@, (ci + 1) as nat)) by {
                    assert(linkmap_view(before).contains_key(k) == before.contains_key(k));
                    if before.contains_key(k) {
                        assert(linkmap_view(before)[k] == before[k]@);
                    }
                }
            }
            ci += 1;
        }
        (roots, linked)
    }
}

} // verus!
