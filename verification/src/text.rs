//! The rope: a binary tree over chunks of text, addressed by character offset.
//!
//! A `Text` chunk is the leaf unit of storage: an owned character buffer plus
//! the half-open span `[start, end)` of it that the chunk represents.  A
//! `Node` is an internal branch holding a left and a right subtree and a
//! cached weight equal to the character count of the left subtree.  A `Rope`
//! is the sum of the two.  All structural operations (`split_at`, `concat`,
//! `rebalance`) build new nodes along the touched path and never mutate a
//! subtree in place.

use vstd::arithmetic::power2::lemma2_to64;
use vstd::arithmetic::power2::lemma_pow2_unfold;
use vstd::arithmetic::power2::pow2;
use vstd::prelude::*;

verus! {

/// The recoverable failures of the buffer: an offset or line number past the
/// current content (`OutOfBounds`), or a range whose start exceeds its end
/// (`InvalidRange`).
#[derive(Debug, Clone, Copy, PartialEq, Eq, Structural)]
pub enum TextError {
    OutOfBounds,
    InvalidRange,
}

/// A leaf chunk: `buffer[start..end)` is the text this chunk contributes.
pub struct Text {
    pub buffer: Vec<char>,
    pub start: usize,
    pub end: usize,
}

impl View for Text {
    type V = Seq<char>;

    open spec fn view(&self) -> Seq<char> {
        self.buffer@.subrange(self.start as int, self.end as int)
    }
}

impl Text {
    /// The chunk invariant: the span is half-open and lies inside the buffer.
    pub open spec fn wf(self) -> bool {
        self.start <= self.end <= self.buffer@.len()
    }

    /// A chunk holding exactly the characters of `s`.
    pub fn new(s: &str) -> (t: Text)
        ensures
            t.wf(),
            t@ == s@,
            t.start == 0,
            t.end == t.buffer@.len(),
    {
        let n = s.unicode_len();
        let mut buffer: Vec<char> = Vec::new();
        let mut i: usize = 0;
        while i < n
            invariant
                i <= n,
                n == s@.len(),
                buffer@ == s@.subrange(0, i as int),
            decreases n - i,
        {
            buffer.push(s.get_char(i));
            proof {
                assert(buffer@ =~= s@.subrange(0, i + 1 as int));
            }
            i = i + 1;
        }
        proof {
            assert(buffer@ =~= s@);
        }
        let end = buffer.len();
        let t = Text { buffer, start: 0, end };
        proof {
            assert(t@ =~= s@);
        }
        t
    }

    /// Appends one character at the end of the chunk's span.  Only a chunk
    /// whose span reaches the end of its buffer can grow this way.
    pub fn add_text(&mut self, character: char)
        requires
            old(self).wf(),
            old(self).end == old(self).buffer@.len(),
            old(self).buffer@.len() < usize::MAX,
        ensures
            final(self).wf(),
            final(self).end == final(self).buffer@.len(),
            final(self).start == old(self).start,
            final(self)@ == old(self)@.push(character),
    {
        self.buffer.push(character);
        self.end = self.end + 1;
        proof {
            assert(self@ =~= old(self)@.push(character));
        }
    }
}

/// The largest chunk a balanced rebuild leaves at a leaf.
pub const CHUNK_MAX: usize = 32;

/// The depth a balanced build of `n` characters may reach: zero for a
/// single chunk, one more for each halving above the chunk size.
pub open spec fn balanced_depth(n: nat) -> nat
    decreases n,
{
    if n <= CHUNK_MAX {
        0
    } else {
        1 + balanced_depth(((n + 1) / 2) as nat)
    }
}

/// `balanced_depth` grows monotonically with the character count.
pub proof fn lemma_balanced_depth_mono(a: nat, b: nat)
    requires
        a <= b,
    ensures
        balanced_depth(a) <= balanced_depth(b),
    decreases b,
{
    if b <= CHUNK_MAX {
    } else if a <= CHUNK_MAX {
    } else {
        lemma_balanced_depth_mono(((a + 1) / 2) as nat, ((b + 1) / 2) as nat);
    }
}

/// A span of at most `CHUNK_MAX * pow2(k)` characters builds to depth at
/// most `k`.
pub proof fn lemma_balanced_depth_le(n: nat, k: nat)
    requires
        n <= CHUNK_MAX * pow2(k),
    ensures
        balanced_depth(n) <= k,
    decreases k,
{
    if n <= CHUNK_MAX {
    } else {
        if k == 0 {
            lemma2_to64();
        } else {
            lemma_pow2_unfold(k);
            lemma_balanced_depth_le(((n + 1) / 2) as nat, (k - 1) as nat);
        }
    }
}

/// The balanced depth of a span of `n` characters, computed exactly.
pub(crate) fn balanced_depth_exec(n: usize) -> (b: usize)
    ensures
        b == balanced_depth(n as nat),
    decreases n,
{
    if n <= CHUNK_MAX {
        0
    } else {
        let half = n / 2 + n % 2;
        proof {
            assert(half as nat == ((n as nat) + 1) / 2);
            lemma2_to64();
            assert((half as nat) <= CHUNK_MAX * pow2(64));
            lemma_balanced_depth_le(half as nat, 64);
        }
        let rec = balanced_depth_exec(half);
        rec + 1
    }
}

/// A balanced rope over `v[lo..hi)`: spans up to `CHUNK_MAX` become a single
/// chunk, longer spans are halved into a branch, so the depth stays within
/// `balanced_depth` of the span's length.
pub(crate) fn build_balanced(v: &Vec<char>, lo: usize, hi: usize) -> (r: Rope)
    requires
        lo <= hi <= v@.len(),
    ensures
        r.wf(),
        r.content() == v@.subrange(lo as int, hi as int),
        r.depth() <= balanced_depth((hi - lo) as nat),
    decreases hi - lo,
{
    if hi - lo <= CHUNK_MAX {
        let buffer = copy_range(v, lo, hi);
        let end = buffer.len();
        let t = Text { buffer, start: 0, end };
        proof {
            assert(t@ =~= v@.subrange(lo as int, hi as int));
        }
        Rope::Text(t)
    } else {
        let mid = lo + (hi - lo) / 2;
        let left = build_balanced(v, lo, mid);
        let right = build_balanced(v, mid, hi);
        let r = Rope::Node(Node { weight: mid - lo, left: Box::new(left), right: Box::new(right) });
        proof {
            assert(r.content() =~= v@.subrange(lo as int, hi as int));
            let half = (((hi - lo) + 1) / 2) as nat;
            lemma_balanced_depth_mono((mid - lo) as nat, half);
            lemma_balanced_depth_mono((hi - mid) as nat, half);
        }
        r
    }
}

/// A fresh vector holding `v[lo..hi)`.
pub(crate) fn copy_range(v: &Vec<char>, lo: usize, hi: usize) -> (r: Vec<char>)
    requires
        lo <= hi <= v@.len(),
    ensures
        r@ == v@.subrange(lo as int, hi as int),
{
    let mut r: Vec<char> = Vec::new();
    let mut i: usize = lo;
    while i < hi
        invariant
            lo <= i <= hi <= v@.len(),
            r@ == v@.subrange(lo as int, i as int),
        decreases hi - i,
    {
        r.push(v[i]);
        proof {
            assert(r@ =~= v@.subrange(lo as int, i + 1 as int));
        }
        i = i + 1;
    }
    r
}

/// A branch: owns a left and a right subtree; `weight` caches the character
/// count of the whole left subtree.
pub struct Node {
    pub weight: usize,
    pub left: Box<Rope>,
    pub right: Box<Rope>,
}

/// The rope: a leaf chunk or a branch over two subtrees.  The character at
/// offset `i` is found by comparing `i` against branch weights: strictly less
/// than the weight routes left, otherwise right with `i` reduced by the
/// weight.
pub enum Rope {
    Node(Node),
    Text(Text),
}

impl View for Rope {
    type V = Seq<char>;

    open spec fn view(&self) -> Seq<char> {
        self.content()
    }
}

impl Rope {
    /// The characters the rope holds, in in-order leaf traversal.
    pub open spec fn content(self) -> Seq<char>
        decreases self,
    {
        match self {
            Rope::Text(t) => t@,
            Rope::Node(n) => n.left.content() + n.right.content(),
        }
    }

    /// Structural well-formedness: every chunk span is valid, every cached
    /// weight equals the character count of its left subtree, and every
    /// subtree's character count fits in `usize`.
    pub open spec fn wf(self) -> bool
        decreases self,
    {
        match self {
            Rope::Text(t) => t.wf(),
            Rope::Node(n) => {
                &&& n.left.wf()
                &&& n.right.wf()
                &&& n.weight == n.left.content().len()
                &&& n.left.content().len() + n.right.content().len() <= usize::MAX
            },
        }
    }

    /// The depth of the tree: a leaf has depth zero.
    pub open spec fn depth(self) -> nat
        decreases self,
    {
        match self {
            Rope::Text(_) => 0,
            Rope::Node(n) => 1 + vstd::math::max(n.left.depth() as int, n.right.depth() as int)
                as nat,
        }
    }

    /// A well-formed rope's character count fits in `usize`.
    pub proof fn lemma_count_fits(self)
        requires
            self.wf(),
        ensures
            self.content().len() <= usize::MAX,
    {
        match self {
            Rope::Text(t) => {},
            Rope::Node(n) => {},
        }
    }

    /// The zero-length rope.
    pub fn new_empty() -> (r: Rope)
        ensures
            r.wf(),
            r.content() == Seq::<char>::empty(),
            r.depth() == 0,
    {
        let r = Rope::Text(Text { buffer: Vec::new(), start: 0, end: 0 });
        proof {
            assert(r.content() =~= Seq::<char>::empty());
        }
        r
    }

    /// Total characters in the rope, summed along the right spine from the
    /// cached weights.
    pub fn character_count(&self) -> (r: usize)
        requires
            self.wf(),
        ensures
            r == self.content().len(),
        decreases self,
    {
        match self {
            Rope::Text(t) => t.end - t.start,
            Rope::Node(n) => {
                proof {
                    n.right.lemma_count_fits();
                }
                n.weight + n.right.character_count()
            },
        }
    }

    /// Splits into the ropes holding `[0, offset)` and `[offset, n)`.
    /// Splitting a leaf copies only the left span; the remainder keeps the
    /// original buffer with tightened bounds.  Splitting a branch recurses
    /// into the child that straddles the offset and reuses the other child.
    pub fn split_at(self, offset: usize) -> (r: (Rope, Rope))
        requires
            self.wf(),
            offset <= self.content().len(),
        ensures
            r.0.wf(),
            r.1.wf(),
            r.0.content() == self.content().subrange(0, offset as int),
            r.1.content() == self.content().subrange(
                offset as int,
                self.content().len() as int,
            ),
        decreases self,
    {
        let ghost whole = self.content();
        match self {
            Rope::Text(t) => {
                let left_buf = copy_range(&t.buffer, t.start, t.start + offset);
                let left = Text { buffer: left_buf, start: 0, end: offset };
                let right = Text { buffer: t.buffer, start: t.start + offset, end: t.end };
                proof {
                    assert(left@ =~= whole.subrange(0, offset as int));
                    assert(right@ =~= whole.subrange(offset as int, whole.len() as int));
                }
                (Rope::Text(left), Rope::Text(right))
            },
            Rope::Node(n) => {
                proof {
                    n.left.lemma_count_fits();
                    n.right.lemma_count_fits();
                }
                if offset < n.weight {
                    let (a, b) = (*n.left).split_at(offset);
                    let joined = Rope::concat(b, *n.right);
                    proof {
                        assert(a.content() =~= whole.subrange(0, offset as int));
                        assert(joined.content() =~= whole.subrange(
                            offset as int,
                            whole.len() as int,
                        ));
                    }
                    (a, joined)
                } else {
                    let (a, b) = (*n.right).split_at(offset - n.weight);
                    let joined = Rope::concat(*n.left, a);
                    proof {
                        assert(joined.content() =~= whole.subrange(0, offset as int));
                        assert(b.content() =~= whole.subrange(offset as int, whole.len() as int));
                    }
                    (joined, b)
                }
            },
        }
    }

    /// Joins two ropes.  An empty side returns the other side unchanged; two
    /// non-empty ropes become a branch whose weight is the left side's
    /// character count.
    pub fn concat(left: Rope, right: Rope) -> (r: Rope)
        requires
            left.wf(),
            right.wf(),
            left.content().len() + right.content().len() <= usize::MAX,
        ensures
            r.wf(),
            r.content() == left.content() + right.content(),
            r.content().len() == left.content().len() + right.content().len(),
            left.content().len() == 0 ==> r == right,
            left.content().len() != 0 && right.content().len() == 0 ==> r == left,
    {
        let ghost lc = left.content();
        let ghost rc = right.content();
        let left_count = left.character_count();
        if left_count == 0 {
            proof {
                assert(lc + rc =~= rc);
            }
            right
        } else if right.character_count() == 0 {
            proof {
                assert(lc + rc =~= lc);
            }
            left
        } else {
            Rope::Node(Node { weight: left_count, left: Box::new(left), right: Box::new(right) })
        }
    }

    /// Appends the characters of `[start, end)` to `out`, by an in-order
    /// traversal restricted to the requested range.
    fn append_range(&self, start: usize, end: usize, out: &mut Vec<char>)
        requires
            self.wf(),
            start <= end <= self.content().len(),
        ensures
            final(out)@ == old(out)@ + self.content().subrange(start as int, end as int),
        decreases self,
    {
        let ghost whole = self.content();
        match self {
            Rope::Text(t) => {
                let mut i: usize = start;
                while i < end
                    invariant
                        start <= i <= end,
                        t.wf(),
                        end <= t@.len(),
                        out@ == old(out)@ + t@.subrange(start as int, i as int),
                    decreases end - i,
                {
                    out.push(t.buffer[t.start + i]);
                    proof {
                        assert(out@ =~= old(out)@ + t@.subrange(start as int, i + 1 as int));
                    }
                    i = i + 1;
                }
                proof {
                    assert(out@ =~= old(out)@ + whole.subrange(start as int, end as int));
                }
            },
            Rope::Node(n) => {
                proof {
                    n.left.lemma_count_fits();
                    n.right.lemma_count_fits();
                }
                if start < n.weight {
                    let left_end = if end < n.weight {
                        end
                    } else {
                        n.weight
                    };
                    n.left.append_range(start, left_end, out);
                }
                if end > n.weight {
                    let right_start = if start > n.weight {
                        start - n.weight
                    } else {
                        0
                    };
                    n.right.append_range(right_start, end - n.weight, out);
                }
                proof {
                    assert(out@ =~= old(out)@ + whole.subrange(start as int, end as int));
                }
            },
        }
    }

    /// The characters of `[start, end)` as a fresh vector, or `OutOfBounds`
    /// when `start > end` or `end` lies past the content.
    pub fn collect_text(&self, start: usize, end: usize) -> (r: Result<Vec<char>, TextError>)
        requires
            self.wf(),
        ensures
            start <= end <= self.content().len() ==> (r matches Ok(v) && v@
                == self.content().subrange(start as int, end as int)),
            !(start <= end && end <= self.content().len()) ==> r == Err::<Vec<char>, TextError>(
                TextError::OutOfBounds,
            ),
    {
        let count = self.character_count();
        if start > end || end > count {
            Err(TextError::OutOfBounds)
        } else {
            let mut out: Vec<char> = Vec::new();
            self.append_range(start, end, &mut out);
            Ok(out)
        }
    }

    /// The depth of the tree, saturating at `usize::MAX`.
    pub fn tree_depth(&self) -> (r: usize)
        ensures
            r == vstd::math::min(self.depth() as int, usize::MAX as int),
        decreases self,
    {
        match self {
            Rope::Text(_) => 0,
            Rope::Node(n) => {
                let dl = n.left.tree_depth();
                let dr = n.right.tree_depth();
                let m = if dl < dr {
                    dr
                } else {
                    dl
                };
                if m == usize::MAX {
                    m
                } else {
                    m + 1
                }
            },
        }
    }

    /// The same content rebuilt as a balanced tree: all characters are
    /// gathered once and split evenly into fresh chunks, so the result's
    /// depth is logarithmic in the character count.
    pub fn rebalance(&self) -> (r: Rope)
        requires
            self.wf(),
        ensures
            r.wf(),
            r.content() == self.content(),
            r.depth() <= balanced_depth(self.content().len()),
    {
        let count = self.character_count();
        let mut all: Vec<char> = Vec::new();
        self.append_range(0, count, &mut all);
        proof {
            assert(all@ =~= self.content());
        }
        build_balanced(&all, 0, count)
    }

    /// The character at `offset`, or `OutOfBounds` when `offset` is at or
    /// past the end of the content.
    pub fn char_at(&self, offset: usize) -> (r: Result<char, TextError>)
        requires
            self.wf(),
        ensures
            offset < self.content().len() ==> r == Ok::<char, TextError>(
                self.content()[offset as int],
            ),
            offset >= self.content().len() ==> r == Err::<char, TextError>(TextError::OutOfBounds),
        decreases self,
    {
        match self {
            Rope::Text(t) => {
                if offset < t.end - t.start {
                    Ok(t.buffer[t.start + offset])
                } else {
                    Err(TextError::OutOfBounds)
                }
            },
            Rope::Node(n) => {
                if offset < n.weight {
                    n.left.char_at(offset)
                } else {
                    n.right.char_at(offset - n.weight)
                }
            },
        }
    }
}

} // verus!
