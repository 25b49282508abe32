//! The buffer: the editor-facing facade over a rope.
//!
//! A `Buffer` owns exactly one rope and exposes the offset-based and
//! line-based read, insert and delete operations the editor shell calls.
//! Every mutation replaces the owned rope with a new value built by
//! `split_at` and `concat`, then rebalances when the tree has grown too deep
//! for its size.  Lines are derived state: line `k` is the text between the
//! `k`-th and the `k+1`-th newline boundary, and the buffer recomputes it by
//! scanning on demand rather than keeping an index.

use vstd::prelude::*;

use crate::text::Rope;
use crate::text::Text;
use crate::text::TextError;
use crate::text::balanced_depth;
use crate::text::balanced_depth_exec;
use crate::text::build_balanced;
use crate::text::copy_range;
use crate::text::lemma_balanced_depth_le;
use vstd::arithmetic::power2::lemma2_to64;
use vstd::arithmetic::power2::pow2;

verus! {

/// How many newline characters a sequence holds.
pub open spec fn newlines(s: Seq<char>) -> nat
    decreases s.len(),
{
    if s.len() == 0 {
        0
    } else {
        newlines(s.drop_last()) + (if s.last() == '\n' {
            1nat
        } else {
            0nat
        })
    }
}

/// How many lines a sequence of characters forms: one more than its newline
/// count, so the empty content still has one (empty) line.
pub open spec fn line_count_of(s: Seq<char>) -> nat {
    newlines(s) + 1
}

/// The position of the first newline in `s`, or `s.len()` when there is
/// none.
pub open spec fn first_newline(s: Seq<char>) -> int
    decreases s.len(),
{
    if s.len() == 0 {
        0
    } else if s[0] == '\n' {
        0
    } else {
        1 + first_newline(s.drop_first())
    }
}

/// Line `k` of `s`: the characters between the `k`-th newline boundary and
/// the next newline (or the end), the newline itself excluded.
pub open spec fn line_of(s: Seq<char>, k: nat) -> Seq<char>
    decreases k,
{
    let f = first_newline(s);
    if k == 0 {
        s.take(f)
    } else if f >= s.len() {
        Seq::<char>::empty()
    } else {
        line_of(s.skip(f + 1), (k - 1) as nat)
    }
}

/// Newline counting distributes over concatenation.
pub proof fn lemma_newlines_add(a: Seq<char>, b: Seq<char>)
    ensures
        newlines(a + b) == newlines(a) + newlines(b),
    decreases b.len(),
{
    if b.len() == 0 {
        assert(a + b =~= a);
    } else {
        lemma_newlines_add(a, b.drop_last());
        assert((a + b).drop_last() =~= a + b.drop_last());
        assert((a + b).last() == b.last());
    }
}

/// A sequence without a newline character has newline count zero.
pub proof fn lemma_newlines_none(s: Seq<char>)
    requires
        forall|j: int| 0 <= j < s.len() ==> s[j] != '\n',
    ensures
        newlines(s) == 0,
    decreases s.len(),
{
    if s.len() > 0 {
        lemma_newlines_none(s.drop_last());
    }
}

/// `first_newline` points at a newline inside the sequence, or at its end,
/// and nothing before it is a newline.
pub proof fn lemma_first_newline(s: Seq<char>)
    ensures
        0 <= first_newline(s) <= s.len(),
        first_newline(s) < s.len() ==> s[first_newline(s)] == '\n',
        forall|j: int| 0 <= j < first_newline(s) ==> s[j] != '\n',
    decreases s.len(),
{
    if s.len() == 0 {
    } else if s[0] == '\n' {
    } else {
        lemma_first_newline(s.drop_first());
        assert forall|j: int| 0 <= j < first_newline(s) implies s[j] != '\n' by {
            if j > 0 {
                assert(s.drop_first()[j - 1] == s[j]);
            }
        }
    }
}

/// Any position with the three properties above is `first_newline`.
pub proof fn lemma_first_newline_is(s: Seq<char>, f: int)
    requires
        0 <= f <= s.len(),
        f < s.len() ==> s[f] == '\n',
        forall|j: int| 0 <= j < f ==> s[j] != '\n',
    ensures
        first_newline(s) == f,
    decreases s.len(),
{
    if s.len() == 0 {
    } else if s[0] == '\n' {
        assert(f == 0);
    } else {
        assert(f >= 1);
        assert forall|j: int| 0 <= j < f - 1 implies s.drop_first()[j] != '\n' by {
            assert(s.drop_first()[j] == s[j + 1]);
        }
        if f < s.len() {
            assert(s.drop_first()[f - 1] == s[f]);
        }
        lemma_first_newline_is(s.drop_first(), f - 1);
    }
}

/// Stepping past the first newline removes exactly one line.
pub proof fn lemma_line_step(s: Seq<char>)
    requires
        first_newline(s) < s.len(),
    ensures
        line_count_of(s.skip(first_newline(s) + 1)) == line_count_of(s) - 1,
{
    let f = first_newline(s);
    lemma_first_newline(s);
    assert(s =~= s.take(f + 1) + s.skip(f + 1));
    lemma_newlines_add(s.take(f + 1), s.skip(f + 1));
    assert(s.take(f + 1).drop_last() =~= s.take(f));
    assert(s.take(f + 1).last() == s[f]);
    assert forall|j: int| 0 <= j < s.take(f).len() implies s.take(f)[j] != '\n' by {
        assert(s.take(f)[j] == s[j]);
    }
    lemma_newlines_none(s.take(f));
}

/// The text buffer: one rope holding the whole document content.
pub struct Buffer {
    pub rope: Rope,
}

impl View for Buffer {
    type V = Seq<char>;

    open spec fn view(&self) -> Seq<char> {
        self.rope.content()
    }
}

impl Buffer {
    /// The buffer invariant: its rope is well formed.
    pub open spec fn wf(self) -> bool {
        self.rope.wf()
    }

    /// A buffer whose content is exactly `s`, stored as one chunk when `s`
    /// is short and as a balanced set of chunks otherwise.
    pub fn from_text(s: &str) -> (b: Buffer)
        ensures
            b.wf(),
            b@ == s@,
            b.rope.depth() <= balanced_depth(s@.len()),
    {
        let t = Text::new(s);
        let n = t.buffer.len();
        let rope = build_balanced(&t.buffer, 0, n);
        proof {
            assert(t.buffer@.subrange(0, n as int) =~= t@);
        }
        Buffer { rope }
    }

    /// Total characters in the buffer.
    pub fn character_count(&self) -> (r: usize)
        requires
            self.wf(),
        ensures
            r == self@.len(),
    {
        self.rope.character_count()
    }

    /// The depth of the underlying tree, saturating at `usize::MAX`.
    pub fn depth(&self) -> (r: usize)
        ensures
            r == vstd::math::min(self.rope.depth() as int, usize::MAX as int),
    {
        self.rope.tree_depth()
    }

    /// The character at `offset`, or `OutOfBounds` when `offset` is at or
    /// past the end of the content.
    pub fn char_at(&self, offset: usize) -> (r: Result<char, TextError>)
        requires
            self.wf(),
        ensures
            offset < self@.len() ==> r == Ok::<char, TextError>(self@[offset as int]),
            offset >= self@.len() ==> r == Err::<char, TextError>(TextError::OutOfBounds),
    {
        self.rope.char_at(offset)
    }

    /// The characters of the half-open range `[start, end)`, or
    /// `OutOfBounds` when the range is reversed or reaches past the content.
    pub fn slice(&self, start: usize, end: usize) -> (r: Result<Vec<char>, TextError>)
        requires
            self.wf(),
        ensures
            start <= end <= self@.len() ==> (r matches Ok(v) && v@ == self@.subrange(
                start as int,
                end as int,
            )),
            !(start <= end && end <= self@.len()) ==> r == Err::<Vec<char>, TextError>(
                TextError::OutOfBounds,
            ),
    {
        self.rope.collect_text(start, end)
    }

    /// Inserts the characters of `text` before offset `offset`, or fails
    /// with `OutOfBounds`, leaving the buffer untouched, when `offset` lies
    /// past the end of the content.
    pub fn insert(&mut self, offset: usize, text: &str) -> (r: Result<(), TextError>)
        requires
            old(self).wf(),
            old(self)@.len() + text@.len() <= usize::MAX,
        ensures
            final(self).wf(),
            offset <= old(self)@.len() ==> r == Ok::<(), TextError>(()) && final(self)@ == old(
                self,
            )@.subrange(0, offset as int) + text@ + old(self)@.subrange(
                offset as int,
                old(self)@.len() as int,
            ) && final(self).rope.depth() <= depth_limit(final(self)@.len()),
            offset > old(self)@.len() ==> r == Err::<(), TextError>(TextError::OutOfBounds)
                && *final(self) == *old(self),
    {
        let count = self.rope.character_count();
        if offset > count {
            return Err(TextError::OutOfBounds);
        }
        let mut work = Rope::new_empty();
        core::mem::swap(&mut self.rope, &mut work);
        let (front, back) = work.split_at(offset);
        let chunk = Rope::Text(Text::new(text));
        let joined = Rope::concat(Rope::concat(front, chunk), back);
        self.rope = maybe_rebalance(joined);
        Ok(())
    }

    /// Deletes the half-open range `[start, end)`.  A reversed range fails
    /// with `InvalidRange`, a range past the content with `OutOfBounds`;
    /// either failure leaves the buffer untouched.
    pub fn delete(&mut self, start: usize, end: usize) -> (r: Result<(), TextError>)
        requires
            old(self).wf(),
        ensures
            final(self).wf(),
            start > end ==> r == Err::<(), TextError>(TextError::InvalidRange) && *final(self)
                == *old(self),
            start <= end && end > old(self)@.len() ==> r == Err::<(), TextError>(
                TextError::OutOfBounds,
            ) && *final(self) == *old(self),
            start <= end <= old(self)@.len() ==> r == Ok::<(), TextError>(()) && final(self)@
                == old(self)@.subrange(0, start as int) + old(self)@.subrange(
                end as int,
                old(self)@.len() as int,
            ) && final(self).rope.depth() <= depth_limit(final(self)@.len()),
    {
        let count = self.rope.character_count();
        if start > end {
            return Err(TextError::InvalidRange);
        }
        if end > count {
            return Err(TextError::OutOfBounds);
        }
        let ghost whole = self@;
        let mut work = Rope::new_empty();
        core::mem::swap(&mut self.rope, &mut work);
        let (kept_front, back) = work.split_at(end);
        let (front, _dropped) = kept_front.split_at(start);
        proof {
            assert(front.content() =~= whole.subrange(0, start as int));
        }
        let joined = Rope::concat(front, back);
        self.rope = maybe_rebalance(joined);
        Ok(())
    }

    /// How many lines the buffer holds: one more than its newline count, so
    /// an empty buffer still has one line.
    pub fn line_count(&self) -> (r: usize)
        requires
            self.wf(),
            self@.len() < usize::MAX,
        ensures
            r == line_count_of(self@),
    {
        let count = self.rope.character_count();
        let v = match self.rope.collect_text(0, count) {
            Ok(v) => v,
            Err(_) => unreached(),
        };
        proof {
            assert(v@ =~= self@);
        }
        let mut cnt: usize = 0;
        let mut i: usize = 0;
        while i < v.len()
            invariant
                i <= v@.len(),
                cnt <= i,
                cnt == newlines(v@.take(i as int)),
            decreases v@.len() - i,
        {
            if v[i] == '\n' {
                cnt = cnt + 1;
            }
            proof {
                assert(v@.take(i + 1 as int).drop_last() =~= v@.take(i as int));
                assert(v@.take(i + 1 as int).last() == v@[i as int]);
            }
            i = i + 1;
        }
        proof {
            assert(v@.take(v@.len() as int) =~= v@);
        }
        cnt + 1
    }

    /// The characters of line `line_number`, the trailing newline excluded,
    /// or `OutOfBounds` when the buffer has no such line.
    pub fn line_text(&self, line_number: usize) -> (r: Result<Vec<char>, TextError>)
        requires
            self.wf(),
        ensures
            line_number < line_count_of(self@) ==> (r matches Ok(v) && v@ == line_of(
                self@,
                line_number as nat,
            )),
            line_number >= line_count_of(self@) ==> r == Err::<Vec<char>, TextError>(
                TextError::OutOfBounds,
            ),
    {
        let count = self.rope.character_count();
        let v = match self.rope.collect_text(0, count) {
            Ok(v) => v,
            Err(_) => unreached(),
        };
        proof {
            assert(v@ =~= self@);
        }
        let mut pos: usize = 0;
        let mut k: usize = line_number;
        loop
            invariant
                pos <= v@.len(),
                v@ == self@,
                line_of(self@, line_number as nat) == line_of(v@.skip(pos as int), k as nat),
                (line_number < line_count_of(self@)) <==> (k < line_count_of(
                    v@.skip(pos as int),
                )),
            decreases k,
        {
            let f = find_newline(&v, pos);
            let ghost suffix = v@.skip(pos as int);
            proof {
                lemma_first_newline(suffix);
            }
            if k == 0 {
                let out = copy_range(&v, pos, f);
                proof {
                    assert(out@ =~= suffix.take(first_newline(suffix)));
                }
                return Ok(out);
            }
            if f == v.len() {
                proof {
                    lemma_newlines_none(suffix);
                }
                return Err(TextError::OutOfBounds);
            }
            proof {
                lemma_line_step(suffix);
                assert(suffix.skip(first_newline(suffix) + 1) =~= v@.skip(f + 1 as int));
            }
            pos = f + 1;
            k = k - 1;
        }
    }
}

/// The index of the first newline at or after `from`, or the length of `v`
/// when the tail holds none.
fn find_newline(v: &Vec<char>, from: usize) -> (r: usize)
    requires
        from <= v@.len(),
    ensures
        from <= r <= v@.len(),
        r - from == first_newline(v@.skip(from as int)),
{
    let mut i: usize = from;
    while i < v.len()
        invariant
            from <= i <= v@.len(),
            forall|j: int| from <= j < i ==> v@[j] != '\n',
        decreases v@.len() - i,
    {
        if v[i] == '\n' {
            proof {
                let suffix = v@.skip(from as int);
                assert forall|j: int| 0 <= j < i - from implies suffix[j] != '\n' by {
                    assert(suffix[j] == v@[from + j]);
                }
                lemma_first_newline_is(suffix, i - from);
            }
            return i;
        }
        i = i + 1;
    }
    proof {
        let suffix = v@.skip(from as int);
        assert forall|j: int| 0 <= j < suffix.len() implies suffix[j] != '\n' by {
            assert(suffix[j] == v@[from + j]);
        }
        lemma_first_newline_is(suffix, suffix.len() as int);
    }
    v.len()
}

/// The depth a buffer's tree may keep after a mutation: twice the balanced
/// depth of its character count, plus a constant slack.  A tree within this
/// limit answers point queries in logarithmically many steps.
pub open spec fn depth_limit(n: nat) -> nat {
    2 * balanced_depth(n) + 8
}

/// Rebalances a rope whose depth has outgrown `depth_limit` for its size; a
/// rope already within the limit is returned unchanged.
pub(crate) fn maybe_rebalance(r: Rope) -> (out: Rope)
    requires
        r.wf(),
    ensures
        out.wf(),
        out.content() == r.content(),
        out.depth() <= depth_limit(r.content().len()),
{
    let d = r.tree_depth();
    let c = r.character_count();
    let bd = balanced_depth_exec(c);
    proof {
        lemma2_to64();
        assert((c as nat) <= crate::text::CHUNK_MAX * pow2(64));
        lemma_balanced_depth_le(c as nat, 64);
    }
    let budget = 2 * bd + 8;
    if d > budget {
        r.rebalance()
    } else {
        r
    }
}

} // verus!
