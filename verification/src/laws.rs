//! Content-level laws of the rope operations.
//!
//! `Rope::split_at` returns the two subranges of the content around the
//! offset, `Rope::concat` returns the concatenation of its sides, and
//! `Buffer::insert` and `Buffer::delete` state their new content the same
//! way; the lemmas here close the loop and show that those contracts
//! compose back to the original content.

use vstd::prelude::*;

verus! {

/// Round-trip law: splitting content at any valid offset and then
/// concatenating the two parts reproduces the original content exactly.
/// `Rope::split_at` ensures its results hold the two subranges below, and
/// `Rope::concat` ensures it returns their concatenation.
pub proof fn lemma_split_concat_round_trip(s: Seq<char>, offset: int)
    requires
        0 <= offset <= s.len(),
    ensures
        s.subrange(0, offset) + s.subrange(offset, s.len() as int) == s,
{
    assert(s.subrange(0, offset) + s.subrange(offset, s.len() as int) =~= s);
}

/// After inserting text at a valid offset, the character at that offset is
/// the first inserted character, and the character count grows by exactly
/// the inserted length.  `Buffer::insert` ensures the new content is the
/// concatenation below.
pub proof fn lemma_insert_char_at(s: Seq<char>, text: Seq<char>, offset: int)
    requires
        0 <= offset <= s.len(),
        text.len() > 0,
    ensures
        (s.subrange(0, offset) + text + s.subrange(offset, s.len() as int)).len() == s.len()
            + text.len(),
        (s.subrange(0, offset) + text + s.subrange(offset, s.len() as int))[offset] == text[0],
{
}

/// Deleting a valid range and re-inserting the previously sliced text at
/// the range's start reproduces the original content.  `Buffer::slice`,
/// `Buffer::delete` and `Buffer::insert` state their results as the
/// subranges below.
pub proof fn lemma_delete_insert_round_trip(s: Seq<char>, start: int, end: int)
    requires
        0 <= start <= end <= s.len(),
    ensures
        ({
            let remains = s.subrange(0, start) + s.subrange(end, s.len() as int);
            let sliced = s.subrange(start, end);
            remains.subrange(0, start) + sliced + remains.subrange(start, remains.len() as int)
                == s
        }),
{
    let remains = s.subrange(0, start) + s.subrange(end, s.len() as int);
    let sliced = s.subrange(start, end);
    assert(remains.subrange(0, start) =~= s.subrange(0, start));
    assert(remains.subrange(start, remains.len() as int) =~= s.subrange(end, s.len() as int));
    assert(remains.subrange(0, start) + sliced + remains.subrange(start, remains.len() as int)
        =~= s);
}

} // verus!
