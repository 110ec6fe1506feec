//! Where the words of a text begin and end: the scan behind the deletion of
//! a word.

use crate::utf8::{
    char_is_whitespace, is_whitespace, lemma_encode_utf8_prefix, lemma_encode_utf8_push,
    utf8_length,
};
use vstd::prelude::*;
use vstd::string::*;
use vstd::utf8::*;

verus! {

/// The byte offsets at which the whitespace characters of `chars` begin, in
/// rising order.
pub open spec fn whitespace_offsets(chars: Seq<char>) -> Seq<usize>
    decreases chars.len(),
{
    if chars.len() == 0 {
        Seq::empty()
    } else {
        let before = whitespace_offsets(chars.drop_last());
        if char_is_whitespace(chars.last()) {
            before.push(encode_utf8(chars.drop_last()).len() as usize)
        } else {
            before
        }
    }
}

/// The last of `offsets` that lies before `position`, or 0 where none does.
pub open spec fn last_before(offsets: Seq<usize>, position: int) -> int
    decreases offsets.len(),
{
    if offsets.len() == 0 {
        0
    } else if offsets.last() < position {
        offsets.last() as int
    } else {
        last_before(offsets.drop_last(), position)
    }
}

/// The first of `offsets` that lies at or behind `position`, if there is
/// one.
pub open spec fn first_from(offsets: Seq<usize>, position: int) -> Option<usize>
    decreases offsets.len(),
{
    if offsets.len() == 0 {
        None
    } else {
        match first_from(offsets.drop_last(), position) {
            Some(offset) => Some(offset),
            None => if offsets.last() >= position {
                Some(offsets.last())
            } else {
                None
            },
        }
    }
}

/// Where a word that is deleted leftwards from `position` begins: at the
/// last whitespace before the position, or at the start of the text.
pub open spec fn word_start_at(offsets: Seq<usize>, position: int) -> int {
    last_before(offsets, position)
}

/// Where a word that is deleted rightwards from `position` ends: behind the
/// first byte of the first whitespace at or behind the position, or at the
/// end of a text of `length` bytes.
pub open spec fn word_end_at(offsets: Seq<usize>, position: int, length: int) -> int {
    match first_from(offsets, position) {
        Some(offset) => offset + 1,
        None => length,
    }
}

/// The start of a word lies before the position it was asked for, unless
/// that is 0.
pub proof fn lemma_last_before_bounds(offsets: Seq<usize>, position: int)
    requires
        position > 0,
    ensures
        0 <= last_before(offsets, position) < position,
    decreases offsets.len(),
{
    if offsets.len() > 0 {
        lemma_last_before_bounds(offsets.drop_last(), position);
    }
}

/// A whitespace found at or behind a position is one of the offsets and
/// lies at or behind that position.
pub proof fn lemma_first_from_bounds(offsets: Seq<usize>, position: int)
    ensures
        first_from(offsets, position) matches Some(offset) ==> offset >= position
            && offsets.contains(offset),
    decreases offsets.len(),
{
    if offsets.len() > 0 {
        lemma_first_from_bounds(offsets.drop_last(), position);
        assert(offsets.last() == offsets[offsets.len() - 1]);
        if first_from(offsets.drop_last(), position) is Some {
            let offset = first_from(offsets.drop_last(), position)->0;
            let i = choose|i: int|
                0 <= i < offsets.drop_last().len() && offsets.drop_last()[i] == offset;
            assert(offsets[i] == offset);
        }
    }
}

/// Every whitespace of a text begins inside the text.
pub proof fn lemma_whitespace_offsets_bounds(chars: Seq<char>)
    requires
        encode_utf8(chars).len() <= usize::MAX,
    ensures
        forall|i: int|
            0 <= i < whitespace_offsets(chars).len() ==> (#[trigger] whitespace_offsets(chars)[i])
                < encode_utf8(chars).len(),
    decreases chars.len(),
{
    if chars.len() > 0 {
        let shorter = chars.drop_last();
        lemma_encode_utf8_push(shorter, chars.last());
        assert(shorter.push(chars.last()) =~= chars);
        assert(encode_scalar(chars.last() as u32).len() >= 1);
        lemma_whitespace_offsets_bounds(shorter);
        let before = whitespace_offsets(shorter);
        let all = whitespace_offsets(chars);
        assert forall|i: int| 0 <= i < all.len() implies (#[trigger] all[i]) < encode_utf8(
            chars,
        ).len() by {
            if i < before.len() {
                assert(all[i] == before[i]);
            }
        }
    }
}

/// The end of a word lies behind the position it was asked for, and no
/// further than the end of the text.
pub proof fn lemma_word_end_bounds(offsets: Seq<usize>, position: int, length: int)
    requires
        position < length,
        forall|i: int| 0 <= i < offsets.len() ==> (#[trigger] offsets[i]) < length,
    ensures
        position < word_end_at(offsets, position, length) <= length,
{
    lemma_first_from_bounds(offsets, position);
}

/// The byte offsets at which the whitespace characters of `text` begin.
pub fn find_whitespace(text: &str) -> (offsets: Vec<usize>)
    ensures
        offsets@ == whitespace_offsets(text@),
        forall|i: int| 0 <= i < offsets@.len() ==> offsets@[i] < text.spec_bytes().len(),
{
    let length = text.as_bytes().len();
    let mut offsets: Vec<usize> = Vec::new();
    let mut offset: usize = 0;
    let chars = text.chars();
    for c in it: chars
        invariant
            it.seq() == text@,
            length == encode_utf8(text@).len(),
            offset == encode_utf8(text@.take(it.index())).len(),
            offsets@ == whitespace_offsets(text@.take(it.index())),
            forall|i: int| 0 <= i < offsets@.len() ==> offsets@[i] < length,
    {
        proof {
            let i = it.index();
            assert(text@.take(i + 1).drop_last() =~= text@.take(i));
            assert(text@.take(i + 1) =~= text@.take(i).push(c));
            lemma_encode_utf8_push(text@.take(i), c);
            lemma_encode_utf8_prefix(text@, i + 1);
        }
        if is_whitespace(c) {
            offsets.push(offset);
        }
        offset += utf8_length(c);
    }
    proof {
        assert(text@.take(text@.len() as int) =~= text@);
    }
    offsets
}

/// Where a word that is deleted leftwards from `position` begins.
pub fn word_start(offsets: &Vec<usize>, position: usize) -> (start: usize)
    ensures
        start == word_start_at(offsets@, position as int),
{
    let mut start: usize = 0;
    let mut index: usize = 0;
    while index < offsets.len()
        invariant
            index <= offsets@.len(),
            start == last_before(offsets@.take(index as int), position as int),
        decreases offsets@.len() - index,
    {
        proof {
            assert(offsets@.take(index + 1).drop_last() =~= offsets@.take(index as int));
        }
        if offsets[index] < position {
            start = offsets[index];
        }
        index += 1;
    }
    proof {
        assert(offsets@.take(index as int) =~= offsets@);
    }
    start
}

/// Where a word that is deleted rightwards from `position` ends, in a text
/// of `length` bytes.
pub fn word_end(offsets: &Vec<usize>, position: usize, length: usize) -> (end: usize)
    requires
        forall|i: int| 0 <= i < offsets@.len() ==> offsets@[i] < length,
    ensures
        end == word_end_at(offsets@, position as int, length as int),
{
    let mut found: Option<usize> = None;
    let mut index: usize = 0;
    while index < offsets.len()
        invariant
            index <= offsets@.len(),
            found == first_from(offsets@.take(index as int), position as int),
            forall|i: int| 0 <= i < offsets@.len() ==> offsets@[i] < length,
            found matches Some(offset) ==> offset < length,
        decreases offsets@.len() - index,
    {
        proof {
            assert(offsets@.take(index + 1).drop_last() =~= offsets@.take(index as int));
        }
        if found.is_none() && offsets[index] >= position {
            found = Some(offsets[index]);
        }
        index += 1;
    }
    proof {
        assert(offsets@.take(index as int) =~= offsets@);
    }
    match found {
        Some(offset) => offset + 1,
        None => length,
    }
}

} // verus!
