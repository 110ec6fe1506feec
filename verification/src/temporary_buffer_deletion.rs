//! The buffer that gathers deletions that follow each other into one range
//! before it is deleted from the piece table.

use crate::enum_add_result::EnumAddResult;
use crate::words::{
    find_whitespace, lemma_first_from_bounds, lemma_last_before_bounds, whitespace_offsets,
    word_end, word_end_at, word_start, word_start_at,
};
use vstd::prelude::*;
use vstd::string::*;

verus! {

/// The key behind a deletion.
#[derive(Debug, Clone, Copy, PartialEq, Eq, Structural)]
pub enum EditKey {
    /// Deletes what stands before the cursor.
    Backspace,
    /// Deletes what stands behind the cursor.
    Delete,
    /// Any other key: it deletes nothing.
    Other,
}

/// The range that a key leaves behind when it is pressed with the cursor at
/// `position`. Without a range, Backspace opens the byte before the
/// position and Delete the byte at it. A range grows only when the cursor
/// stands at its start: by one byte to the left on Backspace, by one to the
/// right on Delete. Everything else leaves the range as it is.
pub open spec fn range_after_key(
    range: Option<(usize, usize)>,
    position: usize,
    key: EditKey,
) -> Option<(usize, usize)> {
    match range {
        None => match key {
            EditKey::Backspace => if position > 0 {
                Some(((position - 1) as usize, position))
            } else {
                None
            },
            EditKey::Delete => if position < usize::MAX {
                Some((position, (position + 1) as usize))
            } else {
                None
            },
            EditKey::Other => None,
        },
        Some((start, end)) => if position != start {
            range
        } else {
            match key {
                EditKey::Backspace => if start > 0 {
                    Some(((start - 1) as usize, end))
                } else {
                    range
                },
                EditKey::Delete => if end < usize::MAX {
                    Some((start, (end + 1) as usize))
                } else {
                    range
                },
                EditKey::Other => range,
            }
        },
    }
}

/// The number of bytes in a range; 0 where there is none.
pub open spec fn range_length(range: Option<(usize, usize)>) -> int {
    match range {
        Some((start, end)) => end - start,
        None => 0,
    }
}

/// What the buffer answers to a key: a key that deletes nothing is refused
/// while there is no range; a range that stays as it was is `NoChange`; a
/// range that has reached `max_length` bytes is `MustPersist`.
pub open spec fn answer_to_key(
    range: Option<(usize, usize)>,
    max_length: usize,
    position: usize,
    key: EditKey,
) -> Result<EnumAddResult, ()> {
    let after = range_after_key(range, position, key);
    if range is None && key == EditKey::Other {
        Err(())
    } else if after == range {
        Ok(EnumAddResult::NoChange)
    } else if range_length(after) == max_length {
        Ok(EnumAddResult::MustPersist)
    } else {
        Ok(EnumAddResult::Added)
    }
}

/// The range that the deletion of a word leaves behind, in a text of
/// `length` bytes whose whitespace begins at `offsets`. Only a buffer
/// without a range takes a word: leftwards from the start of the word to the
/// position, rightwards from the position to the end of the word.
pub open spec fn range_after_word(
    range: Option<(usize, usize)>,
    offsets: Seq<usize>,
    length: usize,
    position: usize,
    key: EditKey,
) -> Option<(usize, usize)> {
    if range is Some {
        range
    } else {
        match key {
            EditKey::Backspace => if position > 0 {
                Some((word_start_at(offsets, position as int) as usize, position))
            } else {
                None
            },
            EditKey::Delete => if position < length {
                Some((position, word_end_at(offsets, position as int, length as int) as usize))
            } else {
                None
            },
            EditKey::Other => None,
        }
    }
}

/// What the buffer answers when it is asked to delete a word: a key that
/// deletes nothing is refused; Backspace at the start of the text and
/// Delete at its end are `NoChange`.
pub open spec fn answer_to_word(length: usize, position: usize, key: EditKey) -> Result<
    EnumAddResult,
    (),
> {
    match key {
        EditKey::Other => Err(()),
        EditKey::Backspace => if position == 0 {
            Ok(EnumAddResult::NoChange)
        } else {
            Ok(EnumAddResult::Added)
        },
        EditKey::Delete => if position >= length {
            Ok(EnumAddResult::NoChange)
        } else {
            Ok(EnumAddResult::Added)
        },
    }
}

/// A range that is waiting only grows, by at most one byte and at one of
/// its ends: no key moves it or makes it shorter.
pub proof fn lemma_range_only_grows(range: (usize, usize), position: usize, key: EditKey)
    requires
        range.0 < range.1,
    ensures
        range_after_key(Some(range), position, key) matches Some(after) && after.0 <= range.0
            && range.1 <= after.1 && range_length(Some(after)) <= range_length(Some(range)) + 1,
{
}

/// A range of bytes that is waiting to be deleted, or none.
pub struct TemporaryBufferDeleteText {
    max_length: usize,
    range: Option<(usize, usize)>,
}

impl TemporaryBufferDeleteText {
    /// The number of bytes at which the range has to be written out.
    pub closed spec fn max_length(&self) -> usize {
        self.max_length
    }

    /// The range that is waiting: its start, and its end, which is not part
    /// of it.
    pub closed spec fn range(&self) -> Option<(usize, usize)> {
        self.range
    }

    /// A range that is waiting is never empty and never inverted.
    #[verifier::type_invariant]
    pub closed spec fn well_formed(&self) -> bool {
        self.range matches Some(range) ==> range.0 < range.1
    }

    /// A buffer without a range.
    pub fn new(max_length: usize) -> (buffer: Self)
        ensures
            buffer.max_length() == max_length,
            buffer.range() is None,
    {
        Self { max_length, range: None }
    }

    /// Takes the deletion of one byte by `key`, with the cursor at
    /// `position`.
    pub fn add_char(&mut self, position: usize, key: EditKey) -> (result: Result<
        EnumAddResult,
        (),
    >)
        ensures
            final(self).max_length() == old(self).max_length(),
            final(self).range() == range_after_key(old(self).range(), position, key),
            result == answer_to_key(old(self).range(), old(self).max_length(), position, key),
            final(self).range() matches Some(range) ==> range.0 < range.1,
    {
        proof {
            use_type_invariant(&*self);
        }
        let (start, end) = match self.range {
            None => {
                match key {
                    EditKey::Backspace => {
                        if position == 0 {
                            return Ok(EnumAddResult::NoChange);
                        }
                        (position - 1, position)
                    },
                    EditKey::Delete => {
                        if position == usize::MAX {
                            return Ok(EnumAddResult::NoChange);
                        }
                        (position, position + 1)
                    },
                    EditKey::Other => {
                        return Err(());
                    },
                }
            },
            Some((start, end)) => {
                if position != start {
                    return Ok(EnumAddResult::NoChange);
                }
                match key {
                    EditKey::Delete => {
                        if end == usize::MAX {
                            return Ok(EnumAddResult::NoChange);
                        }
                        (start, end + 1)
                    },
                    EditKey::Backspace => {
                        if start == 0 {
                            return Ok(EnumAddResult::NoChange);
                        }
                        (start - 1, end)
                    },
                    EditKey::Other => {
                        return Ok(EnumAddResult::NoChange);
                    },
                }
            },
        };
        self.range = Some((start, end));
        if end - start == self.max_length {
            Ok(EnumAddResult::MustPersist)
        } else {
            Ok(EnumAddResult::Added)
        }
    }

    /// Takes the deletion of a word of `text` by `key`, with the cursor at
    /// byte `position`.
    pub fn delete_word(&mut self, text: &str, position: usize, key: EditKey) -> (result: Result<
        EnumAddResult,
        (),
    >)
        ensures
            final(self).max_length() == old(self).max_length(),
            text.spec_bytes().len() <= usize::MAX,
            final(self).range() == range_after_word(
                old(self).range(),
                whitespace_offsets(text@),
                text.spec_bytes().len() as usize,
                position,
                key,
            ),
            result == answer_to_word(text.spec_bytes().len() as usize, position, key),
            final(self).range() matches Some(range) ==> range.0 < range.1,
    {
        proof {
            use_type_invariant(&*self);
        }
        let length = text.as_bytes().len();
        match key {
            EditKey::Other => Err(()),
            EditKey::Backspace => {
                if position == 0 {
                    return Ok(EnumAddResult::NoChange);
                }
                if self.range.is_none() {
                    let offsets = find_whitespace(text);
                    let start = word_start(&offsets, position);
                    proof {
                        lemma_last_before_bounds(offsets@, position as int);
                    }
                    self.range = Some((start, position));
                }
                Ok(EnumAddResult::Added)
            },
            EditKey::Delete => {
                if position >= length {
                    return Ok(EnumAddResult::NoChange);
                }
                if self.range.is_none() {
                    let offsets = find_whitespace(text);
                    let end = word_end(&offsets, position, length);
                    proof {
                        lemma_first_from_bounds(offsets@, position as int);
                    }
                    self.range = Some((position, end));
                }
                Ok(EnumAddResult::Added)
            },
        }
    }

    /// The range that is waiting, if there is one: its start is below its
    /// end.
    pub fn get_deletion_range(&self) -> (range: Option<(usize, usize)>)
        ensures
            range == self.range(),
            range matches Some(found) ==> found.0 < found.1,
    {
        proof {
            use_type_invariant(&*self);
        }
        self.range
    }

    /// Whether no range is waiting.
    pub fn is_empty(&self) -> (empty: bool)
        ensures
            empty <==> self.range() is None,
    {
        self.range.is_none()
    }

    /// Forgets the range.
    pub fn clear(&mut self)
        ensures
            final(self).range() is None,
            final(self).max_length() == old(self).max_length(),
    {
        self.range = None;
    }
}

} // verus!
