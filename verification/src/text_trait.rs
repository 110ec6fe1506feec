//! The interface of a text store that is edited by byte offset.

use crate::text::{with_insertion, without_range};
use crate::utf8::utf8_lossy;
use vstd::prelude::*;
use vstd::string::*;
use vstd::utf8::*;

verus! {

/// An insertion was asked for at a position beyond the end of the text.
#[derive(Debug, Clone, Copy, PartialEq, Eq, Structural)]
pub struct InvalidPosition {
    pub position: usize,
    pub length: usize,
}

/// A deletion was asked for over a range that the text does not hold.
#[derive(Debug, Clone, Copy, PartialEq, Eq, Structural)]
pub enum RangeError {
    /// The start lies beyond the end of the text.
    StartBeyondLength { start: usize, length: usize },
    /// The end lies beyond the end of the text.
    EndBeyondLength { end: usize, length: usize },
    /// The start lies after the end.
    StartAfterEnd { start: usize, end: usize },
}

/// The half-open range `[start, end)` lies inside a text of `length` bytes.
pub open spec fn range_is_valid(start: int, end: int, length: int) -> bool {
    start <= end <= length
}

/// The error that a deletion over an invalid range reports: the first of
/// start beyond the text, end beyond the text, start after end.
pub open spec fn range_error(start: usize, end: usize, length: usize) -> RangeError {
    if start > length {
        RangeError::StartBeyondLength { start, length }
    } else if end > length {
        RangeError::EndBeyondLength { end, length }
    } else {
        RangeError::StartAfterEnd { start, end }
    }
}

/// A text that can be read back whole and edited by byte offset.
pub trait TextTrait: Sized {
    /// The text held, as bytes.
    spec fn text(&self) -> Seq<u8>;

    /// A store that holds `text`.
    fn new(text: &str) -> (store: Self)
        ensures
            store.text() == text.spec_bytes(),
    ;

    /// Inserts `text` before the byte at `position`. An empty `text` changes
    /// nothing and succeeds whatever the position; otherwise the position
    /// must not lie beyond the end.
    fn add_text(&mut self, text: &str, position: usize) -> (result: Result<(), InvalidPosition>)
        ensures
            result is Err <==> text@.len() > 0 && position > old(self).text().len(),
            match result {
                Ok(_) => final(self).text() == if text@.len() == 0 {
                    old(self).text()
                } else {
                    with_insertion(old(self).text(), position as int, text.spec_bytes())
                },
                Err(error) => {
                    &&& final(self).text() == old(self).text()
                    &&& error.position == position
                    &&& error.length == old(self).text().len()
                },
            },
    ;

    /// The text held, as a string. Bytes that are no valid UTF-8 are read
    /// lossily.
    fn get_text(&self) -> (text: String)
        ensures
            text@ == utf8_lossy(self.text()),
            valid_utf8(self.text()) ==> text@ == decode_utf8(self.text()),
    ;

    /// Removes the bytes of the half-open range `[start, end)`.
    fn delete_text(&mut self, start: usize, end: usize) -> (result: Result<(), RangeError>)
        ensures
            result is Ok <==> range_is_valid(
                start as int,
                end as int,
                old(self).text().len() as int,
            ),
            match result {
                Ok(_) => final(self).text() == without_range(
                    old(self).text(),
                    start as int,
                    end as int,
                ),
                Err(error) => {
                    &&& final(self).text() == old(self).text()
                    &&& old(self).text().len() <= usize::MAX
                    &&& error == range_error(start, end, old(self).text().len() as usize)
                },
            },
    ;
}

} // verus!
