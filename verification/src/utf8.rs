//! Conversion between the bytes the engine works on and Rust strings, and
//! the calls into `std` that nothing here proves.

use vstd::prelude::*;
use vstd::utf8::*;

verus! {

/// The characters that `String::from_utf8_lossy` reads out of `bytes`.
pub uninterp spec fn utf8_lossy(bytes: Seq<u8>) -> Seq<char>;

/// Whether `c` has the Unicode property `White_Space`, as
/// `char::is_whitespace` tells it.
pub uninterp spec fn char_is_whitespace(c: char) -> bool;

/// Calls `String::from_utf8_lossy` and takes ownership of what it returns.
/// Trusted: the result is a function of the bytes alone, and bytes that are
/// valid UTF-8 come back as exactly the string that they encode.
#[verifier::external_body]
pub(crate) fn string_from_bytes(bytes: &Vec<u8>) -> (text: String)
    ensures
        text@ == utf8_lossy(bytes@),
        valid_utf8(bytes@) ==> text@ == decode_utf8(bytes@),
{
    String::from_utf8_lossy(bytes.as_slice()).into_owned()
}

/// Calls `String::push`. Trusted: the character is appended and nothing
/// else changes.
#[verifier::external_body]
pub(crate) fn string_push(text: &mut String, c: char)
    ensures
        final(text)@ == old(text)@.push(c),
{
    text.push(c)
}

/// Calls `String::pop`. Trusted: the last character is removed and
/// returned, and an empty string stays empty and gives `None`.
#[verifier::external_body]
pub(crate) fn string_pop(text: &mut String) -> (last: Option<char>)
    ensures
        old(text)@.len() == 0 ==> last is None && final(text)@ == old(text)@,
        old(text)@.len() > 0 ==> last == Some(old(text)@.last()) && final(text)@ == old(
            text,
        )@.drop_last(),
{
    text.pop()
}

/// Calls `char::is_whitespace`. Trusted: the answer depends on the
/// character alone.
#[verifier::external_body]
pub(crate) fn is_whitespace(c: char) -> (whitespace: bool)
    ensures
        whitespace == char_is_whitespace(c),
{
    c.is_whitespace()
}

/// The number of bytes that `c` takes in UTF-8.
pub fn utf8_length(c: char) -> (length: usize)
    ensures
        length == encode_scalar(c as u32).len(),
        1 <= length <= 4,
{
    let scalar = c as u32;
    if scalar < 0x80 {
        1
    } else if scalar < 0x800 {
        2
    } else if scalar < 0x10000 {
        3
    } else {
        4
    }
}

/// Encoding distributes over concatenation.
pub proof fn lemma_encode_utf8_concat(a: Seq<char>, b: Seq<char>)
    ensures
        encode_utf8(a + b) == encode_utf8(a) + encode_utf8(b),
    decreases a.len(),
{
    if a.len() == 0 {
        assert(a + b =~= b);
        assert(encode_utf8(a) + encode_utf8(b) =~= encode_utf8(b));
    } else {
        lemma_encode_utf8_concat(a.drop_first(), b);
        assert((a + b).drop_first() =~= a.drop_first() + b);
        assert((a + b)[0] == a[0]);
        assert(encode_utf8(a + b) =~= encode_utf8(a) + encode_utf8(b));
    }
}

/// A text with one more character takes the bytes of the text and then the
/// bytes of that character.
pub proof fn lemma_encode_utf8_push(chars: Seq<char>, c: char)
    ensures
        encode_utf8(chars.push(c)) == encode_utf8(chars) + encode_scalar(c as u32),
{
    lemma_encode_utf8_concat(chars, seq![c]);
    reveal_with_fuel(encode_utf8, 2);
    assert(seq![c].drop_first() =~= Seq::<char>::empty());
    assert(encode_utf8(seq![c]) =~= encode_scalar(c as u32));
    assert(chars + seq![c] =~= chars.push(c));
}

/// A prefix of a text takes no more bytes than the text.
pub proof fn lemma_encode_utf8_prefix(chars: Seq<char>, n: int)
    requires
        0 <= n <= chars.len(),
    ensures
        encode_utf8(chars.take(n)).len() <= encode_utf8(chars).len(),
{
    lemma_encode_utf8_concat(chars.take(n), chars.skip(n));
    assert(chars.take(n) + chars.skip(n) =~= chars);
}

} // verus!
