//! Text helpers: comparing strings and turning a heading into a command name.

use vstd::prelude::*;

verus! {

/// What `str::to_lowercase` makes of a text. The mapping is Unicode's, which
/// is too long to write down here; it depends on the text alone.
pub uninterp spec fn lowercase(text: Seq<char>) -> Seq<char>;

/// `text` with every `from` replaced by `to`.
pub open spec fn swap_char(text: Seq<char>, from: char, to: char) -> Seq<char> {
    Seq::new(
        text.len(),
        |i: int|
            if text[i] == from {
                to
            } else {
                text[i]
            },
    )
}

/// The name a command gets from the text of its heading: spaces become
/// dashes, then the text is lowercased.
pub open spec fn normalized(text: Seq<char>) -> Seq<char> {
    lowercase(swap_char(text, ' ', '-'))
}

/// `str::eq`: whether two texts hold the same characters.
#[verifier::external_body]
pub(crate) fn same_text(a: &str, b: &str) -> (same: bool)
    ensures
        same == (a@ == b@),
{
    a == b
}

/// `str::to_lowercase`: the lowercase form of `text`.
#[verifier::external_body]
pub(crate) fn to_lowercase(text: &str) -> (lower: String)
    ensures
        lower@ == lowercase(text@),
{
    text.to_lowercase()
}

/// `str::replace` with a character as the pattern and a one-character
/// replacement: every `from` in `text` becomes `to`, and nothing else changes.
#[verifier::external_body]
pub(crate) fn replace_char(text: &str, from: char, to: char) -> (replaced: String)
    ensures
        replaced@ == swap_char(text@, from, to),
{
    text.replace(from, to.encode_utf8(&mut [0u8; 4]))
}

/// The command name for the text of a heading.
pub fn normalize(text: &str) -> (name: String)
    ensures
        name@ == normalized(text@),
{
    let dashed = replace_char(text, ' ', '-');
    to_lowercase(dashed.as_str())
}

} // verus!
