//! The functions on texts that the library has from the standard library.

use vstd::prelude::*;

verus! {

/// The characters with the Unicode property White_Space.
pub open spec fn is_white(c: char) -> bool {
    let code = c as int;
    ||| 0x09 <= code <= 0x0d
    ||| code == 0x20
    ||| code == 0x85
    ||| code == 0xa0
    ||| code == 0x1680
    ||| 0x2000 <= code <= 0x200a
    ||| code == 0x2028
    ||| code == 0x2029
    ||| code == 0x202f
    ||| code == 0x205f
    ||| code == 0x3000
}

/// A text without its leading white space.
pub open spec fn without_start(text: Seq<char>) -> Seq<char>
    decreases text.len(),
{
    if text.len() > 0 && is_white(text[0]) {
        without_start(text.drop_first())
    } else {
        text
    }
}

/// A text without its trailing white space.
pub open spec fn without_end(text: Seq<char>) -> Seq<char>
    decreases text.len(),
{
    if text.len() > 0 && is_white(text.last()) {
        without_end(text.drop_last())
    } else {
        text
    }
}

/// A text without the white space around it.
pub open spec fn trimmed(text: Seq<char>) -> Seq<char> {
    without_end(without_start(text))
}

/// True of the characters of ASCII.
pub open spec fn is_ascii(text: Seq<char>) -> bool {
    forall|i: int| 0 <= i < text.len() ==> (#[trigger] text[i] as int) < 128
}

/// The lowercase of an ASCII character.
pub open spec fn ascii_lowercase(c: char) -> char {
    if 'A' <= c <= 'Z' {
        (c as int + 32) as char
    } else {
        c
    }
}

/// The lowercase of a text with characters beyond ASCII.
pub uninterp spec fn lowercase(text: Seq<char>) -> Seq<char>;

/// The lowercase of a text.
pub open spec fn lowered(text: Seq<char>) -> Seq<char> {
    if is_ascii(text) {
        text.map_values(|c: char| ascii_lowercase(c))
    } else {
        lowercase(text)
    }
}

/// Calls `str::trim`: leading and trailing white space removed.
#[verifier::external_body]
pub(crate) fn trim(text: &str) -> (rest: &str)
    ensures
        rest@ == trimmed(text@),
{
    text.trim()
}

/// Calls `str::trim_end`: trailing white space removed.
#[verifier::external_body]
pub(crate) fn trim_end(text: &str) -> (rest: &str)
    ensures
        rest@ == without_end(text@),
{
    text.trim_end()
}

/// Calls `str::strip_suffix`: the text before the suffix, if the text ends
/// with it.
#[verifier::external_body]
pub(crate) fn strip_suffix<'a>(text: &'a str, suffix: &str) -> (rest: Option<&'a str>)
    ensures
        match rest {
            Some(rest) => text@ == rest@ + suffix@,
            None => !suffix@.is_suffix_of(text@),
        },
{
    text.strip_suffix(suffix)
}

/// Calls `str::to_lowercase`, which follows the Unicode tables for it: the
/// ASCII letters `A` to `Z` become `a` to `z`, the other ASCII characters
/// stay.
#[verifier::external_body]
pub(crate) fn to_lowercase(text: &str) -> (lower: String)
    ensures
        lower@ == (if is_ascii(text@) {
            text@.map_values(|c: char| ascii_lowercase(c))
        } else {
            lowercase(text@)
        }),
{
    text.to_lowercase()
}

/// True when the two texts are the same.
pub fn same_str(a: &str, b: &String) -> (same: bool)
    ensures
        same == (a@ == b@),
{
    let a: String = a.to_owned();
    a == *b
}

pub(crate) proof fn lemma_without_end(text: Seq<char>)
    ensures
        without_end(text).len() <= text.len(),
        without_end(text) == text.take(without_end(text).len() as int),
        without_end(text).len() > 0 ==> !is_white(without_end(text).last()),
    decreases text.len(),
{
    if text.len() > 0 && is_white(text.last()) {
        lemma_without_end(text.drop_last());
        assert(text.drop_last().take(without_end(text).len() as int) =~= text.take(
            without_end(text).len() as int,
        ));
    } else {
        assert(text.take(text.len() as int) =~= text);
    }
}

proof fn lemma_without_start(text: Seq<char>)
    ensures
        without_start(text).len() > 0 ==> !is_white(without_start(text)[0]),
    decreases text.len(),
{
    if text.len() > 0 && is_white(text[0]) {
        lemma_without_start(text.drop_first());
    }
}

/// A trimmed text has no white space around it: trimming it again changes
/// nothing.
pub proof fn trimming_twice_is_once(text: Seq<char>)
    ensures
        trimmed(trimmed(text)) == trimmed(text),
{
    let start = without_start(text);
    lemma_without_start(text);
    lemma_without_end(start);
    if trimmed(text).len() > 0 {
        assert(trimmed(text)[0] == start[0]);
    }
}

} // verus!
