//! Classes of characters, and the runs of them at the head of a text.

use itertools::Itertools;
use vstd::prelude::*;

verus! {

/// Whether std counts `c` as alphabetic.
pub uninterp spec fn unicode_alphabetic(c: char) -> bool;

/// Whether std counts `c` as numeric.
pub uninterp spec fn unicode_numeric(c: char) -> bool;

/// Whether std counts `c` as white space.
pub uninterp spec fn unicode_whitespace(c: char) -> bool;

/// `char::is_alphabetic` depends on the character alone; its answer is
/// named, not spelled out.
pub assume_specification[ char::is_alphabetic ](c: char) -> (b: bool)
    ensures
        b == unicode_alphabetic(c),
;

/// `char::is_alphanumeric` holds of the characters that are alphabetic or
/// numeric.
pub assume_specification[ char::is_alphanumeric ](c: char) -> (b: bool)
    ensures
        b == (unicode_alphabetic(c) || unicode_numeric(c)),
;

/// `char::is_whitespace` depends on the character alone; its answer is
/// named, not spelled out.
pub assume_specification[ char::is_whitespace ](c: char) -> (b: bool)
    ensures
        b == unicode_whitespace(c),
;

/// The kinds of character that the lexer reads in runs.
#[derive(Clone, Copy, Debug, PartialEq, Eq)]
pub enum CharClass {
    /// White space between tokens.
    Space,
    /// What a word goes on with: letters, numbers and the underscore.
    Word,
    /// What a numeral is made of: decimal digits and the point.
    Numeral,
    /// What a comment holds: anything but the end of the line.
    Comment,
}

impl CharClass {
    /// Whether `c` belongs to the class.
    pub open spec fn contains(self, c: char) -> bool {
        match self {
            CharClass::Space => unicode_whitespace(c),
            CharClass::Word => unicode_alphabetic(c) || unicode_numeric(c) || c == '_',
            CharClass::Numeral => crate::token::is_decimal_digit(c) || c == '.',
            CharClass::Comment => c != '\n' && c != '\r',
        }
    }

    /// Tests whether `c` belongs to the class.
    pub fn accepts(self, c: char) -> (b: bool)
        ensures
            b == self.contains(c),
    {
        match self {
            CharClass::Space => c.is_whitespace(),
            CharClass::Word => c.is_alphanumeric() || c == '_',
            CharClass::Numeral => ('0' <= c && c <= '9') || c == '.',
            CharClass::Comment => c != '\n' && c != '\r',
        }
    }
}

/// How many characters at the head of `text` belong to `class`, up to the
/// first one that does not.
pub open spec fn run_len(text: Seq<char>, class: CharClass) -> nat
    decreases text.len(),
{
    if text.len() > 0 && class.contains(text[0]) {
        1 + run_len(text.skip(1), class)
    } else {
        0
    }
}

/// The run never exceeds the text, each of its characters belongs to the
/// class, and the character after it, if there is one, does not.
pub proof fn lemma_run_len(text: Seq<char>, class: CharClass)
    ensures
        run_len(text, class) <= text.len(),
        forall|i: int| 0 <= i < run_len(text, class) ==> class.contains(#[trigger] text[i]),
        run_len(text, class) < text.len() ==> !class.contains(text[run_len(text, class) as int]),
    decreases text.len(),
{
    if text.len() > 0 && class.contains(text[0]) {
        let rest = text.skip(1);
        lemma_run_len(rest, class);
        assert forall|i: int| 0 <= i < run_len(text, class) implies class.contains(
            #[trigger] text[i],
        ) by {
            if i > 0 {
                assert(text[i] == rest[i - 1]);
            }
        }
        if run_len(text, class) < text.len() {
            assert(text[run_len(text, class) as int] == rest[run_len(rest, class) as int]);
        }
    }
}

/// Calls itertools' `take_while_ref` on the characters of `text` from
/// `start` on. The adaptor hands out items for as long as the test holds
/// and leaves the first one that fails it in place, so what is collected
/// is the longest run of `class` at that position.
#[verifier::external_body]
pub(crate) fn take_run(text: &Vec<char>, start: usize, class: CharClass) -> (run: String)
    requires
        start <= text.len(),
    ensures
        run@ == text@.subrange(start as int, start + run_len(text@.skip(start as int), class)),
{
    let mut rest = text[start..].iter();
    rest.take_while_ref(|c| class.accepts(**c)).collect::<String>()
}

} // verus!
