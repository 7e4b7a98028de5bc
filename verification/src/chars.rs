//! Characters together with the Unicode classes the tokenizer reads.
//!
//! Which characters are whitespace, letters or digits is for the standard
//! library to say. Here the answers are looked up once for every character
//! of a text; everything after that works on characters that carry their
//! classes with them, and holds whatever those classes are.

use vstd::prelude::*;

verus! {

/// What `char::is_whitespace` answers for `c`: whether `c` has the Unicode
/// property `White_Space`.
pub uninterp spec fn char_is_whitespace(c: char) -> bool;

/// What `char::is_alphabetic` answers for `c`: whether `c` has the Unicode
/// property `Alphabetic`.
pub uninterp spec fn char_is_alphabetic(c: char) -> bool;

/// What `char::is_numeric` answers for `c`: whether `c` is in one of the
/// Unicode general categories for numbers.
pub uninterp spec fn char_is_numeric(c: char) -> bool;

/// Not proved: `char::is_whitespace` of the standard library decides by a
/// table of Unicode. All that is claimed of it is that its answer depends on
/// the character alone, so that it can be called `char_is_whitespace(c)`;
/// of no character is it said here which answer it gets.
pub assume_specification[ char::is_whitespace ](c: char) -> (b: bool)
    ensures
        b == char_is_whitespace(c),
;

/// Not proved: `char::is_alphabetic` of the standard library decides by a
/// table of Unicode. All that is claimed of it is that its answer depends on
/// the character alone, so that it can be called `char_is_alphabetic(c)`;
/// of no character is it said here which answer it gets.
pub assume_specification[ char::is_alphabetic ](c: char) -> (b: bool)
    ensures
        b == char_is_alphabetic(c),
;

/// Not proved: `char::is_numeric` of the standard library decides by a
/// table of Unicode. All that is claimed of it is that its answer depends on
/// the character alone, so that it can be called `char_is_numeric(c)`; of no
/// character is it said here which answer it gets.
pub assume_specification[ char::is_numeric ](c: char) -> (b: bool)
    ensures
        b == char_is_numeric(c),
;

/// A character with its classes: whether it is whitespace, a letter, a
/// digit. The three are independent of one another.
#[derive(Debug, Clone, Copy, PartialEq, Eq, Structural)]
pub struct ClassifiedChar {
    pub ch: char,
    pub whitespace: bool,
    pub alphabetic: bool,
    pub numeric: bool,
}

impl ClassifiedChar {
    /// The character `c` with the classes Unicode gives it.
    pub open spec fn classified(c: char) -> ClassifiedChar {
        ClassifiedChar {
            ch: c,
            whitespace: char_is_whitespace(c),
            alphabetic: char_is_alphabetic(c),
            numeric: char_is_numeric(c),
        }
    }

    /// Looks up the classes of `c`.
    pub fn of(c: char) -> (r: ClassifiedChar)
        ensures
            r == Self::classified(c),
    {
        ClassifiedChar {
            ch: c,
            whitespace: c.is_whitespace(),
            alphabetic: c.is_alphabetic(),
            numeric: c.is_numeric(),
        }
    }
}

/// Each character of `s` with its classes, in order.
pub open spec fn classified_text(s: Seq<char>) -> Seq<ClassifiedChar> {
    Seq::new(s.len(), |i: int| ClassifiedChar::classified(s[i]))
}

/// The characters of `s` without their classes.
pub open spec fn plain_text(s: Seq<ClassifiedChar>) -> Seq<char> {
    Seq::new(s.len(), |i: int| s[i].ch)
}

/// Looks up the classes of every character of `input`.
pub fn classify_text(input: &str) -> (text: Vec<ClassifiedChar>)
    ensures
        text@ == classified_text(input@),
{
    let mut text: Vec<ClassifiedChar> = Vec::new();
    for c in it: input.chars()
        invariant
            it.seq() == input@,
            text@ == classified_text(input@.take(it.index() as int)),
    {
        text.push(ClassifiedChar::of(c));
    }
    text
}

} // verus!
