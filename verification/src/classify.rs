//! The category of a word.
//!
//! A word is an operator or a keyword by its spelling, an identifier when it
//! is made of letters, a literal when it is made of digits, and punctuation
//! otherwise. The rules are tried in that order, so that a keyword, though
//! made of letters, is no identifier, and a word of characters that are both
//! letters and digits is an identifier. The word without characters is an
//! identifier.

use vstd::prelude::*;
use crate::chars::{classified_text, classify_text, plain_text, ClassifiedChar};
use crate::token::TokenType;

verus! {

/// The operator set: `+`, `-`, `*` and `/`.
pub open spec fn is_operator(w: Seq<char>) -> bool {
    w == seq!['+'] || w == seq!['-'] || w == seq!['*'] || w == seq!['/']
}

/// The keyword set: `if`, `else` and `while`.
pub open spec fn is_keyword(w: Seq<char>) -> bool {
    w == seq!['i', 'f'] || w == seq!['e', 'l', 's', 'e'] || w == seq!['w', 'h', 'i', 'l', 'e']
}

/// Every character of `w` is marked as a letter. Holds of the empty word.
pub open spec fn all_alphabetic(w: Seq<ClassifiedChar>) -> bool {
    forall|i: int| 0 <= i < w.len() ==> (#[trigger] w[i]).alphabetic
}

/// Every character of `w` is marked as a digit. Holds of the empty word.
pub open spec fn all_numeric(w: Seq<ClassifiedChar>) -> bool {
    forall|i: int| 0 <= i < w.len() ==> (#[trigger] w[i]).numeric
}

/// The category of the word `w`. The rules are tried in this order and the
/// first that matches decides. For the word without characters that is the
/// third: it is an identifier.
pub open spec fn kind_of(w: Seq<ClassifiedChar>) -> TokenType {
    if is_operator(plain_text(w)) {
        TokenType::Operator
    } else if is_keyword(plain_text(w)) {
        TokenType::Keyword
    } else if all_alphabetic(w) {
        TokenType::Identifier
    } else if all_numeric(w) {
        TokenType::Literal
    } else {
        TokenType::Punctuation
    }
}

/// The word without characters is an identifier: it is neither an operator
/// nor a keyword, and nothing in it fails to be a letter.
pub proof fn lemma_empty_word_is_identifier()
    ensures
        kind_of(Seq::empty()) == TokenType::Identifier,
{
    let w = Seq::<ClassifiedChar>::empty();
    assert(plain_text(w).len() == 0);
    assert(seq!['+'].len() == 1);
    assert(seq!['-'].len() == 1);
    assert(seq!['*'].len() == 1);
    assert(seq!['/'].len() == 1);
    assert(seq!['i', 'f'].len() == 2);
    assert(seq!['e', 'l', 's', 'e'].len() == 4);
    assert(seq!['w', 'h', 'i', 'l', 'e'].len() == 5);
}

/// Whether the characters of `word` are exactly those of `pattern`.
fn spells(word: &[ClassifiedChar], pattern: &[char]) -> (b: bool)
    ensures
        b == (plain_text(word@) == pattern@),
{
    if word.len() != pattern.len() {
        return false;
    }
    let mut i: usize = 0;
    while i < word.len()
        invariant
            i <= word.len(),
            word.len() == pattern.len(),
            forall|k: int| 0 <= k < i ==> word@[k].ch == pattern@[k],
        decreases word.len() - i,
    {
        if word[i].ch != pattern[i] {
            assert(plain_text(word@)[i as int] != pattern@[i as int]);
            return false;
        }
        i += 1;
    }
    assert(plain_text(word@) =~= pattern@);
    true
}

/// Whether every character of `word` is a letter.
fn letters_only(word: &[ClassifiedChar]) -> (b: bool)
    ensures
        b == all_alphabetic(word@),
{
    let mut i: usize = 0;
    while i < word.len()
        invariant
            i <= word.len(),
            forall|k: int| 0 <= k < i ==> (#[trigger] word@[k]).alphabetic,
        decreases word.len() - i,
    {
        if !word[i].alphabetic {
            return false;
        }
        i += 1;
    }
    true
}

/// Whether every character of `word` is a digit.
fn digits_only(word: &[ClassifiedChar]) -> (b: bool)
    ensures
        b == all_numeric(word@),
{
    let mut i: usize = 0;
    while i < word.len()
        invariant
            i <= word.len(),
            forall|k: int| 0 <= k < i ==> (#[trigger] word@[k]).numeric,
        decreases word.len() - i,
    {
        if !word[i].numeric {
            return false;
        }
        i += 1;
    }
    true
}

/// Classifies a word whose characters come with their classes. Operators
/// and keywords are told by their characters; letters and digits by the
/// classes, whatever the characters are.
pub fn classify_chars(word: &[ClassifiedChar]) -> (kind: TokenType)
    ensures
        kind == kind_of(word@),
{
    let plus = ['+'];
    let minus = ['-'];
    let star = ['*'];
    let slash = ['/'];
    let kw_if = ['i', 'f'];
    let kw_else = ['e', 'l', 's', 'e'];
    let kw_while = ['w', 'h', 'i', 'l', 'e'];
    proof {
        assert(plus@ =~= seq!['+']);
        assert(minus@ =~= seq!['-']);
        assert(star@ =~= seq!['*']);
        assert(slash@ =~= seq!['/']);
        assert(kw_if@ =~= seq!['i', 'f']);
        assert(kw_else@ =~= seq!['e', 'l', 's', 'e']);
        assert(kw_while@ =~= seq!['w', 'h', 'i', 'l', 'e']);
    }
    if spells(word, &plus) || spells(word, &minus) || spells(word, &star) || spells(word, &slash) {
        TokenType::Operator
    } else if spells(word, &kw_if) || spells(word, &kw_else) || spells(word, &kw_while) {
        TokenType::Keyword
    } else if letters_only(word) {
        TokenType::Identifier
    } else if digits_only(word) {
        TokenType::Literal
    } else {
        TokenType::Punctuation
    }
}

/// Classifies a word, with the letters and digits of Unicode. Any string can
/// be handed in; the empty one is an identifier.
pub fn classify(word: &str) -> (kind: TokenType)
    ensures
        kind == kind_of(classified_text(word@)),
{
    let text = classify_text(word);
    classify_chars(text.as_slice())
}

} // verus!
