//! Where each token stands: how many tokens a text has, which word each of
//! them comes from, and in which order they follow one another.

use vstd::prelude::*;
use crate::chars::{char_is_whitespace, classified_text, plain_text, ClassifiedChar};
use crate::classify::kind_of;
use crate::spans::{
    lemma_line_span, lemma_line_starts_ascend, lemma_lines_cover, lemma_newlines_before_line,
    lemma_word_span, lemma_word_starts_ascend, lemma_words_cover, line_start, newlines_before,
    word_start,
};
use crate::split::{lemma_lines_content, lemma_words_content, lines, words};
use crate::token::{token_views, Token, TokenView};
use crate::tokenizer::{lemma_lines_tokens_push, lines_tokens, tokens_of, word_token};

verus! {

/// Number of words on the lines `ls`, all lines together.
pub open spec fn word_count(ls: Seq<Seq<ClassifiedChar>>) -> nat
    decreases ls.len(),
{
    if ls.len() == 0 {
        0
    } else {
        word_count(ls.drop_last()) + words(ls.last()).len()
    }
}

/// The place in the token sequence of the word with index `column` on the
/// line with index `line`: after all words of the lines before it and after
/// the words before it on its own line.
pub open spec fn token_index(ls: Seq<Seq<ClassifiedChar>>, line: int, column: int) -> int {
    word_count(ls.take(line)) + column
}

/// Whether the position of `a` comes before that of `b` when reading line by
/// line from the top and each line from the left.
pub open spec fn stands_before(a: TokenView, b: TokenView) -> bool {
    a.line < b.line || (a.line == b.line && a.column < b.column)
}

/// More lines have at least as many words.
pub proof fn lemma_word_count_take(ls: Seq<Seq<ClassifiedChar>>, i: int, j: int)
    requires
        0 <= i <= j <= ls.len(),
    ensures
        word_count(ls.take(i)) <= word_count(ls.take(j)),
        i < j ==> word_count(ls.take(i)) + words(ls[i]).len() <= word_count(ls.take(j)),
    decreases j - i,
{
    if i < j {
        assert(ls.take(j).drop_last() =~= ls.take(j - 1));
        assert(ls.take(j).last() == ls[j - 1]);
        lemma_word_count_take(ls, i, j - 1);
    }
}

/// The lines `ls` have as many tokens as words.
pub proof fn lemma_lines_tokens_len(ls: Seq<Seq<ClassifiedChar>>)
    ensures
        lines_tokens(ls).len() == word_count(ls),
    decreases ls.len(),
{
    if ls.len() == 0 {
        assert(lines_tokens(ls) =~= Seq::empty());
    } else {
        let init = ls.drop_last();
        assert(ls =~= init.push(ls.last()));
        lemma_lines_tokens_push(init, ls.last());
        lemma_lines_tokens_len(init);
    }
}

/// The word with index `column` on the line with index `line` has its token
/// at `token_index(ls, line, column)`, and that token carries the line's
/// number, which is one more than its index, and the word's index.
pub proof fn lemma_lines_tokens_at(ls: Seq<Seq<ClassifiedChar>>, line: int, column: int)
    requires
        0 <= line < ls.len(),
        0 <= column < words(ls[line]).len(),
    ensures
        0 <= token_index(ls, line, column) < lines_tokens(ls).len(),
        lines_tokens(ls)[token_index(ls, line, column)] == word_token(
            words(ls[line])[column],
            (line + 1) as nat,
            column as nat,
        ),
    decreases ls.len(),
{
    let init = ls.drop_last();
    assert(ls =~= init.push(ls.last()));
    lemma_lines_tokens_push(init, ls.last());
    lemma_lines_tokens_len(init);
    if line == ls.len() - 1 {
        assert(ls.take(line) =~= init);
    } else {
        assert(ls.take(line) =~= init.take(line));
        lemma_lines_tokens_at(init, line, column);
    }
}

/// Every token comes from a word: its line number names a line of `ls`, its
/// column a word of that line, and it stands at the place of that word.
pub proof fn lemma_lines_tokens_origin(ls: Seq<Seq<ClassifiedChar>>, i: int)
    requires
        0 <= i < lines_tokens(ls).len(),
    ensures
        ({
            let t = lines_tokens(ls)[i];
            &&& 1 <= t.line <= ls.len()
            &&& t.column < words(ls[t.line - 1]).len()
            &&& i == token_index(ls, t.line - 1, t.column as int)
            &&& t == word_token(words(ls[t.line - 1])[t.column as int], t.line, t.column)
        }),
    decreases ls.len(),
{
    if ls.len() == 0 {
        assert(lines_tokens(ls) =~= Seq::empty());
    } else {
        let init = ls.drop_last();
        assert(ls =~= init.push(ls.last()));
        lemma_lines_tokens_push(init, ls.last());
        lemma_lines_tokens_len(init);
        if i < lines_tokens(init).len() {
            lemma_lines_tokens_origin(init, i);
            let t = lines_tokens(init)[i];
            assert(ls.take(t.line - 1) =~= init.take(t.line - 1));
        } else {
            assert(ls.take(ls.len() - 1) =~= init);
        }
    }
}

/// The text `s` has as many tokens as its lines have words.
pub proof fn lemma_token_count(s: Seq<ClassifiedChar>)
    ensures
        tokens_of(s).len() == word_count(lines(s)),
{
    lemma_lines_tokens_len(lines(s));
}

/// Of two tokens of one text, the one that comes first in the sequence is the
/// one whose word stands first in the text: on an earlier line, or on the
/// same line and further left.
pub proof fn lemma_tokens_in_scan_order(s: Seq<ClassifiedChar>, i: int, j: int)
    requires
        0 <= i < j < tokens_of(s).len(),
    ensures
        stands_before(tokens_of(s)[i], tokens_of(s)[j]),
{
    let ls = lines(s);
    let a = tokens_of(s)[i];
    let b = tokens_of(s)[j];
    lemma_lines_tokens_origin(ls, i);
    lemma_lines_tokens_origin(ls, j);
    if a.line > b.line {
        lemma_word_count_take(ls, b.line - 1, a.line - 1);
    }
}

/// Every token of the text `s` comes from a word of `s`: its line number is
/// that of a line of `s`, counted from one, its column is the index of a word
/// on that line, counted from zero, its kind and value are those of that
/// word, and it stands in the sequence at the place of that word.
pub proof fn lemma_token_origin(s: Seq<ClassifiedChar>, i: int)
    requires
        0 <= i < tokens_of(s).len(),
    ensures
        ({
            let t = tokens_of(s)[i];
            let l = lines(s)[t.line - 1];
            &&& 1 <= t.line <= lines(s).len()
            &&& t.column < words(l).len()
            &&& t.kind == kind_of(words(l)[t.column as int])
            &&& t.value == plain_text(words(l)[t.column as int])
            &&& i == token_index(lines(s), t.line - 1, t.column as int)
        }),
{
    lemma_lines_tokens_origin(lines(s), i);
}

/// Every word of the text `s` has its token: the word with index `column` on
/// the line with index `line` gives the token at `token_index`, with line
/// number `line + 1` and column `column`.
pub proof fn lemma_word_has_token(s: Seq<ClassifiedChar>, line: int, column: int)
    requires
        0 <= line < lines(s).len(),
        0 <= column < words(lines(s)[line]).len(),
    ensures
        0 <= token_index(lines(s), line, column) < tokens_of(s).len(),
        tokens_of(s)[token_index(lines(s), line, column)] == word_token(
            words(lines(s)[line])[column],
            (line + 1) as nat,
            column as nat,
        ),
{
    lemma_lines_tokens_at(lines(s), line, column);
}

/// The position in the text `s` of the first character of the word that the
/// token with index `i` comes from.
pub open spec fn token_offset(s: Seq<ClassifiedChar>, i: int) -> int {
    let t = tokens_of(s)[i];
    line_start(s, t.line - 1) + word_start(lines(s)[t.line - 1], t.column as int)
}

/// Whether `c` separates words: it is a newline or whitespace.
pub open spec fn is_blank(c: ClassifiedChar) -> bool {
    c.ch == '\n' || c.whitespace
}

/// Every token is made from a stretch of the text that holds no blank and
/// has a blank or an end of the text on either side. The token's value spells
/// the characters of the stretch, its kind is the kind of the stretch, and
/// its line number is one more than the number of newlines before it.
pub proof fn lemma_token_span(s: Seq<ClassifiedChar>, i: int)
    requires
        0 <= i < tokens_of(s).len(),
    ensures
        ({
            let t = tokens_of(s)[i];
            let from = token_offset(s, i);
            let to = from + t.value.len();
            &&& 0 <= from < to <= s.len()
            &&& t.value == plain_text(s.subrange(from, to))
            &&& t.kind == kind_of(s.subrange(from, to))
            &&& t.line == newlines_before(s, from) + 1
            &&& forall|p: int| from <= p < to ==> !is_blank(#[trigger] s[p])
            &&& from > 0 ==> is_blank(s[from - 1])
            &&& to < s.len() ==> is_blank(s[to])
        }),
{
    let t = tokens_of(s)[i];
    lemma_token_origin(s, i);
    let l = lines(s)[t.line - 1];
    let w = words(l)[t.column as int];
    let a = line_start(s, t.line - 1);
    let b = word_start(l, t.column as int);
    lemma_line_span(s, t.line - 1);
    lemma_word_span(l, t.column as int);
    lemma_lines_content(s);
    lemma_words_content(l);
    lemma_newlines_before_line(s, t.line - 1, a + b);
    assert(w =~= s.subrange(a + b, a + b + w.len()));
    assert forall|p: int| a + b <= p < a + b + w.len() implies !is_blank(#[trigger] s[p]) by {
        assert(w[p - a - b] == s[p]);
        assert(l[p - a] == s[p]);
    }
    if b > 0 {
        assert(l[b - 1] == s[a + b - 1]);
    }
    if b + w.len() < l.len() {
        assert(l[b + w.len()] == s[a + b + w.len()]);
    }
}

/// Every character of the text that is not a blank belongs to a token.
pub proof fn lemma_tokens_cover(s: Seq<ClassifiedChar>, p: int)
    requires
        0 <= p < s.len(),
        !is_blank(s[p]),
    ensures
        exists|i: int|
            0 <= i < tokens_of(s).len() && token_offset(s, i) <= p < token_offset(s, i) + (
            #[trigger] tokens_of(s)[i]).value.len(),
{
    lemma_lines_cover(s, p);
    let line = choose|line: int|
        0 <= line < lines(s).len() && line_start(s, line) <= p < line_start(s, line) + (
        #[trigger] lines(s)[line]).len();
    let l = lines(s)[line];
    lemma_line_span(s, line);
    let q = p - line_start(s, line);
    assert(l[q] == s[p]);
    lemma_words_cover(l, q);
    let column = choose|column: int|
        0 <= column < words(l).len() && word_start(l, column) <= q < word_start(l, column) + (
        #[trigger] words(l)[column]).len();
    lemma_word_has_token(s, line, column);
    let i = token_index(lines(s), line, column);
    assert(tokens_of(s)[i].value.len() == words(l)[column].len());
}

/// The tokens follow one another as their stretches do in the text: a later
/// token starts to the right of where an earlier one ends.
pub proof fn lemma_token_offsets_ascend(s: Seq<ClassifiedChar>, i: int, j: int)
    requires
        0 <= i < j < tokens_of(s).len(),
    ensures
        token_offset(s, i) + tokens_of(s)[i].value.len() < token_offset(s, j),
{
    let a = tokens_of(s)[i];
    let b = tokens_of(s)[j];
    lemma_token_origin(s, i);
    lemma_token_origin(s, j);
    lemma_tokens_in_scan_order(s, i, j);
    let la = lines(s)[a.line - 1];
    let lb = lines(s)[b.line - 1];
    lemma_word_span(la, a.column as int);
    lemma_word_span(lb, b.column as int);
    if a.line == b.line {
        lemma_word_starts_ascend(la, a.column as int, b.column as int);
    } else {
        lemma_line_starts_ascend(s, a.line - 1, b.line - 1);
    }
}

/// A token's column is the number of tokens that stand before it on its
/// line: that many tokens right before it have its line number, and the one
/// before those, if there is one, stands on an earlier line.
pub proof fn lemma_token_column(s: Seq<ClassifiedChar>, i: int)
    requires
        0 <= i < tokens_of(s).len(),
    ensures
        ({
            let t = tokens_of(s)[i];
            let first = i - t.column;
            &&& 0 <= first
            &&& forall|j: int| first <= j < i ==> (#[trigger] tokens_of(s)[j]).line == t.line
            &&& first > 0 ==> tokens_of(s)[first - 1].line < t.line
        }),
{
    let t = tokens_of(s)[i];
    let first = i - t.column;
    lemma_token_origin(s, i);
    assert forall|j: int| first <= j < i implies (#[trigger] tokens_of(s)[j]).line == t.line by {
        lemma_word_has_token(s, t.line - 1, j - first);
    }
    lemma_word_has_token(s, t.line - 1, 0);
    if first > 0 {
        lemma_tokens_in_scan_order(s, first - 1, first);
    }
}

/// A text without characters has no tokens.
pub proof fn lemma_empty_text_has_no_tokens()
    ensures
        tokens_of(Seq::empty()) == Seq::<TokenView>::empty(),
{
    let s = Seq::<ClassifiedChar>::empty();
    assert(lines(s) =~= seq![s]);
    assert(words(s) =~= Seq::empty());
    lemma_token_count(s);
    reveal_with_fuel(word_count, 2);
    assert(tokens_of(s) =~= Seq::empty());
}

/// Tokenizing a string yields values that are stretches of the string, none
/// with a newline or a whitespace character in it.
pub proof fn lemma_token_value_of_input(input: Seq<char>, i: int)
    requires
        0 <= i < tokens_of(classified_text(input)).len(),
    ensures
        ({
            let t = tokens_of(classified_text(input))[i];
            let from = token_offset(classified_text(input), i);
            &&& 0 <= from < from + t.value.len() <= input.len()
            &&& t.value == input.subrange(from, from + t.value.len())
            &&& forall|k: int|
                0 <= k < t.value.len() ==> (#[trigger] t.value[k]) != '\n' && !char_is_whitespace(
                    t.value[k],
                )
        }),
{
    let s = classified_text(input);
    let t = tokens_of(s)[i];
    let from = token_offset(s, i);
    lemma_token_span(s, i);
    assert(t.value =~= input.subrange(from, from + t.value.len()));
    assert forall|k: int| 0 <= k < t.value.len() implies (#[trigger] t.value[k]) != '\n'
        && !char_is_whitespace(t.value[k]) by {
        assert(!is_blank(s[from + k]));
    }
}

/// Tokenizing is a function of the input: whenever two token sequences are
/// results for the same input, they have the same length and agree, place by
/// place, in kind, value, line and column.
pub proof fn lemma_tokenize_repeatable(input: Seq<char>, first: Seq<Token>, second: Seq<Token>)
    requires
        token_views(first) == tokens_of(classified_text(input)),
        token_views(second) == tokens_of(classified_text(input)),
    ensures
        first.len() == second.len(),
        forall|i: int| 0 <= i < first.len() ==> (#[trigger] first[i])@ == second[i]@,
{
    assert(token_views(first).len() == first.len());
    assert(token_views(second).len() == second.len());
    assert forall|i: int| 0 <= i < first.len() implies (#[trigger] first[i])@ == second[i]@ by {
        assert(token_views(first)[i] == first[i]@);
        assert(token_views(second)[i] == second[i]@);
    }
}

} // verus!
