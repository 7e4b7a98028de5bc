//! The tokenizer: from text to tokens with their positions.
//!
//! The text is cut into lines at its newlines and each line into words at
//! its whitespace. Every word gives one token, which carries the word's
//! category, its characters, the number of its line (the first line is line
//! 1) and its index among the words of that line (the first word is word 0).
//! The tokens come line after line and, within a line, word after word.

use vstd::prelude::*;
use vstd::slice::slice_subrange;
use crate::chars::{classified_text, classify_text, plain_text, ClassifiedChar};
use crate::classify::{classify_chars, kind_of};
use crate::positions::{lemma_token_count, word_count};
use crate::recovery::ParserError;
use crate::split::{lines, run_end, words, Run};
use crate::text::spell;
use crate::token::{token_views, Token, TokenView};

verus! {

/// The token for the word `w` found on line `line` at index `column`.
pub open spec fn word_token(w: Seq<ClassifiedChar>, line: nat, column: nat) -> TokenView {
    TokenView { kind: kind_of(w), value: plain_text(w), line, column }
}

/// The tokens of the words `ws`, which stand in this order on line `line`.
pub open spec fn words_tokens(ws: Seq<Seq<ClassifiedChar>>, line: nat) -> Seq<TokenView> {
    Seq::new(ws.len(), |i: int| word_token(ws[i], line, i as nat))
}

/// The tokens of the line `l`, whose number is `line`: one for each of its
/// words, in order.
pub open spec fn line_tokens(l: Seq<ClassifiedChar>, line: nat) -> Seq<TokenView> {
    words_tokens(words(l), line)
}

/// The tokens of the lines `ls`, the first of which has the number 1: those
/// of the first line, then those of the second, and so on.
pub open spec fn lines_tokens(ls: Seq<Seq<ClassifiedChar>>) -> Seq<TokenView> {
    Seq::new(ls.len(), |i: int| line_tokens(ls[i], (i + 1) as nat)).flatten()
}

/// The tokens of the text `s`.
pub open spec fn tokens_of(s: Seq<ClassifiedChar>) -> Seq<TokenView> {
    lines_tokens(lines(s))
}

/// Adding a line at the end adds its tokens at the end.
pub proof fn lemma_lines_tokens_push(ls: Seq<Seq<ClassifiedChar>>, l: Seq<ClassifiedChar>)
    ensures
        lines_tokens(ls.push(l)) == lines_tokens(ls) + line_tokens(l, ls.len() + 1),
{
    let a = Seq::new(ls.len(), |i: int| line_tokens(ls[i], (i + 1) as nat));
    let b = Seq::new(ls.push(l).len(), |i: int| line_tokens(ls.push(l)[i], (i + 1) as nat));
    assert(b =~= a.push(line_tokens(l, ls.len() + 1)));
    a.lemma_flatten_push(line_tokens(l, ls.len() + 1));
}

/// Appends to `out` the tokens of the line `line`, whose number is `number`.
fn push_line_tokens(line: &[ClassifiedChar], number: usize, out: &mut Vec<Token>)
    ensures
        token_views(final(out)@) == token_views(old(out)@) + line_tokens(line@, number as nat),
{
    let ghost before = token_views(out@);
    let ghost mut found: Seq<Seq<ClassifiedChar>> = Seq::empty();
    let mut at: usize = 0;
    let mut column: usize = 0;
    let mut more = true;
    assert(line@.skip(0) =~= line@);
    assert(token_views(out@) =~= before + words_tokens(found, number as nat));
    while more
        invariant
            at <= line.len(),
            column == found.len(),
            column <= at,
            more ==> found + words(line@.skip(at as int)) == words(line@),
            !more ==> found == words(line@),
            token_views(out@) == before + words_tokens(found, number as nat),
        decreases line.len() - at + if more { 1int } else { 0int },
    {
        let ghost rest0 = line@.skip(at as int);
        let start = run_end(line, at, Run::Gap);
        let ghost rest = rest0.skip(start - at);
        assert(rest =~= line@.skip(start as int));
        let end = run_end(line, start, Run::Word);
        if start == end {
            more = false;
            assert(found + words(rest0) =~= found);
        } else {
            let word = slice_subrange(line, start, end);
            assert(word@ =~= rest.take(end - start));
            assert(rest.skip(end - start) =~= line@.skip(end as int));
            let token = Token {
                kind: classify_chars(word),
                value: spell(word),
                line: number,
                column,
            };
            proof {
                let ghost grown = found.push(word@);
                assert(grown + words(line@.skip(end as int)) =~= found + words(rest0));
                assert(token_views(out@.push(token)) =~= token_views(out@).push(token@));
                assert(words_tokens(grown, number as nat) =~= words_tokens(
                    found,
                    number as nat,
                ).push(token@));
                found = grown;
            }
            out.push(token);
            column += 1;
            at = end;
        }
    }
}

/// Tokenizes a text whose characters come with their classes: one token for
/// each word of each line, line after line and, within a line, word after
/// word.
pub fn tokenize_chars(text: &[ClassifiedChar]) -> (tokens: Vec<Token>)
    ensures
        token_views(tokens@) == tokens_of(text@),
        tokens@.len() == word_count(lines(text@)),
{
    let mut tokens: Vec<Token> = Vec::new();
    let ghost mut done: Seq<Seq<ClassifiedChar>> = Seq::empty();
    let mut start: usize = 0;
    let mut index: usize = 0;
    let mut more = true;
    assert(text@.skip(0) =~= text@);
    assert(token_views(tokens@) =~= lines_tokens(done));
    while more
        invariant
            start <= text.len(),
            more ==> index == done.len(),
            index <= start,
            more ==> done + lines(text@.skip(start as int)) == lines(text@),
            !more ==> done == lines(text@),
            token_views(tokens@) == lines_tokens(done),
        decreases text.len() - start + if more { 1int } else { 0int },
    {
        let ghost rest = text@.skip(start as int);
        let end = run_end(text, start, Run::Line);
        let line = slice_subrange(text, start, end);
        assert(line@ =~= rest.take(end - start));
        proof {
            lemma_lines_tokens_push(done, line@);
        }
        if start < end {
            push_line_tokens(line, index + 1, &mut tokens);
        } else {
            assert(line_tokens(line@, (index + 1) as nat) =~= Seq::empty());
        }
        if end < text.len() {
            assert(rest.skip(end - start + 1) =~= text@.skip(end + 1));
            assert(done.push(line@) + lines(text@.skip(end + 1)) =~= done + lines(rest));
            start = end + 1;
            index += 1;
        } else {
            assert(rest.take(end - start) =~= rest);
            assert(done.push(line@) =~= done + lines(rest));
            more = false;
        }
        proof {
            done = done.push(line@);
        }
    }
    proof {
        lemma_token_count(text@);
    }
    tokens
}

/// Tokenizes `input`: one token for each word of each line, line after line
/// and, within a line, word after word. No input is rejected, and the empty
/// input has no tokens.
pub fn tokenize(input: &str) -> (result: Result<Vec<Token>, ParserError>)
    ensures
        result is Ok,
        token_views(result->Ok_0@) == tokens_of(classified_text(input@)),
        result->Ok_0@.len() == word_count(lines(classified_text(input@))),
{
    let text = classify_text(input);
    Ok(tokenize_chars(text.as_slice()))
}

} // verus!
