//! Where the lines stand in a text and the words in a line.
//!
//! The lines are the stretches that the newlines leave, each newline between
//! two lines; the words are the stretches that whitespace leaves, bounded on
//! both sides by whitespace or by an end of the line.

use vstd::prelude::*;
use crate::chars::ClassifiedChar;
use crate::split::{
    lemma_lines_content, lemma_run_len, lemma_words_content, lines, run_len, words, Run,
};

verus! {

/// The position in `s` of the first character of its line with index `i`.
pub open spec fn line_start(s: Seq<ClassifiedChar>, i: int) -> int
    decreases i,
{
    if i <= 0 {
        0
    } else {
        line_start(s, i - 1) + lines(s)[i - 1].len() + 1
    }
}

/// The position in `l` of the first character of its word with index `i`.
pub open spec fn word_start(l: Seq<ClassifiedChar>, i: int) -> int
    decreases i,
{
    if i <= 0 {
        run_len(l, Run::Gap)
    } else {
        let end = word_start(l, i - 1) + words(l)[i - 1].len();
        end + run_len(l.skip(end), Run::Gap)
    }
}

/// The lines after the first are the lines of what follows the first
/// newline, and they start as much further right as the first line and its
/// newline are long.
proof fn lemma_line_start_shift(s: Seq<ClassifiedChar>, i: int)
    requires
        run_len(s, Run::Line) < s.len(),
        0 <= i < lines(s.skip(run_len(s, Run::Line) + 1)).len(),
    ensures
        i + 1 < lines(s).len(),
        lines(s)[i + 1] == lines(s.skip(run_len(s, Run::Line) + 1))[i],
        line_start(s, i + 1) == run_len(s, Run::Line) + 1 + line_start(
            s.skip(run_len(s, Run::Line) + 1),
            i,
        ),
    decreases i,
{
    lemma_run_len(s, Run::Line);
    if i > 0 {
        lemma_line_start_shift(s, i - 1);
    } else {
        assert(line_start(s, 0) == 0);
        assert(line_start(s.skip(run_len(s, Run::Line) + 1), 0) == 0);
    }
}

/// Every line is a stretch of the text. The first starts where the text
/// starts and each other one right after a newline; the last ends where the
/// text ends and each other one right before a newline, after which the next
/// line starts.
pub proof fn lemma_line_span(s: Seq<ClassifiedChar>, i: int)
    requires
        0 <= i < lines(s).len(),
    ensures
        ({
            let from = line_start(s, i);
            let to = from + lines(s)[i].len();
            &&& 0 <= from <= to <= s.len()
            &&& lines(s)[i] == s.subrange(from, to)
            &&& from == 0 <==> i == 0
            &&& from > 0 ==> s[from - 1].ch == '\n'
            &&& to == s.len() <==> i == lines(s).len() - 1
            &&& to < s.len() ==> s[to].ch == '\n'
        }),
    decreases i,
{
    let n = run_len(s, Run::Line) as int;
    lemma_run_len(s, Run::Line);
    if n < s.len() {
        let rest = s.skip(n + 1);
        if i == 0 {
            assert(lines(s)[0] =~= s.subrange(0, n));
        } else {
            let k = i - 1;
            lemma_line_start_shift(s, k);
            lemma_line_span(rest, k);
            let from = line_start(rest, k);
            let to = from + lines(rest)[k].len();
            assert(rest.subrange(from, to) =~= s.subrange(n + 1 + from, n + 1 + to));
            if from > 0 {
                assert(rest[from - 1] == s[n + 1 + from - 1]);
            }
            if to < rest.len() {
                assert(rest[to] == s[n + 1 + to]);
            }
        }
    } else {
        assert(lines(s)[0] =~= s.subrange(0, s.len() as int));
    }
}

/// Every character of the text that is not a newline belongs to a line.
pub proof fn lemma_lines_cover(s: Seq<ClassifiedChar>, q: int)
    requires
        0 <= q < s.len(),
        s[q].ch != '\n',
    ensures
        exists|i: int|
            0 <= i < lines(s).len() && line_start(s, i) <= q < line_start(s, i) + (
            #[trigger] lines(s)[i]).len(),
    decreases s.len(),
{
    let n = run_len(s, Run::Line);
    lemma_run_len(s, Run::Line);
    assert(line_start(s, 0) == 0);
    if q < n {
        assert(lines(s)[0].len() == n);
    } else {
        let rest = s.skip(n + 1);
        assert(rest[q - n - 1] == s[q]);
        lemma_lines_cover(rest, q - n - 1);
        let k = choose|k: int|
            0 <= k < lines(rest).len() && line_start(rest, k) <= q - n - 1 < line_start(rest, k)
                + (#[trigger] lines(rest)[k]).len();
        lemma_line_start_shift(s, k);
        assert(lines(s)[k + 1].len() == lines(rest)[k].len());
    }
}

/// Number of newlines among the first `p` characters of `s`.
pub open spec fn newlines_before(s: Seq<ClassifiedChar>, p: int) -> int
    decreases p,
{
    if p <= 0 {
        0
    } else if s[p - 1].ch == '\n' {
        newlines_before(s, p - 1) + 1
    } else {
        newlines_before(s, p - 1)
    }
}

/// As many newlines stand before a character of a line as lines stand before
/// that line; the same holds of the position where the line ends.
pub proof fn lemma_newlines_before_line(s: Seq<ClassifiedChar>, i: int, p: int)
    requires
        0 <= i < lines(s).len(),
        line_start(s, i) <= p <= line_start(s, i) + lines(s)[i].len(),
    ensures
        newlines_before(s, p) == i,
    decreases i, p,
{
    lemma_line_span(s, i);
    if p > line_start(s, i) {
        lemma_newlines_before_line(s, i, p - 1);
        lemma_lines_content(s);
        assert(lines(s)[i][p - 1 - line_start(s, i)] == s[p - 1]);
    } else if i > 0 {
        lemma_line_span(s, i - 1);
        lemma_newlines_before_line(s, i - 1, p - 1);
    }
}

/// A later line starts after the newline that ends an earlier one.
pub proof fn lemma_line_starts_ascend(s: Seq<ClassifiedChar>, a: int, b: int)
    requires
        0 <= a < b < lines(s).len(),
    ensures
        line_start(s, a) + lines(s)[a].len() < line_start(s, b),
    decreases b,
{
    if a < b - 1 {
        lemma_line_starts_ascend(s, a, b - 1);
    }
}

/// The words after the first are the words of what follows the first word,
/// and they start as much further right as the first word ends.
proof fn lemma_word_start_shift(l: Seq<ClassifiedChar>, i: int)
    requires
        words(l).len() > 0,
        0 <= i < words(l.skip(run_len(l, Run::Gap) + words(l)[0].len())).len(),
    ensures
        i + 1 < words(l).len(),
        words(l)[i + 1] == words(l.skip(run_len(l, Run::Gap) + words(l)[0].len()))[i],
        word_start(l, i + 1) == run_len(l, Run::Gap) + words(l)[0].len() + word_start(
            l.skip(run_len(l, Run::Gap) + words(l)[0].len()),
            i,
        ),
    decreases l.len(), 0int, i,
{
    let gap = run_len(l, Run::Gap);
    let rest = l.skip(gap);
    let n = run_len(rest, Run::Word);
    lemma_run_len(l, Run::Gap);
    lemma_run_len(rest, Run::Word);
    let tail = l.skip(gap + n);
    assert(tail =~= rest.skip(n));
    assert(word_start(l, 0) == gap);
    if i > 0 {
        lemma_word_start_shift(l, i - 1);
        lemma_word_span(tail, i - 1);
        let end = word_start(tail, i - 1) + words(tail)[i - 1].len();
        assert(l.skip(gap + n + end) =~= tail.skip(end));
    } else {
        assert(l.skip(gap + n) =~= tail);
        assert(word_start(tail, 0) == run_len(tail, Run::Gap));
    }
}

/// Every word is a stretch of the line, bounded on each side by whitespace
/// or by an end of the line, and nothing but whitespace lies between it and
/// the word before it or, for the first word, the start of the line.
pub proof fn lemma_word_span(l: Seq<ClassifiedChar>, i: int)
    requires
        0 <= i < words(l).len(),
    ensures
        ({
            let from = word_start(l, i);
            let to = from + words(l)[i].len();
            let before = if i == 0 {
                0
            } else {
                word_start(l, i - 1) + words(l)[i - 1].len()
            };
            &&& 0 <= before <= from < to <= l.len()
            &&& words(l)[i] == l.subrange(from, to)
            &&& from > 0 ==> l[from - 1].whitespace
            &&& to < l.len() ==> l[to].whitespace
            &&& forall|q: int| before <= q < from ==> (#[trigger] l[q]).whitespace
        }),
    decreases l.len(), 1int, i,
{
    let gap = run_len(l, Run::Gap);
    let rest = l.skip(gap);
    let n = run_len(rest, Run::Word);
    lemma_run_len(l, Run::Gap);
    lemma_run_len(rest, Run::Word);
    let tail = l.skip(gap + n);
    assert(tail =~= rest.skip(n));
    if i == 0 {
        assert(words(l)[0] =~= l.subrange(gap, gap + n));
        if gap + n < l.len() {
            assert(rest[n] == l[gap + n]);
        }
    } else {
        let k = i - 1;
        lemma_word_start_shift(l, k);
        lemma_word_span(tail, k);
        let from = word_start(tail, k);
        let to = from + words(tail)[k].len();
        assert(tail.subrange(from, to) =~= l.subrange(gap + n + from, gap + n + to));
        if from > 0 {
            assert(tail[from - 1] == l[gap + n + from - 1]);
        } else {
            assert(rest[n] == l[gap + n]);
        }
        if to < tail.len() {
            assert(tail[to] == l[gap + n + to]);
        }
        let before = if k == 0 {
            0
        } else {
            word_start(tail, k - 1) + words(tail)[k - 1].len()
        };
        if k > 0 {
            lemma_word_start_shift(l, k - 1);
        } else {
            assert(word_start(l, 0) == gap);
        }
        assert forall|q: int| gap + n + before <= q < gap + n + from implies (
        #[trigger] l[q]).whitespace by {
            assert(tail[q - gap - n] == l[q]);
        }
    }
}

/// A later word starts after the whitespace that ends an earlier one.
pub proof fn lemma_word_starts_ascend(l: Seq<ClassifiedChar>, a: int, b: int)
    requires
        0 <= a < b < words(l).len(),
    ensures
        word_start(l, a) + words(l)[a].len() < word_start(l, b),
    decreases b,
{
    lemma_word_span(l, b - 1);
    lemma_word_span(l, b);
    lemma_words_content(l);
    assert(words(l)[b][0] == l[word_start(l, b)]);
    if a < b - 1 {
        lemma_word_starts_ascend(l, a, b - 1);
    }
}

/// Every character of the line that is not whitespace belongs to a word.
pub proof fn lemma_words_cover(l: Seq<ClassifiedChar>, q: int)
    requires
        0 <= q < l.len(),
        !l[q].whitespace,
    ensures
        exists|i: int|
            0 <= i < words(l).len() && word_start(l, i) <= q < word_start(l, i) + (
            #[trigger] words(l)[i]).len(),
    decreases l.len(),
{
    let gap = run_len(l, Run::Gap);
    let rest = l.skip(gap);
    let n = run_len(rest, Run::Word);
    lemma_run_len(l, Run::Gap);
    lemma_run_len(rest, Run::Word);
    assert(word_start(l, 0) == gap);
    if n == 0 {
        if gap < l.len() {
            assert(rest[0] == l[gap]);
        }
    } else if q < gap + n {
        assert(words(l)[0].len() == n);
    } else {
        let tail = l.skip(gap + n);
        assert(tail =~= rest.skip(n));
        assert(tail[q - gap - n] == l[q]);
        lemma_words_cover(tail, q - gap - n);
        let k = choose|k: int|
            0 <= k < words(tail).len() && word_start(tail, k) <= q - gap - n < word_start(
                tail,
                k,
            ) + (#[trigger] words(tail)[k]).len();
        lemma_word_start_shift(l, k);
        assert(words(l)[k + 1].len() == words(tail)[k].len());
    }
}

} // verus!
