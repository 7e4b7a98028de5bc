//! Splitting text into lines and lines into words.
//!
//! A line is a maximal stretch of characters without a newline; a word is a
//! maximal stretch of characters without whitespace inside one line.

use vstd::prelude::*;
use crate::chars::ClassifiedChar;

verus! {

/// The kinds of stretches that the text is cut into.
#[derive(Debug, Clone, Copy, PartialEq, Eq, Structural)]
pub enum Run {
    /// Characters other than the newline.
    Line,
    /// Whitespace characters.
    Gap,
    /// Characters other than whitespace.
    Word,
}

impl Run {
    /// Whether `c` can stand in a stretch of this kind.
    pub open spec fn admits(self, c: ClassifiedChar) -> bool {
        match self {
            Run::Line => c.ch != '\n',
            Run::Gap => c.whitespace,
            Run::Word => !c.whitespace,
        }
    }

    /// Whether `c` can stand in a stretch of this kind.
    pub fn test(self, c: ClassifiedChar) -> (b: bool)
        ensures
            b == self.admits(c),
    {
        match self {
            Run::Line => c.ch != '\n',
            Run::Gap => c.whitespace,
            Run::Word => !c.whitespace,
        }
    }
}

/// Length of the longest prefix of `s` that is a stretch of kind `run`.
pub open spec fn run_len(s: Seq<ClassifiedChar>, run: Run) -> int
    decreases s.len(),
{
    if s.len() > 0 && run.admits(s[0]) {
        1 + run_len(s.drop_first(), run)
    } else {
        0
    }
}

/// The lines of `s`: the stretches between its newlines, in order. A text
/// with `n` newlines has `n + 1` lines, some of which may be empty.
pub open spec fn lines(s: Seq<ClassifiedChar>) -> Seq<Seq<ClassifiedChar>>
    decreases s.len(),
{
    let n = run_len(s, Run::Line);
    if n < s.len() {
        proof {
            lemma_run_len(s, Run::Line);
        }
        seq![s.take(n)] + lines(s.skip(n + 1))
    } else {
        seq![s]
    }
}

/// The words of the line `l`: its maximal stretches free of whitespace, in
/// order. No word is empty.
pub open spec fn words(l: Seq<ClassifiedChar>) -> Seq<Seq<ClassifiedChar>>
    decreases l.len(),
{
    let rest = l.skip(run_len(l, Run::Gap));
    let n = run_len(rest, Run::Word);
    if n == 0 {
        Seq::empty()
    } else {
        proof {
            lemma_run_len(l, Run::Gap);
            lemma_run_len(rest, Run::Word);
        }
        seq![rest.take(n)] + words(rest.skip(n))
    }
}

/// `run_len(s, run)` is within `s`, every element before it is admitted and
/// the element at it, if there is one, is not.
pub proof fn lemma_run_len(s: Seq<ClassifiedChar>, run: Run)
    ensures
        0 <= run_len(s, run) <= s.len(),
        forall|i: int| 0 <= i < run_len(s, run) ==> run.admits(#[trigger] s[i]),
        run_len(s, run) < s.len() ==> !run.admits(s[run_len(s, run)]),
    decreases s.len(),
{
    if s.len() > 0 && run.admits(s[0]) {
        let t = s.drop_first();
        lemma_run_len(t, run);
        assert forall|i: int| 0 <= i < run_len(s, run) implies run.admits(#[trigger] s[i]) by {
            if i > 0 {
                assert(s[i] == t[i - 1]);
            }
        }
        if run_len(s, run) < s.len() {
            assert(s[run_len(s, run)] == t[run_len(t, run)]);
        }
    }
}

/// Only one position is as `lemma_run_len` says.
pub proof fn lemma_run_len_unique(s: Seq<ClassifiedChar>, run: Run, n: int)
    requires
        0 <= n <= s.len(),
        forall|i: int| 0 <= i < n ==> run.admits(#[trigger] s[i]),
        n < s.len() ==> !run.admits(s[n]),
    ensures
        run_len(s, run) == n,
    decreases s.len(),
{
    if n > 0 {
        let t = s.drop_first();
        assert forall|i: int| 0 <= i < n - 1 implies run.admits(#[trigger] t[i]) by {
            assert(t[i] == s[i + 1]);
        }
        lemma_run_len_unique(t, run, n - 1);
    }
}

/// A text has at least one line, every character of a line is a character of
/// the text, and no line holds a newline.
pub proof fn lemma_lines_content(s: Seq<ClassifiedChar>)
    ensures
        lines(s).len() >= 1,
        forall|i: int, k: int|
            0 <= i < lines(s).len() && 0 <= k < lines(s)[i].len() ==> s.contains(
                #[trigger] lines(s)[i][k],
            ) && lines(s)[i][k].ch != '\n',
    decreases s.len(),
{
    let n = run_len(s, Run::Line);
    lemma_run_len(s, Run::Line);
    if n < s.len() {
        let rest = s.skip(n + 1);
        lemma_lines_content(rest);
        assert forall|i: int, k: int|
            0 <= i < lines(s).len() && 0 <= k < lines(s)[i].len() implies s.contains(
            #[trigger] lines(s)[i][k],
        ) && lines(s)[i][k].ch != '\n' by {
            if i == 0 {
                assert(lines(s)[i][k] == s[k]);
            } else {
                let c = lines(rest)[i - 1][k];
                assert(lines(s)[i] == lines(rest)[i - 1]);
                assert(rest.contains(c));
                let j = choose|j: int| 0 <= j < rest.len() && rest[j] == c;
                assert(s[n + 1 + j] == c);
            }
        }
    } else {
        assert forall|i: int, k: int|
            0 <= i < lines(s).len() && 0 <= k < lines(s)[i].len() implies s.contains(
            #[trigger] lines(s)[i][k],
        ) && lines(s)[i][k].ch != '\n' by {
            assert(lines(s)[i][k] == s[k]);
        }
    }
}

/// No word is empty, every character of a word is a character of the line,
/// and no word holds whitespace.
pub proof fn lemma_words_content(l: Seq<ClassifiedChar>)
    ensures
        forall|i: int| 0 <= i < words(l).len() ==> (#[trigger] words(l)[i]).len() > 0,
        forall|i: int, k: int|
            0 <= i < words(l).len() && 0 <= k < words(l)[i].len() ==> l.contains(
                #[trigger] words(l)[i][k],
            ) && !words(l)[i][k].whitespace,
    decreases l.len(),
{
    let gap = run_len(l, Run::Gap);
    let rest = l.skip(gap);
    let n = run_len(rest, Run::Word);
    lemma_run_len(l, Run::Gap);
    lemma_run_len(rest, Run::Word);
    if n > 0 {
        let tail = rest.skip(n);
        lemma_words_content(tail);
        assert forall|i: int| 0 <= i < words(l).len() implies (#[trigger] words(l)[i]).len()
            > 0 by {
            if i > 0 {
                assert(words(l)[i] == words(tail)[i - 1]);
            }
        }
        assert forall|i: int, k: int|
            0 <= i < words(l).len() && 0 <= k < words(l)[i].len() implies l.contains(
            #[trigger] words(l)[i][k],
        ) && !words(l)[i][k].whitespace by {
            if i == 0 {
                assert(words(l)[i][k] == rest[k]);
                assert(rest[k] == l[gap + k]);
            } else {
                let c = words(tail)[i - 1][k];
                assert(words(l)[i] == words(tail)[i - 1]);
                assert(tail.contains(c));
                let j = choose|j: int| 0 <= j < tail.len() && tail[j] == c;
                assert(l[gap + n + j] == c);
            }
        }
    }
}

/// The end of the stretch of kind `run` that starts at `from` in `text`.
pub(crate) fn run_end(text: &[ClassifiedChar], from: usize, run: Run) -> (end: usize)
    requires
        from <= text.len(),
    ensures
        from <= end <= text.len(),
        end - from == run_len(text@.skip(from as int), run),
{
    let mut end = from;
    while end < text.len() && run.test(text[end])
        invariant
            from <= end <= text.len(),
            forall|i: int| from <= i < end ==> run.admits(#[trigger] text@[i]),
        decreases text.len() - end,
    {
        end += 1;
    }
    proof {
        let s = text@.skip(from as int);
        assert forall|i: int| 0 <= i < end - from implies run.admits(#[trigger] s[i]) by {
            assert(s[i] == text@[from + i]);
        }
        if end < text.len() {
            assert(s[end - from] == text@[end as int]);
        }
        lemma_run_len_unique(s, run, end - from);
    }
    end
}

} // verus!
