//! Splitting a text into its logical lines.

use vstd::prelude::*;
use vstd::slice::slice_subrange;
use crate::chars::texts;

verus! {

/// The number of characters before the first line feed of `s`, or before its
/// end where it holds none.
pub open spec fn line_len(s: Seq<char>) -> nat
    decreases s.len(),
{
    if s.len() == 0 || s[0] == '\n' {
        0
    } else {
        1 + line_len(s.drop_first())
    }
}

/// `line` without the carriage return that ends it, if one does.
pub open spec fn strip_cr(line: Seq<char>) -> Seq<char> {
    if line.len() > 0 && line.last() == '\r' {
        line.drop_last()
    } else {
        line
    }
}

/// The lines of `s`. A line ends at a line feed, or at a carriage return
/// directly followed by one; neither is part of the line. The last line needs
/// no line ending, and a text that ends with one has no empty line after it.
pub open spec fn lines(s: Seq<char>) -> Seq<Seq<char>>
    decreases s.len(),
{
    if s.len() == 0 {
        Seq::empty()
    } else {
        let n = line_len(s) as int;
        if n >= s.len() {
            seq![s]
        } else {
            seq![strip_cr(s.take(n))] + lines(s.skip(n + 1))
        }
    }
}

/// `line_len` is the position of the first line feed.
pub proof fn lemma_line_len(s: Seq<char>, n: int)
    requires
        0 <= n <= s.len(),
        forall|j: int| 0 <= j < n ==> s[j] != '\n',
        n < s.len() ==> s[n] == '\n',
    ensures
        line_len(s) == n,
    decreases s.len(),
{
    if n > 0 {
        lemma_line_len(s.drop_first(), n - 1);
    }
}

/// The lines of `text`, each as a part of it.
pub fn split_lines<'a>(text: &'a [char]) -> (out: Vec<&'a [char]>)
    ensures
        texts(out@) == lines(text@),
{
    let n = text.len();
    let mut out: Vec<&'a [char]> = Vec::new();
    let mut pos: usize = 0;
    assert(text@.skip(0) == text@);
    assert(texts(out@) + lines(text@) == lines(text@));
    while pos < n
        invariant
            n == text@.len(),
            pos <= n,
            lines(text@) == texts(out@) + lines(text@.skip(pos as int)),
        decreases n - pos,
    {
        let mut end: usize = pos;
        while end < n && text[end] != '\n'
            invariant
                n == text@.len(),
                pos <= end <= n,
                forall|j: int| pos <= j < end ==> text@[j] != '\n',
            decreases n - end,
        {
            end += 1;
        }
        let ghost rest = text@.skip(pos as int);
        let ghost before = texts(out@);
        proof {
            lemma_line_len(rest, end - pos);
        }
        if end == n {
            let line = slice_subrange(text, pos, n);
            out.push(line);
            proof {
                assert(line@ == rest);
                assert(texts(out@) == before.push(rest));
                assert(before + seq![rest] == before.push(rest));
            }
            pos = n;
            proof {
                assert(lines(text@.skip(n as int)) == Seq::<Seq<char>>::empty());
                assert(texts(out@) + Seq::<Seq<char>>::empty() == texts(out@));
            }
        } else {
            let stop = if end > pos && text[end - 1] == '\r' {
                end - 1
            } else {
                end
            };
            let line = slice_subrange(text, pos, stop);
            out.push(line);
            proof {
                let whole = rest.take(end - pos);
                assert(whole == text@.subrange(pos as int, end as int));
                if end > pos && text@[end - 1] == '\r' {
                    assert(whole.drop_last() == text@.subrange(pos as int, end - 1));
                }
                assert(line@ == strip_cr(whole));
                assert(texts(out@) == before.push(line@));
                assert(rest.skip(end - pos + 1) == text@.skip(end + 1));
                assert(before + (seq![line@] + lines(text@.skip(end + 1))) == before.push(line@)
                    + lines(text@.skip(end + 1)));
            }
            pos = end + 1;
        }
    }
    assert(texts(out@) + Seq::<Seq<char>>::empty() == texts(out@));
    out
}

} // verus!
