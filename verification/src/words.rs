//! Splitting a line into whitespace-separated words, and into the chunks
//! that runs of spaces set apart.

use vstd::prelude::*;
use vstd::slice::slice_subrange;
use crate::chars::{is_blank, is_blank_chars, is_space, is_whitespace, texts};
use crate::search::{find, find_chars};

verus! {

/// The number of characters before the first whitespace of `s`, or before
/// its end where it holds none.
pub open spec fn word_len(s: Seq<char>) -> nat
    decreases s.len(),
{
    if s.len() == 0 || is_space(s[0]) {
        0
    } else {
        1 + word_len(s.drop_first())
    }
}

/// The words of `s`: its maximal runs of characters that are not whitespace,
/// in order.
pub open spec fn words(s: Seq<char>) -> Seq<Seq<char>>
    decreases s.len(),
{
    if s.len() == 0 {
        Seq::empty()
    } else if is_space(s[0]) {
        words(s.drop_first())
    } else {
        let n = word_len(s) as int;
        proof {
            lemma_word_len(s, n);
        }
        seq![s.take(n)] + words(s.skip(n))
    }
}

/// `word_len` is the position of the first whitespace character, and that
/// position only.
pub proof fn lemma_word_len(s: Seq<char>, n: int)
    ensures
        word_len(s) <= s.len(),
        s.len() > 0 && !is_space(s[0]) ==> word_len(s) >= 1,
        (0 <= n <= s.len() && (forall|j: int| 0 <= j < n ==> !is_space(s[j])) && (n < s.len()
            ==> is_space(s[n]))) ==> word_len(s) == n,
    decreases s.len(),
{
    if s.len() > 0 && !is_space(s[0]) {
        lemma_word_len(s.drop_first(), n - 1);
    }
}

/// Whether `w` could be a word: not empty, and free of whitespace.
pub open spec fn is_word(w: Seq<char>) -> bool {
    w.len() > 0 && forall|j: int| 0 <= j < w.len() ==> !is_space(#[trigger] w[j])
}

/// The characters that `word_len` counts are not whitespace.
pub proof fn lemma_word_chars(s: Seq<char>)
    ensures
        word_len(s) <= s.len(),
        forall|j: int| 0 <= j < word_len(s) ==> !is_space(#[trigger] s[j]),
    decreases s.len(),
{
    if s.len() > 0 && !is_space(s[0]) {
        lemma_word_chars(s.drop_first());
        assert forall|j: int| 0 <= j < word_len(s) implies !is_space(#[trigger] s[j]) by {
            if j > 0 {
                assert(s[j] == s.drop_first()[j - 1]);
            }
        }
    }
}

/// No word is empty, and no word holds whitespace.
pub proof fn lemma_words_shape(s: Seq<char>)
    ensures
        forall|i: int| 0 <= i < words(s).len() ==> is_word(#[trigger] words(s)[i]),
    decreases s.len(),
{
    if s.len() == 0 {
        assert(words(s).len() == 0);
    } else if is_space(s[0]) {
        lemma_words_shape(s.drop_first());
        assert(words(s) == words(s.drop_first()));
    } else {
        let n = word_len(s) as int;
        lemma_word_len(s, n);
        lemma_word_chars(s);
        lemma_words_shape(s.skip(n));
        let first = s.take(n);
        let rest = words(s.skip(n));
        assert(words(s) == seq![first] + rest);
        assert(is_word(first));
        assert forall|i: int| 0 <= i < words(s).len() implies is_word(#[trigger] words(s)[i]) by {
            if i > 0 {
                assert(words(s)[i] == rest[i - 1]);
            } else {
                assert(words(s)[0] == first);
            }
        }
    }
}

/// The two spaces that set chunks apart.
pub open spec fn gap() -> Seq<char> {
    seq![' ', ' ']
}

/// `s` cut at its first two gaps, reading from the left: one chunk where
/// there is no gap, two where there is one, three otherwise. The third chunk
/// is all that follows the second gap.
pub open spec fn chunks(s: Seq<char>) -> Seq<Seq<char>> {
    match find(s, gap()) {
        None => seq![s],
        Some(i) => {
            let rest = s.skip(i + 2);
            match find(rest, gap()) {
                None => seq![s.take(i), rest],
                Some(j) => seq![s.take(i), rest.take(j), rest.skip(j + 2)],
            }
        },
    }
}

/// Those of `parts` that are not blank, in order.
pub open spec fn nonblank(parts: Seq<Seq<char>>) -> Seq<Seq<char>> {
    parts.filter(|p: Seq<char>| !is_blank(p))
}

/// The words of `s`, each as a part of it.
pub fn split_words<'a>(s: &'a [char]) -> (out: Vec<&'a [char]>)
    ensures
        texts(out@) == words(s@),
{
    let n = s.len();
    let mut out: Vec<&'a [char]> = Vec::new();
    let mut pos: usize = 0;
    assert(s@.skip(0) == s@);
    assert(texts(out@) + words(s@) == words(s@));
    while pos < n
        invariant
            n == s@.len(),
            pos <= n,
            words(s@) == texts(out@) + words(s@.skip(pos as int)),
        decreases n - pos,
    {
        let ghost rest = s@.skip(pos as int);
        if is_whitespace(s[pos]) {
            assert(rest.drop_first() == s@.skip(pos + 1));
            pos += 1;
        } else {
            let mut end: usize = pos + 1;
            while end < n && !is_whitespace(s[end])
                invariant
                    n == s@.len(),
                    pos < end <= n,
                    forall|j: int| pos <= j < end ==> !is_space(s@[j]),
                decreases n - end,
            {
                end += 1;
            }
            let ghost before = texts(out@);
            let word = slice_subrange(s, pos, end);
            out.push(word);
            proof {
                lemma_word_len(rest, end - pos);
                assert(word@ == rest.take(end - pos));
                assert(rest.skip(end - pos) == s@.skip(end as int));
                assert(texts(out@) == before.push(word@));
                assert(before + (seq![word@] + words(s@.skip(end as int))) == before.push(word@)
                    + words(s@.skip(end as int)));
            }
            pos = end;
        }
    }
    assert(texts(out@) + Seq::<Seq<char>>::empty() == texts(out@));
    out
}

/// `s` cut at its first two gaps, each chunk as a part of `s`.
pub fn split_chunks<'a>(s: &'a [char]) -> (out: Vec<&'a [char]>)
    ensures
        texts(out@) == chunks(s@),
{
    let two_spaces: [char; 2] = [' ', ' '];
    assert(two_spaces@ == gap());
    let n = s.len();
    let mut out: Vec<&'a [char]> = Vec::new();
    match find_chars(s, two_spaces.as_slice()) {
        None => {
            out.push(s);
            assert(texts(out@) == seq![s@]);
        },
        Some(i) => {
            let rest = slice_subrange(s, i + 2, n);
            out.push(slice_subrange(s, 0, i));
            match find_chars(rest, two_spaces.as_slice()) {
                None => {
                    out.push(rest);
                    assert(texts(out@) == seq![s@.take(i as int), rest@]);
                },
                Some(j) => {
                    out.push(slice_subrange(rest, 0, j));
                    out.push(slice_subrange(rest, j + 2, rest.len()));
                    assert(texts(out@) == seq![
                        s@.take(i as int),
                        rest@.take(j as int),
                        rest@.skip(j + 2),
                    ]);
                },
            }
        },
    }
    out
}

/// Those of `parts` that are not blank, in order.
pub fn keep_nonblank<'a>(parts: &Vec<&'a [char]>) -> (out: Vec<&'a [char]>)
    ensures
        texts(out@) == nonblank(texts(parts@)),
{
    let n = parts.len();
    let mut out: Vec<&'a [char]> = Vec::new();
    let mut i: usize = 0;
    assert(texts(parts@).take(0) == Seq::<Seq<char>>::empty());
    while i < n
        invariant
            n == parts@.len(),
            i <= n,
            texts(out@) == nonblank(texts(parts@).take(i as int)),
        decreases n - i,
    {
        let ghost before = texts(out@);
        let ghost seen = texts(parts@).take(i as int);
        let part = parts[i];
        proof {
            assert(texts(parts@).take(i + 1) == seen.push(part@));
            seen.lemma_filter_push(part@, |p: Seq<char>| !is_blank(p));
        }
        if !is_blank_chars(part) {
            out.push(part);
            assert(texts(out@) == before.push(part@));
        }
        i += 1;
    }
    assert(texts(parts@).take(n as int) == texts(parts@));
    out
}

} // verus!
