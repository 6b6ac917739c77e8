//! The fallback pass, for listings that the column boundaries cannot cut:
//! a line is split where runs of spaces set its parts apart.

use vstd::prelude::*;
use crate::chars::{
    is_blank,
    lemma_trim_of_tight,
    lemma_trim_shape,
    string_of,
    texts,
    trim,
    trim_chars,
};
use crate::package::{PackageView, WingetPackage};
use crate::rows::{
    available_of,
    available_version,
    is_separator,
    is_separator_line,
    shows_values_only,
    source_name,
    source_of,
};
use crate::words::{
    chunks,
    is_word,
    keep_nonblank,
    lemma_words_shape,
    nonblank,
    split_chunks,
    split_words,
    words,
};

verus! {

/// The record that `line` gives when read without column boundaries, if it
/// gives one. The trimmed line is cut at its first two gaps; of the chunks
/// that are not blank the first is the name, and the words of the second are
/// identifier, version and, where present, available version and source. The
/// last two are absent under the same rules as in the fixed-width pass: an
/// available version that repeats the installed one or holds a run of
/// dashes, and a source that holds a run of dashes. A separator gives no
/// record, nor does a line with fewer than two such chunks or fewer than two
/// words in the second.
pub open spec fn fallback_record(line: Seq<char>) -> Option<PackageView> {
    let parts = nonblank(chunks(trim(line)));
    if is_separator(line) || parts.len() < 2 {
        None
    } else {
        let tokens = words(parts[1]);
        if tokens.len() < 2 {
            None
        } else {
            Some(
                PackageView {
                    name: trim(parts[0]),
                    id: tokens[0],
                    version: tokens[1],
                    available_version: if tokens.len() > 2 {
                        available_of(tokens[2], tokens[1])
                    } else {
                        None
                    },
                    source: if tokens.len() > 3 {
                        source_of(tokens[3])
                    } else {
                        None
                    },
                },
            )
        }
    }
}

/// Name and identifier of a record of the fallback pass are not empty after
/// trimming.
pub proof fn lemma_fallback_record_named(line: Seq<char>)
    ensures
        fallback_record(line) matches Some(record) ==> trim(record.name).len() > 0 && trim(
            record.id,
        ).len() > 0,
{
    let all = chunks(trim(line));
    let parts = nonblank(all);
    if !is_separator(line) && parts.len() >= 2 {
        all.lemma_filter_pred(|p: Seq<char>| !is_blank(p), 0);
        lemma_trim_shape(parts[0]);
        lemma_words_shape(parts[1]);
        let tokens = words(parts[1]);
        if tokens.len() >= 2 {
            assert(is_word(tokens[0]));
            lemma_trim_of_tight(tokens[0]);
        }
    }
}

/// A record of the fallback pass shows no available version that repeats
/// the installed version or holds a run of dashes, and no source that holds
/// a run of dashes.
pub proof fn lemma_fallback_shows_values_only(line: Seq<char>)
    ensures
        fallback_record(line) matches Some(record) ==> shows_values_only(record),
{
}

/// The records of the fallback pass over `lines`, in line order.
pub open spec fn fallback_records(lines: Seq<Seq<char>>) -> Seq<PackageView> {
    lines.filter_map(|line: Seq<char>| fallback_record(line))
}

/// The record that `line` gives when read without column boundaries.
pub fn fallback_row(line: &[char]) -> (record: Option<WingetPackage>)
    ensures
        record.deep_view() == fallback_record(line@),
{
    if is_separator_line(line) {
        return None;
    }
    let all = split_chunks(trim_chars(line));
    let parts = keep_nonblank(&all);
    if parts.len() < 2 {
        return None;
    }
    let tokens = split_words(parts[1]);
    if tokens.len() < 2 {
        return None;
    }
    proof {
        assert(texts(parts@)[0] == parts@[0]@);
        assert(texts(parts@)[1] == parts@[1]@);
        assert(texts(tokens@)[0] == tokens@[0]@);
        assert(texts(tokens@)[1] == tokens@[1]@);
        if tokens@.len() > 2 {
            assert(texts(tokens@)[2] == tokens@[2]@);
        }
        if tokens@.len() > 3 {
            assert(texts(tokens@)[3] == tokens@[3]@);
        }
    }
    let available = if tokens.len() > 2 {
        available_version(tokens[2], tokens[1])
    } else {
        None
    };
    let source = if tokens.len() > 3 {
        source_name(tokens[3])
    } else {
        None
    };
    Some(
        WingetPackage {
            name: string_of(trim_chars(parts[0])),
            id: string_of(tokens[0]),
            version: string_of(tokens[1]),
            available_version: available,
            source,
        },
    )
}

/// The fallback pass: the records of those of `lines` that give one, in line
/// order.
pub fn fallback_pass(lines: &[&[char]]) -> (records: Vec<WingetPackage>)
    ensures
        records.deep_view() == fallback_records(texts(lines@)),
{
    let n = lines.len();
    let mut records: Vec<WingetPackage> = Vec::new();
    let mut i: usize = 0;
    assert(texts(lines@).take(0) == Seq::<Seq<char>>::empty());
    assert(records.deep_view() == Seq::<PackageView>::empty());
    while i < n
        invariant
            n == lines@.len(),
            i <= n,
            records.deep_view() == fallback_records(texts(lines@).take(i as int)),
        decreases n - i,
    {
        let ghost before = records.deep_view();
        proof {
            texts(lines@).lemma_filter_map_take_succ(
                |line: Seq<char>| fallback_record(line),
                i as int,
            );
        }
        match fallback_row(lines[i]) {
            Some(record) => {
                records.push(record);
                assert(records.deep_view() == before + seq![record@]);
            },
            None => {
                assert(before + Seq::<PackageView>::empty() == before);
            },
        }
        i += 1;
    }
    assert(texts(lines@).take(n as int) == texts(lines@));
    records
}

} // verus!
