//! From the text that `winget` prints to package records.

use vstd::prelude::*;
use vstd::slice::slice_subrange;
use crate::chars::{chars_of, texts, trim};
use crate::columns::{find_header, header_index, offsets_of, ColumnLayout};
use crate::fallback::{
    fallback_pass,
    fallback_record,
    fallback_records,
    lemma_fallback_record_named,
    lemma_fallback_shows_values_only,
};
use crate::lines::{lines, split_lines};
use crate::package::{PackageView, WingetPackage};
use crate::rows::{
    fixed_width_pass,
    fixed_width_records,
    lemma_row_needs_name_and_id,
    lemma_row_shows_values_only,
    row_record,
    shows_values_only,
};

verus! {

/// The records that a listing holds. Without a header line there are none.
/// Else the lines below the header are read at the column offsets that the
/// header gives; only where that yields no record at all are they read
/// again by the fallback pass.
pub open spec fn parse(output: Seq<char>) -> Seq<PackageView> {
    let all = lines(output);
    match header_index(all) {
        None => Seq::empty(),
        Some(h) => {
            let data = all.skip(h + 1);
            let fixed = fixed_width_records(data, offsets_of(all[h]));
            if fixed.len() > 0 {
                fixed
            } else {
                fallback_records(data)
            }
        },
    }
}

/// The fallback pass decides the result only where the fixed-width pass
/// found nothing: a listing without a header holds no record; with a header
/// it holds the records of the fixed-width pass where there are any, else
/// those of the fallback pass, which may be none.
pub proof fn lemma_fallback_only_after_empty_pass(output: Seq<char>)
    ensures
        match header_index(lines(output)) {
            None => parse(output).len() == 0,
            Some(h) => {
                let data = lines(output).skip(h + 1);
                let fixed = fixed_width_records(data, offsets_of(lines(output)[h]));
                &&& fixed.len() > 0 ==> parse(output) == fixed
                &&& fixed.len() == 0 ==> parse(output) == fallback_records(data)
                &&& data.len() == 0 ==> parse(output).len() == 0
            },
        },
{
}

/// Whether `record` has a name and an identifier that are not empty after
/// trimming.
pub open spec fn is_named(record: PackageView) -> bool {
    trim(record.name).len() > 0 && trim(record.id).len() > 0
}

/// Every record that a listing holds has a name and an identifier that are
/// not empty after trimming.
pub proof fn lemma_records_are_named(output: Seq<char>)
    ensures
        forall|i: int| 0 <= i < parse(output).len() ==> is_named(#[trigger] parse(output)[i]),
{
    let all = lines(output);
    match header_index(all) {
        None => {},
        Some(h) => {
            let data = all.skip(h + 1);
            let offsets = offsets_of(all[h]);
            assert forall|i: int| 0 <= i < parse(output).len() implies is_named(
                #[trigger] parse(output)[i],
            ) by {
                let record = parse(output)[i];
                if fixed_width_records(data, offsets).len() > 0 {
                    let f = |line: Seq<char>| row_record(line, offsets);
                    assert(data.filter_map(f).contains(record));
                    data.lemma_filter_map_contains(f, record);
                    let line = choose|line: Seq<char>| #[trigger]
                        data.contains(line) && f(line) == Some(record);
                    lemma_row_needs_name_and_id(line, offsets);
                } else {
                    let f = |line: Seq<char>| fallback_record(line);
                    assert(data.filter_map(f).contains(record));
                    data.lemma_filter_map_contains(f, record);
                    let line = choose|line: Seq<char>| #[trigger]
                        data.contains(line) && f(line) == Some(record);
                    lemma_fallback_record_named(line);
                }
            }
        },
    }
}

/// No record that a listing holds shows an available version that is empty,
/// repeats the installed version or holds a run of dashes, nor a source that
/// is empty or holds a run of dashes, whichever pass made it.
pub proof fn lemma_records_show_values_only(output: Seq<char>)
    ensures
        forall|i: int|
            0 <= i < parse(output).len() ==> shows_values_only(#[trigger] parse(output)[i]),
{
    let all = lines(output);
    match header_index(all) {
        None => {},
        Some(h) => {
            let data = all.skip(h + 1);
            let offsets = offsets_of(all[h]);
            assert forall|i: int| 0 <= i < parse(output).len() implies shows_values_only(
                #[trigger] parse(output)[i],
            ) by {
                let record = parse(output)[i];
                if fixed_width_records(data, offsets).len() > 0 {
                    let f = |line: Seq<char>| row_record(line, offsets);
                    assert(data.filter_map(f).contains(record));
                    data.lemma_filter_map_contains(f, record);
                    let line = choose|line: Seq<char>| #[trigger]
                        data.contains(line) && f(line) == Some(record);
                    lemma_row_shows_values_only(line, offsets);
                } else {
                    let f = |line: Seq<char>| fallback_record(line);
                    assert(data.filter_map(f).contains(record));
                    data.lemma_filter_map_contains(f, record);
                    let line = choose|line: Seq<char>| #[trigger]
                        data.contains(line) && f(line) == Some(record);
                    lemma_fallback_shows_values_only(line);
                }
            }
        },
    }
}

/// Parses the text that a `winget` list, search or upgrade command printed.
/// A listing without a header line, or without a line that gives a record,
/// yields an empty list.
pub fn parse_winget_output(output: &str) -> (packages: Vec<WingetPackage>)
    ensures
        packages.deep_view() == parse(output@),
        header_index(lines(output@)) is None ==> packages@.len() == 0,
        forall|i: int|
            0 <= i < packages@.len() ==> is_named(#[trigger] packages@[i]@) && shows_values_only(
                packages@[i]@,
            ),
{
    let text = chars_of(output);
    let all = split_lines(text.as_slice());
    let n = all.len();
    let packages = match find_header(&all) {
        None => Vec::new(),
        Some(h) => {
            assert(texts(all@)[h as int] == all@[h as int]@);
            let layout = ColumnLayout::from_header(all[h]);
            let data = slice_subrange(all.as_slice(), h + 1, n);
            assert(texts(data@) == texts(all@).skip(h + 1));
            let fixed = fixed_width_pass(data, &layout);
            if fixed.len() > 0 {
                fixed
            } else {
                fallback_pass(data)
            }
        },
    };
    proof {
        lemma_records_are_named(output@);
        lemma_records_show_values_only(output@);
        assert forall|i: int| 0 <= i < packages@.len() implies is_named(
            #[trigger] packages@[i]@,
        ) && shows_values_only(packages@[i]@) by {
            assert(packages.deep_view()[i] == packages@[i]@);
            assert(is_named(parse(output@)[i]));
            assert(shows_values_only(parse(output@)[i]));
        }
    }
    packages
}

} // verus!
