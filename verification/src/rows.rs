//! The fixed-width pass: cutting a data line at the column boundaries and
//! making a record of its cells.

use vstd::prelude::*;
use vstd::slice::slice_subrange;
use crate::chars::{
    char_slice,
    lemma_trim_shape,
    same_chars,
    slice_chars,
    string_of,
    texts,
    trim,
    trim_chars,
};
use crate::columns::{
    has_boundary,
    is_boundary_list,
    lemma_boundary_members,
    Column,
    ColumnLayout,
    ColumnOffsets,
    SENTINEL,
};
use crate::package::{optional_text, PackageView, WingetPackage};
use crate::search::{contains, contains_chars};

verus! {

/// Whether `line` carries no data: it is blank, or it draws a table rule,
/// which after trimming starts with a hyphen, an em dash or a plus sign.
pub open spec fn is_separator(line: Seq<char>) -> bool {
    let t = trim(line);
    t.len() == 0 || t[0] == '-' || t[0] == '\u{2014}' || t[0] == '+'
}

/// `best`, or `candidate` where that lies beyond `start` and nearer to it.
pub open spec fn nearer(best: Option<int>, candidate: int, start: int) -> Option<int> {
    if candidate > start && (best is None || candidate < best.unwrap()) {
        Some(candidate)
    } else {
        best
    }
}

/// Where a column that starts at `start` ends: at the nearest column offset
/// beyond `start`, or at the sentinel where no column starts beyond it.
pub open spec fn column_end(offsets: ColumnOffsets, start: int) -> int {
    let best = nearer(
        nearer(
            nearer(
                nearer(nearer(None, offsets.name as int, start), offsets.id as int, start),
                offsets.version as int,
                start,
            ),
            offsets.available as int,
            start,
        ),
        offsets.source as int,
        start,
    );
    match best {
        Some(end) => end,
        None => SENTINEL as int,
    }
}

/// The column that claims the cell starting at `start`: the first of the
/// five, in column order, that starts there.
pub open spec fn owner(offsets: ColumnOffsets, start: int) -> Option<Column> {
    if start == offsets.name {
        Some(Column::Name)
    } else if start == offsets.id {
        Some(Column::Id)
    } else if start == offsets.version {
        Some(Column::Version)
    } else if start == offsets.available {
        Some(Column::Available)
    } else if start == offsets.source {
        Some(Column::Source)
    } else {
        None
    }
}

/// Whether `column` starts where a column before it, in column order, starts
/// too. Such a column gets no cell.
pub open spec fn shadowed(offsets: ColumnOffsets, column: Column) -> bool {
    owner(offsets, offsets.of(column)) != Some(column)
}

/// The text of `line` in `column`, trimmed: what stands from the column's
/// offset up to the start of the next column. Empty where the line is
/// shorter than the offset, and for a shadowed column.
pub open spec fn cell(line: Seq<char>, offsets: ColumnOffsets, column: Column) -> Seq<char> {
    if shadowed(offsets, column) {
        Seq::empty()
    } else {
        trim(char_slice(line, offsets.of(column), column_end(offsets, offsets.of(column))))
    }
}

/// The run of hyphens that marks a cell without a value.
pub open spec fn dashes() -> Seq<char> {
    seq!['-', '-', '-']
}

/// The available version that a row shows: none where the cell is empty,
/// repeats the installed version or holds a run of dashes.
pub open spec fn available_of(available: Seq<char>, installed: Seq<char>) -> Option<Seq<char>> {
    if available.len() == 0 || available == installed || contains(available, dashes()) {
        None
    } else {
        Some(available)
    }
}

/// The source that a row shows: none where the cell is empty or holds a run
/// of dashes.
pub open spec fn source_of(source: Seq<char>) -> Option<Seq<char>> {
    if source.len() == 0 || contains(source, dashes()) {
        None
    } else {
        Some(source)
    }
}

/// The record that `line` gives under `offsets`, if it gives one: a line
/// that is no separator and has text in both its name and its identifier
/// column.
pub open spec fn row_record(line: Seq<char>, offsets: ColumnOffsets) -> Option<PackageView> {
    let name = cell(line, offsets, Column::Name);
    let id = cell(line, offsets, Column::Id);
    let version = cell(line, offsets, Column::Version);
    if is_separator(line) || name.len() == 0 || id.len() == 0 {
        None
    } else {
        Some(
            PackageView {
                name,
                id,
                version,
                available_version: available_of(cell(line, offsets, Column::Available), version),
                source: source_of(cell(line, offsets, Column::Source)),
            },
        )
    }
}

/// The records of the fixed-width pass over `lines`, in line order.
pub open spec fn fixed_width_records(lines: Seq<Seq<char>>, offsets: ColumnOffsets) -> Seq<
    PackageView,
> {
    lines.filter_map(|line: Seq<char>| row_record(line, offsets))
}

/// A line that ends at or before the offset of a column has an empty cell
/// there.
pub proof fn lemma_short_line_empty_cell(line: Seq<char>, offsets: ColumnOffsets, column: Column)
    requires
        line.len() <= offsets.of(column),
    ensures
        cell(line, offsets, column).len() == 0,
{
}

/// A line gives a record exactly when it is no separator and has text in
/// its name cell and in its identifier cell; name and identifier of the
/// record are then not empty after trimming.
pub proof fn lemma_row_needs_name_and_id(line: Seq<char>, offsets: ColumnOffsets)
    ensures
        row_record(line, offsets) is Some <==> !is_separator(line) && cell(
            line,
            offsets,
            Column::Name,
        ).len() > 0 && cell(line, offsets, Column::Id).len() > 0,
        row_record(line, offsets) matches Some(record) ==> trim(record.name).len() > 0 && trim(
            record.id,
        ).len() > 0,
{
    lemma_cell_is_trimmed(line, offsets, Column::Name);
    lemma_cell_is_trimmed(line, offsets, Column::Id);
}

/// Whether what `record` shows as available version and as source are
/// values: an available version is not empty, differs from the installed
/// version and holds no run of dashes; a source is not empty and holds no
/// run of dashes.
pub open spec fn shows_values_only(record: PackageView) -> bool {
    &&& record.available_version matches Some(available) ==> available.len() > 0 && available
        != record.version && !contains(available, dashes())
    &&& record.source matches Some(source) ==> source.len() > 0 && !contains(source, dashes())
}

/// A record of the fixed-width pass shows no available version that is
/// empty, repeats the installed version or holds a run of dashes, and no
/// source that is empty or holds a run of dashes.
pub proof fn lemma_row_shows_values_only(line: Seq<char>, offsets: ColumnOffsets)
    ensures
        row_record(line, offsets) matches Some(record) ==> shows_values_only(record),
{
}

/// A cell holds trimmed text: trimming it again changes nothing.
pub proof fn lemma_cell_is_trimmed(line: Seq<char>, offsets: ColumnOffsets, column: Column)
    ensures
        trim(cell(line, offsets, column)) == cell(line, offsets, column),
{
    if !shadowed(offsets, column) {
        lemma_trim_shape(
            char_slice(line, offsets.of(column), column_end(offsets, offsets.of(column))),
        );
    }
}

/// The five trimmed slices that consecutive boundaries cut out of `line`.
pub open spec fn column_texts(line: Seq<char>, bounds: Seq<usize>) -> Seq<Seq<char>> {
    Seq::new(5, |i: int| trim(char_slice(line, bounds[i] as int, bounds[i + 1] as int)))
}

/// What `column` holds once the first `upto` slices have gone to their
/// owners: the last of them that it owns, or nothing.
pub open spec fn claimed(
    slices: Seq<Seq<char>>,
    bounds: Seq<usize>,
    offsets: ColumnOffsets,
    column: Column,
    upto: int,
) -> Seq<char>
    decreases upto,
{
    if upto <= 0 {
        Seq::empty()
    } else if owner(offsets, bounds[upto - 1] as int) == Some(column) {
        slices[upto - 1]
    } else {
        claimed(slices, bounds, offsets, column, upto - 1)
    }
}

/// A column that owns none of the first `upto` slices holds nothing.
proof fn lemma_claimed_nothing(
    slices: Seq<Seq<char>>,
    bounds: Seq<usize>,
    offsets: ColumnOffsets,
    column: Column,
    upto: int,
)
    requires
        forall|j: int| 0 <= j < upto ==> owner(offsets, #[trigger] bounds[j] as int) != Some(column),
    ensures
        claimed(slices, bounds, offsets, column, upto) == Seq::<char>::empty(),
    decreases upto,
{
    if upto > 0 {
        lemma_claimed_nothing(slices, bounds, offsets, column, upto - 1);
    }
}

/// A column holds the last slice that it owns.
proof fn lemma_claimed_last(
    slices: Seq<Seq<char>>,
    bounds: Seq<usize>,
    offsets: ColumnOffsets,
    column: Column,
    upto: int,
    last: int,
)
    requires
        0 <= last < upto,
        owner(offsets, bounds[last] as int) == Some(column),
        forall|j: int| last < j < upto ==> owner(offsets, #[trigger] bounds[j] as int) != Some(column),
    ensures
        claimed(slices, bounds, offsets, column, upto) == slices[last],
    decreases upto,
{
    if upto - 1 > last {
        lemma_claimed_last(slices, bounds, offsets, column, upto - 1, last);
    }
}

/// Cutting at consecutive boundaries and handing each slice to the owner of
/// its boundary gives every column its cell.
pub proof fn lemma_claimed_is_cell(
    line: Seq<char>,
    bounds: Seq<usize>,
    offsets: ColumnOffsets,
    column: Column,
)
    requires
        is_boundary_list(bounds, offsets),
    ensures
        claimed(column_texts(line, bounds), bounds, offsets, column, 5) == cell(
            line,
            offsets,
            column,
        ),
{
    let slices = column_texts(line, bounds);
    let start = offsets.of(column);
    lemma_boundary_members(bounds, offsets);
    if shadowed(offsets, column) {
        lemma_claimed_nothing(slices, bounds, offsets, column, 5);
    } else {
        assert(has_boundary(bounds, start));
        let last: int = if bounds[4] == start {
            4
        } else if bounds[3] == start {
            3
        } else if bounds[2] == start {
            2
        } else if bounds[1] == start {
            1
        } else {
            0
        };
        assert(bounds[last] == start);
        assert(forall|i: int| 0 <= i < 5 ==> bounds.take(5)[i] == bounds[i]);
        lemma_claimed_last(slices, bounds, offsets, column, 5, last);
        assert(bounds[last + 1] == column_end(offsets, start)) by {
            if last < 4 {
                assert(bounds[last + 1] > start);
                assert(owner(offsets, bounds[last + 1] as int) is Some);
                assert forall|other: Column| offsets.of(other) > start implies offsets.of(other)
                    >= bounds[last + 1] by {
                    assert(has_boundary(bounds, offsets.of(other)));
                }
                assert(offsets.of(Column::Name) > start ==> offsets.name >= bounds[last + 1]);
                assert(offsets.of(Column::Id) > start ==> offsets.id >= bounds[last + 1]);
                assert(offsets.of(Column::Version) > start ==> offsets.version >= bounds[last
                    + 1]);
                assert(offsets.of(Column::Available) > start ==> offsets.available >= bounds[last
                    + 1]);
                assert(offsets.of(Column::Source) > start ==> offsets.source >= bounds[last + 1]);
            } else {
                assert forall|other: Column| offsets.of(other) <= start by {
                    assert(has_boundary(bounds, offsets.of(other)));
                }
                assert(offsets.of(Column::Name) <= start);
                assert(offsets.of(Column::Id) <= start);
                assert(offsets.of(Column::Version) <= start);
                assert(offsets.of(Column::Available) <= start);
                assert(offsets.of(Column::Source) <= start);
            }
        }
    }
}

/// Where no two columns start at the same offset and all start before the
/// sentinel, every column has a cell, and the cell is what stands between
/// the column's offset and the least boundary beyond it, trimmed.
pub proof fn lemma_cell_reaches_next_boundary(
    line: Seq<char>,
    bounds: Seq<usize>,
    offsets: ColumnOffsets,
    column: Column,
)
    requires
        is_boundary_list(bounds, offsets),
        offsets.distinct(),
        offsets.before_sentinel(),
    ensures
        ({
            let start = offsets.of(column);
            let end = column_end(offsets, start);
            &&& cell(line, offsets, column) == trim(char_slice(line, start, end))
            &&& start < end
            &&& exists|j: int| 0 <= j < 6 && #[trigger] bounds[j] == end
            &&& forall|j: int| 0 <= j < 6 && start < #[trigger] bounds[j] ==> end <= bounds[j]
        }),
{
    let start = offsets.of(column);
    let end = column_end(offsets, start);
    lemma_boundary_members(bounds, offsets);
    assert(forall|i: int| 0 <= i < 5 ==> bounds.take(5)[i] == bounds[i]);
    assert(has_boundary(bounds, start));
    if bounds[4] == start {
        assert forall|other: Column| offsets.of(other) <= start by {
            assert(has_boundary(bounds, offsets.of(other)));
        }
        assert(offsets.of(Column::Name) <= start);
        assert(offsets.of(Column::Id) <= start);
        assert(offsets.of(Column::Version) <= start);
        assert(offsets.of(Column::Available) <= start);
        assert(offsets.of(Column::Source) <= start);
        assert(end == SENTINEL);
        assert(bounds[5] == end);
    } else {
        let at: int = if bounds[3] == start {
            3
        } else if bounds[2] == start {
            2
        } else if bounds[1] == start {
            1
        } else {
            0
        };
        assert(bounds[at] == start);
        assert(offsets.has(bounds[at + 1] as int));
        assert(bounds[at + 1] > start);
        assert forall|other: Column| offsets.of(other) > start implies offsets.of(other)
            >= bounds[at + 1] by {
            assert(has_boundary(bounds, offsets.of(other)));
        }
        assert(offsets.of(Column::Name) > start ==> offsets.name >= bounds[at + 1]);
        assert(offsets.of(Column::Id) > start ==> offsets.id >= bounds[at + 1]);
        assert(offsets.of(Column::Version) > start ==> offsets.version >= bounds[at + 1]);
        assert(offsets.of(Column::Available) > start ==> offsets.available >= bounds[at + 1]);
        assert(offsets.of(Column::Source) > start ==> offsets.source >= bounds[at + 1]);
        assert(end == bounds[at + 1]);
    }
}

/// Tells whether `line` carries no data.
pub fn is_separator_line(line: &[char]) -> (b: bool)
    ensures
        b == is_separator(line@),
{
    let t = trim_chars(line);
    if t.len() == 0 {
        true
    } else {
        let first = t[0];
        first == '-' || first == '\u{2014}' || first == '+'
    }
}

/// The five trimmed slices that the boundaries of `layout` cut out of
/// `line`. A boundary beyond the end of the line gives an empty slice.
pub fn cut_columns<'a>(line: &'a [char], layout: &ColumnLayout) -> (slices: Vec<&'a [char]>)
    ensures
        slices@.len() == 5,
        texts(slices@) == column_texts(line@, layout.bounds()),
        forall|i: int|
            0 <= i < 5 && layout.bounds()[i] >= line@.len() ==> (#[trigger] slices@[i])@.len()
                == 0,
{
    let bounds = layout.boundaries();
    let mut slices: Vec<&'a [char]> = Vec::new();
    let mut i: usize = 0;
    while i < 5
        invariant
            bounds@.len() == 6,
            i <= 5,
            slices@.len() == i,
            forall|j: int|
                0 <= j < i ==> (#[trigger] slices@[j])@ == trim(
                    char_slice(line@, bounds@[j] as int, bounds@[j + 1] as int),
                ),
        decreases 5 - i,
    {
        slices.push(trim_chars(slice_chars(line, bounds[i], bounds[i + 1])));
        i += 1;
    }
    assert(texts(slices@) =~= column_texts(line@, bounds@));
    slices
}

/// The five cells of one line.
pub struct Cells<'a> {
    pub name: &'a [char],
    pub id: &'a [char],
    pub version: &'a [char],
    pub available: &'a [char],
    pub source: &'a [char],
}

impl<'a> Cells<'a> {
    /// The text in the cell of `column`.
    pub open spec fn text(self, column: Column) -> Seq<char> {
        match column {
            Column::Name => self.name@,
            Column::Id => self.id@,
            Column::Version => self.version@,
            Column::Available => self.available@,
            Column::Source => self.source@,
        }
    }
}

/// The cells of `line`: each slice between two boundaries goes to the column
/// that owns the boundary it starts at.
pub fn read_cells<'a>(line: &'a [char], layout: &ColumnLayout) -> (cells: Cells<'a>)
    ensures
        forall|column: Column| cells.text(column) == cell(line@, layout.offsets(), column),
{
    let slices = cut_columns(line, layout);
    let bounds = layout.boundaries();
    let offsets = layout.column_offsets();
    let nothing = slice_subrange(line, 0, 0);
    let mut cells = Cells {
        name: nothing,
        id: nothing,
        version: nothing,
        available: nothing,
        source: nothing,
    };
    let ghost cut = texts(slices@);
    let mut i: usize = 0;
    while i < 5
        invariant
            bounds@.len() == 6,
            slices@.len() == 5,
            cut == texts(slices@),
            i <= 5,
            forall|column: Column|
                #[trigger] cells.text(column) == claimed(cut, bounds@, offsets, column, i as int),
        decreases 5 - i,
    {
        let start = bounds[i];
        let text = slices[i];
        let ghost before = cells;
        if start == offsets.name {
            cells.name = text;
        } else if start == offsets.id {
            cells.id = text;
        } else if start == offsets.version {
            cells.version = text;
        } else if start == offsets.available {
            cells.available = text;
        } else if start == offsets.source {
            cells.source = text;
        }
        proof {
            assert forall|column: Column|
                #[trigger] cells.text(column) == claimed(cut, bounds@, offsets, column, i + 1) by {
                assert(before.text(column) == claimed(cut, bounds@, offsets, column, i as int));
                assert(cut[i as int] == text@);
            }
        }
        i += 1;
    }
    proof {
        assert forall|column: Column| cells.text(column) == cell(line@, offsets, column) by {
            lemma_claimed_is_cell(line@, bounds@, offsets, column);
        }
    }
    cells
}

/// The available version that a row shows, given the text of its
/// available-version cell and of its installed-version cell: none where the
/// former is empty, equals the latter or holds a run of dashes; else the text
/// itself.
pub fn available_version(available: &[char], installed: &[char]) -> (out: Option<String>)
    ensures
        optional_text(out) == available_of(available@, installed@),
        out is None <==> available@.len() == 0 || available@ == installed@ || contains(
            available@,
            dashes(),
        ),
        out matches Some(text) ==> text@ == available@,
{
    let run: [char; 3] = ['-', '-', '-'];
    assert(run@ == dashes());
    if available.len() == 0 || same_chars(available, installed) || contains_chars(
        available,
        run.as_slice(),
    ) {
        None
    } else {
        Some(string_of(available))
    }
}

/// The source that a row shows, given the text of its source cell: none
/// where that is empty or holds a run of dashes; else the text itself.
pub fn source_name(source: &[char]) -> (out: Option<String>)
    ensures
        optional_text(out) == source_of(source@),
        out is None <==> source@.len() == 0 || contains(source@, dashes()),
        out matches Some(text) ==> text@ == source@,
{
    let run: [char; 3] = ['-', '-', '-'];
    assert(run@ == dashes());
    if source.len() == 0 || contains_chars(source, run.as_slice()) {
        None
    } else {
        Some(string_of(source))
    }
}

/// The record that `line` gives under `layout`: one exactly when the line is
/// no separator and both its name cell and its identifier cell hold text.
pub fn parse_row(line: &[char], layout: &ColumnLayout) -> (record: Option<WingetPackage>)
    ensures
        record.deep_view() == row_record(line@, layout.offsets()),
        record is Some <==> !is_separator(line@) && cell(
            line@,
            layout.offsets(),
            Column::Name,
        ).len() > 0 && cell(line@, layout.offsets(), Column::Id).len() > 0,
{
    if is_separator_line(line) {
        return None;
    }
    let cells = read_cells(line, layout);
    proof {
        assert(cells.text(Column::Name) == cell(line@, layout.offsets(), Column::Name));
        assert(cells.text(Column::Id) == cell(line@, layout.offsets(), Column::Id));
        assert(cells.text(Column::Version) == cell(line@, layout.offsets(), Column::Version));
        assert(cells.text(Column::Available) == cell(line@, layout.offsets(), Column::Available));
        assert(cells.text(Column::Source) == cell(line@, layout.offsets(), Column::Source));
    }
    if cells.name.len() == 0 || cells.id.len() == 0 {
        return None;
    }
    Some(
        WingetPackage {
            name: string_of(cells.name),
            id: string_of(cells.id),
            version: string_of(cells.version),
            available_version: available_version(cells.available, cells.version),
            source: source_name(cells.source),
        },
    )
}

/// The fixed-width pass: the records of those of `lines` that give one, in
/// line order.
pub fn fixed_width_pass(lines: &[&[char]], layout: &ColumnLayout) -> (records: Vec<WingetPackage>)
    ensures
        records.deep_view() == fixed_width_records(texts(lines@), layout.offsets()),
{
    let n = lines.len();
    let mut records: Vec<WingetPackage> = Vec::new();
    let mut i: usize = 0;
    assert(texts(lines@).take(0) == Seq::<Seq<char>>::empty());
    assert(records.deep_view() == Seq::<PackageView>::empty());
    while i < n
        invariant
            n == lines@.len(),
            i <= n,
            records.deep_view() == fixed_width_records(
                texts(lines@).take(i as int),
                layout.offsets(),
            ),
        decreases n - i,
    {
        let ghost before = records.deep_view();
        proof {
            texts(lines@).lemma_filter_map_take_succ(
                |line: Seq<char>| row_record(line, layout.offsets()),
                i as int,
            );
        }
        match parse_row(lines[i], layout) {
            Some(record) => {
                records.push(record);
                assert(records.deep_view() == before + seq![record@]);
            },
            None => {
                assert(before + Seq::<PackageView>::empty() == before);
            },
        }
        i += 1;
    }
    assert(texts(lines@).take(n as int) == texts(lines@));
    records
}

} // verus!
