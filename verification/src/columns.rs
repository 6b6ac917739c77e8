//! Finding the header line of a listing and the offsets at which its columns
//! start.

use vstd::prelude::*;
use crate::chars::{chars_of, owned_texts, texts};
use crate::search::{contains, contains_chars, find, find_chars, lemma_find_is_first};

verus! {

broadcast use {vstd::seq_lib::to_multiset_build, vstd::seq_lib::to_multiset_insert};

/// The five columns of a listing, in the order in which a cell is claimed
/// when two of them start at the same offset.
#[derive(Debug, Clone, Copy, PartialEq, Eq, Structural)]
pub enum Column {
    Name,
    Id,
    Version,
    Available,
    Source,
}

/// Closes the last column: larger than any realistic line is long.
pub const SENTINEL: usize = 999;

impl Column {
    /// The spellings under which a header may name this column, in the order
    /// in which they are tried.
    pub open spec fn spellings(self) -> Seq<Seq<char>> {
        match self {
            Column::Name => seq!["Name"@, "Ad"@, "İsim"@],
            Column::Id => seq!["Id"@, "Kimlik"@],
            Column::Version => seq!["Version"@, "Sürüm"@],
            Column::Available => seq!["Available"@, "Kullanılabilir"@],
            Column::Source => seq!["Source"@, "Kaynak"@],
        }
    }

    /// Where this column is taken to start when the header does not name it.
    pub open spec fn default_offset(self) -> int {
        match self {
            Column::Name => 0,
            Column::Id => 30,
            Column::Version => 60,
            Column::Available => 80,
            Column::Source => 100,
        }
    }

    /// The spellings of this column, as characters.
    pub fn keywords(self) -> (out: Vec<Vec<char>>)
        ensures
            owned_texts(out@) == self.spellings(),
    {
        let mut out: Vec<Vec<char>> = Vec::new();
        match self {
            Column::Name => {
                out.push(chars_of("Name"));
                out.push(chars_of("Ad"));
                out.push(chars_of("İsim"));
            },
            Column::Id => {
                out.push(chars_of("Id"));
                out.push(chars_of("Kimlik"));
            },
            Column::Version => {
                out.push(chars_of("Version"));
                out.push(chars_of("Sürüm"));
            },
            Column::Available => {
                out.push(chars_of("Available"));
                out.push(chars_of("Kullanılabilir"));
            },
            Column::Source => {
                out.push(chars_of("Source"));
                out.push(chars_of("Kaynak"));
            },
        }
        assert(owned_texts(out@) =~= self.spellings());
        out
    }

    /// The offset used for this column when the header does not name it.
    pub fn fallback_offset(self) -> (offset: usize)
        ensures
            offset == self.default_offset(),
    {
        match self {
            Column::Name => 0,
            Column::Id => 30,
            Column::Version => 60,
            Column::Available => 80,
            Column::Source => 100,
        }
    }
}

/// The words by which a header line is recognised.
pub open spec fn header_keywords() -> Seq<Seq<char>> {
    seq!["Name"@, "Id"@, "Version"@, "Ad"@, "Kimlik"@, "Sürüm"@, "İsim"@]
}

/// How many of `keywords` stand somewhere in `line`.
pub open spec fn keyword_hits(line: Seq<char>, keywords: Seq<Seq<char>>) -> nat {
    keywords.filter(|k: Seq<char>| contains(line, k)).len()
}

/// Whether `line` looks like a header: at least two of the header keywords
/// stand in it.
pub open spec fn is_header(line: Seq<char>) -> bool {
    keyword_hits(line, header_keywords()) >= 2
}

/// The index of the first header line among `lines` from `from` on.
pub open spec fn header_from(lines: Seq<Seq<char>>, from: int) -> Option<int>
    decreases lines.len() - from + 1,
{
    if from < 0 || from >= lines.len() {
        None
    } else if is_header(lines[from]) {
        Some(from)
    } else {
        header_from(lines, from + 1)
    }
}

/// The index of the first header line among `lines`.
pub open spec fn header_index(lines: Seq<Seq<char>>) -> Option<int> {
    header_from(lines, 0)
}

/// The header index is that of the topmost line that looks like a header,
/// whatever follows it; there is none exactly when no line looks like one.
pub proof fn lemma_header_is_first(lines: Seq<Seq<char>>, from: int)
    requires
        0 <= from,
    ensures
        match header_from(lines, from) {
            Some(h) => {
                &&& from <= h < lines.len()
                &&& is_header(lines[h])
                &&& forall|j: int| from <= j < h ==> !is_header(lines[j])
            },
            None => forall|j: int| from <= j < lines.len() ==> !is_header(lines[j]),
        },
    decreases lines.len() - from + 1,
{
    if from < lines.len() && !is_header(lines[from]) {
        lemma_header_is_first(lines, from + 1);
    }
}

/// The header keywords, as characters.
pub fn header_keyword_chars() -> (out: Vec<Vec<char>>)
    ensures
        owned_texts(out@) == header_keywords(),
{
    let mut out: Vec<Vec<char>> = Vec::new();
    out.push(chars_of("Name"));
    out.push(chars_of("Id"));
    out.push(chars_of("Version"));
    out.push(chars_of("Ad"));
    out.push(chars_of("Kimlik"));
    out.push(chars_of("Sürüm"));
    out.push(chars_of("İsim"));
    assert(owned_texts(out@) =~= header_keywords());
    out
}

/// Counts the keywords that stand somewhere in `line`.
pub fn count_keywords(line: &[char], keywords: &Vec<Vec<char>>) -> (hits: usize)
    ensures
        hits == keyword_hits(line@, owned_texts(keywords@)),
{
    let n = keywords.len();
    let mut hits: usize = 0;
    let mut i: usize = 0;
    assert(owned_texts(keywords@).take(0) == Seq::<Seq<char>>::empty());
    while i < n
        invariant
            n == keywords@.len(),
            i <= n,
            hits <= i,
            hits == keyword_hits(line@, owned_texts(keywords@).take(i as int)),
        decreases n - i,
    {
        proof {
            let seen = owned_texts(keywords@).take(i as int);
            assert(owned_texts(keywords@).take(i + 1) == seen.push(keywords@[i as int]@));
            seen.lemma_filter_push(keywords@[i as int]@, |k: Seq<char>| contains(line@, k));
        }
        if contains_chars(line, keywords[i].as_slice()) {
            hits += 1;
        }
        i += 1;
    }
    assert(owned_texts(keywords@).take(n as int) == owned_texts(keywords@));
    hits
}

/// The index of the first line that looks like a header, if any does.
pub fn find_header(lines: &Vec<&[char]>) -> (found: Option<usize>)
    ensures
        match found {
            Some(h) => {
                &&& header_index(texts(lines@)) == Some(h as int)
                &&& h < lines@.len()
                &&& is_header(lines@[h as int]@)
                &&& forall|j: int| 0 <= j < h ==> !is_header(#[trigger] lines@[j]@)
            },
            None => {
                &&& header_index(texts(lines@)) is None
                &&& forall|j: int| 0 <= j < lines@.len() ==> !is_header(#[trigger] lines@[j]@)
            },
        },
{
    let keywords = header_keyword_chars();
    let n = lines.len();
    let mut i: usize = 0;
    while i < n
        invariant
            n == lines@.len(),
            i <= n,
            owned_texts(keywords@) == header_keywords(),
            header_index(texts(lines@)) == header_from(texts(lines@), i as int),
            forall|j: int| 0 <= j < i ==> !is_header(#[trigger] lines@[j]@),
        decreases n - i,
    {
        assert(texts(lines@)[i as int] == lines@[i as int]@);
        if count_keywords(lines[i], &keywords) >= 2 {
            return Some(i);
        }
        i += 1;
    }
    None
}

/// The offset of the first of `spellings` that stands in `header`, at its
/// first occurrence; `fallback` where none of them does.
pub open spec fn keyword_offset(header: Seq<char>, spellings: Seq<Seq<char>>, fallback: int) -> int
    decreases spellings.len(),
{
    if spellings.len() == 0 {
        fallback
    } else {
        match find(header, spellings[0]) {
            Some(at) => at,
            None => keyword_offset(header, spellings.drop_first(), fallback),
        }
    }
}

/// Where `header` puts the start of `column`.
pub open spec fn column_offset(header: Seq<char>, column: Column) -> int {
    keyword_offset(header, column.spellings(), column.default_offset())
}

/// A column offset is a position in the header, or the fallback.
pub proof fn lemma_keyword_offset_range(header: Seq<char>, spellings: Seq<Seq<char>>, fallback: int)
    ensures
        keyword_offset(header, spellings, fallback) == fallback || 0 <= keyword_offset(
            header,
            spellings,
            fallback,
        ) <= header.len(),
    decreases spellings.len(),
{
    if spellings.len() > 0 {
        lemma_find_is_first(header, spellings[0]);
        lemma_keyword_offset_range(header, spellings.drop_first(), fallback);
    }
}

/// Where each of the five columns starts, in characters from the start of
/// the line.
#[derive(Debug, Clone, Copy, PartialEq, Eq, Structural)]
pub struct ColumnOffsets {
    pub name: usize,
    pub id: usize,
    pub version: usize,
    pub available: usize,
    pub source: usize,
}

impl ColumnOffsets {
    /// The offset of `column`.
    pub open spec fn of(self, column: Column) -> int {
        match column {
            Column::Name => self.name as int,
            Column::Id => self.id as int,
            Column::Version => self.version as int,
            Column::Available => self.available as int,
            Column::Source => self.source as int,
        }
    }

    /// The five offsets, in column order.
    pub open spec fn as_seq(self) -> Seq<usize> {
        seq![self.name, self.id, self.version, self.available, self.source]
    }

    /// Whether a column starts at `offset`.
    pub open spec fn has(self, offset: int) -> bool {
        ||| self.name == offset
        ||| self.id == offset
        ||| self.version == offset
        ||| self.available == offset
        ||| self.source == offset
    }

    /// Whether no two columns start at the same offset.
    pub open spec fn distinct(self) -> bool {
        &&& self.name != self.id
        &&& self.name != self.version
        &&& self.name != self.available
        &&& self.name != self.source
        &&& self.id != self.version
        &&& self.id != self.available
        &&& self.id != self.source
        &&& self.version != self.available
        &&& self.version != self.source
        &&& self.available != self.source
    }

    /// Whether every column starts before the sentinel.
    pub open spec fn before_sentinel(self) -> bool {
        &&& self.name < SENTINEL
        &&& self.id < SENTINEL
        &&& self.version < SENTINEL
        &&& self.available < SENTINEL
        &&& self.source < SENTINEL
    }
}

/// The offsets that `header` gives the five columns.
pub open spec fn offsets_of(header: Seq<char>) -> ColumnOffsets {
    ColumnOffsets {
        name: column_offset(header, Column::Name) as usize,
        id: column_offset(header, Column::Id) as usize,
        version: column_offset(header, Column::Version) as usize,
        available: column_offset(header, Column::Available) as usize,
        source: column_offset(header, Column::Source) as usize,
    }
}

/// A header shorter than the sentinel puts every column before the
/// sentinel.
pub proof fn lemma_short_header_offsets(header: Seq<char>)
    requires
        header.len() < SENTINEL,
    ensures
        offsets_of(header).before_sentinel(),
{
    lemma_keyword_offset_range(header, Column::Name.spellings(), Column::Name.default_offset());
    lemma_keyword_offset_range(header, Column::Id.spellings(), Column::Id.default_offset());
    lemma_keyword_offset_range(
        header,
        Column::Version.spellings(),
        Column::Version.default_offset(),
    );
    lemma_keyword_offset_range(
        header,
        Column::Available.spellings(),
        Column::Available.default_offset(),
    );
    lemma_keyword_offset_range(header, Column::Source.spellings(), Column::Source.default_offset());
}

/// The offset of the first of `keywords` that stands in `header`, or
/// `fallback`.
pub fn locate_keyword(header: &[char], keywords: &Vec<Vec<char>>, fallback: usize) -> (offset: usize)
    ensures
        offset == keyword_offset(header@, owned_texts(keywords@), fallback as int),
{
    let n = keywords.len();
    let mut i: usize = 0;
    assert(owned_texts(keywords@).skip(0) == owned_texts(keywords@));
    while i < n
        invariant
            n == keywords@.len(),
            i <= n,
            keyword_offset(header@, owned_texts(keywords@), fallback as int) == keyword_offset(
                header@,
                owned_texts(keywords@).skip(i as int),
                fallback as int,
            ),
        decreases n - i,
    {
        assert(owned_texts(keywords@).skip(i as int).drop_first() == owned_texts(keywords@).skip(
            i + 1,
        ));
        match find_chars(header, keywords[i].as_slice()) {
            Some(at) => {
                return at;
            },
            None => {},
        }
        i += 1;
    }
    fallback
}

/// Where `header` puts the start of `column`.
pub fn locate_column(header: &[char], column: Column) -> (offset: usize)
    ensures
        offset == column_offset(header@, column),
{
    let keywords = column.keywords();
    locate_keyword(header, &keywords, column.fallback_offset())
}

/// The offsets of the five columns as `header` gives them; a column that the
/// header does not name keeps its default.
pub fn resolve_columns(header: &[char]) -> (offsets: ColumnOffsets)
    ensures
        offsets == offsets_of(header@),
        forall|column: Column| offsets.of(column) == column_offset(header@, column),
{
    let offsets = ColumnOffsets {
        name: locate_column(header, Column::Name),
        id: locate_column(header, Column::Id),
        version: locate_column(header, Column::Version),
        available: locate_column(header, Column::Available),
        source: locate_column(header, Column::Source),
    };
    assert forall|column: Column| offsets.of(column) == column_offset(header@, column) by {
        match column {
            Column::Name => {},
            Column::Id => {},
            Column::Version => {},
            Column::Available => {},
            Column::Source => {},
        }
    }
    offsets
}

/// Whether `s` is in ascending order.
pub open spec fn ascending(s: Seq<usize>) -> bool {
    forall|i: int, j: int| 0 <= i <= j < s.len() ==> s[i] <= s[j]
}

/// Whether `bounds` is the boundary list of `offsets`: the five offsets in
/// ascending order, closed by the sentinel.
pub open spec fn is_boundary_list(bounds: Seq<usize>, offsets: ColumnOffsets) -> bool {
    &&& bounds.len() == 6
    &&& ascending(bounds.take(5))
    &&& bounds.take(5).to_multiset() == offsets.as_seq().to_multiset()
    &&& bounds[5] == SENTINEL
}

/// Whether one of the first five of `bounds` is `offset`.
pub open spec fn has_boundary(bounds: Seq<usize>, offset: int) -> bool {
    ||| bounds[0] == offset
    ||| bounds[1] == offset
    ||| bounds[2] == offset
    ||| bounds[3] == offset
    ||| bounds[4] == offset
}

/// Every boundary before the sentinel is the offset of a column, and every
/// column's offset is a boundary.
pub proof fn lemma_boundary_members(bounds: Seq<usize>, offsets: ColumnOffsets)
    requires
        is_boundary_list(bounds, offsets),
    ensures
        forall|i: int| 0 <= i < 5 ==> offsets.has(#[trigger] bounds[i] as int),
        forall|column: Column| has_boundary(bounds, #[trigger] offsets.of(column)),
{
    let five = bounds.take(5);
    let all = offsets.as_seq();
    assert forall|i: int| 0 <= i < 5 implies offsets.has(#[trigger] bounds[i] as int) by {
        assert(five[i] == bounds[i]);
        assert(five.contains(five[i]));
        vstd::seq_lib::to_multiset_contains(five, five[i]);
        vstd::seq_lib::to_multiset_contains(all, five[i]);
        let k = choose|k: int| 0 <= k < all.len() && all[k] == five[i];
        assert(0 <= k < 5);
    }
    assert forall|column: Column| has_boundary(bounds, #[trigger] offsets.of(column)) by {
        let k: int = match column {
            Column::Name => 0,
            Column::Id => 1,
            Column::Version => 2,
            Column::Available => 3,
            Column::Source => 4,
        };
        assert(all[k] == offsets.of(column));
        assert(all.contains(all[k]));
        vstd::seq_lib::to_multiset_contains(all, all[k]);
        vstd::seq_lib::to_multiset_contains(five, all[k]);
        let i = choose|i: int| 0 <= i < five.len() && five[i] == all[k];
        assert(bounds[i] == five[i]);
    }
}

/// Where every column starts before the sentinel, all six boundaries are in
/// ascending order: the sentinel is the greatest of them.
pub proof fn lemma_boundaries_ascending(bounds: Seq<usize>, offsets: ColumnOffsets)
    requires
        is_boundary_list(bounds, offsets),
        offsets.before_sentinel(),
    ensures
        ascending(bounds),
{
    lemma_boundary_members(bounds, offsets);
    assert forall|i: int, j: int| 0 <= i <= j < bounds.len() implies bounds[i] <= bounds[j] by {
        if j < 5 {
            assert(bounds.take(5)[i] <= bounds.take(5)[j]);
        } else if i < 5 {
            assert(offsets.has(bounds[i] as int));
        }
    }
}

/// Puts `value` into the ascending `sorted`, keeping it ascending.
fn insert_ascending(sorted: &mut Vec<usize>, value: usize)
    requires
        ascending(old(sorted)@),
    ensures
        ascending(final(sorted)@),
        final(sorted)@.len() == old(sorted)@.len() + 1,
        final(sorted)@.to_multiset() == old(sorted)@.to_multiset().insert(value),
{
    let n = sorted.len();
    let mut at: usize = 0;
    while at < n && sorted[at] <= value
        invariant
            n == sorted@.len(),
            at <= n,
            sorted@ == old(sorted)@,
            forall|j: int| 0 <= j < at ==> sorted@[j] <= value,
        decreases n - at,
    {
        at += 1;
    }
    sorted.insert(at, value);
}

/// The boundaries between the columns: the five offsets in ascending order,
/// then the sentinel that closes the last column.
pub fn column_boundaries(offsets: &ColumnOffsets) -> (bounds: Vec<usize>)
    ensures
        is_boundary_list(bounds@, *offsets),
        bounds@.len() == 6,
        ascending(bounds@.take(5)),
        bounds@[5] == SENTINEL,
        offsets.before_sentinel() ==> ascending(bounds@),
{
    let mut bounds: Vec<usize> = Vec::new();
    insert_ascending(&mut bounds, offsets.name);
    insert_ascending(&mut bounds, offsets.id);
    insert_ascending(&mut bounds, offsets.version);
    insert_ascending(&mut bounds, offsets.available);
    insert_ascending(&mut bounds, offsets.source);
    let ghost five = bounds@;
    bounds.push(SENTINEL);
    proof {
        assert(bounds@.take(5) == five);
        let s0 = Seq::<usize>::empty();
        let s1 = s0.push(offsets.name);
        let s2 = s1.push(offsets.id);
        let s3 = s2.push(offsets.version);
        let s4 = s3.push(offsets.available);
        let s5 = s4.push(offsets.source);
        assert(s5 == offsets.as_seq());
        assert(five.to_multiset() == s5.to_multiset());
        if offsets.before_sentinel() {
            lemma_boundaries_ascending(bounds@, *offsets);
        }
    }
    bounds
}

/// The column offsets of one listing together with the boundaries at which
/// its lines are cut. The boundaries are always those of the offsets.
pub struct ColumnLayout {
    offsets: ColumnOffsets,
    bounds: Vec<usize>,
}

impl ColumnLayout {
    #[verifier::type_invariant]
    spec fn well_formed(&self) -> bool {
        is_boundary_list(self.bounds@, self.offsets)
    }

    /// The offsets of the five columns.
    pub closed spec fn offsets(&self) -> ColumnOffsets {
        self.offsets
    }

    /// The boundaries: six of them, the last being the sentinel.
    pub closed spec fn bounds(&self) -> Seq<usize> {
        self.bounds@
    }

    /// The layout for the given offsets.
    pub fn new(offsets: ColumnOffsets) -> (layout: Self)
        ensures
            layout.offsets() == offsets,
            is_boundary_list(layout.bounds(), offsets),
            offsets.before_sentinel() ==> ascending(layout.bounds()),
    {
        let bounds = column_boundaries(&offsets);
        ColumnLayout { offsets, bounds }
    }

    /// The layout that `header` describes. For a header shorter than the
    /// sentinel all six boundaries are in ascending order.
    pub fn from_header(header: &[char]) -> (layout: Self)
        ensures
            layout.offsets() == offsets_of(header@),
            is_boundary_list(layout.bounds(), layout.offsets()),
            header@.len() < SENTINEL ==> ascending(layout.bounds()),
    {
        proof {
            if header@.len() < SENTINEL {
                lemma_short_header_offsets(header@);
            }
        }
        ColumnLayout::new(resolve_columns(header))
    }

    /// The offsets of the five columns.
    pub fn column_offsets(&self) -> (offsets: ColumnOffsets)
        ensures
            offsets == self.offsets(),
    {
        self.offsets
    }

    /// The boundaries: the five offsets in ascending order, then the
    /// sentinel.
    pub fn boundaries(&self) -> (bounds: &Vec<usize>)
        ensures
            bounds@ == self.bounds(),
            is_boundary_list(bounds@, self.offsets()),
            self.offsets().before_sentinel() ==> ascending(bounds@),
    {
        proof {
            use_type_invariant(self);
            if self.offsets.before_sentinel() {
                lemma_boundaries_ascending(self.bounds@, self.offsets);
            }
        }
        &self.bounds
    }
}

} // verus!
