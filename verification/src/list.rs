//! Listing: the table of contents as rows of size, absolute offset and name.
//! The payload region is never read.

use vstd::prelude::*;
use crate::archive::parse;
use crate::archive::parsed;
use crate::archive::parsed_end;
use crate::archive::parses;
use crate::archive::Archive;
use crate::archive::ArchiveView;
use crate::error::ArchiveError;
use crate::source::ByteSource;

verus! {

/// What a listing run is asked to do.
#[derive(Clone, Debug, PartialEq, Eq)]
pub struct Arguments {
    /// FF archive file name
    pub archive: String,
}

/// One row of a listing.
#[derive(Clone, Debug, PartialEq, Eq)]
pub struct TableFileInfo {
    /// Payload length in bytes.
    pub size: u64,
    /// Absolute position of the payload in the archive.
    pub offset: u32,
    pub file_name: String,
}

/// A listing: what a renderer needs to print the table of contents.
#[derive(Clone, Debug, PartialEq, Eq)]
pub struct Listing {
    /// The archive's name, as the run was given it.
    pub archive: String,
    /// Total length of the archive in bytes.
    pub physical_size: u64,
    /// Number of entries, as the header declares it.
    pub file_count: u16,
    /// One row per entry, in table order.
    pub rows: Vec<TableFileInfo>,
}

/// What a row is, as mathematics.
pub struct RowView {
    pub size: int,
    pub offset: int,
    pub file_name: Seq<char>,
}

impl View for TableFileInfo {
    type V = RowView;

    open spec fn view(&self) -> RowView {
        RowView { size: self.size as int, offset: self.offset as int, file_name: self.file_name@ }
    }
}

/// The views of `rows`, in order.
pub open spec fn rows_view(rows: Seq<TableFileInfo>) -> Seq<RowView> {
    Seq::new(rows.len(), |i: int| rows[i]@)
}

/// The row that lists entry `index`: its offset is made absolute, its size
/// and name pass through.
pub open spec fn listed_row(archive: ArchiveView, index: int) -> RowView {
    RowView {
        size: archive.entries[index].size,
        offset: archive.payload_start(index),
        file_name: archive.entries[index].file_name,
    }
}

/// The rows that list `archive`, one per entry and in table order.
pub open spec fn listed_rows(archive: ArchiveView) -> Seq<RowView> {
    Seq::new(archive.entries.len(), |i: int| listed_row(archive, i))
}

/// Whether every absolute offset of `archive` fits a row's 32 bits.
pub open spec fn listable(archive: ArchiveView) -> bool {
    forall|i: int|
        0 <= i < archive.entries.len() ==> #[trigger] archive.payload_start(i) <= u32::MAX
}

/// The absolute offset `data_start + offset`, or `None` if it does not fit 32 bits.
pub fn display_offset(data_start: u16, offset: u32) -> (shown: Option<u32>)
    ensures
        shown.is_some() <==> data_start + offset <= u32::MAX,
        shown.is_some() ==> shown.unwrap() == data_start + offset,
{
    offset.checked_add(data_start as u32)
}

/// The rows of a listing of `archive`, or `OffsetOverflow` if an absolute
/// offset does not fit a row.
pub fn table_contents(archive: &Archive) -> (result: Result<Vec<TableFileInfo>, ArchiveError>)
    ensures
        result.is_ok() <==> listable(archive@),
        match result {
            Ok(rows) => rows_view(rows@) == listed_rows(archive@),
            Err(error) => error == ArchiveError::OffsetOverflow,
        },
{
    let mut rows: Vec<TableFileInfo> = Vec::new();
    let count: usize = archive.entries.len();
    let mut index: usize = 0;
    while index < count
        invariant
            count == archive.entries@.len(),
            index <= count,
            rows@.len() == index,
            forall|i: int| 0 <= i < index ==> #[trigger] archive@.payload_start(i) <= u32::MAX,
            forall|i: int| 0 <= i < index ==> (#[trigger] rows@[i])@ == listed_row(archive@, i),
        decreases count - index,
    {
        let entry = &archive.entries[index];
        let offset: u32 = match display_offset(archive.header.data_start, entry.offset) {
            Some(shown) => shown,
            None => {
                assert(archive@.payload_start(index as int) > u32::MAX);
                return Err(ArchiveError::OffsetOverflow);
            },
        };
        rows.push(
            TableFileInfo { size: entry.size as u64, offset, file_name: entry.file_name.clone() },
        );
        index = index + 1;
    }
    assert(rows_view(rows@) =~= listed_rows(archive@));
    Ok(rows)
}

/// Parses the archive at the cursor and lists it. The cursor ends just past
/// the entry table, unless the table is cut short: then it has not moved.
pub fn run(arguments: &Arguments, source: &mut ByteSource) -> (result: Result<
    Listing,
    ArchiveError,
>)
    ensures
        final(source).bytes() == old(source).bytes(),
        result.is_ok() <==> parses(old(source).bytes(), old(source).cursor()) && listable(
            parsed(old(source).bytes(), old(source).cursor()),
        ),
        final(source).cursor() == if parses(old(source).bytes(), old(source).cursor()) {
            parsed_end(old(source).bytes(), old(source).cursor())
        } else {
            old(source).cursor()
        },
        match result {
            Ok(listing) => {
                let archive = parsed(old(source).bytes(), old(source).cursor());
                &&& listing.archive@ == arguments.archive@
                &&& listing.physical_size == old(source).bytes().len()
                &&& listing.file_count == archive.file_count
                &&& listing.rows@.len() == archive.file_count
                &&& rows_view(listing.rows@) == listed_rows(archive)
            },
            Err(error) => error == if parses(old(source).bytes(), old(source).cursor()) {
                ArchiveError::OffsetOverflow
            } else {
                ArchiveError::ParseError
            },
        },
{
    let archive = match parse(source) {
        Ok(archive) => archive,
        Err(error) => {
            return Err(error);
        },
    };
    let rows = match table_contents(&archive) {
        Ok(rows) => rows,
        Err(error) => {
            return Err(error);
        },
    };
    assert(rows_view(rows@).len() == rows@.len());
    Ok(
        Listing {
            archive: arguments.archive.clone(),
            physical_size: source.len() as u64,
            file_count: archive.header.file_count,
            rows,
        },
    )
}

/// Moving the payload region while the entries stay as they are moves every
/// listed offset by the same distance, the one by which `data_start` moved,
/// and leaves every listed size and name as it was.
pub proof fn lemma_data_start_shifts_every_offset(archive: ArchiveView, moved: ArchiveView)
    requires
        moved.entries == archive.entries,
    ensures
        listed_rows(moved).len() == listed_rows(archive).len(),
        forall|i: int|
            0 <= i < listed_rows(archive).len() ==> {
                &&& (#[trigger] listed_rows(moved)[i]).offset - listed_rows(archive)[i].offset
                    == moved.data_start - archive.data_start
                &&& listed_rows(moved)[i].size == listed_rows(archive)[i].size
                &&& listed_rows(moved)[i].file_name == listed_rows(archive)[i].file_name
            },
{
}

} // verus!
