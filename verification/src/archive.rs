//! The archive model: a four-byte header, a table of entry records, and the
//! single-pass parser that reads both from a byte stream.
//!
//! All integers are big-endian. An entry record is a two-byte name length,
//! the name's bytes, a four-byte offset and a two-byte size.

use vstd::prelude::*;
use vstd::utf8::decode_utf8;
use vstd::utf8::valid_utf8;
use crate::error::ArchiveError;
use crate::source::be_u16;
use crate::source::be_u32;
use crate::source::read_bytes;
use crate::source::read_u16_be;
use crate::source::read_u32_be;
use crate::source::readable;
use crate::source::ByteSource;

verus! {

/// The text that permissive decoding makes of `bytes`: valid UTF-8 is kept,
/// every invalid sequence becomes a replacement character.
pub uninterp spec fn lossy_text(bytes: Seq<u8>) -> Seq<char>;

/// Calls `String::from_utf8_lossy` and takes ownership of what it returns.
///
/// Not proved: the contract gives the result the name `lossy_text` of the
/// bytes, and claims that well-formed UTF-8 decodes to exactly its characters.
#[verifier::external_body]
fn decode_lossy(bytes: &[u8]) -> (text: String)
    ensures
        text@ == lossy_text(bytes@),
        valid_utf8(bytes@) ==> text@ == decode_utf8(bytes@),
{
    String::from_utf8_lossy(bytes).to_string()
}

/// The fixed-size head of an archive.
#[derive(Clone, Copy, Debug, PartialEq, Eq, Structural)]
pub struct ArchiveHeader {
    /// Absolute position at which the payload region begins.
    pub data_start: u16,
    /// Number of entry records that follow the header.
    pub file_count: u16,
}

/// The record of one contained file.
#[derive(Clone, Debug, PartialEq, Eq)]
pub struct ArchiveEntry {
    /// The file's name, decoded permissively.
    pub file_name: String,
    /// Distance from `data_start` to the first payload byte.
    pub offset: u32,
    /// Length of the payload in bytes.
    pub size: u16,
}

/// A parsed archive: the header and the entries in table order.
#[derive(Clone, Debug, PartialEq, Eq)]
pub struct Archive {
    pub header: ArchiveHeader,
    pub entries: Vec<ArchiveEntry>,
}

/// What an entry is, as mathematics.
pub struct EntryView {
    pub file_name: Seq<char>,
    pub offset: int,
    pub size: int,
}

/// What an archive is, as mathematics.
pub struct ArchiveView {
    pub data_start: int,
    pub file_count: int,
    pub entries: Seq<EntryView>,
}

impl View for ArchiveEntry {
    type V = EntryView;

    open spec fn view(&self) -> EntryView {
        EntryView {
            file_name: self.file_name@,
            offset: self.offset as int,
            size: self.size as int,
        }
    }
}

impl View for Archive {
    type V = ArchiveView;

    open spec fn view(&self) -> ArchiveView {
        ArchiveView {
            data_start: self.header.data_start as int,
            file_count: self.header.file_count as int,
            entries: Seq::new(self.entries@.len(), |i: int| self.entries@[i]@),
        }
    }
}

impl ArchiveView {
    /// The table holds exactly as many entries as the header declares.
    pub open spec fn wf(self) -> bool {
        self.entries.len() == self.file_count
    }

    /// Absolute position of the first payload byte of entry `index`.
    pub open spec fn payload_start(self, index: int) -> int {
        self.data_start + self.entries[index].offset
    }

    /// Absolute position just past the last payload byte of entry `index`.
    pub open spec fn payload_end(self, index: int) -> int {
        self.payload_start(index) + self.entries[index].size
    }
}

impl Archive {
    /// The table holds exactly as many entries as the header declares.
    pub open spec fn wf(&self) -> bool {
        self@.wf()
    }
}

/// The position just past the entry record that starts at `at`, or `None`
/// if the bytes end before the record does.
pub open spec fn entry_end(bytes: Seq<u8>, at: int) -> Option<int> {
    if readable(bytes, at, 2) && readable(bytes, at, 8 + be_u16(bytes, at)) {
        Some(at + 8 + be_u16(bytes, at))
    } else {
        None
    }
}

/// The entry that the record starting at `at` describes.
pub open spec fn entry_at(bytes: Seq<u8>, at: int) -> EntryView {
    let name_len = be_u16(bytes, at);
    EntryView {
        file_name: lossy_text(bytes.subrange(at + 2, at + 2 + name_len)),
        offset: be_u32(bytes, at + 2 + name_len),
        size: be_u16(bytes, at + 6 + name_len),
    }
}

/// Where record `index` of the table that begins at `table` starts, or
/// `None` if one of the records before it is cut short. With `index` equal
/// to the number of records this is the end of the table.
pub open spec fn entry_start(bytes: Seq<u8>, table: int, index: nat) -> Option<int>
    decreases index,
{
    if index == 0 {
        Some(table)
    } else {
        match entry_start(bytes, table, (index - 1) as nat) {
            Some(at) => entry_end(bytes, at),
            None => None,
        }
    }
}

/// Whether a complete header and entry table start at `at`.
pub open spec fn parses(bytes: Seq<u8>, at: int) -> bool {
    readable(bytes, at, 4) && entry_start(bytes, at + 4, be_u16(bytes, at + 2) as nat).is_some()
}

/// The position just past the entry table of the archive that starts at `at`.
pub open spec fn parsed_end(bytes: Seq<u8>, at: int) -> int {
    entry_start(bytes, at + 4, be_u16(bytes, at + 2) as nat).unwrap()
}

/// The archive that starts at `at`.
pub open spec fn parsed(bytes: Seq<u8>, at: int) -> ArchiveView {
    ArchiveView {
        data_start: be_u16(bytes, at),
        file_count: be_u16(bytes, at + 2),
        entries: Seq::new(
            be_u16(bytes, at + 2) as nat,
            |i: int| entry_at(bytes, entry_start(bytes, at + 4, i as nat).unwrap()),
        ),
    }
}

/// A record that is cut short cuts short every record after it.
pub proof fn lemma_entry_start_none_stays(bytes: Seq<u8>, table: int, index: nat, later: nat)
    requires
        index <= later,
        entry_start(bytes, table, index).is_none(),
    ensures
        entry_start(bytes, table, later).is_none(),
    decreases later,
{
    if index < later {
        lemma_entry_start_none_stays(bytes, table, index, (later - 1) as nat);
    }
}

/// Records never start before the table does, and never end past the bytes.
pub proof fn lemma_entry_start_bounds(bytes: Seq<u8>, table: int, index: nat)
    requires
        0 <= table <= bytes.len(),
        entry_start(bytes, table, index).is_some(),
    ensures
        table + 8 * index <= entry_start(bytes, table, index).unwrap() <= bytes.len(),
    decreases index,
{
    if index > 0 {
        lemma_entry_start_bounds(bytes, table, (index - 1) as nat);
    }
}

/// Reads the entry record that starts at `at`, field after field. Returns
/// the entry and the position just past the record, or `None` if the bytes
/// end before the record does.
pub fn parse_entry(bytes: &[u8], at: usize) -> (result: Option<(ArchiveEntry, usize)>)
    ensures
        result.is_some() <==> entry_end(bytes@, at as int).is_some(),
        match result {
            Some((entry, end)) => {
                &&& entry@ == entry_at(bytes@, at as int)
                &&& end as int == entry_end(bytes@, at as int).unwrap()
            },
            None => true,
        },
{
    // A slice has a `usize` length, so no position inside it overflows.
    assert(bytes@.len() == bytes.len());
    let name_len: usize = match read_u16_be(bytes, at) {
        Some(value) => value as usize,
        None => {
            return None;
        },
    };
    let name_at: usize = at + 2;
    let name_bytes: Vec<u8> = match read_bytes(bytes, name_at, name_len) {
        Some(taken) => taken,
        None => {
            return None;
        },
    };
    let offset_at: usize = name_at + name_len;
    let offset: u32 = match read_u32_be(bytes, offset_at) {
        Some(value) => value,
        None => {
            return None;
        },
    };
    let size_at: usize = offset_at + 4;
    let size: u16 = match read_u16_be(bytes, size_at) {
        Some(value) => value,
        None => {
            return None;
        },
    };
    let file_name: String = decode_lossy(name_bytes.as_slice());
    Some((ArchiveEntry { file_name, offset, size }, size_at + 2))
}

/// Parses the header and the entry table that start at `at`, reading the
/// fields in order. Returns the archive and the position just past the
/// table, or `ParseError` if the bytes end before the table is complete.
/// Nothing after the table is looked at.
pub fn parse_at(bytes: &[u8], at: usize) -> (result: Result<(Archive, usize), ArchiveError>)
    ensures
        result.is_ok() <==> parses(bytes@, at as int),
        match result {
            Ok((archive, end)) => {
                &&& archive.wf()
                &&& archive@ == parsed(bytes@, at as int)
                &&& end as int == parsed_end(bytes@, at as int)
            },
            Err(error) => error == ArchiveError::ParseError,
        },
{
    // A slice has a `usize` length, so no position inside it overflows.
    assert(bytes@.len() == bytes.len());
    let data_start: u16 = match read_u16_be(bytes, at) {
        Some(value) => value,
        None => {
            return Err(ArchiveError::ParseError);
        },
    };
    let file_count: u16 = match read_u16_be(bytes, at + 2) {
        Some(value) => value,
        None => {
            return Err(ArchiveError::ParseError);
        },
    };
    let table: usize = at + 4;
    let mut entries: Vec<ArchiveEntry> = Vec::new();
    let mut cursor: usize = table;
    let mut index: u16 = 0;
    while index < file_count
        invariant
            index <= file_count,
            table == at + 4,
            readable(bytes@, at as int, 4),
            file_count as int == be_u16(bytes@, at + 2),
            entry_start(bytes@, table as int, index as nat) == Some(cursor as int),
            entries@.len() == index,
            forall|j: int|
                0 <= j < index ==> (#[trigger] entries@[j])@ == entry_at(
                    bytes@,
                    entry_start(bytes@, table as int, j as nat).unwrap(),
                ),
        decreases file_count - index,
    {
        let entry: ArchiveEntry = match parse_entry(bytes, cursor) {
            Some((entry, end)) => {
                cursor = end;
                entry
            },
            None => {
                proof {
                    lemma_entry_start_none_stays(
                        bytes@,
                        table as int,
                        (index + 1) as nat,
                        file_count as nat,
                    );
                }
                return Err(ArchiveError::ParseError);
            },
        };
        entries.push(entry);
        index = index + 1;
    }
    let archive = Archive { header: ArchiveHeader { data_start, file_count }, entries };
    assert(archive@.entries =~= parsed(bytes@, at as int).entries);
    Ok((archive, cursor))
}

/// Parses the archive at the stream's cursor. On success the cursor stands
/// just past the entry table; on failure it has not moved.
pub fn parse(source: &mut ByteSource) -> (result: Result<Archive, ArchiveError>)
    ensures
        final(source).bytes() == old(source).bytes(),
        result.is_ok() <==> parses(old(source).bytes(), old(source).cursor()),
        match result {
            Ok(archive) => {
                &&& archive.wf()
                &&& archive@ == parsed(old(source).bytes(), old(source).cursor())
                &&& final(source).cursor() == parsed_end(old(source).bytes(), old(source).cursor())
            },
            Err(error) => {
                &&& error == ArchiveError::ParseError
                &&& final(source).cursor() == old(source).cursor()
            },
        },
{
    let length: usize = source.len();
    let position: u64 = source.position();
    if position > length as u64 {
        return Err(ArchiveError::ParseError);
    }
    let at: usize = position as usize;
    match parse_at(source.as_slice(), at) {
        Ok((archive, end)) => {
            source.seek(end as u64);
            Ok(archive)
        },
        Err(error) => Err(error),
    }
}

/// Record after record, what `bytes.take(cut)` still holds whole is what
/// `bytes` holds there.
proof fn lemma_prefix_agrees(bytes: Seq<u8>, cut: int, table: int, index: nat)
    requires
        0 <= cut <= bytes.len(),
        0 <= table,
        entry_start(bytes.take(cut), table, index).is_some(),
    ensures
        entry_start(bytes, table, index) == entry_start(bytes.take(cut), table, index),
    decreases index,
{
    if index > 0 {
        lemma_prefix_agrees(bytes, cut, table, (index - 1) as nat);
    }
}

/// An archive that is cut off anywhere before the end of its entry table
/// does not parse: with fewer complete records than the header declares
/// there is no archive, whatever the bytes that are left.
pub proof fn lemma_cut_table_does_not_parse(bytes: Seq<u8>, at: int, cut: int)
    requires
        0 <= at,
        parses(bytes, at),
        0 <= cut < parsed_end(bytes, at),
    ensures
        !parses(bytes.take(cut), at),
{
    let short = bytes.take(cut);
    let count = be_u16(bytes, at + 2) as nat;
    lemma_entry_start_bounds(bytes, at + 4, count);
    if parses(short, at) {
        assert(be_u16(short, at + 2) == be_u16(bytes, at + 2));
        lemma_prefix_agrees(bytes, cut, at + 4, count);
        lemma_entry_start_bounds(short, at + 4, count);
    }
}

/// Whether the fixed-size fields of the first `count` records of `bytes`,
/// each at its place in `bytes`, hold the same values in `other`: the name
/// length, the offset and the size. Of the names' own bytes nothing is asked.
pub open spec fn same_fields(bytes: Seq<u8>, other: Seq<u8>, table: int, count: nat) -> bool
    decreases count,
{
    count == 0 || {
        let at = entry_start(bytes, table, (count - 1) as nat).unwrap();
        let name_len = be_u16(bytes, at);
        &&& same_fields(bytes, other, table, (count - 1) as nat)
        &&& be_u16(other, at) == name_len
        &&& be_u32(other, at + 2 + name_len) == be_u32(bytes, at + 2 + name_len)
        &&& be_u16(other, at + 6 + name_len) == be_u16(bytes, at + 6 + name_len)
    }
}

/// Records whose fields agree start at the same places.
proof fn lemma_same_fields_same_starts(bytes: Seq<u8>, other: Seq<u8>, table: int, count: nat)
    requires
        other.len() == bytes.len(),
        entry_start(bytes, table, count).is_some(),
        same_fields(bytes, other, table, count),
    ensures
        entry_start(other, table, count) == entry_start(bytes, table, count),
    decreases count,
{
    if count > 0 {
        lemma_same_fields_same_starts(bytes, other, table, (count - 1) as nat);
    }
}

/// Fields that agree for `count` records agree for every shorter run of them.
proof fn lemma_same_fields_of_fewer(
    bytes: Seq<u8>,
    other: Seq<u8>,
    table: int,
    fewer: nat,
    count: nat,
)
    requires
        fewer <= count,
        same_fields(bytes, other, table, count),
    ensures
        same_fields(bytes, other, table, fewer),
    decreases count,
{
    if fewer < count {
        lemma_same_fields_of_fewer(bytes, other, table, fewer, (count - 1) as nat);
    }
}

/// No name is ever a reason to reject an archive. Put any bytes at all in
/// place of the names of an archive that parses, leaving the header and
/// every record's name length, offset and size as they are: the result
/// parses too, ends at the same place, and holds the same offsets and sizes;
/// each name is the permissive decoding of the bytes now in its place.
pub proof fn lemma_names_never_reject(bytes: Seq<u8>, other: Seq<u8>, at: int)
    requires
        parses(bytes, at),
        other.len() == bytes.len(),
        be_u16(other, at) == be_u16(bytes, at),
        be_u16(other, at + 2) == be_u16(bytes, at + 2),
        same_fields(bytes, other, at + 4, be_u16(bytes, at + 2) as nat),
    ensures
        parses(other, at),
        parsed_end(other, at) == parsed_end(bytes, at),
        parsed(other, at).data_start == parsed(bytes, at).data_start,
        parsed(other, at).file_count == parsed(bytes, at).file_count,
        forall|i: int|
            0 <= i < parsed(bytes, at).file_count ==> {
                let start = entry_start(bytes, at + 4, i as nat).unwrap();
                &&& (#[trigger] parsed(other, at).entries[i]).offset == parsed(
                    bytes,
                    at,
                ).entries[i].offset
                &&& parsed(other, at).entries[i].size == parsed(bytes, at).entries[i].size
                &&& parsed(other, at).entries[i].file_name == lossy_text(
                    other.subrange(start + 2, start + 2 + be_u16(bytes, start)),
                )
            },
{
    let count = be_u16(bytes, at + 2) as nat;
    lemma_same_fields_same_starts(bytes, other, at + 4, count);
    assert forall|i: int| 0 <= i < count implies {
        let start = entry_start(bytes, at + 4, i as nat).unwrap();
        &&& (#[trigger] parsed(other, at).entries[i]).offset == parsed(bytes, at).entries[i].offset
        &&& parsed(other, at).entries[i].size == parsed(bytes, at).entries[i].size
        &&& parsed(other, at).entries[i].file_name == lossy_text(
            other.subrange(start + 2, start + 2 + be_u16(bytes, start)),
        )
    } by {
        lemma_same_fields_of_fewer(bytes, other, at + 4, (i + 1) as nat, count);
        lemma_same_fields_of_fewer(bytes, other, at + 4, i as nat, count);
        if entry_start(bytes, at + 4, i as nat).is_none() {
            lemma_entry_start_none_stays(bytes, at + 4, i as nat, count);
        }
        lemma_same_fields_same_starts(bytes, other, at + 4, i as nat);
    }
}

} // verus!
