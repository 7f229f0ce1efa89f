//! Extraction: copying each entry's payload out of the stream, in table order.

use vstd::prelude::*;
use vstd::slice::slice_subrange;
use vstd::slice::slice_to_vec;
use crate::archive::parse;
use crate::archive::parsed;
use crate::archive::parsed_end;
use crate::archive::parses;
use crate::archive::Archive;
use crate::archive::ArchiveView;
use crate::error::ArchiveError;
use crate::source::region;
use crate::source::ByteSource;

verus! {

/// What an extraction run is asked to do.
#[derive(Clone, Debug, PartialEq, Eq)]
pub struct Arguments {
    /// FF archive file name
    pub archive: String,
    /// Output directory
    pub output: String,
    /// Report the name and size of each extracted file
    pub verbose: bool,
}

/// One file taken out of an archive.
#[derive(Clone, Debug, PartialEq, Eq)]
pub struct ExtractedFile {
    pub file_name: String,
    pub data: Vec<u8>,
}

/// The name and byte count of a file that was extracted, for a reporter.
#[derive(Clone, Debug, PartialEq, Eq)]
pub struct EntryReport {
    pub file_name: String,
    pub size: u64,
}

/// The outcome of a run: the files extracted before the first entry whose
/// payload the stream does not hold, and the failure on that entry, if any.
#[derive(Clone, Debug, PartialEq, Eq)]
pub struct Extraction {
    /// The directory the files are meant for.
    pub output: String,
    /// The extracted files, in table order.
    pub files: Vec<ExtractedFile>,
    /// One report per extracted file when the run was verbose, none otherwise.
    pub reports: Vec<EntryReport>,
    /// `Some` if an entry's payload was cut short; the entries after it were not tried.
    pub failure: Option<ArchiveError>,
}

/// Whether the stream holds the whole payload of entry `index`. An empty
/// payload is held wherever it is said to start.
pub open spec fn extractable(archive: ArchiveView, bytes: Seq<u8>, index: int) -> bool {
    archive.entries[index].size == 0 || archive.payload_end(index) <= bytes.len()
}

/// The payload of entry `index`.
pub open spec fn payload(archive: ArchiveView, bytes: Seq<u8>, index: int) -> Seq<u8> {
    region(bytes, archive.payload_start(index), archive.entries[index].size)
}

/// Copies exactly `size` bytes from the reader's cursor to the end of
/// `writer` and moves the cursor past them. If fewer than `size` bytes are
/// left, nothing is written, the cursor stays, and the result is `IoError`.
pub fn extract_data(reader: &mut ByteSource, writer: &mut Vec<u8>, size: u64) -> (result: Result<
    u64,
    ArchiveError,
>)
    ensures
        final(reader).bytes() == old(reader).bytes(),
        result.is_ok() <==> size <= old(reader).left(),
        match result {
            Ok(written) => {
                &&& written == size
                &&& final(writer)@ == old(writer)@ + region(
                    old(reader).bytes(),
                    old(reader).cursor(),
                    size as int,
                )
                &&& final(reader).cursor() == old(reader).cursor() + size
            },
            Err(error) => {
                &&& error == ArchiveError::IoError
                &&& final(writer)@ == old(writer)@
                &&& final(reader).cursor() == old(reader).cursor()
            },
        },
{
    if size > reader.remaining() {
        return Err(ArchiveError::IoError);
    }
    if size == 0 {
        assert(writer@ =~= writer@ + region(reader.bytes(), reader.cursor(), 0));
        return Ok(0);
    }
    let position: u64 = reader.position();
    let bytes: &[u8] = reader.as_slice();
    // A slice has a `usize` length, so the positions inside it fit one.
    assert(bytes@.len() == bytes.len());
    let start: usize = position as usize;
    let count: usize = size as usize;
    let mut chunk: Vec<u8> = slice_to_vec(slice_subrange(bytes, start, start + count));
    assert(chunk@ =~= region(reader.bytes(), reader.cursor(), size as int));
    writer.append(&mut chunk);
    reader.seek(position + size);
    Ok(size)
}

/// Extracts entry `index`: moves the cursor to the absolute start of its
/// payload and copies the payload out.
pub fn extract_entry(archive: &Archive, source: &mut ByteSource, index: usize) -> (result: Result<
    ExtractedFile,
    ArchiveError,
>)
    requires
        index < archive.entries@.len(),
    ensures
        final(source).bytes() == old(source).bytes(),
        result.is_ok() <==> extractable(archive@, old(source).bytes(), index as int),
        match result {
            Ok(file) => {
                &&& file.file_name@ == archive@.entries[index as int].file_name
                &&& file.data@ == payload(archive@, old(source).bytes(), index as int)
                &&& final(source).cursor() == archive@.payload_end(index as int)
            },
            Err(error) => {
                &&& error == ArchiveError::IoError
                &&& final(source).cursor() == archive@.payload_start(index as int)
            },
        },
{
    let entry = &archive.entries[index];
    let start: u64 = archive.header.data_start as u64 + entry.offset as u64;
    source.seek(start);
    let mut data: Vec<u8> = Vec::new();
    match extract_data(source, &mut data, entry.size as u64) {
        Ok(_) => {
            assert(data@ =~= payload(archive@, source.bytes(), index as int));
            Ok(ExtractedFile { file_name: entry.file_name.clone(), data })
        },
        Err(error) => Err(error),
    }
}

/// Parses the archive at the cursor and extracts its entries in table
/// order, stopping at the first whose payload the stream does not hold.
/// Nothing is extracted from an archive whose table is cut short.
pub fn run(arguments: &Arguments, source: &mut ByteSource) -> (result: Result<
    Extraction,
    ArchiveError,
>)
    ensures
        final(source).bytes() == old(source).bytes(),
        result.is_ok() <==> parses(old(source).bytes(), old(source).cursor()),
        match result {
            Ok(extraction) => {
                let bytes = old(source).bytes();
                let archive = parsed(bytes, old(source).cursor());
                let done = extraction.files@.len() as int;
                &&& extraction.output@ == arguments.output@
                &&& done <= archive.file_count
                &&& forall|i: int| 0 <= i < done ==> #[trigger] extractable(archive, bytes, i)
                &&& forall|i: int|
                    0 <= i < done ==> {
                        &&& (#[trigger] extraction.files@[i]).file_name@
                            == archive.entries[i].file_name
                        &&& extraction.files@[i].data@ == payload(archive, bytes, i)
                    }
                &&& done < archive.file_count ==> !extractable(archive, bytes, done)
                &&& extraction.failure == if done < archive.file_count {
                    Some(ArchiveError::IoError)
                } else {
                    None
                }
                &&& extraction.reports@.len() == if arguments.verbose {
                    done
                } else {
                    0
                }
                &&& forall|i: int|
                    0 <= i < extraction.reports@.len() ==> {
                        &&& (#[trigger] extraction.reports@[i]).file_name@
                            == archive.entries[i].file_name
                        &&& extraction.reports@[i].size == archive.entries[i].size
                    }
                &&& final(source).cursor() == if archive.file_count == 0 {
                    parsed_end(bytes, old(source).cursor())
                } else if done < archive.file_count {
                    archive.payload_start(done)
                } else {
                    archive.payload_end(done - 1)
                }
            },
            Err(error) => {
                &&& error == ArchiveError::ParseError
                &&& final(source).cursor() == old(source).cursor()
            },
        },
{
    let archive = match parse(source) {
        Ok(archive) => archive,
        Err(error) => {
            return Err(error);
        },
    };
    let mut files: Vec<ExtractedFile> = Vec::new();
    let mut reports: Vec<EntryReport> = Vec::new();
    let mut failure: Option<ArchiveError> = None;
    let count: usize = archive.entries.len();
    let mut index: usize = 0;
    while index < count && failure.is_none()
        invariant
            source.bytes() == old(source).bytes(),
            archive.wf(),
            archive@ == parsed(old(source).bytes(), old(source).cursor()),
            count == archive.entries@.len(),
            index <= count,
            failure.is_none() ==> files@.len() == index,
            failure.is_some() ==> {
                &&& files@.len() + 1 == index
                &&& failure == Some(ArchiveError::IoError)
                &&& !extractable(archive@, source.bytes(), index - 1)
                &&& source.cursor() == archive@.payload_start(index - 1)
            },
            forall|i: int|
                0 <= i < files@.len() ==> #[trigger] extractable(archive@, source.bytes(), i),
            forall|i: int|
                0 <= i < files@.len() ==> {
                    &&& (#[trigger] files@[i]).file_name@ == archive@.entries[i].file_name
                    &&& files@[i].data@ == payload(archive@, source.bytes(), i)
                },
            reports@.len() == if arguments.verbose {
                files@.len()
            } else {
                0
            },
            forall|i: int|
                0 <= i < reports@.len() ==> {
                    &&& (#[trigger] reports@[i]).file_name@ == archive@.entries[i].file_name
                    &&& reports@[i].size == archive@.entries[i].size
                },
            source.cursor() == if index == 0 {
                parsed_end(old(source).bytes(), old(source).cursor())
            } else if failure.is_some() {
                archive@.payload_start(index - 1)
            } else {
                archive@.payload_end(index - 1)
            },
        decreases count - index,
    {
        match extract_entry(&archive, source, index) {
            Ok(file) => {
                if arguments.verbose {
                    reports.push(
                        EntryReport {
                            file_name: file.file_name.clone(),
                            size: archive.entries[index].size as u64,
                        },
                    );
                }
                files.push(file);
            },
            Err(error) => {
                failure = Some(error);
            },
        }
        index = index + 1;
    }
    Ok(Extraction { output: arguments.output.clone(), files, reports, failure })
}

} // verus!
