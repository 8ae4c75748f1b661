//! Reading an archive: the header, the manifest and the payloads.

use crate::format::{
    has_magic, le_u32, magic, read_u32_le, HEADER_LEN, MAGIC_LEN, MANIFEST_PTR_AT,
    RECORD_FIXED_LEN, VERSION_AT,
};
use crate::model::{
    entry_views, file_views, ArchiveView, EntryView, FarArchive, FarFile, FarFileInfo, FileView,
    FormatError,
};
use vstd::prelude::*;
use vstd::slice::{slice_subrange, slice_to_vec};
use vstd::utf8::{decode_utf8, encode_utf8_decode_utf8, valid_utf8};

verus! {

/// What the header of `bytes` holds: the version and the manifest's offset.
/// The magic value is looked at first, so a buffer of eight bytes or more that
/// opens with anything else is reported as such, however short it is.
pub open spec fn spec_parse_header(bytes: Seq<u8>) -> Result<(u8, u32), FormatError> {
    if bytes.len() < MAGIC_LEN {
        Err(FormatError::TruncatedHeader)
    } else if bytes.subrange(0, MAGIC_LEN as int) != magic() {
        Err(FormatError::InvalidMagic)
    } else if bytes.len() < HEADER_LEN {
        Err(FormatError::TruncatedHeader)
    } else {
        Ok((bytes[VERSION_AT as int], le_u32(bytes, MANIFEST_PTR_AT as int)))
    }
}

/// The manifest record that starts at `pos`, with the position just behind
/// it. `index` is the record's place in the manifest, for the error.
pub open spec fn spec_parse_entry(bytes: Seq<u8>, pos: int, index: int) -> Result<
    (EntryView, int),
    FormatError,
> {
    let name_start = pos + RECORD_FIXED_LEN;
    if name_start > bytes.len() {
        Err(FormatError::TruncatedManifest(index as usize))
    } else {
        let name_end = name_start + le_u32(bytes, pos + 12);
        let raw = bytes.subrange(name_start, name_end);
        if name_end > bytes.len() {
            Err(FormatError::TruncatedManifest(index as usize))
        } else if !valid_utf8(raw) {
            Err(FormatError::InvalidUtf8Name(index as usize))
        } else {
            Ok(
                (
                    EntryView {
                        name: decode_utf8(raw),
                        size: le_u32(bytes, pos),
                        size_copy: le_u32(bytes, pos + 4),
                        offset: le_u32(bytes, pos + 8),
                    },
                    name_end,
                ),
            )
        }
    }
}

/// `entries` in front of what `rest` holds, or the error of `rest`.
pub open spec fn prepend_entries(
    entries: Seq<EntryView>,
    rest: Result<Seq<EntryView>, FormatError>,
) -> Result<Seq<EntryView>, FormatError> {
    match rest {
        Ok(more) => Ok(entries + more),
        Err(e) => Err(e),
    }
}

/// The records `index`, `index + 1`, .. up to `count`, the first of them
/// starting at `pos`, or the error of the first record that cannot be read.
pub open spec fn spec_parse_entries(bytes: Seq<u8>, pos: int, index: int, count: int) -> Result<
    Seq<EntryView>,
    FormatError,
>
    decreases count - index,
{
    if index >= count {
        Ok(Seq::empty())
    } else {
        match spec_parse_entry(bytes, pos, index) {
            Err(e) => Err(e),
            Ok((entry, next)) => prepend_entries(
                seq![entry],
                spec_parse_entries(bytes, next, index + 1, count),
            ),
        }
    }
}

/// The manifest at `manifest_offset`: a count and that many records.
pub open spec fn spec_parse_manifest(bytes: Seq<u8>, manifest_offset: u32) -> Result<
    Seq<EntryView>,
    FormatError,
> {
    if manifest_offset + 4 > bytes.len() {
        Err(FormatError::TruncatedManifest(0))
    } else {
        spec_parse_entries(
            bytes,
            manifest_offset + 4,
            0,
            le_u32(bytes, manifest_offset as int) as int,
        )
    }
}

/// Reads the fixed header: checks the magic value, then takes the version
/// byte and the offset of the manifest.
pub fn validate_and_parse_header(bytes: &Vec<u8>) -> (r: Result<(u8, u32), FormatError>)
    ensures
        r == spec_parse_header(bytes@),
{
    if bytes.len() < MAGIC_LEN {
        return Err(FormatError::TruncatedHeader);
    }
    if !has_magic(bytes) {
        return Err(FormatError::InvalidMagic);
    }
    match read_u32_le(bytes, MANIFEST_PTR_AT) {
        None => Err(FormatError::TruncatedHeader),
        Some(manifest_offset) => Ok((bytes[VERSION_AT], manifest_offset)),
    }
}

/// Reads the manifest record at `pos` and says where the next one starts.
pub fn parse_entry(bytes: &Vec<u8>, pos: usize, index: usize) -> (r: Result<
    (FarFileInfo, usize),
    FormatError,
>)
    ensures
        match r {
            Ok((entry, next)) => spec_parse_entry(bytes@, pos as int, index as int) == Ok::<
                (EntryView, int),
                FormatError,
            >((entry@, next as int)),
            Err(e) => spec_parse_entry(bytes@, pos as int, index as int) == Err::<
                (EntryView, int),
                FormatError,
            >(e),
        },
{
    if bytes.len() < RECORD_FIXED_LEN || pos > bytes.len() - RECORD_FIXED_LEN {
        return Err(FormatError::TruncatedManifest(index));
    }
    let size: u32 = read_u32_le(bytes, pos).unwrap();
    let size_copy: u32 = read_u32_le(bytes, pos + 4).unwrap();
    let offset: u32 = read_u32_le(bytes, pos + 8).unwrap();
    let name_len: u32 = read_u32_le(bytes, pos + 12).unwrap();
    let name_start: usize = pos + RECORD_FIXED_LEN;
    if name_len as usize > bytes.len() - name_start {
        return Err(FormatError::TruncatedManifest(index));
    }
    let name_end: usize = name_start + name_len as usize;
    let raw = slice_to_vec(slice_subrange(bytes.as_slice(), name_start, name_end));
    match String::from_utf8(raw) {
        Err(_) => Err(FormatError::InvalidUtf8Name(index)),
        Ok(name) => {
            proof {
                encode_utf8_decode_utf8(name@);
            }
            Ok((FarFileInfo { name, size, size_copy, offset }, name_end))
        },
    }
}

/// A manifest that parses holds as many records as it was asked for.
pub proof fn lemma_parse_entries_len(bytes: Seq<u8>, pos: int, index: int, count: int)
    requires
        index <= count,
        spec_parse_entries(bytes, pos, index, count) is Ok,
    ensures
        spec_parse_entries(bytes, pos, index, count)->Ok_0.len() == count - index,
    decreases count - index,
{
    if index < count {
        let next = spec_parse_entry(bytes, pos, index)->Ok_0.1;
        lemma_parse_entries_len(bytes, next, index + 1, count);
    }
}

/// Reads the manifest at `manifest_offset`: the entry count, then the
/// entries in the order in which they are stored.
pub fn parse_manifest(bytes: &Vec<u8>, manifest_offset: u32) -> (r: Result<
    Vec<FarFileInfo>,
    FormatError,
>)
    ensures
        match r {
            Ok(entries) => spec_parse_manifest(bytes@, manifest_offset) == Ok::<
                Seq<EntryView>,
                FormatError,
            >(entry_views(entries@)),
            Err(e) => spec_parse_manifest(bytes@, manifest_offset) == Err::<
                Seq<EntryView>,
                FormatError,
            >(e),
        },
{
    let count: u32 = match read_u32_le(bytes, manifest_offset as usize) {
        None => {
            return Err(FormatError::TruncatedManifest(0));
        },
        Some(count) => count,
    };
    assert(manifest_offset + 4 <= bytes.len());
    let start: usize = manifest_offset as usize + 4;
    let mut entries: Vec<FarFileInfo> = Vec::new();
    let mut pos: usize = start;
    let mut index: u32 = 0;
    proof {
        let all = spec_parse_entries(bytes@, start as int, 0, count as int);
        assert(prepend_entries(entry_views(entries@), all) == all) by {
            if let Ok(found) = all {
                assert(entry_views(entries@) + found =~= found);
            }
        }
    }
    while index < count
        invariant
            index <= count,
            entries@.len() == index,
            start == manifest_offset + 4,
            start <= bytes@.len(),
            count == le_u32(bytes@, manifest_offset as int),
            spec_parse_entries(bytes@, start as int, 0, count as int) == prepend_entries(
                entry_views(entries@),
                spec_parse_entries(bytes@, pos as int, index as int, count as int),
            ),
        decreases count - index,
    {
        let ghost before = entry_views(entries@);
        match parse_entry(bytes, pos, index as usize) {
            Err(e) => {
                return Err(e);
            },
            Ok((entry, next)) => {
                entries.push(entry);
                proof {
                    let rest = spec_parse_entries(bytes@, next as int, index + 1, count as int);
                    assert(entry_views(entries@) =~= before + seq![entry@]);
                    if let Ok(found) = rest {
                        assert((before + seq![entry@]) + found =~= before + (seq![entry@] + found));
                    }
                }
                pos = next;
            },
        }
        index += 1;
    }
    proof {
        assert(entry_views(entries@) + Seq::<EntryView>::empty() =~= entry_views(entries@));
    }
    Ok(entries)
}

/// What a whole buffer parses to: the header's version and the manifest's
/// entries, with no payload loaded yet.
pub open spec fn spec_parse(bytes: Seq<u8>) -> Result<ArchiveView, FormatError> {
    match spec_parse_header(bytes) {
        Err(e) => Err(e),
        Ok((version, manifest_offset)) => match spec_parse_manifest(bytes, manifest_offset) {
            Err(e) => Err(e),
            Ok(entries) => Ok(
                ArchiveView {
                    version,
                    file_count: entries.len() as u32,
                    file_list: entries,
                    file_data: Seq::empty(),
                },
            ),
        },
    }
}

/// What the manifest of a buffer lists, going by the pointer at byte 12
/// alone: the magic value is not looked at.
pub open spec fn spec_list_files(bytes: Seq<u8>) -> Result<Seq<EntryView>, FormatError> {
    if bytes.len() < HEADER_LEN {
        Err(FormatError::TruncatedHeader)
    } else {
        spec_parse_manifest(bytes, le_u32(bytes, MANIFEST_PTR_AT as int))
    }
}

/// Lists the entries of the manifest that the pointer at byte 12 leads to,
/// without checking the magic value.
pub fn list_files(file: &Vec<u8>) -> (r: Result<Vec<FarFileInfo>, FormatError>)
    ensures
        match r {
            Ok(entries) => spec_list_files(file@) == Ok::<Seq<EntryView>, FormatError>(
                entry_views(entries@),
            ),
            Err(e) => spec_list_files(file@) == Err::<Seq<EntryView>, FormatError>(e),
        },
{
    match read_u32_le(file, MANIFEST_PTR_AT) {
        None => Err(FormatError::TruncatedHeader),
        Some(manifest_offset) => parse_manifest(file, manifest_offset),
    }
}

/// Parses a buffer into an archive: header and manifest, no payloads.
pub fn parse(bytes: &Vec<u8>) -> (r: Result<FarArchive, FormatError>)
    ensures
        match r {
            Ok(archive) => spec_parse(bytes@) == Ok::<ArchiveView, FormatError>(archive@)
                && archive.well_formed(),
            Err(e) => spec_parse(bytes@) == Err::<ArchiveView, FormatError>(e),
        },
{
    let (version, manifest_offset) = match validate_and_parse_header(bytes) {
        Err(e) => {
            return Err(e);
        },
        Ok(header) => header,
    };
    let file_list = match parse_manifest(bytes, manifest_offset) {
        Err(e) => {
            return Err(e);
        },
        Ok(entries) => entries,
    };
    proof {
        lemma_parse_entries_len(
            bytes@,
            manifest_offset + 4,
            0,
            le_u32(bytes@, manifest_offset as int) as int,
        );
    }
    let file_count: u32 = file_list.len() as u32;
    let archive = FarArchive { version, file_count, file_list, file_data: Vec::new() };
    proof {
        assert(archive@.file_data =~= Seq::<FileView>::empty());
    }
    Ok(archive)
}

/// Tests whether `file` is an archive, and hands back what it parses to.
pub fn test(file: &Vec<u8>) -> (r: Result<FarArchive, FormatError>)
    ensures
        match r {
            Ok(archive) => spec_parse(file@) == Ok::<ArchiveView, FormatError>(archive@)
                && archive.well_formed(),
            Err(e) => spec_parse(file@) == Err::<ArchiveView, FormatError>(e),
        },
{
    parse(file)
}

/// The payload that `entry` points to lies within `bytes`.
pub open spec fn payload_in_bounds(bytes: Seq<u8>, entry: EntryView) -> bool {
    entry.offset + entry.size <= bytes.len()
}

/// The bytes that `entry` points to: `size` bytes from `offset` on.
pub open spec fn spec_payload(bytes: Seq<u8>, entry: EntryView) -> Seq<u8> {
    bytes.subrange(entry.offset as int, entry.offset + entry.size)
}

/// The file that `entry` describes, with its bytes taken from `bytes`.
pub open spec fn spec_file(bytes: Seq<u8>, entry: EntryView) -> FileView {
    FileView { name: entry.name, size: entry.size, data: spec_payload(bytes, entry) }
}

/// One file for each entry, in the order of the entries.
pub open spec fn spec_files(bytes: Seq<u8>, entries: Seq<EntryView>) -> Seq<FileView> {
    Seq::new(entries.len(), |i: int| spec_file(bytes, entries[i]))
}

/// Every entry's payload lies within `bytes`.
pub open spec fn all_in_bounds(bytes: Seq<u8>, entries: Seq<EntryView>) -> bool {
    forall|j: int| 0 <= j < entries.len() ==> payload_in_bounds(bytes, #[trigger] entries[j])
}

/// Entry `k` is the first whose payload does not lie within `bytes`.
pub open spec fn first_out_of_bounds(bytes: Seq<u8>, entries: Seq<EntryView>, k: int) -> bool {
    &&& 0 <= k < entries.len()
    &&& !payload_in_bounds(bytes, entries[k])
    &&& forall|j: int| 0 <= j < k ==> payload_in_bounds(bytes, #[trigger] entries[j])
}

/// Copies `size` bytes of `bytes` from `offset` on, if they are all there.
fn copy_range(bytes: &Vec<u8>, offset: u32, size: u32) -> (r: Option<Vec<u8>>)
    ensures
        r is Some <==> offset + size <= bytes@.len(),
        r matches Some(data) ==> data@ == bytes@.subrange(offset as int, offset + size),
{
    let start: usize = offset as usize;
    let len: usize = size as usize;
    if start > bytes.len() || len > bytes.len() - start {
        return None;
    }
    Some(slice_to_vec(slice_subrange(bytes.as_slice(), start, start + len)))
}

impl FarFile {
    /// Makes the file called `name` from the `size` bytes of `original_file`
    /// that start at `offset`; there is none if they reach past its end.
    pub fn new_from_archive(name: String, size: u32, offset: u32, original_file: &Vec<u8>) -> (r:
        Option<FarFile>)
        ensures
            r is Some <==> offset + size <= original_file@.len(),
            r matches Some(file) ==> file.name == name && file.size == size && file.data@
                == original_file@.subrange(offset as int, offset + size),
    {
        match copy_range(original_file, offset, size) {
            None => None,
            Some(data) => Some(FarFile { name, size, data }),
        }
    }
}

/// Copies out the payload that `entry` points to. `index` is the entry's
/// place in the manifest, for the error.
pub fn load_payload(bytes: &Vec<u8>, entry: &FarFileInfo, index: usize) -> (r: Result<
    Vec<u8>,
    FormatError,
>)
    ensures
        r is Ok <==> payload_in_bounds(bytes@, entry@),
        r matches Ok(data) ==> data@ == spec_payload(bytes@, entry@),
        r matches Err(e) ==> e == FormatError::PayloadOutOfBounds(index),
{
    match copy_range(bytes, entry.offset, entry.size) {
        None => Err(FormatError::PayloadOutOfBounds(index)),
        Some(data) => Ok(data),
    }
}

/// Loads the payload of every entry, in the order of the entries. The first
/// entry whose payload does not lie within `bytes` is reported.
pub fn load_all_payloads(bytes: &Vec<u8>, entries: &Vec<FarFileInfo>) -> (r: Result<
    Vec<FarFile>,
    FormatError,
>)
    ensures
        match r {
            Ok(files) => all_in_bounds(bytes@, entry_views(entries@)) && file_views(files@)
                == spec_files(bytes@, entry_views(entries@)),
            Err(FormatError::PayloadOutOfBounds(k)) => first_out_of_bounds(
                bytes@,
                entry_views(entries@),
                k as int,
            ),
            Err(_) => false,
        },
{
    let ghost views = entry_views(entries@);
    let mut files: Vec<FarFile> = Vec::new();
    let mut i: usize = 0;
    while i < entries.len()
        invariant
            i <= entries@.len(),
            views == entry_views(entries@),
            files@.len() == i,
            forall|j: int| 0 <= j < i ==> payload_in_bounds(bytes@, #[trigger] views[j]),
            forall|j: int| 0 <= j < i ==> (#[trigger] files@[j])@ == spec_file(bytes@, views[j]),
        decreases entries@.len() - i,
    {
        let entry = &entries[i];
        assert(views[i as int] == entry@);
        match load_payload(bytes, entry, i) {
            Err(e) => {
                return Err(e);
            },
            Ok(data) => {
                files.push(FarFile { name: entry.name.clone(), size: entry.size, data });
            },
        }
        i += 1;
    }
    proof {
        assert(file_views(files@) =~= spec_files(bytes@, views));
    }
    Ok(files)
}

/// Loads the files that the manifest of `meta` lists from `bytes`, the
/// buffer that `meta` was parsed from.
pub fn extract_all(meta: &FarArchive, bytes: &Vec<u8>) -> (r: Result<Vec<FarFile>, FormatError>)
    ensures
        match r {
            Ok(files) => all_in_bounds(bytes@, meta@.file_list) && file_views(files@)
                == spec_files(bytes@, meta@.file_list),
            Err(FormatError::PayloadOutOfBounds(k)) => first_out_of_bounds(
                bytes@,
                meta@.file_list,
                k as int,
            ),
            Err(_) => false,
        },
{
    load_all_payloads(bytes, &meta.file_list)
}

impl FarArchive {
    /// Loads the payload of every entry from `original_file`, the buffer that
    /// the archive was parsed from. The archive that comes back has the same
    /// version and manifest, and one file for each entry.
    pub fn load_file_data(self, original_file: &Vec<u8>) -> (r: Result<FarArchive, FormatError>)
        ensures
            match r {
                Ok(archive) => all_in_bounds(original_file@, self@.file_list) && archive@ == (
                ArchiveView {
                    version: self@.version,
                    file_count: self@.file_count,
                    file_list: self@.file_list,
                    file_data: spec_files(original_file@, self@.file_list),
                }) && archive.well_formed() == self.well_formed(),
                Err(FormatError::PayloadOutOfBounds(k)) => first_out_of_bounds(
                    original_file@,
                    self@.file_list,
                    k as int,
                ),
                Err(_) => false,
            },
    {
        match load_all_payloads(original_file, &self.file_list) {
            Err(e) => Err(e),
            Ok(file_data) => Ok(
                FarArchive {
                    version: self.version,
                    file_count: self.file_count,
                    file_list: self.file_list,
                    file_data,
                },
            ),
        }
    }
}

} // verus!
