//! What holds of the reader and the builder together.

use crate::builder::{
    built_entries, built_entry, layout_fits, lemma_names_len_monotonic,
    lemma_payloads_len_monotonic, manifest_len, names_len, payload_offset, payloads_len,
    sizes_match, spec_build, spec_header, spec_payloads, spec_record, spec_records,
};
use crate::format::{
    le_u32, lemma_le_u32_of_bytes, magic, u32_le_bytes, HEADER_LEN, MAGIC_LEN, RECORD_FIXED_LEN,
};
use crate::model::{ArchiveView, EntryView, FileView, FormatError};
use crate::reader::{
    all_in_bounds, payload_in_bounds, spec_file, spec_files, spec_parse, spec_parse_entries,
    spec_parse_entry, spec_parse_header, spec_parse_manifest, spec_payload,
};
use vstd::prelude::*;
use vstd::utf8::{encode_utf8, encode_utf8_decode_utf8, encode_utf8_valid_utf8};

verus! {

/// Where the record of file `i` starts in the archive built from `files`.
pub open spec fn record_offset(files: Seq<FileView>, i: int) -> int {
    HEADER_LEN + 4 + RECORD_FIXED_LEN * i + names_len(files, i)
}

proof fn lemma_record_len(files: Seq<FileView>, i: int)
    ensures
        spec_record(files, i).len() == RECORD_FIXED_LEN + encode_utf8(files[i].name).len(),
{
}

proof fn lemma_records_len(files: Seq<FileView>, n: int)
    requires
        0 <= n,
    ensures
        spec_records(files, n).len() == RECORD_FIXED_LEN * n + names_len(files, n),
    decreases n,
{
    if n > 0 {
        lemma_records_len(files, n - 1);
        lemma_record_len(files, n - 1);
    }
}

proof fn lemma_payloads_len(files: Seq<FileView>, n: int)
    requires
        0 <= n,
    ensures
        spec_payloads(files, n).len() == payloads_len(files, n),
    decreases n,
{
    if n > 0 {
        lemma_payloads_len(files, n - 1);
    }
}

/// Among the records of the first `n` files, that of file `i` stands where
/// the records before it end.
proof fn lemma_record_at(files: Seq<FileView>, n: int, i: int)
    requires
        0 <= i < n,
    ensures
        spec_records(files, n).subrange(
            RECORD_FIXED_LEN * i + names_len(files, i),
            RECORD_FIXED_LEN * (i + 1) + names_len(files, i + 1),
        ) == spec_record(files, i),
    decreases n,
{
    lemma_records_len(files, n - 1);
    lemma_records_len(files, n);
    lemma_record_len(files, n - 1);
    let whole = spec_records(files, n);
    let front = spec_records(files, n - 1);
    let a = RECORD_FIXED_LEN * i + names_len(files, i);
    let b = RECORD_FIXED_LEN * (i + 1) + names_len(files, i + 1);
    lemma_names_len_monotonic(files, 0, i);
    if i == n - 1 {
        assert(whole.subrange(a, b) =~= spec_record(files, i));
    } else {
        lemma_record_at(files, n - 1, i);
        lemma_names_len_monotonic(files, i + 1, n - 1);
        assert(whole.subrange(a, b) =~= front.subrange(a, b));
    }
}

/// Among the payloads of the first `n` files, that of file `i` stands where
/// the payloads before it end.
proof fn lemma_payload_at(files: Seq<FileView>, n: int, i: int)
    requires
        0 <= i < n,
    ensures
        spec_payloads(files, n).subrange(payloads_len(files, i), payloads_len(files, i + 1))
            == files[i].data,
    decreases n,
{
    lemma_payloads_len(files, n - 1);
    lemma_payloads_len(files, n);
    let whole = spec_payloads(files, n);
    let front = spec_payloads(files, n - 1);
    let a = payloads_len(files, i);
    let b = payloads_len(files, i + 1);
    lemma_payloads_len_monotonic(files, 0, i);
    if i == n - 1 {
        assert(whole.subrange(a, b) =~= files[i].data);
    } else {
        lemma_payload_at(files, n - 1, i);
        lemma_payloads_len_monotonic(files, i + 1, n - 1);
        assert(whole.subrange(a, b) =~= front.subrange(a, b));
    }
}

/// The parts of a built archive: how long it is, and where the records and
/// the payloads stand in it.
proof fn lemma_built_parts(version: u8, files: Seq<FileView>, i: int)
    requires
        0 <= i < files.len(),
    ensures
        spec_build(version, files).len() == HEADER_LEN + manifest_len(files) + payloads_len(
            files,
            files.len() as int,
        ),
        record_offset(files, i + 1) <= HEADER_LEN + manifest_len(files),
        spec_build(version, files).subrange(record_offset(files, i), record_offset(files, i + 1))
            == spec_record(files, i),
        payload_offset(files, i) + files[i].data.len() <= spec_build(version, files).len(),
        spec_build(version, files).subrange(
            payload_offset(files, i),
            payload_offset(files, i) + files[i].data.len(),
        ) == files[i].data,
{
    let n = files.len() as int;
    let built = spec_build(version, files);
    let records = spec_records(files, n);
    let payloads = spec_payloads(files, n);
    lemma_records_len(files, n);
    lemma_payloads_len(files, n);
    lemma_names_len_monotonic(files, 0, i);
    lemma_names_len_monotonic(files, i + 1, n);
    lemma_payloads_len_monotonic(files, 0, i);
    lemma_payloads_len_monotonic(files, i + 1, n);
    lemma_record_at(files, n, i);
    lemma_payload_at(files, n, i);
    let a = RECORD_FIXED_LEN * i + names_len(files, i);
    let b = RECORD_FIXED_LEN * (i + 1) + names_len(files, i + 1);
    assert(built.subrange(record_offset(files, i), record_offset(files, i + 1))
        =~= records.subrange(a, b));
    let c = payloads_len(files, i);
    let d = payloads_len(files, i + 1);
    assert(built.subrange(payload_offset(files, i), payload_offset(files, i) + files[i].data.len())
        =~= payloads.subrange(c, d));
}

/// The head of a built archive: the magic value, the version, the pointer
/// to the manifest and the entry count.
proof fn lemma_built_head(version: u8, files: Seq<FileView>)
    requires
        files.len() <= u32::MAX,
    ensures
        spec_build(version, files).len() >= HEADER_LEN + 4,
        spec_parse_header(spec_build(version, files)) == Ok::<(u8, u32), FormatError>(
            (version, HEADER_LEN as u32),
        ),
        le_u32(spec_build(version, files), HEADER_LEN as int) == files.len(),
{
    let built = spec_build(version, files);
    assert(built.subrange(0, MAGIC_LEN as int) =~= magic());
    assert(built.subrange(12, 16) =~= u32_le_bytes(HEADER_LEN as u32));
    lemma_le_u32_of_bytes(built, 12, HEADER_LEN as u32);
    assert(built.subrange(16, 20) =~= u32_le_bytes(files.len() as u32));
    lemma_le_u32_of_bytes(built, 16, files.len() as u32);
}

/// Four bytes that stand at `k` in a stretch of `bytes` are read as the
/// value that they store.
proof fn lemma_le_u32_within(bytes: Seq<u8>, from: int, to: int, k: int, x: u32)
    requires
        0 <= from <= to <= bytes.len(),
        0 <= k,
        k + 4 <= to - from,
        bytes.subrange(from, to).subrange(k, k + 4) == u32_le_bytes(x),
    ensures
        le_u32(bytes, from + k) == x,
{
    assert(bytes.subrange(from + k, from + k + 4) =~= bytes.subrange(from, to).subrange(k, k + 4));
    lemma_le_u32_of_bytes(bytes, from + k, x);
}

/// The five parts of a record, found again in the record.
proof fn lemma_record_parts(a: Seq<u8>, b: Seq<u8>, c: Seq<u8>, d: Seq<u8>, e: Seq<u8>)
    requires
        a.len() == 4,
        b.len() == 4,
        c.len() == 4,
        d.len() == 4,
    ensures
        (a + b + c + d + e).len() == 16 + e.len(),
        (a + b + c + d + e).subrange(0, 4) == a,
        (a + b + c + d + e).subrange(4, 8) == b,
        (a + b + c + d + e).subrange(8, 12) == c,
        (a + b + c + d + e).subrange(12, 16) == d,
        (a + b + c + d + e).subrange(16, 16 + e.len() as int) == e,
{
    let r = a + b + c + d + e;
    assert(r.subrange(0, 4) =~= a);
    assert(r.subrange(4, 8) =~= b);
    assert(r.subrange(8, 12) =~= c);
    assert(r.subrange(12, 16) =~= d);
    assert(r.subrange(16, 16 + e.len() as int) =~= e);
}

/// A record that stands at `pos` reads back as the entry that it stores:
/// both sizes, the offset and the name.
pub proof fn lemma_record_parses(
    bytes: Seq<u8>,
    pos: int,
    index: int,
    entry: EntryView,
)
    requires
        0 <= pos,
        encode_utf8(entry.name).len() <= u32::MAX,
        pos + RECORD_FIXED_LEN + encode_utf8(entry.name).len() <= bytes.len(),
        bytes.subrange(pos, pos + RECORD_FIXED_LEN + encode_utf8(entry.name).len())
            == u32_le_bytes(entry.size) + u32_le_bytes(entry.size_copy) + u32_le_bytes(
            entry.offset,
        ) + u32_le_bytes(encode_utf8(entry.name).len() as u32) + encode_utf8(entry.name),
    ensures
        spec_parse_entry(bytes, pos, index) == Ok::<(EntryView, int), FormatError>(
            (entry, pos + RECORD_FIXED_LEN + encode_utf8(entry.name).len()),
        ),
{
    let name = encode_utf8(entry.name);
    let to = pos + RECORD_FIXED_LEN + name.len();
    lemma_record_parts(
        u32_le_bytes(entry.size),
        u32_le_bytes(entry.size_copy),
        u32_le_bytes(entry.offset),
        u32_le_bytes(name.len() as u32),
        name,
    );
    lemma_le_u32_within(bytes, pos, to, 0, entry.size);
    lemma_le_u32_within(bytes, pos, to, 4, entry.size_copy);
    lemma_le_u32_within(bytes, pos, to, 8, entry.offset);
    lemma_le_u32_within(bytes, pos, to, 12, name.len() as u32);
    assert(bytes.subrange(pos + 16, to) =~= bytes.subrange(pos, to).subrange(
        16,
        16 + name.len() as int,
    ));
    encode_utf8_valid_utf8(entry.name);
    encode_utf8_decode_utf8(entry.name);
}

/// In a built archive the record of file `i` reads back as the entry that
/// was written for it.
proof fn lemma_built_entry_parses(version: u8, files: Seq<FileView>, i: int)
    requires
        0 <= i < files.len(),
        layout_fits(files),
    ensures
        spec_parse_entry(spec_build(version, files), record_offset(files, i), i) == Ok::<
            (EntryView, int),
            FormatError,
        >((built_entry(files, i), record_offset(files, i + 1))),
{
    let n = files.len() as int;
    lemma_built_parts(version, files, i);
    lemma_names_len_monotonic(files, 0, i);
    lemma_names_len_monotonic(files, i + 1, n);
    lemma_payloads_len_monotonic(files, 0, i);
    assert(payload_offset(files, 0) <= u32::MAX);
    assert(payload_offset(files, i) <= u32::MAX);
    lemma_record_parses(spec_build(version, files), record_offset(files, i), i, built_entry(files, i));
}

/// In a built archive the records from file `i` on read back as the entries
/// that were written for them.
proof fn lemma_built_entries_parse(version: u8, files: Seq<FileView>, i: int)
    requires
        0 <= i <= files.len(),
        layout_fits(files),
    ensures
        spec_parse_entries(
            spec_build(version, files),
            record_offset(files, i),
            i,
            files.len() as int,
        ) == Ok::<Seq<EntryView>, FormatError>(
            built_entries(files).subrange(i, files.len() as int),
        ),
    decreases files.len() - i,
{
    let n = files.len() as int;
    let built = spec_build(version, files);
    let entries = built_entries(files);
    if i < n {
        lemma_built_entry_parses(version, files, i);
        lemma_built_entries_parse(version, files, i + 1);
        assert(seq![built_entry(files, i)] + entries.subrange(i + 1, n) =~= entries.subrange(
            i,
            n,
        ));
    } else {
        assert(entries.subrange(i, n) =~= Seq::<EntryView>::empty());
    }
}

/// Round trip. An archive built from `files` under `version` parses to that
/// version and to one entry for each file, in the same order, with the
/// file's name and size; loading the payloads of those entries from the
/// archive gives back `files`, byte for byte. Names may repeat. This holds
/// of every list that the builder takes: each file states the length of its
/// data as its size, and the layout fits 32-bit offsets.
pub proof fn lemma_round_trip(version: u8, files: Seq<FileView>)
    requires
        sizes_match(files),
        layout_fits(files),
    ensures
        spec_parse(spec_build(version, files)) == Ok::<ArchiveView, FormatError>(
            ArchiveView {
                version,
                file_count: files.len() as u32,
                file_list: built_entries(files),
                file_data: Seq::empty(),
            },
        ),
        files.len() <= u32::MAX,
        forall|i: int|
            0 <= i < files.len() ==> (#[trigger] built_entries(files)[i]).name == files[i].name
                && built_entries(files)[i].size == files[i].size,
        all_in_bounds(spec_build(version, files), built_entries(files)),
        spec_files(spec_build(version, files), built_entries(files)) == files,
{
    let n = files.len() as int;
    let built = spec_build(version, files);
    let entries = built_entries(files);
    if n > 0 {
        assert(payload_offset(files, 0) <= u32::MAX);
        lemma_names_len_monotonic(files, 0, n);
    }
    lemma_built_head(version, files);
    lemma_built_entries_parse(version, files, 0);
    assert(entries.subrange(0, n) =~= entries);
    assert forall|i: int| 0 <= i < n implies payload_in_bounds(built, #[trigger] entries[i])
        && spec_file(built, entries[i]) == files[i] by {
        lemma_built_parts(version, files, i);
        lemma_payloads_len_monotonic(files, 0, i);
        assert(payload_offset(files, i) <= u32::MAX);
        assert(spec_payload(built, entries[i]) =~= files[i].data);
    }
    assert(spec_files(built, entries) =~= files);
}

/// Empty archive. Built from no files, an archive is the header and a
/// count of zero, twenty bytes in all, and parses back to its version and an
/// empty file table.
pub proof fn lemma_empty_archive(version: u8)
    ensures
        spec_build(version, Seq::empty()) == spec_header(version) + u32_le_bytes(0),
        spec_build(version, Seq::empty()).len() == 20,
        spec_parse(spec_build(version, Seq::empty())) == Ok::<ArchiveView, FormatError>(
            ArchiveView {
                version,
                file_count: 0,
                file_list: Seq::empty(),
                file_data: Seq::empty(),
            },
        ),
{
    let files = Seq::<FileView>::empty();
    lemma_round_trip(version, files);
    assert(built_entries(files) =~= Seq::<EntryView>::empty());
    assert(spec_build(version, files) =~= spec_header(version) + u32_le_bytes(0));
}

/// Magic rejection. A buffer whose first eight bytes are not the magic value
/// is refused as such, whatever follows them.
pub proof fn lemma_magic_rejection(bytes: Seq<u8>)
    requires
        bytes.len() >= MAGIC_LEN,
        bytes.subrange(0, MAGIC_LEN as int) != magic(),
    ensures
        spec_parse_header(bytes) == Err::<(u8, u32), FormatError>(FormatError::InvalidMagic),
        spec_parse(bytes) == Err::<ArchiveView, FormatError>(FormatError::InvalidMagic),
{
}

/// Truncated header. A buffer of fewer than sixteen bytes is refused as
/// truncated, unless it holds eight bytes or more that are not the magic
/// value: the magic value is looked at first.
pub proof fn lemma_truncated_header(bytes: Seq<u8>)
    requires
        bytes.len() < HEADER_LEN,
        bytes.len() < MAGIC_LEN || bytes.subrange(0, MAGIC_LEN as int) == magic(),
    ensures
        spec_parse_header(bytes) == Err::<(u8, u32), FormatError>(FormatError::TruncatedHeader),
        spec_parse(bytes) == Err::<ArchiveView, FormatError>(FormatError::TruncatedHeader),
{
}

/// Records that reach the end of the buffer before the count is met are
/// refused: the first record that cannot be read is reported, for its
/// missing bytes or, where one comes first, for a name that is not UTF-8.
proof fn lemma_entries_cut_short(bytes: Seq<u8>, pos: int, index: int, count: int)
    requires
        0 <= pos <= bytes.len(),
        0 <= index <= count <= u32::MAX,
        bytes.len() - pos < RECORD_FIXED_LEN * (count - index),
    ensures
        match spec_parse_entries(bytes, pos, index, count) {
            Err(FormatError::TruncatedManifest(k)) => index <= k < count,
            Err(FormatError::InvalidUtf8Name(k)) => index <= k < count,
            _ => false,
        },
    decreases count - index,
{
    if let Ok((entry, next)) = spec_parse_entry(bytes, pos, index) {
        lemma_entries_cut_short(bytes, next, index + 1, count);
    }
}

/// Truncated manifest. Where the manifest states more entries than the
/// bytes behind its count can hold, at sixteen bytes and a name each, it is
/// refused, and so is the buffer with a header that leads to it. The error
/// names an entry below the count. It is the truncation that is reported,
/// unless an entry before the cut has a name that is not UTF-8, which is
/// then reported instead.
pub proof fn lemma_truncated_manifest(bytes: Seq<u8>, manifest_offset: u32)
    requires
        manifest_offset + 4 <= bytes.len(),
        bytes.len() - (manifest_offset + 4) < RECORD_FIXED_LEN * le_u32(
            bytes,
            manifest_offset as int,
        ),
    ensures
        match spec_parse_manifest(bytes, manifest_offset) {
            Err(FormatError::TruncatedManifest(k)) => k < le_u32(bytes, manifest_offset as int),
            Err(FormatError::InvalidUtf8Name(k)) => k < le_u32(bytes, manifest_offset as int),
            _ => false,
        },
        !(spec_parse_manifest(bytes, manifest_offset) matches Err(
            FormatError::InvalidUtf8Name(_),
        )) ==> spec_parse_manifest(bytes, manifest_offset) matches Err(
            FormatError::TruncatedManifest(_),
        ),
        spec_parse_header(bytes) matches Ok((_, m)) && m == manifest_offset ==> spec_parse(bytes)
            is Err && spec_parse(bytes)->Err_0 == spec_parse_manifest(
            bytes,
            manifest_offset,
        )->Err_0,
{
    lemma_entries_cut_short(
        bytes,
        manifest_offset + 4,
        0,
        le_u32(bytes, manifest_offset as int) as int,
    );
}

} // verus!
