//! Building an archive: the layout of header, manifest and payloads, and the
//! bytes that a list of files is written to.

use crate::format::{magic, u32_le_bytes, write_magic, write_u32_le, HEADER_LEN, RECORD_FIXED_LEN};
use crate::model::{file_views, EntryView, FarFile, FileView, FormatError};
use vstd::prelude::*;
use vstd::utf8::encode_utf8;

verus! {

/// The bytes that the names of the first `n` files take, together.
pub open spec fn names_len(files: Seq<FileView>, n: int) -> int
    decreases n,
{
    if n <= 0 {
        0
    } else {
        names_len(files, n - 1) + encode_utf8(files[n - 1].name).len()
    }
}

/// The bytes that the payloads of the first `n` files take, together.
pub open spec fn payloads_len(files: Seq<FileView>, n: int) -> int
    decreases n,
{
    if n <= 0 {
        0
    } else {
        payloads_len(files, n - 1) + files[n - 1].data.len()
    }
}

/// Length of the manifest: the count, and for each file the fixed part of
/// its record and its name.
pub open spec fn manifest_len(files: Seq<FileView>) -> int {
    4 + RECORD_FIXED_LEN * files.len() + names_len(files, files.len() as int)
}

/// Where the payload of file `i` starts: the payloads follow the manifest
/// in manifest order, with nothing between them.
pub open spec fn payload_offset(files: Seq<FileView>, i: int) -> int {
    HEADER_LEN + manifest_len(files) + payloads_len(files, i)
}

/// Every payload starts at an offset that 32 bits can hold, which is what
/// the manifest stores.
pub open spec fn layout_fits(files: Seq<FileView>) -> bool {
    forall|i: int| 0 <= i < files.len() ==> #[trigger] payload_offset(files, i) <= u32::MAX
}

/// Every file states the length of its data as its size.
pub open spec fn sizes_match(files: Seq<FileView>) -> bool {
    forall|i: int| 0 <= i < files.len() ==> (#[trigger] files[i]).size == files[i].data.len()
}

/// File `k` is the first whose stated size is not the length of its data.
pub open spec fn first_size_mismatch(files: Seq<FileView>, k: int) -> bool {
    &&& 0 <= k < files.len()
    &&& files[k].size != files[k].data.len()
    &&& forall|i: int| 0 <= i < k ==> (#[trigger] files[i]).size == files[i].data.len()
}

/// The fixed header: magic value, version, three reserved bytes that are
/// zero, and the manifest's offset, which is the header's length.
pub open spec fn spec_header(version: u8) -> Seq<u8> {
    magic() + seq![version, 0u8, 0u8, 0u8] + u32_le_bytes(HEADER_LEN as u32)
}

/// The manifest record of file `i`: its size twice, where its payload
/// starts, the length of its name and the name.
pub open spec fn spec_record(files: Seq<FileView>, i: int) -> Seq<u8> {
    let name = encode_utf8(files[i].name);
    u32_le_bytes(files[i].size) + u32_le_bytes(files[i].size) + u32_le_bytes(
        payload_offset(files, i) as u32,
    ) + u32_le_bytes(name.len() as u32) + name
}

/// The records of the first `n` files, one behind the other.
pub open spec fn spec_records(files: Seq<FileView>, n: int) -> Seq<u8>
    decreases n,
{
    if n <= 0 {
        Seq::empty()
    } else {
        spec_records(files, n - 1) + spec_record(files, n - 1)
    }
}

/// The payloads of the first `n` files, one behind the other.
pub open spec fn spec_payloads(files: Seq<FileView>, n: int) -> Seq<u8>
    decreases n,
{
    if n <= 0 {
        Seq::empty()
    } else {
        spec_payloads(files, n - 1) + files[n - 1].data
    }
}

/// The manifest: the number of files, then their records.
pub open spec fn spec_manifest(files: Seq<FileView>) -> Seq<u8> {
    u32_le_bytes(files.len() as u32) + spec_records(files, files.len() as int)
}

/// The archive that holds `files`: header, manifest, payloads.
pub open spec fn spec_build(version: u8, files: Seq<FileView>) -> Seq<u8> {
    spec_header(version) + spec_manifest(files) + spec_payloads(files, files.len() as int)
}

/// The manifest entry that the builder writes for file `i`.
pub open spec fn built_entry(files: Seq<FileView>, i: int) -> EntryView {
    EntryView {
        name: files[i].name,
        size: files[i].size,
        size_copy: files[i].size,
        offset: payload_offset(files, i) as u32,
    }
}

/// The manifest entries that the builder writes for `files`.
pub open spec fn built_entries(files: Seq<FileView>) -> Seq<EntryView> {
    Seq::new(files.len(), |i: int| built_entry(files, i))
}

/// The names of more files take no fewer bytes.
pub proof fn lemma_names_len_monotonic(files: Seq<FileView>, i: int, j: int)
    requires
        i <= j,
    ensures
        0 <= names_len(files, i) <= names_len(files, j),
    decreases j - i,
{
    if i < j {
        lemma_names_len_monotonic(files, i, j - 1);
    } else {
        lemma_names_len_nonnegative(files, i);
    }
}

proof fn lemma_names_len_nonnegative(files: Seq<FileView>, n: int)
    ensures
        0 <= names_len(files, n),
    decreases n,
{
    if n > 0 {
        lemma_names_len_nonnegative(files, n - 1);
    }
}

/// The payloads of more files take no fewer bytes.
pub proof fn lemma_payloads_len_monotonic(files: Seq<FileView>, i: int, j: int)
    requires
        i <= j,
    ensures
        0 <= payloads_len(files, i) <= payloads_len(files, j),
    decreases j - i,
{
    if i < j {
        lemma_payloads_len_monotonic(files, i, j - 1);
    } else {
        lemma_payloads_len_nonnegative(files, i);
    }
}

proof fn lemma_payloads_len_nonnegative(files: Seq<FileView>, n: int)
    ensures
        0 <= payloads_len(files, n),
    decreases n,
{
    if n > 0 {
        lemma_payloads_len_nonnegative(files, n - 1);
    }
}

/// The layout fits as soon as the last payload's offset does.
pub proof fn lemma_layout_fits_by_last(files: Seq<FileView>)
    ensures
        layout_fits(files) <==> (files.len() > 0 ==> payload_offset(files, files.len() - 1)
            <= u32::MAX),
{
    if files.len() > 0 && payload_offset(files, files.len() - 1) <= u32::MAX {
        assert forall|i: int| 0 <= i < files.len() implies #[trigger] payload_offset(files, i)
            <= u32::MAX by {
            lemma_payloads_len_monotonic(files, i, files.len() - 1);
        }
    }
}

/// Appends the bytes of `src` to `out`.
fn append_bytes(out: &mut Vec<u8>, src: &[u8])
    ensures
        final(out)@ == old(out)@ + src@,
{
    let mut i: usize = 0;
    while i < src.len()
        invariant
            i <= src@.len(),
            out@ == old(out)@ + src@.subrange(0, i as int),
        decreases src@.len() - i,
    {
        out.push(src[i]);
        assert(out@ =~= old(out)@ + src@.subrange(0, i + 1));
        i += 1;
    }
    assert(src@.subrange(0, i as int) =~= src@);
}

/// Tells whether an archive of `files` can be laid out: whether every
/// payload would start at an offset that 32 bits can hold.
pub fn check_layout(files: &Vec<FarFile>) -> (b: bool)
    ensures
        b == layout_fits(file_views(files@)),
{
    let ghost views = file_views(files@);
    let n: usize = files.len();
    proof {
        lemma_layout_fits_by_last(views);
    }
    if n == 0 {
        return true;
    }
    let mut start: u64 = HEADER_LEN as u64 + 4;
    let mut i: usize = 0;
    while i < n
        invariant
            i <= n,
            n == files@.len(),
            views == file_views(files@),
            start == HEADER_LEN + 4 + RECORD_FIXED_LEN * i + names_len(views, i as int),
            start <= u32::MAX,
        decreases n - i,
    {
        let name_len: usize = files[i].name.as_str().as_bytes().len();
        proof {
            lemma_names_len_monotonic(views, i + 1, n as int);
            lemma_names_len_monotonic(views, 0, i as int);
            assert(encode_utf8(views[i as int].name).len() == name_len);
            assert(payload_offset(views, 0) >= start + RECORD_FIXED_LEN + name_len);
        }
        if name_len > 0xffff_ffff {
            return false;
        }
        start = start + RECORD_FIXED_LEN as u64 + name_len as u64;
        if start > 0xffff_ffff {
            return false;
        }
        i += 1;
    }
    let mut offset: u64 = start;
    let mut k: usize = 0;
    while k + 1 < n
        invariant
            k < n,
            n == files@.len(),
            views == file_views(files@),
            offset == payload_offset(views, k as int),
            offset <= u32::MAX,
        decreases n - k,
    {
        let len: usize = files[k].data.len();
        proof {
            assert(views[k as int].data.len() == len);
            assert(payload_offset(views, k + 1) == offset + len);
        }
        if len > 0xffff_ffff {
            return false;
        }
        offset = offset + len as u64;
        if offset > 0xffff_ffff {
            return false;
        }
        k += 1;
    }
    true
}

/// Length of the manifest of `files`.
fn manifest_size(files: &Vec<FarFile>) -> (len: u32)
    requires
        HEADER_LEN + manifest_len(file_views(files@)) <= u32::MAX,
    ensures
        len == manifest_len(file_views(files@)),
{
    let ghost views = file_views(files@);
    let n: usize = files.len();
    let mut len: u32 = 4;
    let mut i: usize = 0;
    while i < n
        invariant
            i <= n,
            n == files@.len(),
            views == file_views(files@),
            len == 4 + RECORD_FIXED_LEN * i + names_len(views, i as int),
            HEADER_LEN + manifest_len(views) <= u32::MAX,
        decreases n - i,
    {
        let name_len: usize = files[i].name.as_str().as_bytes().len();
        proof {
            lemma_names_len_monotonic(views, i + 1, n as int);
            lemma_names_len_monotonic(views, 0, i as int);
            assert(encode_utf8(views[i as int].name).len() == name_len);
        }
        len = len + RECORD_FIXED_LEN as u32 + name_len as u32;
        i += 1;
    }
    len
}

/// Finds the first file whose stated size is not the length of its data.
fn find_size_mismatch(files: &Vec<FarFile>) -> (r: Option<usize>)
    ensures
        match r {
            None => sizes_match(file_views(files@)),
            Some(k) => first_size_mismatch(file_views(files@), k as int),
        },
{
    let ghost views = file_views(files@);
    let mut i: usize = 0;
    while i < files.len()
        invariant
            i <= files@.len(),
            views == file_views(files@),
            forall|j: int| 0 <= j < i ==> (#[trigger] views[j]).size == views[j].data.len(),
        decreases files@.len() - i,
    {
        let file = &files[i];
        assert(views[i as int] == file@);
        if file.data.len() > 0xffff_ffff || file.data.len() as u32 != file.size {
            return Some(i);
        }
        i += 1;
    }
    None
}

/// Builds the archive that holds `files`, in their order, under `version`.
/// The files must fit the layout (see `check_layout`); a file whose stated
/// size is not the length of its data is refused.
pub fn build(version: u8, files: &Vec<FarFile>) -> (r: Result<Vec<u8>, FormatError>)
    requires
        layout_fits(file_views(files@)),
    ensures
        match r {
            Ok(bytes) => sizes_match(file_views(files@)) && bytes@ == spec_build(
                version,
                file_views(files@),
            ),
            Err(FormatError::SizeMismatch(k)) => first_size_mismatch(
                file_views(files@),
                k as int,
            ),
            Err(_) => false,
        },
{
    let ghost views = file_views(files@);
    if let Some(k) = find_size_mismatch(files) {
        return Err(FormatError::SizeMismatch(k));
    }
    let n: usize = files.len();
    proof {
        if n > 0 {
            assert(payload_offset(views, 0) <= u32::MAX);
            lemma_names_len_monotonic(views, 0, n as int);
        }
    }
    let data_start: u32 = HEADER_LEN as u32 + manifest_size(files);
    let mut out: Vec<u8> = Vec::new();
    write_magic(&mut out);
    out.push(version);
    out.push(0);
    out.push(0);
    out.push(0);
    write_u32_le(&mut out, HEADER_LEN as u32);
    write_u32_le(&mut out, n as u32);
    let ghost head = spec_header(version) + u32_le_bytes(n as u32);
    assert(out@ =~= head);
    let mut offset: u64 = data_start as u64;
    let mut i: usize = 0;
    while i < n
        invariant
            i <= n,
            n == files@.len(),
            views == file_views(files@),
            layout_fits(views),
            sizes_match(views),
            HEADER_LEN + manifest_len(views) <= u32::MAX,
            out@ == head + spec_records(views, i as int),
            offset == payload_offset(views, i as int),
            i < n ==> offset <= u32::MAX,
        decreases n - i,
    {
        let file = &files[i];
        let name = file.name.as_str().as_bytes();
        let name_len: usize = name.len();
        proof {
            assert(views[i as int] == file@);
            assert(name@ == encode_utf8(views[i as int].name));
            lemma_names_len_monotonic(views, i + 1, n as int);
            lemma_names_len_monotonic(views, 0, i as int);
            assert(payload_offset(views, i as int) <= u32::MAX);
            if i + 1 < n {
                assert(payload_offset(views, i + 1) <= u32::MAX);
            }
        }
        let ghost before = out@;
        write_u32_le(&mut out, file.size);
        write_u32_le(&mut out, file.size);
        write_u32_le(&mut out, offset as u32);
        write_u32_le(&mut out, name_len as u32);
        append_bytes(&mut out, name);
        assert(out@ =~= before + spec_record(views, i as int));
        assert(out@ =~= head + (spec_records(views, i as int) + spec_record(views, i as int)));
        offset = offset + file.size as u64;
        i += 1;
    }
    let ghost front = out@;
    let mut k: usize = 0;
    while k < n
        invariant
            k <= n,
            n == files@.len(),
            views == file_views(files@),
            out@ == front + spec_payloads(views, k as int),
        decreases n - k,
    {
        let file = &files[k];
        let ghost before = out@;
        append_bytes(&mut out, file.data.as_slice());
        proof {
            assert(views[k as int] == file@);
            assert(out@ =~= front + (spec_payloads(views, k as int) + file.data@));
        }
        k += 1;
    }
    proof {
        assert(out@ =~= spec_build(version, views));
    }
    Ok(out)
}

} // verus!
