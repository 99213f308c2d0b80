//! Save glades: which Steam save folder and which glade are the latest,
//! packing a glade folder into a zip archive, the base64 text that carries
//! it, and the plan for unpacking a received archive.
use vstd::prelude::*;
use crate::text::{ends_with_char, last_char_is, replace_char, replaced};
use base64::Engine;
use std::io::Cursor;
use std::io::Read;
use std::io::Write;
use zip::read::ZipArchive;
use zip::write::ZipWriter;

verus! {

// ─── Outside types ──────────────────────────────────────────────────────

#[verifier::external_type_specification]
#[verifier::external_body]
#[verifier::reject_recursive_types(T)]
pub struct ExCursor<T>(std::io::Cursor<T>);

/// An in-memory zip writer (`zip::ZipWriter` over a `Cursor<Vec<u8>>`);
/// its contents are known only through [`zip_writer_entries`]. A writer
/// that failed to close an entry is never dropped: its memory is given up
/// instead, since its `Drop` would try to close that entry again.
#[verifier::external_body]
pub struct ZipBuilder {
    writer: ZipWriter<Cursor<Vec<u8>>>,
}

#[verifier::external_type_specification]
#[verifier::external_body]
#[verifier::reject_recursive_types(R)]
pub struct ExZipArchive<R>(zip::read::ZipArchive<R>);

// ─── base64 ─────────────────────────────────────────────────────────────

/// The standard base64 text (RFC 4648 alphabet, `=` padding) of `bytes`.
pub uninterp spec fn base64_standard(bytes: Seq<u8>) -> Seq<char>;

/// The bytes that the standard base64 text `text` stands for, or `None`
/// when `text` is not canonical padded standard base64.
pub uninterp spec fn base64_standard_decoded(text: Seq<char>) -> Option<Seq<u8>>;

/// The length of the padded base64 text of `n` bytes.
pub open spec fn base64_len(n: nat) -> nat {
    if n % 3 == 0 {
        n / 3 * 4
    } else {
        n / 3 * 4 + 4
    }
}

/// `base64::engine::general_purpose::STANDARD.encode`. Trusted: the text
/// is the standard padded base64 of `bytes`, of the documented length, and
/// decoding it with the same engine gives `bytes` back.
#[verifier::external_body]
pub(crate) fn base64_encode(bytes: &[u8]) -> (text: String)
    requires
        base64_len(bytes@.len()) <= usize::MAX,
    ensures
        text@ == base64_standard(bytes@),
        text@.len() == base64_len(bytes@.len()),
        base64_standard_decoded(text@) == Some(bytes@),
{
    base64::engine::general_purpose::STANDARD.encode(bytes)
}

/// `base64::engine::general_purpose::STANDARD.decode` on the bytes of
/// `text`. Trusted: the result is the bytes `text` stands for, `None` on
/// any decoding error.
#[verifier::external_body]
pub(crate) fn base64_decode(text: &str) -> (bytes: Option<Vec<u8>>)
    ensures
        match bytes {
            Some(b) => base64_standard_decoded(text@) == Some(b@),
            None => base64_standard_decoded(text@) is None,
        },
{
    base64::engine::general_purpose::STANDARD.decode(text.as_bytes()).ok()
}

// ─── Zip archives ───────────────────────────────────────────────────────

/// One entry asked of a zip writer: whether it is a directory, its name as
/// given, and the bytes written to it.
pub type ZipOp = (bool, Seq<char>, Seq<u8>);

/// The entries that `w` has been asked to store, in order, while it can
/// take further calls; `None` for a writer that a failed write has closed.
pub uninterp spec fn zip_writer_entries(w: ZipBuilder) -> Option<Seq<ZipOp>>;

/// The bytes of the zip archive that a `zip` 0.6 writer with default
/// options (deflated files, stored directories, the default timestamp)
/// produces for `entries`.
pub uninterp spec fn zip_archive_bytes(entries: Seq<ZipOp>) -> Seq<u8>;

/// The size of the deflate stream (flate2 at its default level) that a
/// `zip` 0.6 writer records for a file holding `data`.
pub uninterp spec fn zip_deflated_len(data: Seq<u8>) -> nat;

/// Whether the last of `entries`, if any, can be closed: a directory
/// always, a file when its deflated size stays within the 4 GiB that an
/// entry without the large-file option records.
pub open spec fn zip_last_closable(entries: Seq<ZipOp>) -> bool {
    entries.len() == 0 || entries.last().0 || zip_deflated_len(entries.last().2) <= u32::MAX
}

/// Whether every file of `ops` fits a zip entry without the large-file
/// option: at most `u32::MAX` bytes, and as many once deflated.
pub open spec fn zip_ops_fit(ops: Seq<ZipOp>) -> bool {
    forall|k: int|
        0 <= k < ops.len() && !(#[trigger] ops[k]).0 ==> ops[k].2.len() <= u32::MAX
            && zip_deflated_len(ops[k].2) <= u32::MAX
}

/// A fresh in-memory zip writer (`ZipWriter::new` on an empty cursor).
/// Trusted: it holds no entries.
#[verifier::external_body]
fn zip_writer_new() -> (w: ZipBuilder)
    ensures
        zip_writer_entries(w) == Some(Seq::<ZipOp>::empty()),
{
    ZipBuilder { writer: ZipWriter::new(Cursor::new(Vec::new())) }
}

/// `ZipWriter::add_directory` with default options. Trusted: it first
/// closes the entry before, which fails exactly when that entry is a file
/// whose deflated size passes 4 GiB (`update_local_file_header`; the
/// in-memory cursor reports no errors), and then appends the directory
/// entry `name`. A writer whose call failed is set aside without being
/// dropped (its `Drop` would close the half-updated entry again and can
/// panic), and a fresh one takes its place.
#[verifier::external_body]
fn zip_add_directory(w: &mut ZipBuilder, name: String) -> (ok: bool)
    requires
        zip_writer_entries(*old(w)) is Some,
    ensures
        ok == (zip_writer_entries(*old(w)).unwrap().len() == 0 || zip_writer_entries(
            *old(w),
        ).unwrap().last().0 || zip_deflated_len(zip_writer_entries(*old(w)).unwrap().last().2)
            <= u32::MAX),
        ok ==> zip_writer_entries(*final(w)) == Some(
            zip_writer_entries(*old(w)).unwrap().push((true, name@, Seq::<u8>::empty())),
        ),
{
    match w.writer.add_directory(name, zip::write::FileOptions::default()) {
        Ok(()) => true,
        Err(_) => {
            std::mem::forget(std::mem::replace(&mut w.writer, ZipWriter::new(Cursor::new(Vec::new()))));
            false
        },
    }
}

/// `ZipWriter::start_file` with deflate compression. Trusted: as for
/// [`zip_add_directory`] it succeeds exactly when the entry before can be
/// closed, and then appends the empty file entry `name`, which receives
/// later writes; a failed writer is set aside the same way.
#[verifier::external_body]
fn zip_start_file(w: &mut ZipBuilder, name: String) -> (ok: bool)
    requires
        zip_writer_entries(*old(w)) is Some,
    ensures
        ok == zip_last_closable(zip_writer_entries(*old(w)).unwrap()),
        ok ==> zip_writer_entries(*final(w)) == Some(
            zip_writer_entries(*old(w)).unwrap().push((false, name@, Seq::<u8>::empty())),
        ),
{
    let options = zip::write::FileOptions::default().compression_method(
        zip::CompressionMethod::Deflated,
    );
    match w.writer.start_file(name, options) {
        Ok(()) => true,
        Err(_) => {
            std::mem::forget(std::mem::replace(&mut w.writer, ZipWriter::new(Cursor::new(Vec::new()))));
            false
        },
    }
}

/// Whether a writer holding `es` takes the non-empty `data`: its last
/// entry is a file that stays within `u32::MAX` bytes.
pub open spec fn zip_takes_data(es: Seq<ZipOp>, data: Seq<u8>) -> bool {
    es.len() > 0 && !es.last().0 && es.last().2.len() + data.len() <= u32::MAX
}

/// `es` with `data` appended to the contents of its last entry.
pub open spec fn zip_appended(es: Seq<ZipOp>, data: Seq<u8>) -> Seq<ZipOp> {
    es.update(es.len() - 1, (es.last().0, es.last().1, es.last().2 + data))
}

/// `Write::write_all` on a zip writer. Trusted: empty `data` is accepted
/// without touching the writer (`write_all` then makes no call).
/// Otherwise `ZipWriter::write` takes the data exactly when the last entry
/// is a file that stays within `u32::MAX` bytes (`ZIP64_BYTES_THR`), and
/// the data is appended to it; past that limit the writer closes itself.
#[verifier::external_body]
fn zip_write_all(w: &mut ZipBuilder, data: &[u8]) -> (ok: bool)
    requires
        zip_writer_entries(*old(w)) is Some,
    ensures
        data@.len() == 0 ==> ok && zip_writer_entries(*final(w)) == zip_writer_entries(*old(w)),
        data@.len() > 0 ==> ok == zip_takes_data(zip_writer_entries(*old(w)).unwrap(), data@),
        (ok && data@.len() > 0) ==> zip_writer_entries(*final(w)) == Some(
            zip_appended(zip_writer_entries(*old(w)).unwrap(), data@),
        ),
{
    w.writer.write_all(data).is_ok()
}

/// Whether a zip 0.6 reader reads back exactly the entries `es` from the
/// archive `bytes` it was written as: no zip64 records (at most `0xFFFF`
/// entries, the archive below the 4 GiB offsets, and below the one offset,
/// `0x0706_4B50`, at which the last central header could read as a zip64
/// locator), and names that fit the 16-bit name length (at most 4 UTF-8
/// bytes a char) and hold no control characters, which could also form
/// that locator's signature.
pub open spec fn zip_reads_back(bytes: Seq<u8>, es: Seq<ZipOp>) -> bool {
    &&& bytes.len() <= 0x0706_4B50
    &&& es.len() <= 0xFFFF
    &&& forall|k: int|
        0 <= k < es.len() ==> ((#[trigger] es[k]).1.len() + 1) * 4 <= 0xFFFF && forall|j: int|
            0 <= j < es[k].1.len() ==> (es[k].1[j] as u32) >= 0x20
}

/// The name under which a `zip` 0.6 writer stores the entry asked for by
/// `op`: a directory name gets a trailing `/` unless it ends in `/` or `\`.
pub open spec fn zip_stored_name(op: ZipOp) -> Seq<char> {
    if op.0 && !ends_with_char(op.1, '/') && !ends_with_char(op.1, '\\') {
        op.1.push('/')
    } else {
        op.1
    }
}

/// Whether `zip` 0.6's `enclosed_name` takes the entry name `name` as a
/// path inside the target folder (no NUL, no root or drive prefix, never
/// above the folder, by the build target's path rules).
pub uninterp spec fn zip_name_is_enclosed(name: Seq<char>) -> bool;

/// An entry as read back: the name, the name again when it is enclosed.
pub open spec fn zip_item_named(name: Seq<char>, data: Seq<u8>) -> ZipItem {
    Some((name, if zip_name_is_enclosed(name) { Some(name) } else { None }, Some(data)))
}

/// The entries read back from the archive of `es`, in order: each opens,
/// under its stored name, with the bytes written to it.
pub open spec fn zip_read_back(es: Seq<ZipOp>) -> Seq<ZipItem> {
    es.map_values(|op: ZipOp| zip_item_named(zip_stored_name(op), op.2))
}

/// `ZipWriter::finish`, then the bytes of the cursor. Trusted: it closes
/// the last entry, so it succeeds exactly when that entry can be closed
/// (the central directory and its zip64 records are written without
/// checks); the bytes are the archive of the entries asked for, and a
/// `zip` 0.6 reader lists those entries again under the conditions of
/// [`zip_reads_back`] (zip's own end-to-end tests write and read back this
/// way). A failed writer is set aside without being dropped.
#[verifier::external_body]
fn zip_finish(w: ZipBuilder) -> (bytes: Option<Vec<u8>>)
    requires
        zip_writer_entries(w) is Some,
    ensures
        bytes is Some <==> zip_last_closable(zip_writer_entries(w).unwrap()),
        bytes matches Some(b) ==> b@ == zip_archive_bytes(zip_writer_entries(w).unwrap()),
        bytes matches Some(b) ==> (zip_reads_back(b@, zip_writer_entries(w).unwrap())
            ==> zip_listing(b@) == Some(zip_read_back(zip_writer_entries(w).unwrap()))),
{
    let mut w = w;
    match w.writer.finish() {
        Ok(c) => Some(c.into_inner()),
        Err(_) => {
            std::mem::forget(w);
            None
        },
    }
}

/// One entry of a zip archive as read back: `None` when the entry cannot
/// be opened; otherwise its raw name, its name as a safe relative path
/// (none when the name would escape the target folder), and its
/// uncompressed contents (none when they cannot be read).
pub type ZipItem = Option<(Seq<char>, Option<Seq<char>>, Option<Seq<u8>>)>;

/// The entries of the zip archive `bytes`, or `None` when `bytes` is not
/// a zip archive that `zip` 0.6 can open.
pub uninterp spec fn zip_listing(bytes: Seq<u8>) -> Option<Seq<ZipItem>>;

/// The entries of the opened archive `a`.
pub uninterp spec fn zip_archive_items(a: ZipArchive<Cursor<Vec<u8>>>) -> Seq<ZipItem>;

/// An entry read from an archive.
pub struct ArchiveItem {
    pub name: String,
    pub enclosed: Option<String>,
    pub data: Option<Vec<u8>>,
}

/// The value of an entry read from an archive.
pub open spec fn archive_item_view(e: Option<ArchiveItem>) -> ZipItem {
    match e {
        None => None,
        Some(i) => Some(
            (
                i.name@,
                match i.enclosed {
                    Some(p) => Some(p@),
                    None => None,
                },
                match i.data {
                    Some(d) => Some(d@),
                    None => None,
                },
            ),
        ),
    }
}

/// `ZipArchive::new` on the bytes. Trusted: it succeeds exactly when the
/// bytes are an archive, and then holds that archive's entries.
#[verifier::external_body]
fn zip_open(bytes: Vec<u8>) -> (a: Option<ZipArchive<Cursor<Vec<u8>>>>)
    ensures
        a is Some <==> zip_listing(bytes@) is Some,
        a matches Some(z) ==> zip_archive_items(z) == zip_listing(bytes@).unwrap(),
{
    ZipArchive::new(Cursor::new(bytes)).ok()
}

/// `ZipArchive::len`. Trusted: the number of entries.
#[verifier::external_body]
fn zip_len(a: &ZipArchive<Cursor<Vec<u8>>>) -> (n: usize)
    ensures
        n == zip_archive_items(*a).len(),
{
    a.len()
}

/// `ZipArchive::by_index_decrypt` with an empty password (dropped for an
/// entry that is not encrypted; unlike `by_index`, an entry that asks for a
/// password it was not given comes back as an error, not a panic), then
/// the entry's `name`, `enclosed_name` and contents (`Read::read_to_end`).
/// Trusted: the result is entry `i` as [`ZipItem`] describes it, its
/// enclosed name is its name whenever `enclosed_name` accepts it (that
/// function hands back the name itself as a path), and the archive keeps
/// its entries.
#[verifier::external_body]
fn zip_read_item(a: &mut ZipArchive<Cursor<Vec<u8>>>, i: usize) -> (e: Option<ArchiveItem>)
    requires
        i < zip_archive_items(*old(a)).len(),
    ensures
        zip_archive_items(*final(a)) == zip_archive_items(*old(a)),
        archive_item_view(e) == zip_archive_items(*old(a))[i as int],
        e matches Some(it) ==> match it.enclosed {
            Some(p) => zip_name_is_enclosed(it.name@) && p@ == it.name@,
            None => !zip_name_is_enclosed(it.name@),
        },
{
    let mut f = a.by_index_decrypt(i, &[]).ok()?.ok()?;
    let name = f.name().to_string();
    let enclosed = f.enclosed_name().map(|p| p.to_string_lossy().into_owned());
    let mut buf: Vec<u8> = Vec::new();
    let data = f.read_to_end(&mut buf).ok().map(|_| buf);
    Some(ArchiveItem { name, enclosed, data })
}


// ─── Choosing the latest ────────────────────────────────────────────────

/// Index of the first of the greatest present times in `times` (scanning
/// in order and replacing the best only by a strictly later time), or
/// `None` when no time is present.
pub open spec fn latest_index(times: Seq<Option<u128>>) -> Option<int>
    decreases times.len(),
{
    if times.len() == 0 {
        None
    } else {
        let rest = latest_index(times.drop_last());
        match times.last() {
            None => rest,
            Some(m) => match rest {
                None => Some(times.len() - 1),
                Some(j) => if m > times[j].unwrap() {
                    Some(times.len() - 1)
                } else {
                    rest
                },
            },
        }
    }
}

/// Index of the first of the greatest present times.
pub fn latest_of(times: &Vec<Option<u128>>) -> (r: Option<usize>)
    ensures
        match r {
            None => latest_index(times@) is None,
            Some(j) => latest_index(times@) == Some(j as int) && j < times@.len(),
        },
{
    let mut best: Option<usize> = None;
    let mut best_time: u128 = 0;
    let mut i: usize = 0;
    while i < times.len()
        invariant
            i <= times@.len(),
            match best {
                None => latest_index(times@.subrange(0, i as int)) is None,
                Some(j) => latest_index(times@.subrange(0, i as int)) == Some(j as int) && j < i
                    && times@[j as int] == Some(best_time),
            },
        decreases times@.len() - i,
    {
        let ghost pre = times@.subrange(0, i as int);
        proof {
            assert(times@.subrange(0, i + 1).drop_last() =~= pre);
        }
        match times[i] {
            Some(m) => {
                match best {
                    None => {
                        best = Some(i);
                        best_time = m;
                    },
                    Some(j) => {
                        proof {
                            assert(pre[j as int] == times@[j as int]);
                        }
                        if m > best_time {
                            best = Some(i);
                            best_time = m;
                        }
                    },
                }
            },
            None => {},
        }
        i = i + 1;
    }
    proof {
        assert(times@.subrange(0, times@.len() as int) =~= times@);
    }
    best
}

/// The first greatest present time is at `latest_index`: it is present,
/// no time is later, and every earlier time is strictly earlier; there is
/// none exactly when no time is present.
pub proof fn law_latest_is_first_maximum(times: Seq<Option<u128>>)
    ensures
        match latest_index(times) {
            None => forall|k: int| 0 <= k < times.len() ==> #[trigger] times[k] is None,
            Some(j) => {
                &&& 0 <= j < times.len()
                &&& times[j] is Some
                &&& forall|k: int|
                    0 <= k < times.len() && #[trigger] times[k] is Some ==> times[k].unwrap()
                        <= times[j].unwrap()
                &&& forall|k: int|
                    0 <= k < j && #[trigger] times[k] is Some ==> times[k].unwrap()
                        < times[j].unwrap()
            },
        },
    decreases times.len(),
{
    if times.len() > 0 {
        let pre = times.drop_last();
        let n = times.len() - 1;
        law_latest_is_first_maximum(pre);
        assert forall|k: int| 0 <= k < pre.len() implies #[trigger] pre[k] == times[k] by {}
        match times.last() {
            None => {
                match latest_index(pre) {
                    None => {
                        assert forall|k: int| 0 <= k < times.len() implies #[trigger] times[k] is None by {
                            if k < n {
                                assert(pre[k] is None);
                            }
                        }
                    },
                    Some(j) => {
                        assert forall|k: int|
                            0 <= k < times.len() && #[trigger] times[k] is Some implies times[k].unwrap()
                            <= times[j].unwrap() by {
                            if k < n {
                                assert(pre[k] is Some);
                            }
                        }
                        assert forall|k: int|
                            0 <= k < j && #[trigger] times[k] is Some implies times[k].unwrap()
                            < times[j].unwrap() by {
                            assert(pre[k] is Some);
                        }
                    },
                }
            },
            Some(m) => {
                match latest_index(pre) {
                    None => {
                        assert forall|k: int|
                            0 <= k < times.len() && #[trigger] times[k] is Some implies times[k].unwrap()
                            <= times[n].unwrap() by {
                            if k < n {
                                assert(pre[k] is None);
                            }
                        }
                        assert forall|k: int|
                            0 <= k < n && #[trigger] times[k] is Some implies times[k].unwrap()
                            < times[n].unwrap() by {
                            assert(pre[k] is None);
                        }
                    },
                    Some(j) => {
                        if m > times[j].unwrap() {
                            assert forall|k: int|
                                0 <= k < times.len() && #[trigger] times[k] is Some implies times[k].unwrap()
                                <= times[n].unwrap() by {
                                if k < n {
                                    assert(pre[k] is Some);
                                }
                            }
                            assert forall|k: int|
                                0 <= k < n && #[trigger] times[k] is Some implies times[k].unwrap()
                                < times[n].unwrap() by {
                                assert(pre[k] is Some);
                            }
                        } else {
                            assert forall|k: int|
                                0 <= k < times.len() && #[trigger] times[k] is Some implies times[k].unwrap()
                                <= times[j].unwrap() by {
                                if k < n {
                                    assert(pre[k] is Some);
                                }
                            }
                            assert forall|k: int|
                                0 <= k < j && #[trigger] times[k] is Some implies times[k].unwrap()
                                < times[j].unwrap() by {
                                assert(pre[k] is Some);
                            }
                        }
                    },
                }
            },
        }
    }
}

/// A Steam account folder that holds a `saves` folder: the path of that
/// `saves` folder and its modification time (nanoseconds since the Unix
/// epoch; 0 when unknown).
pub struct SaveDirCandidate {
    pub saves_path: String,
    pub mtime: u128,
}

/// The times of the candidates, all present.
pub open spec fn candidate_times(c: Seq<SaveDirCandidate>) -> Seq<Option<u128>> {
    c.map_values(|x: SaveDirCandidate| Some(x.mtime))
}

/// The `saves` folder to use: that of the most recently modified account
/// folder, the first one among equals; `None` when there is none.
pub fn find_save_dir(candidates: &Vec<SaveDirCandidate>) -> (r: Option<String>)
    ensures
        match latest_index(candidate_times(candidates@)) {
            None => r is None,
            Some(j) => r matches Some(p) && p@ == candidates@[j].saves_path@,
        },
{
    let mut times: Vec<Option<u128>> = Vec::new();
    let mut i: usize = 0;
    while i < candidates.len()
        invariant
            i <= candidates@.len(),
            times@ =~= candidate_times(candidates@).subrange(0, i as int),
        decreases candidates@.len() - i,
    {
        times.push(Some(candidates[i].mtime));
        i = i + 1;
    }
    assert(times@ =~= candidate_times(candidates@));
    match latest_of(&times) {
        None => None,
        Some(j) => Some(candidates[j].saves_path.clone()),
    }
}

/// The save folder chosen among the account folders is one of them
/// whenever there is any, and belongs to an account modified no earlier
/// than any other, and strictly later than every account listed before it.
pub proof fn law_save_dir_is_latest_account(c: Seq<SaveDirCandidate>)
    ensures
        c.len() == 0 ==> latest_index(candidate_times(c)) is None,
        c.len() > 0 ==> (latest_index(candidate_times(c)) matches Some(j) && 0 <= j < c.len()
            && (forall|k: int| 0 <= k < c.len() ==> (#[trigger] c[k]).mtime <= c[j].mtime)
            && (forall|k: int| 0 <= k < j ==> (#[trigger] c[k]).mtime < c[j].mtime)),
{
    let t = candidate_times(c);
    law_latest_is_first_maximum(t);
    assert forall|k: int| 0 <= k < c.len() implies #[trigger] t[k] == Some(c[k].mtime) by {}
    if c.len() > 0 {
        assert(t[0] == Some(c[0].mtime));
        let j = latest_index(t).unwrap();
        assert forall|k: int| 0 <= k < c.len() implies (#[trigger] c[k]).mtime <= c[j].mtime by {
            assert(t[k] == Some(c[k].mtime));
        }
        assert forall|k: int| 0 <= k < j implies (#[trigger] c[k]).mtime < c[j].mtime by {
            assert(t[k] == Some(c[k].mtime));
        }
    }
}

/// A file inside a glade folder: its size and, when known, its
/// modification time (nanoseconds since the Unix epoch).
#[derive(Debug, Clone, Copy, PartialEq)]
pub struct FileStat {
    pub size: u64,
    pub mtime: Option<u128>,
}

/// A glade folder: its name and the files found under it.
pub struct GladeStats {
    pub name: String,
    pub files: Vec<FileStat>,
}

/// The newest modification time among `files`, if any is known.
pub open spec fn newest(files: Seq<FileStat>) -> Option<u128>
    decreases files.len(),
{
    if files.len() == 0 {
        None
    } else {
        let rest = newest(files.drop_last());
        match files.last().mtime {
            None => rest,
            Some(m) => match rest {
                None => Some(m),
                Some(r) => if m > r {
                    Some(m)
                } else {
                    Some(r)
                },
            },
        }
    }
}

/// The total size of `files`.
pub open spec fn total_size(files: Seq<FileStat>) -> nat
    decreases files.len(),
{
    if files.len() == 0 {
        0
    } else {
        total_size(files.drop_last()) + (files.last().size as nat)
    }
}

/// The time of a glade is the newest of its files' known times: there is
/// one exactly when some file's time is known, it is the time of one of
/// the files, and no file is newer.
pub proof fn law_glade_time_is_its_newest_file(files: Seq<FileStat>)
    ensures
        newest(files) is Some <==> exists|k: int| 0 <= k < files.len() && (#[trigger] files[k]).mtime is Some,
        newest(files) matches Some(t) ==> exists|k: int| 0 <= k < files.len() && (#[trigger] files[k]).mtime == Some(t),
        newest(files) matches Some(t) ==> forall|k: int|
            0 <= k < files.len() && (#[trigger] files[k]).mtime is Some ==> files[k].mtime.unwrap() <= t,
    decreases files.len(),
{
    if files.len() > 0 {
        let pre = files.drop_last();
        let n = files.len() - 1;
        law_glade_time_is_its_newest_file(pre);
        assert forall|k: int| 0 <= k < pre.len() implies #[trigger] pre[k] == files[k] by {}
        if exists|k: int| 0 <= k < pre.len() && (#[trigger] pre[k]).mtime is Some {
            let k = choose|k: int| 0 <= k < pre.len() && (#[trigger] pre[k]).mtime is Some;
            assert(files[k].mtime is Some);
        }
        if newest(pre) is Some {
            let k = choose|k: int| 0 <= k < pre.len() && (#[trigger] pre[k]).mtime == newest(pre);
            assert(files[k].mtime == newest(pre));
        }
        if files[n].mtime is Some {
            assert(files[n].mtime is Some);
        } else {
            assert(newest(files) == newest(pre));
            if exists|k: int| 0 <= k < files.len() && (#[trigger] files[k]).mtime is Some {
                let k = choose|k: int| 0 <= k < files.len() && (#[trigger] files[k]).mtime is Some;
                assert(k < n);
                assert(pre[k].mtime is Some);
            }
        }
        if newest(files) is Some {
            let t = newest(files).unwrap();
            assert forall|k: int| 0 <= k < files.len() && (#[trigger] files[k]).mtime is Some implies
                files[k].mtime.unwrap() <= t by {
                if k < n {
                    assert(pre[k].mtime is Some);
                }
            }
        }
    }
}


/// The newest time of each glade.
pub open spec fn glade_times(glades: Seq<GladeStats>) -> Seq<Option<u128>> {
    glades.map_values(|g: GladeStats| newest(g.files@))
}

/// The latest glade: its folder name, its newest file time and its total
/// size.
pub struct SaveInfo {
    pub name: String,
    pub mtime: u128,
    pub size: u64,
}

proof fn lemma_total_size_prefix(files: Seq<FileStat>, i: int)
    requires
        0 <= i <= files.len(),
    ensures
        total_size(files.subrange(0, i)) <= total_size(files),
    decreases files.len() - i,
{
    if i < files.len() {
        lemma_total_size_prefix(files, i + 1);
        assert(files.subrange(0, i + 1).drop_last() =~= files.subrange(0, i));
    } else {
        assert(files.subrange(0, i) =~= files);
    }
}

/// The newest time and the total size of one glade's files.
fn glade_summary(files: &Vec<FileStat>) -> (r: (Option<u128>, u64))
    requires
        total_size(files@) <= u64::MAX,
    ensures
        r.0 == newest(files@),
        r.1 == total_size(files@),
{
    let mut newest_time: Option<u128> = None;
    let mut total: u64 = 0;
    let mut i: usize = 0;
    while i < files.len()
        invariant
            i <= files@.len(),
            total_size(files@) <= u64::MAX,
            newest_time == newest(files@.subrange(0, i as int)),
            total == total_size(files@.subrange(0, i as int)),
        decreases files@.len() - i,
    {
        let f: FileStat = files[i];
        proof {
            assert(files@.subrange(0, i + 1).drop_last() =~= files@.subrange(0, i as int));
            lemma_total_size_prefix(files@, i + 1);
        }
        total = total + f.size;
        match f.mtime {
            Some(m) => {
                match newest_time {
                    None => {
                        newest_time = Some(m);
                    },
                    Some(cur) => {
                        if m > cur {
                            newest_time = Some(m);
                        }
                    },
                }
            },
            None => {},
        }
        i = i + 1;
    }
    proof {
        assert(files@.subrange(0, files@.len() as int) =~= files@);
    }
    (newest_time, total)
}

/// The most recently modified glade (by the newest time of any file in
/// it; the first among equals), with its total size; glades with no known
/// file time are passed over. `None` when no glade qualifies.
pub fn get_latest_save_info(glades: &Vec<GladeStats>) -> (r: Option<SaveInfo>)
    requires
        forall|k: int| 0 <= k < glades@.len() ==> total_size(#[trigger] glades@[k].files@)
            <= u64::MAX,
    ensures
        match latest_index(glade_times(glades@)) {
            None => r is None,
            Some(j) => r matches Some(info) && info.name@ == glades@[j].name@ && Some(info.mtime)
                == newest(glades@[j].files@) && info.size == total_size(glades@[j].files@),
        },
{
    let mut times: Vec<Option<u128>> = Vec::new();
    let mut sizes: Vec<u64> = Vec::new();
    let mut i: usize = 0;
    while i < glades.len()
        invariant
            i <= glades@.len(),
            forall|k: int| 0 <= k < glades@.len() ==> total_size(#[trigger] glades@[k].files@)
                <= u64::MAX,
            times@ =~= glade_times(glades@).subrange(0, i as int),
            sizes@.len() == i,
            forall|k: int| 0 <= k < i ==> #[trigger] sizes@[k] == total_size(glades@[k].files@),
        decreases glades@.len() - i,
    {
        let (t, sz) = glade_summary(&glades[i].files);
        times.push(t);
        sizes.push(sz);
        i = i + 1;
    }
    assert(times@ =~= glade_times(glades@));
    match latest_of(&times) {
        None => None,
        Some(j) => {
            proof {
                law_latest_is_first_maximum(times@);
            }
            let t = times[j].unwrap();
            Some(SaveInfo { name: glades[j].name.clone(), mtime: t, size: sizes[j] })
        },
    }
}

/// The glade picked as the latest holds the newest file of all glades:
/// no file in any glade is newer, no file in a glade listed before it is as
/// new, and when no file time is known at all no glade is picked.
pub proof fn law_latest_save_holds_the_newest_file(glades: Seq<GladeStats>)
    ensures
        match latest_index(glade_times(glades)) {
            None => forall|g: int, f: int|
                0 <= g < glades.len() && 0 <= f < glades[g].files@.len() ==> (
                #[trigger] glades[g].files@[f]).mtime is None,
            Some(j) => newest(glades[j].files@) matches Some(t) && 0 <= j < glades.len() && (
            exists|f: int|
                0 <= f < glades[j].files@.len() && (#[trigger] glades[j].files@[f]).mtime == Some(
                    t,
                )) && (forall|g: int, f: int|
                0 <= g < glades.len() && 0 <= f < glades[g].files@.len() && (
                #[trigger] glades[g].files@[f]).mtime is Some ==> glades[g].files@[f].mtime.unwrap()
                <= t) && (forall|g: int, f: int|
                0 <= g < j && 0 <= f < glades[g].files@.len() && (
                #[trigger] glades[g].files@[f]).mtime is Some ==> glades[g].files@[f].mtime.unwrap()
                < t),
        },
{
    let times = glade_times(glades);
    law_latest_is_first_maximum(times);
    assert forall|g: int| 0 <= g < glades.len() implies #[trigger] times[g] == newest(
        glades[g].files@,
    ) by {}
    match latest_index(times) {
        None => {
            assert forall|g: int, f: int|
                0 <= g < glades.len() && 0 <= f < glades[g].files@.len() implies (
                #[trigger] glades[g].files@[f]).mtime is None by {
                law_glade_time_is_its_newest_file(glades[g].files@);
                assert(times[g] is None);
            }
        },
        Some(j) => {
            law_glade_time_is_its_newest_file(glades[j].files@);
            let t = newest(glades[j].files@).unwrap();
            assert(times[j] == Some(t));
            assert forall|g: int, f: int|
                0 <= g < glades.len() && 0 <= f < glades[g].files@.len() && (
                #[trigger] glades[g].files@[f]).mtime is Some implies glades[g].files@[f].mtime.unwrap()
                <= t by {
                law_glade_time_is_its_newest_file(glades[g].files@);
                assert(times[g] is Some);
            }
            assert forall|g: int, f: int|
                0 <= g < j && 0 <= f < glades[g].files@.len() && (
                #[trigger] glades[g].files@[f]).mtime is Some implies glades[g].files@[f].mtime.unwrap()
                < t by {
                law_glade_time_is_its_newest_file(glades[g].files@);
                assert(times[g] is Some);
            }
        },
    }
}

// ─── Packing a glade ────────────────────────────────────────────────────

/// What a directory walk found.
#[derive(Debug, Clone, Copy, PartialEq, Eq, Structural)]
pub enum EntryKind {
    Dir,
    File,
    Other,
}

/// One entry of the walk of a glade folder (the folder itself first): its
/// path relative to the folder (`None` when it could not be made
/// relative), what it is, and for a file its contents (`None` when they
/// could not be read).
pub struct WalkEntry {
    pub rel_path: Option<String>,
    pub kind: EntryKind,
    pub data: Option<Vec<u8>>,
}

/// What packing one walk entry does.
pub enum PackStep {
    /// Packing fails.
    Fail,
    /// Nothing is stored.
    Skip,
    /// This entry is stored.
    Store(ZipOp),
}

/// Packing one walk entry: the folder itself is skipped, a directory is
/// stored with `/` separators and a trailing `/`, a file with `/`
/// separators and its contents, anything else is skipped; a path that is
/// not relative, or a file that could not be read, fails.
pub open spec fn pack_step(e: WalkEntry) -> PackStep {
    match e.rel_path {
        None => PackStep::Fail,
        Some(p) => if p@.len() == 0 {
            PackStep::Skip
        } else {
            let name = replaced(p@, '\\', '/');
            match e.kind {
                EntryKind::Dir => PackStep::Store((true, name.push('/'), Seq::empty())),
                EntryKind::File => match e.data {
                    None => PackStep::Fail,
                    Some(d) => PackStep::Store((false, name, d@)),
                },
                EntryKind::Other => PackStep::Skip,
            }
        },
    }
}

/// The archive entries for a walk, or `None` when packing fails.
pub open spec fn archive_ops(entries: Seq<WalkEntry>) -> Option<Seq<ZipOp>>
    decreases entries.len(),
{
    if entries.len() == 0 {
        Some(Seq::empty())
    } else {
        match archive_ops(entries.drop_last()) {
            None => None,
            Some(ops) => match pack_step(entries.last()) {
                PackStep::Fail => None,
                PackStep::Skip => Some(ops),
                PackStep::Store(o) => Some(ops.push(o)),
            },
        }
    }
}

/// Whether every file of `ws` holds at most `u32::MAX` bytes and every
/// file but the last, which a writer holding `ws` has closed, deflated to
/// at most as many.
spec fn zip_closed_fit(ws: Seq<ZipOp>) -> bool {
    forall|k: int|
        0 <= k < ws.len() && !(#[trigger] ws[k]).0 ==> ws[k].2.len() <= u32::MAX && (k + 1
            < ws.len() ==> zip_deflated_len(ws[k].2) <= u32::MAX)
}

/// Packing one walked entry: a path that could not be made relative fails;
/// the folder itself (empty path) and anything that is neither a directory
/// nor a file store nothing; a directory is stored under its path with `/`
/// separators and a trailing `/`; a file under its path with `/`
/// separators and its bytes, and fails when it could not be read.
pub proof fn law_packing_one_entry(e: WalkEntry)
    ensures
        match e.rel_path {
            None => archive_ops(seq![e]) is None,
            Some(p) => if p@.len() == 0 {
                archive_ops(seq![e]) == Some(Seq::<ZipOp>::empty())
            } else {
                match e.kind {
                    EntryKind::Dir => archive_ops(seq![e]) == Some(
                        seq![(true, replaced(p@, '\\', '/').push('/'), Seq::<u8>::empty())],
                    ),
                    EntryKind::File => match e.data {
                        Some(d) => archive_ops(seq![e]) == Some(
                            seq![(false, replaced(p@, '\\', '/'), d@)],
                        ),
                        None => archive_ops(seq![e]) is None,
                    },
                    EntryKind::Other => archive_ops(seq![e]) == Some(Seq::<ZipOp>::empty()),
                }
            },
        },
{
    assert(seq![e].drop_last() =~= Seq::<WalkEntry>::empty());
    assert(archive_ops(Seq::<WalkEntry>::empty()) == Some(Seq::<ZipOp>::empty()));
    assert(seq![e].last() == e);
    match pack_step(e) {
        PackStep::Store(o) => {
            assert(Seq::<ZipOp>::empty().push(o) =~= seq![o]);
        },
        _ => {},
    }
}

/// Packing goes entry by entry: packing two walks one after the other
/// stores the first's entries, then the second's, and fails when either
/// fails.
pub proof fn law_packing_goes_entry_by_entry(a: Seq<WalkEntry>, b: Seq<WalkEntry>)
    ensures
        archive_ops(a + b) == match (archive_ops(a), archive_ops(b)) {
            (Some(x), Some(y)) => Some(x + y),
            _ => None::<Seq<ZipOp>>,
        },
    decreases b.len(),
{
    if b.len() == 0 {
        assert(a + b =~= a);
        if archive_ops(a) is Some {
            assert(archive_ops(a).unwrap() + Seq::<ZipOp>::empty() =~= archive_ops(a).unwrap());
        }
    } else {
        let b1 = b.drop_last();
        law_packing_goes_entry_by_entry(a, b1);
        assert((a + b).drop_last() =~= a + b1);
        assert((a + b).last() == b.last());
        if archive_ops(a) is Some && archive_ops(b1) is Some {
            let x = archive_ops(a).unwrap();
            let y = archive_ops(b1).unwrap();
            match pack_step(b.last()) {
                PackStep::Store(o) => {
                    assert((x + y).push(o) =~= x + y.push(o));
                },
                _ => {},
            }
        }
    }
}

/// Unpacking one archive entry: an entry that cannot be opened, or whose
/// name would leave the glade folder, is passed over; a name ending in `/`
/// is a directory to create; any other name a file to write with the
/// entry's contents.
pub proof fn law_unpacking_one_entry(item: ZipItem)
    ensures
        item is None ==> extraction_steps(seq![item]) == Seq::<StepView>::empty(),
        match item {
            None => true,
            Some((name, enclosed, data)) => match enclosed {
                None => extraction_steps(seq![item]) == Seq::<StepView>::empty(),
                Some(p) => extraction_steps(seq![item]) == seq![
                    if name.len() > 0 && name.last() == '/' {
                        (p, true, None::<Seq<u8>>)
                    } else {
                        (p, false, data)
                    },
                ],
            },
        },
{
    assert(seq![item].drop_last() =~= Seq::<ZipItem>::empty());
    assert(extraction_steps(Seq::<ZipItem>::empty()) == Seq::<StepView>::empty());
    assert(seq![item].last() == item);
    match item {
        Some((name, enclosed, data)) => match enclosed {
            Some(p) => {
                assert(Seq::<StepView>::empty().push((p, true, None::<Seq<u8>>)) =~= seq![
                    (p, true, None::<Seq<u8>>),
                ]);
                assert(Seq::<StepView>::empty().push((p, false, data)) =~= seq![(p, false, data)]);
            },
            None => {},
        },
        None => {},
    }
}

/// Unpacking goes entry by entry: the steps for two runs of archive
/// entries are those of the first run, then those of the second.
pub proof fn law_unpacking_goes_entry_by_entry(a: Seq<ZipItem>, b: Seq<ZipItem>)
    ensures
        extraction_steps(a + b) == extraction_steps(a) + extraction_steps(b),
    decreases b.len(),
{
    if b.len() == 0 {
        assert(a + b =~= a);
        assert(extraction_steps(a) + Seq::<StepView>::empty() =~= extraction_steps(a));
    } else {
        let b1 = b.drop_last();
        law_unpacking_goes_entry_by_entry(a, b1);
        assert((a + b).drop_last() =~= a + b1);
        assert((a + b).last() == b.last());
        let x = extraction_steps(a);
        let y = extraction_steps(b1);
        assert forall|st: StepView| (x + y).push(st) =~= x + y.push(st) by {}
    }
}

/// Packs a walked glade folder into a zip archive. The archive comes
/// exactly when packing succeeds and every file fits a zip entry
/// ([`zip_ops_fit`]); it is the archive of [`archive_ops`], and a zip
/// reader lists again the entries packed ([`zip_reads_back`]).
pub fn zip_dir(entries: &Vec<WalkEntry>) -> (r: Option<Vec<u8>>)
    ensures
        r is Some <==> (archive_ops(entries@) matches Some(ops) && zip_ops_fit(ops)),
        r matches Some(b) ==> (archive_ops(entries@) matches Some(ops) && b@ == zip_archive_bytes(
            ops,
        ) && (zip_reads_back(b@, ops) ==> zip_listing(b@) == Some(zip_read_back(ops)))),
{
    let ghost fits = archive_ops(entries@) matches Some(all) && zip_ops_fit(all);
    let mut w = zip_writer_new();
    let mut i: usize = 0;
    while i < entries.len()
        invariant
            i <= entries@.len(),
            fits == (archive_ops(entries@) matches Some(all) && zip_ops_fit(all)),
            archive_ops(entries@.subrange(0, i as int)) == zip_writer_entries(w),
            zip_writer_entries(w) is Some,
            fits ==> zip_ops_fit(zip_writer_entries(w).unwrap()),
            zip_closed_fit(zip_writer_entries(w).unwrap()),
        decreases entries@.len() - i,
    {
        let ghost pre = entries@.subrange(0, i as int);
        let ghost before = zip_writer_entries(w).unwrap();
        proof {
            assert(entries@.subrange(0, i + 1).drop_last() =~= pre);
            assert(entries@.subrange(0, i + 1).last() == entries@[i as int]);
            if fits {
                lemma_archive_ops_prefix(entries@, i as int + 1);
            }
            if fits && before.len() > 0 {
                assert(before.last() == before[before.len() - 1]);
            }
        }
        let e = &entries[i];
        match &e.rel_path {
            None => {
                proof {
                    lemma_archive_ops_fail_stays(entries@, i as int + 1);
                }
                return None;
            },
            Some(p) => {
                proof {
                    assert(pack_step(entries@[i as int]) == pack_step(*e));
                }
                if p.unicode_len() > 0 {
                    let name = replace_char(p.as_str(), '\\', '/');
                    match e.kind {
                        EntryKind::Dir => {
                            let dname = name.concat("/");
                            let ghost op = (true, name@.push('/'), Seq::<u8>::empty());
                            proof {
                                reveal_strlit("/");
                                assert("/"@ =~= seq!['/']);
                                assert(dname@ =~= name@.push('/'));
                                assert(pack_step(entries@[i as int]) == PackStep::Store(op));
                            }
                            if !zip_add_directory(&mut w, dname) {
                                return None;
                            }
                            proof {
                                let ws = before.push(op);
                                assert(zip_writer_entries(w) == Some(ws));
                                assert forall|k: int|
                                    0 <= k < ws.len() && !(#[trigger] ws[k]).0 implies ws[k].2.len()
                                    <= u32::MAX && (k + 1 < ws.len() ==> zip_deflated_len(ws[k].2)
                                    <= u32::MAX) by {
                                    assert(ws[k] == before[k]);
                                }
                                if fits {
                                    assert(archive_ops(entries@.subrange(0, i + 1)) == Some(ws));
                                }
                            }
                        },
                        EntryKind::File => {
                            match &e.data {
                                None => {
                                    proof {
                                        lemma_archive_ops_fail_stays(entries@, i as int + 1);
                                    }
                                    return None;
                                },
                                Some(d) => {
                                    let ghost nm = name@;
                                    let ghost op = (false, nm, d@);
                                    proof {
                                        assert(pack_step(entries@[i as int]) == PackStep::Store(op));
                                        if fits {
                                            assert(before.push(op)[before.len() as int] == op);
                                        }
                                    }
                                    if !zip_start_file(&mut w, name) {
                                        return None;
                                    }
                                    if !zip_write_all(&mut w, d.as_slice()) {
                                        return None;
                                    }
                                    proof {
                                        let ws = before.push(op);
                                        assert(Seq::<u8>::empty() + d@ =~= d@);
                                        assert(zip_writer_entries(w).unwrap() =~= ws);
                                        assert forall|k: int|
                                            0 <= k < ws.len() && !(#[trigger] ws[k]).0 implies ws[k].2.len()
                                            <= u32::MAX && (k + 1 < ws.len() ==> zip_deflated_len(
                                            ws[k].2,
                                        ) <= u32::MAX) by {
                                            if k < before.len() {
                                                assert(ws[k] == before[k]);
                                            }
                                        }
                                    }
                                },
                            }
                        },
                        EntryKind::Other => {},
                    }
                }
            },
        }
        i = i + 1;
    }
    proof {
        assert(entries@.subrange(0, entries@.len() as int) =~= entries@);
        let ws = zip_writer_entries(w).unwrap();
        if ws.len() > 0 {
            assert(ws.last() == ws[ws.len() - 1]);
        }
        if zip_last_closable(ws) {
            assert forall|k: int| 0 <= k < ws.len() && !(#[trigger] ws[k]).0 implies ws[k].2.len()
                <= u32::MAX && zip_deflated_len(ws[k].2) <= u32::MAX by {
                if k + 1 == ws.len() {
                    assert(ws[k] == ws.last());
                }
            }
        }
    }
    zip_finish(w)
}

proof fn lemma_archive_ops_fail_stays(entries: Seq<WalkEntry>, i: int)
    requires
        0 <= i <= entries.len(),
        archive_ops(entries.subrange(0, i)) is None,
    ensures
        archive_ops(entries) is None,
    decreases entries.len() - i,
{
    if i < entries.len() {
        assert(entries.subrange(0, i + 1).drop_last() =~= entries.subrange(0, i));
        lemma_archive_ops_fail_stays(entries, i + 1);
    } else {
        assert(entries.subrange(0, i) =~= entries);
    }
}

/// The entries packed for a first part of a walk are a first part of
/// those packed for the whole walk.
proof fn lemma_archive_ops_prefix(entries: Seq<WalkEntry>, i: int)
    requires
        0 <= i <= entries.len(),
        archive_ops(entries) is Some,
    ensures
        archive_ops(entries.subrange(0, i)) matches Some(part) && part.len()
            <= archive_ops(entries).unwrap().len() && forall|k: int|
            0 <= k < part.len() ==> #[trigger] part[k] == archive_ops(entries).unwrap()[k],
    decreases entries.len() - i,
{
    let all = archive_ops(entries).unwrap();
    if i < entries.len() {
        lemma_archive_ops_prefix(entries, i + 1);
        assert(entries.subrange(0, i + 1).drop_last() =~= entries.subrange(0, i));
        let next = archive_ops(entries.subrange(0, i + 1)).unwrap();
        let part = archive_ops(entries.subrange(0, i)).unwrap();
        assert(part.len() <= next.len());
        assert forall|k: int| 0 <= k < part.len() implies #[trigger] part[k] == all[k] by {
            assert(next[k] == all[k]);
        }
    } else {
        assert(entries.subrange(0, i) =~= entries);
    }
}

/// The latest glade packed for sending: its folder name and the archive
/// of its folder, walked as `entries`. It comes exactly when there is a
/// latest glade and [`zip_dir`] packs its folder, and then holds what
/// `zip_dir` gives.
pub fn read_latest_save(latest: Option<SaveInfo>, entries: &Vec<WalkEntry>) -> (r: Option<(
    String,
    Vec<u8>,
)>)
    ensures
        r is Some <==> (archive_ops(entries@) matches Some(ops) && zip_ops_fit(ops)
            && latest is Some),
        r matches Some(pair) ==> (latest matches Some(info) && pair.0@ == info.name@),
        r matches Some(pair) ==> (archive_ops(entries@) matches Some(ops) && pair.1@
            == zip_archive_bytes(ops) && (zip_reads_back(pair.1@, ops) ==> zip_listing(pair.1@)
            == Some(zip_read_back(ops)))),
{
    match latest {
        None => None,
        Some(info) => match zip_dir(entries) {
            None => None,
            Some(bytes) => Some((info.name, bytes)),
        },
    }
}

/// What unpacking the archive of `ops` gives, step by step: every entry
/// whose name stays inside the glade folder, under that name, a directory
/// as a directory and a file with its bytes.
pub open spec fn unpacked(ops: Seq<ZipOp>) -> Seq<StepView>
    decreases ops.len(),
{
    if ops.len() == 0 {
        Seq::empty()
    } else {
        let rest = unpacked(ops.drop_last());
        let op = ops.last();
        if zip_name_is_enclosed(op.1) {
            rest.push((op.1, op.0, if op.0 { None } else { Some(op.2) }))
        } else {
            rest
        }
    }
}

/// The entries packed for a walk name every directory with a trailing
/// `/`.
proof fn lemma_archive_dirs_end_in_slash(entries: Seq<WalkEntry>)
    requires
        archive_ops(entries) is Some,
    ensures
        forall|k: int|
            0 <= k < archive_ops(entries).unwrap().len() && (#[trigger] archive_ops(
                entries,
            ).unwrap()[k]).0 ==> ends_with_char(archive_ops(entries).unwrap()[k].1, '/'),
    decreases entries.len(),
{
    if entries.len() > 0 {
        lemma_archive_dirs_end_in_slash(entries.drop_last());
    }
}

/// A save comes back as it was packed: reading back the archive of a
/// walked glade folder and unpacking it gives every directory and every
/// file of the walk again, in the walk's order, under its path with `/`
/// separators and with its bytes (a path that would leave the glade
/// folder is passed over). With [`zip_dir`]'s listing of the archive it
/// produced and [`plan_extraction`]'s steps for a listing, this is what a
/// client unpacks from the archive a host sent. Taken: no walked file's
/// path ends in a separator, which would make it read as a directory.
pub proof fn law_save_round_trip(entries: Seq<WalkEntry>)
    requires
        archive_ops(entries) matches Some(ops) && forall|k: int|
            0 <= k < ops.len() && !(#[trigger] ops[k]).0 ==> !ends_with_char(ops[k].1, '/'),
    ensures
        extraction_steps(zip_read_back(archive_ops(entries).unwrap())) == unpacked(
            archive_ops(entries).unwrap(),
        ),
{
    let ops = archive_ops(entries).unwrap();
    lemma_archive_dirs_end_in_slash(entries);
    lemma_read_back_unpacks(ops);
}

proof fn lemma_read_back_unpacks(ops: Seq<ZipOp>)
    requires
        forall|k: int| 0 <= k < ops.len() ==> ((#[trigger] ops[k]).0 <==> ends_with_char(ops[k].1, '/')),
    ensures
        extraction_steps(zip_read_back(ops)) == unpacked(ops),
    decreases ops.len(),
{
    if ops.len() > 0 {
        let front = ops.drop_last();
        assert forall|k: int| 0 <= k < front.len() implies ((#[trigger] front[k]).0 <==> ends_with_char(
            front[k].1,
            '/',
        )) by {
            assert(front[k] == ops[k]);
        }
        lemma_read_back_unpacks(front);
        assert(zip_read_back(ops).drop_last() =~= zip_read_back(front));
        let op = ops.last();
        assert(op == ops[ops.len() - 1]);
        assert(zip_stored_name(op) == op.1);
    }
}

// ─── Unpacking a glade ──────────────────────────────────────────────────

/// One step of unpacking: a directory to create, or a file to write with
/// its contents (`None`: the contents could not be read), at a path
/// relative to the glade folder.
pub struct ExtractStep {
    pub path: String,
    pub is_dir: bool,
    pub data: Option<Vec<u8>>,
}

/// The value of an unpacking step.
pub type StepView = (Seq<char>, bool, Option<Seq<u8>>);

/// The value of an unpacking step.
pub open spec fn step_view(s: ExtractStep) -> StepView {
    (
        s.path@,
        s.is_dir,
        match s.data {
            Some(d) => Some(d@),
            None => None,
        },
    )
}

/// The unpacking steps for archive entries: entries that cannot be opened
/// or whose name would leave the glade folder are passed over; a name
/// ending in `/` is a directory; anything else a file.
pub open spec fn extraction_steps(items: Seq<ZipItem>) -> Seq<StepView>
    decreases items.len(),
{
    if items.len() == 0 {
        Seq::empty()
    } else {
        let rest = extraction_steps(items.drop_last());
        match items.last() {
            None => rest,
            Some((name, enclosed, data)) => match enclosed {
                None => rest,
                Some(p) => if ends_with_char(name, '/') {
                    rest.push((p, true, None))
                } else {
                    rest.push((p, false, data))
                },
            },
        }
    }
}

/// How to unpack the received archive `zip_bytes` into a glade folder;
/// `None` when the bytes are not a zip archive.
pub fn plan_extraction(zip_bytes: Vec<u8>) -> (r: Option<Vec<ExtractStep>>)
    ensures
        r is Some <==> zip_listing(zip_bytes@) is Some,
        r matches Some(steps) ==> steps@.map_values(|s: ExtractStep| step_view(s))
            == extraction_steps(zip_listing(zip_bytes@).unwrap()),
{
    let ghost src = zip_bytes@;
    let mut archive = match zip_open(zip_bytes) {
        None => {
            return None;
        },
        Some(a) => a,
    };
    let ghost items = zip_archive_items(archive);
    let n = zip_len(&archive);
    let mut steps: Vec<ExtractStep> = Vec::new();
    let mut i: usize = 0;
    while i < n
        invariant
            i <= n,
            n == items.len(),
            zip_archive_items(archive) == items,
            steps@.map_values(|s: ExtractStep| step_view(s)) == extraction_steps(
                items.subrange(0, i as int),
            ),
        decreases n - i,
    {
        let ghost pre = items.subrange(0, i as int);
        proof {
            assert(items.subrange(0, i + 1).drop_last() =~= pre);
        }
        let ghost before = steps@;
        let item = zip_read_item(&mut archive, i);
        match item {
            None => {},
            Some(it) => match it.enclosed {
                None => {},
                Some(p) => {
                    if last_char_is(it.name.as_str(), '/') {
                        steps.push(ExtractStep { path: p, is_dir: true, data: None });
                    } else {
                        steps.push(ExtractStep { path: p, is_dir: false, data: it.data });
                    }
                    proof {
                        assert(steps@.map_values(|s: ExtractStep| step_view(s)) =~= before.map_values(
                            |s: ExtractStep| step_view(s),
                        ).push(step_view(steps@.last())));
                    }
                },
            },
        }
        i = i + 1;
    }
    proof {
        assert(items.subrange(0, n as int) =~= items);
    }
    Some(steps)
}

} // verus!
