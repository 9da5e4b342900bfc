//! The layout of an archive: the marker `oci-layout`, the index `index.json`
//! and one file `blobs/sha256/<hex>` for each blob.

use crate::blob::{distinct, hashed, lemma_pool_has, pool_has, pool_insert, Blob, BlobPool};
use crate::digest::{digest_of, sha256_prefix, valid_hex, Algorithm, Digest, DigestView};
use crate::error::Error;
use crate::search::{any, first, lemma_first_from_is};
use crate::text::{chars_of, slice_of, starts_with_at, str_eq};
use vstd::prelude::*;
use vstd::slice::slice_to_vec;
use vstd::string::StringSliceAdditionalSpecFns;

verus! {

/// The name of the marker file.
pub const OCI_LAYOUT_FILE: &'static str = "oci-layout";

/// The name of the index file.
pub const INDEX_FILE: &'static str = "index.json";

/// The content that the builder gives the marker file.
pub const OCI_LAYOUT_JSON: &'static str = "{\"imageLayoutVersion\":\"1.0.0\"}";

/// The version of the layout that the loader accepts.
pub const LAYOUT_VERSION: &'static str = "1.0.0";

/// The directory of the blobs in an archive.
pub const BLOB_DIR: &'static str = "blobs/sha256/";

/// The bytes of the marker file.
pub open spec fn layout_marker() -> Seq<u8> {
    OCI_LAYOUT_JSON.spec_bytes()
}

/// The path of the blob with digest `d` in an archive.
pub open spec fn blob_path(d: DigestView) -> Seq<char> {
    BLOB_DIR@ + d.hex
}

/// Whether `path` is the path of a blob with a well-formed digest.
pub open spec fn is_blob_path(path: Seq<char>) -> bool {
    &&& path.len() == BLOB_DIR@.len() + 64
    &&& path.subrange(0, BLOB_DIR@.len() as int) == BLOB_DIR@
    &&& valid_hex(path.skip(BLOB_DIR@.len() as int))
}

/// The digest that a blob path names.
pub open spec fn path_digest(path: Seq<char>) -> DigestView {
    DigestView { algorithm: Algorithm::Sha256, hex: path.skip(BLOB_DIR@.len() as int) }
}

/// The paths of blobs are exactly the blob paths of well-formed digests,
/// and each names the digest it was made from.
pub proof fn lemma_blob_path(d: DigestView)
    requires
        d.wf(),
    ensures
        is_blob_path(blob_path(d)),
        path_digest(blob_path(d)) == d,
{
    let p = blob_path(d);
    assert(p.subrange(0, BLOB_DIR@.len() as int) =~= BLOB_DIR@);
    assert(p.skip(BLOB_DIR@.len() as int) =~= d.hex);
}

/// What a file of an archive is.
pub struct EntryView {
    pub path: Seq<char>,
    pub data: Seq<u8>,
}

/// One file of an archive.
#[derive(Debug, PartialEq, Eq)]
pub struct Entry {
    pub path: String,
    pub data: Vec<u8>,
}

impl View for Entry {
    type V = EntryView;

    open spec fn view(&self) -> EntryView {
        EntryView { path: self.path@, data: self.data@ }
    }
}

/// The views of a sequence of entries.
pub open spec fn entry_views(s: Seq<Entry>) -> Seq<EntryView> {
    s.map_values(|e: Entry| e@)
}

/// The predicate "has the path `path`".
pub open spec fn at_path(path: Seq<char>) -> spec_fn(EntryView) -> bool {
    |e: EntryView| e.path == path
}

/// The entry is a blob whose content does not hash to the digest in its
/// path.
pub open spec fn mismatched(e: EntryView) -> bool {
    is_blob_path(e.path) && digest_of(e.data) != path_digest(e.path)
}

/// The blobs among `entries`, each once, in the order in which they first
/// occur.
pub open spec fn blobs_of(entries: Seq<EntryView>) -> Seq<Seq<u8>>
    decreases entries.len(),
{
    if entries.len() == 0 {
        Seq::empty()
    } else if is_blob_path(entries.last().path) {
        pool_insert(blobs_of(entries.drop_last()), entries.last().data)
    } else {
        blobs_of(entries.drop_last())
    }
}

/// What an archive holds once it was read: the marker, the index, and the
/// blobs.
pub struct ArchiveView {
    pub layout: Seq<u8>,
    pub index: Seq<u8>,
    pub blobs: Seq<Seq<u8>>,
}

/// Reading an archive. A blob whose content does not hash to the digest in
/// its path condemns the archive, wherever it stands. Else the marker and
/// the index must be there; of several files with one path the first counts.
/// Files that are neither are passed over.
pub open spec fn read_archive_spec(entries: Seq<EntryView>) -> Result<ArchiveView, Error> {
    if exists|i: int| 0 <= i < entries.len() && mismatched(#[trigger] entries[i]) {
        Err(Error::DigestMismatch)
    } else if !any(entries, at_path(OCI_LAYOUT_FILE@)) || !any(entries, at_path(INDEX_FILE@)) {
        Err(Error::NotFound)
    } else {
        Ok(
            ArchiveView {
                layout: entries[first(entries, at_path(OCI_LAYOUT_FILE@))].data,
                index: entries[first(entries, at_path(INDEX_FILE@))].data,
                blobs: blobs_of(entries),
            },
        )
    }
}

/// The file of each blob of `blobs`.
pub open spec fn blob_entries(blobs: Seq<Seq<u8>>) -> Seq<EntryView> {
    blobs.map_values(|b: Seq<u8>| EntryView { path: blob_path(digest_of(b)), data: b })
}

/// The files of an archive with the index `index` and the blobs `blobs`: the
/// marker, the index, then the blobs in their order.
pub open spec fn write_archive_spec(index: Seq<u8>, blobs: Seq<Seq<u8>>) -> Seq<EntryView> {
    seq![
        EntryView { path: OCI_LAYOUT_FILE@, data: layout_marker() },
        EntryView { path: INDEX_FILE@, data: index },
    ] + blob_entries(blobs)
}

/// The three kinds of path differ.
proof fn lemma_paths_differ()
    ensures
        OCI_LAYOUT_FILE@ != INDEX_FILE@,
        !is_blob_path(OCI_LAYOUT_FILE@),
        !is_blob_path(INDEX_FILE@),
        forall|p: Seq<char>| is_blob_path(p) ==> p != OCI_LAYOUT_FILE@ && p != INDEX_FILE@,
{
    reveal_strlit("oci-layout");
    reveal_strlit("index.json");
    reveal_strlit("blobs/sha256/");
    assert(OCI_LAYOUT_FILE@[0] != INDEX_FILE@[0]);
}

/// The blobs of the files that were written for `blobs`, taken up to the
/// `n`-th, are the first `n` blobs.
proof fn lemma_blobs_of_written(index: Seq<u8>, blobs: Seq<Seq<u8>>, n: int)
    requires
        distinct(blobs),
        hashed(blobs),
        0 <= n <= blobs.len(),
    ensures
        blobs_of(write_archive_spec(index, blobs).take(n + 2)) == blobs.take(n),
    decreases n,
{
    let w = write_archive_spec(index, blobs);
    lemma_paths_differ();
    if n == 0 {
        let t = w.take(2);
        assert(t.drop_last() =~= w.take(1));
        assert(w.take(1).drop_last() =~= Seq::<EntryView>::empty());
        assert(t.last() == w[1]);
        assert(w.take(1).last() == w[0]);
        assert(blobs_of(Seq::<EntryView>::empty()) == Seq::<Seq<u8>>::empty());
        assert(!is_blob_path(w[0].path) && !is_blob_path(w[1].path));
        assert(blobs_of(w.take(1)) == Seq::<Seq<u8>>::empty());
        assert(blobs.take(0) =~= Seq::<Seq<u8>>::empty());
    } else {
        lemma_blobs_of_written(index, blobs, n - 1);
        let t = w.take(n + 2);
        assert(t.drop_last() =~= w.take(n + 1));
        assert(t.last() == w[n + 1]);
        assert(w[n + 1] == blob_entries(blobs)[n - 1]);
        let b = blobs[n - 1];
        assert(digest_of(b).wf());
        lemma_blob_path(digest_of(b));
        let prev = blobs.take(n - 1);
        lemma_pool_has(prev, digest_of(b));
        assert(!pool_has(prev, digest_of(b))) by {
            if pool_has(prev, digest_of(b)) {
                let i = choose|i: int| 0 <= i < prev.len() && digest_of(#[trigger] prev[i])
                    == digest_of(b);
                assert(prev[i] == blobs[i]);
            }
        }
        assert(prev.push(b) =~= blobs.take(n));
    }
}

/// An archive that was written reads back as what was written: the index,
/// and every blob, byte for byte and in order.
pub proof fn lemma_write_then_read(index: Seq<u8>, blobs: Seq<Seq<u8>>)
    requires
        distinct(blobs),
        hashed(blobs),
    ensures
        read_archive_spec(write_archive_spec(index, blobs)) == Ok::<ArchiveView, Error>(
            ArchiveView { layout: layout_marker(), index, blobs },
        ),
{
    let w = write_archive_spec(index, blobs);
    lemma_paths_differ();
    assert forall|i: int| 0 <= i < w.len() implies !mismatched(#[trigger] w[i]) by {
        if i >= 2 {
            let b = blobs[i - 2];
            assert(w[i] == blob_entries(blobs)[i - 2]);
            assert(digest_of(b).wf());
            lemma_blob_path(digest_of(b));
        }
    }
    assert(at_path(OCI_LAYOUT_FILE@)(w[0]));
    lemma_first_from_is(w, at_path(OCI_LAYOUT_FILE@), 0, 0);
    assert(!at_path(INDEX_FILE@)(w[0]));
    assert(at_path(INDEX_FILE@)(w[1]));
    lemma_first_from_is(w, at_path(INDEX_FILE@), 0, 1);
    lemma_blobs_of_written(index, blobs, blobs.len() as int);
    assert(w.take(blobs.len() as int + 2) =~= w);
    assert(blobs.take(blobs.len() as int) =~= blobs);
}

/// Altering a blob condemns the archive: if the content of a blob of an
/// archive is replaced by content with another digest, the archive is
/// refused with `DigestMismatch`, whatever else it holds.
pub proof fn lemma_altered_blob_refused(entries: Seq<EntryView>, i: int, altered: Seq<u8>)
    requires
        0 <= i < entries.len(),
        is_blob_path(entries[i].path),
        !mismatched(entries[i]),
        digest_of(altered) != digest_of(entries[i].data),
    ensures
        read_archive_spec(entries.update(i, EntryView { path: entries[i].path, data: altered }))
            == Err::<ArchiveView, Error>(Error::DigestMismatch),
{
    let changed = entries.update(i, EntryView { path: entries[i].path, data: altered });
    assert(mismatched(changed[i]));
}

/// The digest that the path `path` names, if it is the path of a blob.
pub fn parse_blob_path(path: &str) -> (r: Option<Digest>)
    ensures
        r is Some <==> is_blob_path(path@),
        r matches Some(d) ==> d@ == path_digest(path@) && d@.wf() && blob_path(d@) == path@,
{
    let v = chars_of(path);
    let dir = chars_of(BLOB_DIR);
    let n = dir.len();
    if v.len() < n || v.len() - n != 64 || !starts_with_at(&v, 0, BLOB_DIR) {
        return None;
    }
    let mut text = chars_of("sha256:");
    let hex = slice_of(&v, n, v.len());
    let ghost prefix = text@;
    let mut i: usize = 0;
    while i < hex.len()
        invariant
            0 <= i <= hex@.len(),
            text@ == prefix + hex@.take(i as int),
        decreases hex@.len() - i,
    {
        text.push(hex[i]);
        i += 1;
        assert(hex@.take(i as int) =~= hex@.take(i - 1).push(hex@[i - 1]));
    }
    proof {
        reveal_strlit("sha256:");
        assert(hex@.take(hex@.len() as int) =~= hex@);
        assert(prefix =~= sha256_prefix());
        assert(text@.subrange(0, 7) =~= prefix);
        assert(text@.skip(7) =~= hex@);
        assert(hex@ =~= path@.skip(BLOB_DIR@.len() as int));
    }
    match Digest::parse_chars(&text) {
        Some(d) => {
            proof {
                assert(d@.text().skip(7) =~= d@.hex);
                assert(blob_path(d@) =~= path@);
            }
            Some(d)
        },
        None => None,
    }
}

/// The path of the blob with digest `d` in an archive.
pub fn blob_path_of(d: &Digest) -> (path: String)
    ensures
        path@ == blob_path(d@),
{
    let mut path = BLOB_DIR.to_owned();
    path.append(d.hex());
    path
}

/// An archive that was read and whose blobs were all verified.
#[derive(Debug, PartialEq, Eq)]
pub struct Archive {
    layout: Vec<u8>,
    index: Vec<u8>,
    pool: BlobPool,
}

impl View for Archive {
    type V = ArchiveView;

    closed spec fn view(&self) -> ArchiveView {
        ArchiveView { layout: self.layout@, index: self.index@, blobs: self.pool@ }
    }
}

impl Archive {
    /// The bytes of the marker file.
    pub fn layout(&self) -> (b: &Vec<u8>)
        ensures
            b@ == self@.layout,
    {
        &self.layout
    }

    /// The bytes of the index.
    pub fn index(&self) -> (b: &Vec<u8>)
        ensures
            b@ == self@.index,
    {
        &self.index
    }

    /// The blobs.
    pub fn pool(&self) -> (p: &BlobPool)
        ensures
            p@ == self@.blobs,
    {
        &self.pool
    }

    /// The blobs, given up by the archive.
    pub fn into_pool(self) -> (p: BlobPool)
        ensures
            p@ == self@.blobs,
    {
        self.pool
    }
}

/// Reads an archive from its files, and verifies every blob against the
/// digest in its path.
pub fn read_archive(entries: Vec<Entry>) -> (r: Result<Archive, Error>)
    ensures
        r matches Ok(a) ==> read_archive_spec(entry_views(entries@)) == Ok::<ArchiveView, Error>(
            a@,
        ),
        r matches Err(e) ==> read_archive_spec(entry_views(entries@)) == Err::<ArchiveView, Error>(
            e,
        ),
{
    let ghost all = entry_views(entries@);
    let mut pool = BlobPool::new();
    let mut layout: Option<Vec<u8>> = None;
    let mut index: Option<Vec<u8>> = None;
    let ghost mut li: int = 0;
    let ghost mut xi: int = 0;
    proof {
        lemma_paths_differ();
        assert(all.take(0) =~= Seq::<EntryView>::empty());
    }
    for entry in it: entries
        invariant
            entry_views(it.seq()) == all,
            forall|j: int| 0 <= j < it.index() ==> !mismatched(#[trigger] all[j]),
            pool@ == blobs_of(all.take(it.index() as int)),
            layout is None ==> forall|j: int|
                0 <= j < it.index() ==> !at_path(OCI_LAYOUT_FILE@)(#[trigger] all[j]),
            layout matches Some(d) ==> 0 <= li < it.index() && at_path(OCI_LAYOUT_FILE@)(all[li])
                && d@ == all[li].data && forall|j: int|
                0 <= j < li ==> !at_path(OCI_LAYOUT_FILE@)(#[trigger] all[j]),
            index is None ==> forall|j: int|
                0 <= j < it.index() ==> !at_path(INDEX_FILE@)(#[trigger] all[j]),
            index matches Some(d) ==> 0 <= xi < it.index() && at_path(INDEX_FILE@)(all[xi]) && d@
                == all[xi].data && forall|j: int|
                0 <= j < xi ==> !at_path(INDEX_FILE@)(#[trigger] all[j]),
            OCI_LAYOUT_FILE@ != INDEX_FILE@,
            forall|p: Seq<char>| is_blob_path(p) ==> p != OCI_LAYOUT_FILE@ && p != INDEX_FILE@,
    {
        let ghost k = it.index() as int;
        proof {
            assert(all[k] == entry@);
            let t = all.take(k + 1);
            assert(t.drop_last() =~= all.take(k));
            assert(t.last() == all[k]);
        }
        let Entry { path, data } = entry;
        if str_eq(path.as_str(), OCI_LAYOUT_FILE) {
            if layout.is_none() {
                layout = Some(data);
                proof {
                    li = k;
                }
            }
        } else if str_eq(path.as_str(), INDEX_FILE) {
            if index.is_none() {
                index = Some(data);
                proof {
                    xi = k;
                }
            }
        } else {
            match parse_blob_path(path.as_str()) {
                Some(d) => {
                    let blob = Blob::new(data);
                    if !blob.digest().equals(&d) {
                        assert(mismatched(all[k]));
                        return Err(Error::DigestMismatch);
                    }
                    pool.insert_blob(blob);
                },
                None => {},
            }
        }
    }
    proof {
        assert(all.take(all.len() as int) =~= all);
        if layout is None {
            lemma_first_from_is(all, at_path(OCI_LAYOUT_FILE@), 0, all.len() as int);
        } else {
            lemma_first_from_is(all, at_path(OCI_LAYOUT_FILE@), 0, li);
        }
        if index is None {
            lemma_first_from_is(all, at_path(INDEX_FILE@), 0, all.len() as int);
        } else {
            lemma_first_from_is(all, at_path(INDEX_FILE@), 0, xi);
        }
    }
    match (layout, index) {
        (Some(layout), Some(index)) => Ok(Archive { layout, index, pool }),
        _ => Err(Error::NotFound),
    }
}

/// The blobs among the files `entries`, each verified against the digest in
/// its path. Files that are no blobs are passed over.
pub fn verified_blobs(entries: Vec<Entry>) -> (r: Result<BlobPool, Error>)
    ensures
        r is Ok <==> forall|i: int|
            0 <= i < entries@.len() ==> !mismatched(#[trigger] entry_views(entries@)[i]),
        r matches Ok(pool) ==> pool@ == blobs_of(entry_views(entries@)),
        r matches Err(e) ==> e == Error::DigestMismatch,
{
    let ghost all = entry_views(entries@);
    let mut pool = BlobPool::new();
    assert(all.take(0) =~= Seq::<EntryView>::empty());
    for entry in it: entries
        invariant
            entry_views(it.seq()) == all,
            forall|j: int| 0 <= j < it.index() ==> !mismatched(#[trigger] all[j]),
            pool@ == blobs_of(all.take(it.index() as int)),
    {
        let ghost k = it.index() as int;
        proof {
            assert(all[k] == entry@);
            let t = all.take(k + 1);
            assert(t.drop_last() =~= all.take(k));
            assert(t.last() == all[k]);
        }
        let Entry { path, data } = entry;
        match parse_blob_path(path.as_str()) {
            Some(d) => {
                let blob = Blob::new(data);
                if !blob.digest().equals(&d) {
                    assert(mismatched(all[k]));
                    return Err(Error::DigestMismatch);
                }
                pool.insert_blob(blob);
            },
            None => {},
        }
    }
    assert(all.take(all.len() as int) =~= all);
    Ok(pool)
}

/// The files of an archive with the index `index` and the blobs of `pool`:
/// the marker, the index, then each blob once.
pub fn write_archive(index: Vec<u8>, pool: &BlobPool) -> (entries: Vec<Entry>)
    ensures
        entry_views(entries@) == write_archive_spec(index@, pool@),
        read_archive_spec(entry_views(entries@)) == Ok::<ArchiveView, Error>(
            ArchiveView { layout: layout_marker(), index: index@, blobs: pool@ },
        ),
{
    let mut entries: Vec<Entry> = Vec::new();
    entries.push(
        Entry { path: OCI_LAYOUT_FILE.to_owned(), data: slice_to_vec(OCI_LAYOUT_JSON.as_bytes()) },
    );
    let ghost index_bytes = index@;
    entries.push(Entry { path: INDEX_FILE.to_owned(), data: index });
    let n = pool.len();
    let mut i: usize = 0;
    while i < n
        invariant
            0 <= i <= n == pool@.len(),
            entries@.len() == i + 2,
            entry_views(entries@) == write_archive_spec(index_bytes, pool@).take(i + 2),
        decreases n - i,
    {
        let blob = pool.at(i);
        let ghost before = entry_views(entries@);
        entries.push(Entry { path: blob_path_of(blob.digest()), data: blob.data().clone() });
        i += 1;
        proof {
            let w = write_archive_spec(index_bytes, pool@);
            assert(w[i + 1] == blob_entries(pool@)[i - 1]);
            assert(entry_views(entries@) =~= before.push(w[i + 1]));
            assert(w.take(i + 2) =~= w.take(i + 1).push(w[i + 1]));
        }
    }
    proof {
        let w = write_archive_spec(index_bytes, pool@);
        assert(w.take(n + 2) =~= w);
        lemma_write_then_read(index_bytes, pool@);
    }
    entries
}

} // verus!
