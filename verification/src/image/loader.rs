//! The loader: takes an archive that was read and verified into the local
//! store, all of it or none of it.

use crate::blob::{
    blob_views, collision_free, hashed, lemma_pool_get_is, lemma_pool_has, lemma_pool_insert,
    lemma_pool_insert_all, lemma_pool_insert_all_from, pool_get, pool_has, pool_insert,
    pool_insert_all, Blob,
};
use crate::descriptor::{
    descriptor_views, entry_name, has_key, lemma_named_entry, AnnotationView, DescriptorView, Index,
    IndexView, Manifest, ManifestView, MEDIA_TYPE_MANIFEST, REF_NAME,
};
use crate::digest::{digest_of, digest_views, DigestView};
use crate::error::Error;
use crate::image::builder::{blob_descriptor, lemma_archive_closed, BuilderView};
use crate::image::layout::{
    layout_marker, lemma_write_then_read, read_archive_spec, write_archive_spec, Archive,
    ArchiveView, LAYOUT_VERSION,
};
use crate::image_name::{ImageName, ImageNameView};
use crate::local::{all_present, lemma_insert_preserves, Store, StoreView};
use crate::search::{any, lemma_any};
use crate::text::str_eq;
use vstd::prelude::*;

verus! {

/// What is wrong with one entry of the index, if anything: it carries no
/// well-formed name, or the archive lacks its manifest or a blob that the
/// manifest refers to.
pub open spec fn entry_fault(
    blobs: Seq<Seq<u8>>,
    entry: DescriptorView,
    manifest: ManifestView,
) -> Option<Error> {
    if entry_name(entry) is None {
        Some(Error::InvalidName)
    } else if !pool_has(blobs, entry.digest) || !all_present(blobs, manifest.references()) {
        Some(Error::NotFound)
    } else {
        None
    }
}

/// The fault of the first faulty entry at or after `from`.
pub open spec fn first_fault(
    blobs: Seq<Seq<u8>>,
    entries: Seq<DescriptorView>,
    manifests: Seq<ManifestView>,
    from: int,
) -> Option<Error>
    decreases entries.len() - from,
{
    if from < 0 || from >= entries.len() {
        None
    } else {
        match entry_fault(blobs, entries[from], manifests[from]) {
            Some(e) => Some(e),
            None => first_fault(blobs, entries, manifests, from + 1),
        }
    }
}

/// The store after the first `n` images of the index were registered, each
/// under its name, with its manifest and the manifest's bytes from the
/// archive.
pub open spec fn register_all(
    s: StoreView,
    blobs: Seq<Seq<u8>>,
    entries: Seq<DescriptorView>,
    manifests: Seq<ManifestView>,
    n: int,
) -> StoreView
    decreases n,
{
    if n <= 0 {
        s
    } else {
        let prev = register_all(s, blobs, entries, manifests, n - 1);
        match (entry_name(entries[n - 1]), pool_get(blobs, entries[n - 1].digest)) {
            (Some(name), Some(json)) => match prev.insert(
                name,
                manifests[n - 1],
                json,
                Seq::empty(),
            ) {
                Ok(t) => t,
                Err(_) => prev,
            },
            _ => prev,
        }
    }
}

/// Loading an archive. The layout must have the version that this crate
/// knows, there must be one decoded manifest for each entry of the index, and
/// no entry may be faulty. Then every blob of the archive joins the pool, and
/// every image of the index is registered under its name.
pub open spec fn load_spec(
    s: StoreView,
    archive: ArchiveView,
    version: Seq<char>,
    index: IndexView,
    manifests: Seq<ManifestView>,
) -> Result<StoreView, Error> {
    if version != LAYOUT_VERSION@ || index.manifests.len() != manifests.len() {
        Err(Error::ProtocolError)
    } else {
        match first_fault(archive.blobs, index.manifests, manifests, 0) {
            Some(e) => Err(e),
            None => Ok(
                register_all(
                    StoreView { blobs: pool_insert_all(s.blobs, archive.blobs), ..s },
                    archive.blobs,
                    index.manifests,
                    manifests,
                    manifests.len() as int,
                ),
            ),
        }
    }
}

/// Building, then loading, gives back what was built. An image that the
/// builder made, written as an archive and read again, loads into any
/// well-formed store; the store then holds the image under its name with the
/// manifest that the builder computed, and returns every layer under the
/// digest by which that manifest refers to it, byte for byte. This holds as
/// long as no two of the contents involved collide.
///
/// The index and the manifest that the loader is given are those that the
/// builder computed: decoding is taken to undo encoding.
pub proof fn lemma_build_then_load(
    s: StoreView,
    b: BuilderView,
    manifest_json: Seq<u8>,
    index_json: Seq<u8>,
    fallback: ImageNameView,
)
    requires
        s.wf(),
        fallback.wf(),
        b.name matches Some(n) ==> n.wf(),
        hashed(b.layers.push(b.config_bytes()).push(manifest_json)),
        collision_free(s.blobs + b.layers.push(b.config_bytes()).push(manifest_json)),
    ensures
        ({
            let name = match b.name {
                Some(n) => n,
                None => fallback,
            };
            let archive = ArchiveView {
                layout: layout_marker(),
                index: index_json,
                blobs: b.blobs(manifest_json),
            };
            &&& read_archive_spec(write_archive_spec(index_json, b.blobs(manifest_json))) == Ok::<
                ArchiveView,
                Error,
            >(archive)
            &&& load_spec(
                s,
                archive,
                LAYOUT_VERSION@,
                b.index(manifest_json, fallback),
                seq![b.manifest()],
            ) matches Ok(t) && t.wf() && t.images.contains_key(name) && t.images[name].manifest
                == b.manifest() && forall|i: int|
                0 <= i < b.layers.len() ==> pool_get(
                    t.blobs,
                    (#[trigger] b.manifest().layers[i]).digest,
                ) == Some(b.layers[i])
        }),
{
    let name = match b.name {
        Some(n) => n,
        None => fallback,
    };
    let inputs = b.layers.push(b.config_bytes()).push(manifest_json);
    let every = s.blobs + inputs;
    let blobs = b.blobs(manifest_json);
    let m = b.manifest();
    let entries = b.index(manifest_json, fallback).manifests;
    let ms = seq![m];
    // What the archive holds.
    lemma_archive_closed(b, manifest_json);
    lemma_pool_insert_all_from(Seq::empty(), b.layers);
    let with_config = pool_insert(b.layer_blobs(), b.config_bytes());
    assert forall|i: int| 0 <= i < blobs.len() implies inputs.contains(#[trigger] blobs[i]) by {
        if i < b.layer_blobs().len() {
            let x = b.layer_blobs()[i];
            assert(blobs[i] == x);
            assert(b.layers.contains(x));
            let k = choose|k: int| 0 <= k < b.layers.len() && b.layers[k] == x;
            assert(inputs[k] == x);
        } else if i < with_config.len() {
            assert(blobs[i] == b.config_bytes());
            assert(inputs[b.layers.len() as int] == b.config_bytes());
        } else {
            assert(blobs[i] == manifest_json);
            assert(inputs[b.layers.len() as int + 1] == manifest_json);
        }
    }
    assert forall|i: int| 0 <= i < blobs.len() implies (#[trigger] digest_of(blobs[i])).wf() by {
        let k = choose|k: int| 0 <= k < inputs.len() && inputs[k] == blobs[i];
        assert(digest_of(inputs[k]).wf());
    }
    lemma_write_then_read(index_json, blobs);
    // No entry is faulty.
    lemma_named_entry(blob_descriptor(MEDIA_TYPE_MANIFEST@, manifest_json), name);
    assert(any(Seq::<AnnotationView>::empty(), has_key(REF_NAME@)) == false) by {
        lemma_any(Seq::<AnnotationView>::empty(), has_key(REF_NAME@));
    }
    assert(entry_fault(blobs, entries[0], ms[0]) is None);
    assert(first_fault(blobs, entries, ms, 1) is None);
    assert(first_fault(blobs, entries, ms, 0) is None);
    // The registration.
    let start = StoreView { blobs: pool_insert_all(s.blobs, blobs), ..s };
    lemma_pool_insert_all(s.blobs, blobs);
    lemma_pool_insert_all_from(s.blobs, blobs);
    assert(start.wf()) by {
        assert forall|n: ImageNameView| #[trigger] start.images.contains_key(n) implies n.wf()
            && start.images[n].present_in(start.blobs) by {
            let img = s.images[n];
            assert(s.images.contains_key(n));
            assert forall|i: int| 0 <= i < img.manifest.references().len() implies pool_has(
                start.blobs,
                #[trigger] img.manifest.references()[i],
            ) by {
                assert(pool_has(s.blobs, img.manifest.references()[i]));
            }
        }
    }
    assert forall|x: Seq<u8>| blobs.contains(x) implies every.contains(x) by {
        let i = choose|i: int| 0 <= i < blobs.len() && blobs[i] == x;
        let k = choose|k: int| 0 <= k < inputs.len() && inputs[k] == blobs[i];
        assert(every[s.blobs.len() as int + k] == x);
    }
    assert forall|x: Seq<u8>| s.blobs.contains(x) implies every.contains(x) by {
        let i = choose|i: int| 0 <= i < s.blobs.len() && s.blobs[i] == x;
        assert(every[i] == x);
    }
    lemma_pool_has(blobs, digest_of(manifest_json));
    assert(pool_get(blobs, digest_of(manifest_json)) == Some(manifest_json)) by {
        assert forall|i: int|
            0 <= i < blobs.len() && digest_of(#[trigger] blobs[i]) == digest_of(
                manifest_json,
            ) implies blobs[i] == manifest_json by {
            assert(every[s.blobs.len() as int + b.layers.len() + 1] == manifest_json);
            lemma_same_digest_same_bytes(every, blobs[i], manifest_json);
        }
        lemma_pool_get_is(blobs, manifest_json);
    }
    assert(entries[0].digest == digest_of(manifest_json));
    let after = start.pool_after(manifest_json, Seq::empty());
    assert(pool_insert_all(start.blobs, Seq::<Seq<u8>>::empty()) == start.blobs);
    lemma_pool_insert(start.blobs, manifest_json);
    assert(pool_has(start.blobs, digest_of(manifest_json)));
    assert(after == start.blobs);
    assert forall|i: int| 0 <= i < m.references().len() implies pool_has(
        after,
        #[trigger] m.references()[i],
    ) by {
        assert(pool_has(blobs, m.references()[i]));
        lemma_pool_has(blobs, m.references()[i]);
    }
    lemma_insert_preserves(start, name, m, manifest_json, Seq::empty());
    let t = start.insert(name, m, manifest_json, Seq::empty())->Ok_0;
    assert(register_all(start, blobs, entries, ms, 0) == start);
    assert(register_all(start, blobs, entries, ms, 1) == t);
    // Every layer comes back as it went in.
    assert forall|i: int| 0 <= i < b.layers.len() implies pool_get(
        t.blobs,
        (#[trigger] b.manifest().layers[i]).digest,
    ) == Some(b.layers[i]) by {
        let x = b.layers[i];
        assert(m.layers[i].digest == digest_of(x));
        assert(m.references()[i + 1] == digest_of(x));
        assert(pool_has(t.blobs, digest_of(x)));
        assert(every[s.blobs.len() as int + i] == x);
        assert forall|j: int|
            0 <= j < t.blobs.len() && digest_of(#[trigger] t.blobs[j]) == digest_of(
                x,
            ) implies t.blobs[j] == x by {
            assert(s.blobs.contains(t.blobs[j]) || blobs.contains(t.blobs[j]));
            lemma_same_digest_same_bytes(every, t.blobs[j], x);
        }
        lemma_pool_get_is(t.blobs, x);
    }
}

/// Two members of a family without collisions that have the same digest are
/// the same bytes.
proof fn lemma_same_digest_same_bytes(family: Seq<Seq<u8>>, x: Seq<u8>, y: Seq<u8>)
    requires
        collision_free(family),
        family.contains(x),
        family.contains(y),
        digest_of(x) == digest_of(y),
    ensures
        x == y,
{
    let i = choose|i: int| 0 <= i < family.len() && family[i] == x;
    let j = choose|j: int| 0 <= j < family.len() && family[j] == y;
    assert(family[i] == family[j]);
}

/// Whether the pool of `archive` holds every blob that `manifest` refers to.
fn holds_all(archive: &Archive, manifest: &Manifest) -> (b: bool)
    ensures
        b == all_present(archive@.blobs, manifest@.references()),
{
    let refs = manifest.references();
    let ghost ref_views = manifest@.references();
    let mut i: usize = 0;
    while i < refs.len()
        invariant
            0 <= i <= refs@.len(),
            digest_views(refs@) == ref_views,
            ref_views == manifest@.references(),
            forall|j: int| 0 <= j < i ==> pool_has(archive@.blobs, #[trigger] ref_views[j]),
        decreases refs@.len() - i,
    {
        assert(refs@[i as int]@ == ref_views[i as int]);
        if !archive.pool().contains(&refs[i]) {
            return false;
        }
        i += 1;
    }
    true
}

/// One image that is ready to be registered.
struct Ready {
    name: ImageName,
    manifest_blob: Blob,
}

/// Examines every entry of the index, and collects the name and the bytes of
/// the manifest of each.
fn examine(archive: &Archive, index: &Index, manifests: &Vec<Manifest>) -> (r: Result<
    Vec<Ready>,
    Error,
>)
    requires
        index@.manifests.len() == manifests@.len(),
    ensures
        r matches Err(e) ==> first_fault(
            archive@.blobs,
            index@.manifests,
            manifests@.map_values(|m: Manifest| m@),
            0,
        ) == Some(e),
        r matches Ok(v) ==> {
            &&& first_fault(
                archive@.blobs,
                index@.manifests,
                manifests@.map_values(|m: Manifest| m@),
                0,
            ) is None
            &&& v@.len() == manifests@.len()
            &&& forall|k: int|
                0 <= k < v@.len() ==> {
                    &&& entry_name(index@.manifests[k]) == Some((#[trigger] v@[k]).name@)
                    &&& pool_get(archive@.blobs, index@.manifests[k].digest) == Some(
                        v@[k].manifest_blob@,
                    )
                    &&& all_present(archive@.blobs, manifests@[k]@.references())
                }
        },
{
    let ghost blobs = archive@.blobs;
    let ghost entries = index@.manifests;
    let ghost ms = manifests@.map_values(|m: Manifest| m@);
    let mut ready: Vec<Ready> = Vec::new();
    let n = manifests.len();
    assert(index.manifests@.len() == descriptor_views(index.manifests@).len());
    let mut k: usize = 0;
    while k < n
        invariant
            0 <= k <= n == manifests@.len() == entries.len() == index.manifests@.len(),
            blobs == archive@.blobs,
            entries == index@.manifests,
            ms == manifests@.map_values(|m: Manifest| m@),
            first_fault(blobs, entries, ms, 0) == first_fault(blobs, entries, ms, k as int),
            ready@.len() == k,
            forall|j: int|
                0 <= j < k ==> {
                    &&& entry_name(entries[j]) == Some((#[trigger] ready@[j]).name@)
                    &&& pool_get(blobs, entries[j].digest) == Some(ready@[j].manifest_blob@)
                    &&& all_present(blobs, ms[j].references())
                },
        decreases n - k,
    {
        let entry = &index.manifests[k];
        assert(entry@ == entries[k as int]);
        assert(manifests@[k as int]@ == ms[k as int]);
        let name = match Index::name_of(entry) {
            Ok(name) => name,
            Err(e) => {
                return Err(e);
            },
        };
        let manifest_blob = match archive.pool().get(&entry.digest) {
            Some(b) => b.clone(),
            None => {
                return Err(Error::NotFound);
            },
        };
        if !holds_all(archive, &manifests[k]) {
            return Err(Error::NotFound);
        }
        ready.push(Ready { name, manifest_blob });
        k += 1;
    }
    Ok(ready)
}

/// Takes the archive into the store. On any error the store stays exactly as
/// it was; on success it holds every blob of the archive and every image of
/// the index, and the names of those images are returned in the order of the
/// index.
///
/// `layout_version` is the version that the marker file states, `index` the
/// decoded index, and `manifests` the decoded manifest of each of its
/// entries, in the same order.
pub fn load(
    store: &mut Store,
    archive: Archive,
    layout_version: &str,
    index: &Index,
    manifests: Vec<Manifest>,
) -> (r: Result<Vec<ImageName>, Error>)
    requires
        old(store).wf(),
    ensures
        final(store).wf(),
        r matches Ok(names) ==> {
            &&& load_spec(
                old(store)@,
                archive@,
                layout_version@,
                index@,
                manifests@.map_values(|m: Manifest| m@),
            ) == Ok::<StoreView, Error>(final(store)@)
            &&& names@.len() == index@.manifests.len()
            &&& forall|k: int|
                0 <= k < names@.len() ==> entry_name(index@.manifests[k]) == Some(
                    (#[trigger] names@[k])@,
                )
        },
        r matches Err(e) ==> {
            &&& load_spec(
                old(store)@,
                archive@,
                layout_version@,
                index@,
                manifests@.map_values(|m: Manifest| m@),
            ) == Err::<StoreView, Error>(e)
            &&& final(store)@ == old(store)@
        },
{
    assert(index.manifests@.len() == descriptor_views(index.manifests@).len());
    if !str_eq(layout_version, LAYOUT_VERSION) || index.manifests.len() != manifests.len() {
        return Err(Error::ProtocolError);
    }
    let ready = match examine(&archive, index, &manifests) {
        Ok(ready) => ready,
        Err(e) => {
            return Err(e);
        },
    };
    // Nothing can fail from here on.
    let ghost blobs = archive@.blobs;
    let ghost entries = index@.manifests;
    let ghost ms = manifests@.map_values(|m: Manifest| m@);
    let ghost start = StoreView { blobs: pool_insert_all(store@.blobs, blobs), ..store@ };
    proof {
        lemma_pool_insert_all(store@.blobs, blobs);
    }
    store.absorb(archive.into_pool().into_blobs());
    proof {
        assert forall|d: DigestView| pool_has(blobs, d) implies pool_has(
            store@.blobs,
            d,
        ) by {
            lemma_pool_has(blobs, d);
        }
    }
    let mut names: Vec<ImageName> = Vec::new();
    let n = manifests.len();
    let mut manifests = manifests;
    let mut ready = ready;
    let mut k: usize = n;
    // The vectors are emptied from the back, so the images are registered
    // in reverse; a second pass over the index would need copies of them.
    let mut staged: Vec<(Ready, Manifest)> = Vec::new();
    while k > 0
        invariant
            0 <= k <= n,
            manifests@.len() == k,
            ready@.len() == k,
            staged@.len() == n - k,
            ms.len() == n == entries.len(),
            forall|j: int| 0 <= j < k ==> (#[trigger] manifests@[j])@ == ms[j],
            forall|j: int|
                0 <= j < k ==> {
                    &&& entry_name(entries[j]) == Some((#[trigger] ready@[j]).name@)
                    &&& pool_get(blobs, entries[j].digest) == Some(ready@[j].manifest_blob@)
                    &&& all_present(blobs, ms[j].references())
                },
            forall|j: int|
                0 <= j < n - k ==> {
                    &&& entry_name(entries[n - 1 - j]) == Some((#[trigger] staged@[j]).0.name@)
                    &&& pool_get(blobs, entries[n - 1 - j].digest) == Some(
                        staged@[j].0.manifest_blob@,
                    )
                    &&& staged@[j].1@ == ms[n - 1 - j]
                    &&& all_present(blobs, ms[n - 1 - j].references())
                },
        decreases k,
    {
        let m = manifests.pop().unwrap();
        let r = ready.pop().unwrap();
        staged.push((r, m));
        k -= 1;
    }
    let mut i: usize = 0;
    while i < n
        invariant
            0 <= i <= n == entries.len() == ms.len(),
            staged@.len() == n - i,
            names@.len() == i,
            store.wf(),
            store@ == register_all(start, blobs, entries, ms, i as int),
            forall|d: DigestView| pool_has(blobs, d) ==> pool_has(store@.blobs, d),
            forall|j: int| 0 <= j < i ==> entry_name(entries[j]) == Some((#[trigger] names@[j])@),
            forall|j: int|
                0 <= j < n - i ==> {
                    &&& entry_name(entries[n - 1 - j]) == Some((#[trigger] staged@[j]).0.name@)
                    &&& pool_get(blobs, entries[n - 1 - j].digest) == Some(
                        staged@[j].0.manifest_blob@,
                    )
                    &&& staged@[j].1@ == ms[n - 1 - j]
                    &&& all_present(blobs, ms[n - 1 - j].references())
                },
        decreases n - i,
    {
        let ghost top = staged@[n - 1 - i];
        let (r, m) = staged.pop().unwrap();
        assert(r == top.0 && m == top.1);
        let Ready { name, manifest_blob } = r;
        let ghost before = store@;
        proof {
            use_type_invariant(&name);
            lemma_insert_preserves(before, name@, m@, manifest_blob@, Seq::empty());
            let mid = pool_insert_all(before.blobs, Seq::<Seq<u8>>::empty());
            assert(mid == before.blobs);
            lemma_pool_insert(mid, manifest_blob@);
            let after = before.pool_after(manifest_blob@, Seq::empty());
            assert forall|j: int| 0 <= j < m@.references().len() implies pool_has(
                after,
                #[trigger] m@.references()[j],
            ) by {
                assert(pool_has(blobs, m@.references()[j]));
                assert(pool_has(before.blobs, m@.references()[j]));
            }
            assert(before.insert(name@, m@, manifest_blob@, Seq::empty()) is Ok);
        }
        names.push(name.clone());
        let empty: Vec<Blob> = Vec::new();
        assert(blob_views(empty@) =~= Seq::<Seq<u8>>::empty());
        let done = store.insert(name, m, manifest_blob, empty);
        assert(done is Ok);
        i += 1;
        proof {
            assert forall|d: DigestView| pool_has(blobs, d) implies pool_has(
                store@.blobs,
                d,
            ) by {
                assert(pool_has(before.blobs, d));
                lemma_pool_has(store@.blobs, d);
                assert(pool_get(store@.blobs, d) == pool_get(before.blobs, d));
            }
        }
    }
    Ok(names)
}

} // verus!
