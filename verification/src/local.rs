//! The local store: a pool of blobs shared by all images, and for each image
//! name the manifest it stands for. No stored manifest refers to a blob that
//! the pool lacks.

use crate::blob::{
    blob_views, distinct, lemma_pool_insert, lemma_pool_insert_all, pool_get, pool_has, pool_insert,
    pool_insert_all, Blob, BlobPool,
};
use crate::descriptor::{Manifest, ManifestView};
use crate::digest::{digest_of, digest_views, Digest, DigestView};
use crate::error::Error;
use crate::image::layout::{blob_path, blob_path_of};
use crate::image_name::{
    is_name_char, lemma_text_alphabet, lemma_text_injective, ImageName, ImageNameView,
};
use crate::search::{
    any, first, lemma_any, lemma_first_from_is, lemma_first_push, lemma_first_update,
};
use crate::text::chars_of;
use vstd::prelude::*;

verus! {

/// Whether the pool `blobs` holds a blob for each digest of `ds`.
pub open spec fn all_present(blobs: Seq<Seq<u8>>, ds: Seq<DigestView>) -> bool {
    forall|i: int| 0 <= i < ds.len() ==> pool_has(blobs, #[trigger] ds[i])
}

/// What the store keeps for one image name.
pub struct StoredImageView {
    pub manifest_digest: DigestView,
    pub manifest: ManifestView,
}

impl StoredImageView {
    /// The manifest itself and every blob it refers to are in `blobs`.
    pub open spec fn present_in(self, blobs: Seq<Seq<u8>>) -> bool {
        pool_has(blobs, self.manifest_digest) && all_present(blobs, self.manifest.references())
    }
}

/// What a store is: the contents of its pool, in the order in which they
/// came, and the image behind each known name.
pub struct StoreView {
    pub blobs: Seq<Seq<u8>>,
    pub images: Map<ImageNameView, StoredImageView>,
}

impl StoreView {
    /// No digest occurs twice in the pool, every name is well formed, and no
    /// image refers to a blob that the pool lacks.
    pub open spec fn wf(self) -> bool {
        &&& distinct(self.blobs)
        &&& forall|n: ImageNameView| #[trigger]
            self.images.contains_key(n) ==> n.wf() && self.images[n].present_in(self.blobs)
    }

    /// The pool after the blobs `blobs` and then the manifest's own bytes
    /// were inserted.
    pub open spec fn pool_after(self, manifest_json: Seq<u8>, blobs: Seq<Seq<u8>>) -> Seq<
        Seq<u8>,
    > {
        pool_insert(pool_insert_all(self.blobs, blobs), manifest_json)
    }

    /// Registering an image: the blobs join the pool and the name stands for
    /// the manifest from now on, whatever it stood for before. If the
    /// manifest refers to a blob that is neither in the pool nor among
    /// `blobs`, nothing is registered.
    pub open spec fn insert(
        self,
        name: ImageNameView,
        manifest: ManifestView,
        manifest_json: Seq<u8>,
        blobs: Seq<Seq<u8>>,
    ) -> Result<StoreView, Error> {
        let pool = self.pool_after(manifest_json, blobs);
        if all_present(pool, manifest.references()) {
            Ok(
                StoreView {
                    blobs: pool,
                    images: self.images.insert(
                        name,
                        StoredImageView { manifest_digest: digest_of(manifest_json), manifest },
                    ),
                },
            )
        } else {
            Err(Error::NotFound)
        }
    }
}

/// Registering an image keeps the store well formed, keeps every blob that
/// was there, and leaves every other name as it was.
pub proof fn lemma_insert_preserves(
    s: StoreView,
    name: ImageNameView,
    manifest: ManifestView,
    manifest_json: Seq<u8>,
    blobs: Seq<Seq<u8>>,
)
    requires
        s.wf(),
        name.wf(),
    ensures
        s.insert(name, manifest, manifest_json, blobs) matches Ok(t) ==> {
            &&& t.wf()
            &&& t.images.contains_key(name)
            &&& t.images[name].manifest == manifest
            &&& forall|d: DigestView| pool_has(s.blobs, d) ==> pool_get(t.blobs, d) == pool_get(
                s.blobs,
                d,
            )
            &&& forall|n: ImageNameView|
                n != name ==> t.images.contains_key(n) == s.images.contains_key(n) && (
                s.images.contains_key(n) ==> t.images[n] == s.images[n])
        },
{
    let mid = pool_insert_all(s.blobs, blobs);
    let pool = s.pool_after(manifest_json, blobs);
    lemma_pool_insert_all(s.blobs, blobs);
    lemma_pool_insert(mid, manifest_json);
    if let Ok(t) = s.insert(name, manifest, manifest_json, blobs) {
        assert forall|d: DigestView| pool_has(s.blobs, d) implies pool_get(t.blobs, d) == pool_get(
            s.blobs,
            d,
        ) by {
            assert(pool_has(mid, d));
        }
        assert forall|n: ImageNameView| #[trigger] t.images.contains_key(n) implies n.wf()
            && t.images[n].present_in(t.blobs) by {
            if n != name {
                let img = s.images[n];
                assert(s.images.contains_key(n));
                assert(pool_has(mid, img.manifest_digest));
                assert forall|i: int| 0 <= i < img.manifest.references().len() implies pool_has(
                    pool,
                    #[trigger] img.manifest.references()[i],
                ) by {
                    assert(pool_has(s.blobs, img.manifest.references()[i]));
                    assert(pool_has(mid, img.manifest.references()[i]));
                }
            }
        }
    }
}

/// Registering images under two different names gives the same store in
/// either order: the same image behind every name, and the same blob behind
/// every digest.
pub proof fn lemma_inserts_commute(
    s: StoreView,
    n1: ImageNameView,
    m1: ManifestView,
    j1: Seq<u8>,
    b1: Seq<Seq<u8>>,
    n2: ImageNameView,
    m2: ManifestView,
    j2: Seq<u8>,
    b2: Seq<Seq<u8>>,
)
    requires
        s.wf(),
        n1.wf(),
        n2.wf(),
        n1 != n2,
        s.insert(n1, m1, j1, b1) is Ok,
        s.insert(n2, m2, j2, b2) is Ok,
    ensures
        s.insert(n1, m1, j1, b1)->Ok_0.insert(n2, m2, j2, b2) matches Ok(a) && s.insert(
            n2,
            m2,
            j2,
            b2,
        )->Ok_0.insert(n1, m1, j1, b1) matches Ok(b) && {
            &&& a.images == b.images
            &&& a.images[n1].manifest == m1
            &&& a.images[n2].manifest == m2
            &&& forall|d: DigestView| pool_has(a.blobs, d) == pool_has(b.blobs, d)
        },
{
    let s1 = s.insert(n1, m1, j1, b1)->Ok_0;
    let s2 = s.insert(n2, m2, j2, b2)->Ok_0;
    let (mf1, mf2) = (m1, m2);
    lemma_insert_preserves(s, n1, m1, j1, b1);
    lemma_insert_preserves(s, n2, m2, j2, b2);
    lemma_pool_insert_all(s.blobs, b1);
    lemma_pool_insert(pool_insert_all(s.blobs, b1), j1);
    lemma_pool_insert_all(s.blobs, b2);
    lemma_pool_insert(pool_insert_all(s.blobs, b2), j2);
    lemma_pool_insert_all(s1.blobs, b2);
    lemma_pool_insert(pool_insert_all(s1.blobs, b2), j2);
    lemma_pool_insert_all(s2.blobs, b1);
    lemma_pool_insert(pool_insert_all(s2.blobs, b1), j1);
    let p12 = s1.pool_after(j2, b2);
    let p21 = s2.pool_after(j1, b1);
    let m12 = pool_insert_all(s1.blobs, b2);
    let m21 = pool_insert_all(s2.blobs, b1);
    let m1 = pool_insert_all(s.blobs, b1);
    let m2 = pool_insert_all(s.blobs, b2);
    assert forall|d: DigestView| pool_has(p12, d) == pool_has(p21, d) by {
        assert(pool_has(p12, d) <==> pool_has(m12, d) || d == digest_of(j2));
        assert(pool_has(p21, d) <==> pool_has(m21, d) || d == digest_of(j1));
        assert(pool_has(s1.blobs, d) <==> pool_has(m1, d) || d == digest_of(j1));
        assert(pool_has(s2.blobs, d) <==> pool_has(m2, d) || d == digest_of(j2));
        assert(pool_has(m12, d) <==> pool_has(s1.blobs, d) || exists|i: int|
            0 <= i < b2.len() && digest_of(#[trigger] b2[i]) == d);
        assert(pool_has(m21, d) <==> pool_has(s2.blobs, d) || exists|i: int|
            0 <= i < b1.len() && digest_of(#[trigger] b1[i]) == d);
        assert(pool_has(m1, d) <==> pool_has(s.blobs, d) || exists|i: int|
            0 <= i < b1.len() && digest_of(#[trigger] b1[i]) == d);
        assert(pool_has(m2, d) <==> pool_has(s.blobs, d) || exists|i: int|
            0 <= i < b2.len() && digest_of(#[trigger] b2[i]) == d);
    }
    assert forall|i: int| 0 <= i < mf2.references().len() implies pool_has(
        p12,
        #[trigger] mf2.references()[i],
    ) by {
        assert(pool_has(s2.blobs, mf2.references()[i]));
    }
    assert forall|i: int| 0 <= i < mf1.references().len() implies pool_has(
        p21,
        #[trigger] mf1.references()[i],
    ) by {
        assert(pool_has(s1.blobs, mf1.references()[i]));
    }
    let a = s1.insert(n2, mf2, j2, b2)->Ok_0;
    let b = s2.insert(n1, mf1, j1, b1)->Ok_0;
    assert(a.images =~= b.images);
}

/// Registering an image twice under one name leaves the later one behind the
/// name.
pub proof fn lemma_last_writer_wins(
    s: StoreView,
    name: ImageNameView,
    m1: ManifestView,
    j1: Seq<u8>,
    b1: Seq<Seq<u8>>,
    m2: ManifestView,
    j2: Seq<u8>,
    b2: Seq<Seq<u8>>,
)
    requires
        s.insert(name, m1, j1, b1) matches Ok(t) && t.insert(name, m2, j2, b2) is Ok,
    ensures
        s.insert(name, m1, j1, b1)->Ok_0.insert(name, m2, j2, b2)->Ok_0.images[name] == (
        StoredImageView { manifest_digest: digest_of(j2), manifest: m2 }),
{
}

/// One image of the store.
#[derive(Debug, PartialEq, Eq)]
struct StoredImage {
    name: ImageName,
    manifest_digest: Digest,
    manifest: Manifest,
}

impl StoredImage {
    spec fn key(self) -> ImageNameView {
        self.name@
    }

    spec fn entry(self) -> StoredImageView {
        StoredImageView { manifest_digest: self.manifest_digest@, manifest: self.manifest@ }
    }
}

/// The predicate "is stored under the name `n`".
spec fn named(n: ImageNameView) -> spec_fn(StoredImage) -> bool {
    |e: StoredImage| e.key() == n
}

/// The local store.
#[derive(Debug, PartialEq, Eq)]
pub struct Store {
    pool: BlobPool,
    images: Vec<StoredImage>,
}

impl View for Store {
    type V = StoreView;

    closed spec fn view(&self) -> StoreView {
        StoreView {
            blobs: self.pool@,
            images: Map::new(
                |n: ImageNameView| any(self.images@, named(n)),
                |n: ImageNameView| self.images@[first(self.images@, named(n))].entry(),
            ),
        }
    }
}

impl Store {
    /// The names under which images are stored, in the order in which they
    /// were first registered.
    pub closed spec fn names(&self) -> Seq<ImageNameView> {
        self.images@.map_values(|e: StoredImage| e.key())
    }

    /// The store is well formed, and `names` lists each known name once.
    pub open spec fn wf(&self) -> bool {
        &&& self@.wf()
        &&& self.names().no_duplicates()
        &&& forall|n: ImageNameView| self@.images.contains_key(n) <==> self.names().contains(n)
    }

    proof fn lemma_names(&self)
        ensures
            forall|n: ImageNameView| self@.images.contains_key(n) <==> self.names().contains(n),
    {
        assert forall|n: ImageNameView| self@.images.contains_key(n) <==> self.names().contains(
            n,
        ) by {
            lemma_any(self.images@, named(n));
            if self@.images.contains_key(n) {
                let k = first(self.images@, named(n));
                assert(named(n)(self.images@[k]));
                assert(self.names()[k] == n);
            }
            if self.names().contains(n) {
                let k = choose|k: int| 0 <= k < self.names().len() && self.names()[k] == n;
                assert(named(n)(self.images@[k]));
            }
        }
    }

    /// The empty store.
    pub fn new() -> (s: Store)
        ensures
            s.wf(),
            s@.blobs == Seq::<Seq<u8>>::empty(),
            s@.images == Map::<ImageNameView, StoredImageView>::empty(),
    {
        let s = Store { pool: BlobPool::new(), images: Vec::new() };
        proof {
            s.lemma_names();
            assert(s@.images =~= Map::<ImageNameView, StoredImageView>::empty()) by {
                assert forall|n: ImageNameView| !s@.images.contains_key(n) by {
                    lemma_any(s.images@, named(n));
                }
            }
        }
        s
    }

    /// The place of the image stored under `name`; the length if there is
    /// none.
    fn find(&self, name: &ImageName) -> (k: usize)
        ensures
            k == first(self.images@, named(name@)),
            k <= self.images@.len(),
            k < self.images@.len() <==> self@.images.contains_key(name@),
    {
        let mut k: usize = 0;
        let mut found = false;
        while !found && k < self.images.len()
            invariant
                0 <= k <= self.images@.len(),
                forall|i: int| 0 <= i < k ==> !named(name@)(#[trigger] self.images@[i]),
                found ==> k < self.images@.len() && named(name@)(self.images@[k as int]),
            decreases self.images@.len() - k + (if found { 0int } else { 1int }),
        {
            if self.images[k].name.equals(name) {
                found = true;
            } else {
                k += 1;
            }
        }
        proof {
            lemma_first_from_is(self.images@, named(name@), 0, k as int);
        }
        k
    }

    /// The manifest stored under `name`.
    pub fn get(&self, name: &ImageName) -> (r: Result<&Manifest, Error>)
        ensures
            r is Ok <==> self@.images.contains_key(name@),
            r matches Ok(m) ==> m@ == self@.images[name@].manifest,
            r matches Err(e) ==> e == Error::NotFound,
    {
        let k = self.find(name);
        if k < self.images.len() {
            Ok(&self.images[k].manifest)
        } else {
            Err(Error::NotFound)
        }
    }

    /// The digest of the manifest stored under `name`.
    pub fn manifest_digest(&self, name: &ImageName) -> (r: Result<&Digest, Error>)
        ensures
            r is Ok <==> self@.images.contains_key(name@),
            r matches Ok(d) ==> d@ == self@.images[name@].manifest_digest,
            r matches Err(e) ==> e == Error::NotFound,
    {
        let k = self.find(name);
        if k < self.images.len() {
            Ok(&self.images[k].manifest_digest)
        } else {
            Err(Error::NotFound)
        }
    }

    /// The blob with digest `d`, if the pool holds it.
    pub fn blob(&self, d: &Digest) -> (r: Option<&Blob>)
        ensures
            r is Some <==> pool_has(self@.blobs, d@),
            r matches Some(b) ==> pool_get(self@.blobs, d@) == Some(b@) && digest_of(b@) == d@,
    {
        self.pool.get(d)
    }

    /// Whether the pool holds a blob with digest `d`.
    pub fn contains_blob(&self, d: &Digest) -> (b: bool)
        ensures
            b == pool_has(self@.blobs, d@),
    {
        self.pool.contains(d)
    }

    /// The pool of blobs.
    pub fn pool(&self) -> (p: &BlobPool)
        ensures
            p@ == self@.blobs,
    {
        &self.pool
    }

    /// The known names, each once.
    pub fn list(&self) -> (r: Vec<ImageName>)
        requires
            self.wf(),
        ensures
            r@.map_values(|n: ImageName| n@) == self.names(),
            r@.map_values(|n: ImageName| n@).no_duplicates(),
            forall|n: ImageNameView|
                self@.images.contains_key(n) <==> r@.map_values(|n: ImageName| n@).contains(n),
    {
        let mut r: Vec<ImageName> = Vec::new();
        let mut i: usize = 0;
        while i < self.images.len()
            invariant
                0 <= i <= self.images@.len(),
                r@.len() == i,
                forall|j: int| 0 <= j < i ==> (#[trigger] r@[j])@ == self.images@[j].key(),
            decreases self.images@.len() - i,
        {
            r.push(self.images[i].name.clone());
            i += 1;
        }
        assert(r@.map_values(|n: ImageName| n@) =~= self.names());
        r
    }

    /// Puts `blobs` into the pool. The images stay as they are.
    pub fn absorb(&mut self, blobs: Vec<Blob>)
        requires
            old(self).wf(),
        ensures
            final(self).wf(),
            final(self)@ == (StoreView {
                blobs: pool_insert_all(old(self)@.blobs, blob_views(blobs@)),
                ..old(self)@
            }),
    {
        proof {
            lemma_pool_insert_all(self@.blobs, blob_views(blobs@));
            self.lemma_names();
        }
        let ghost before = *self;
        self.pool.insert_all(blobs);
        proof {
            assert(self.images@ == before.images@);
            assert(self@.images =~= before@.images);
            assert(self.names() == before.names());
            assert forall|n: ImageNameView| #[trigger] self@.images.contains_key(n) implies n.wf()
                && self@.images[n].present_in(self@.blobs) by {
                let img = before@.images[n];
                assert(before@.images.contains_key(n));
                assert forall|i: int| 0 <= i < img.manifest.references().len() implies pool_has(
                    self@.blobs,
                    #[trigger] img.manifest.references()[i],
                ) by {
                    assert(pool_has(before@.blobs, img.manifest.references()[i]));
                }
            }
        }
    }

    /// Whether `d` is the digest of `manifest_blob` or of one of `blobs`.
    fn offered(d: &Digest, manifest_blob: &Blob, blobs: &Vec<Blob>) -> (b: bool)
        ensures
            b <==> d@ == digest_of(manifest_blob@) || exists|k: int|
                0 <= k < blobs@.len() && digest_of(#[trigger] blob_views(blobs@)[k]) == d@,
    {
        if manifest_blob.digest().equals(d) {
            return true;
        }
        let ghost given = blob_views(blobs@);
        let mut k: usize = 0;
        while k < blobs.len()
            invariant
                0 <= k <= blobs@.len(),
                given == blob_views(blobs@),
                forall|j: int| 0 <= j < k ==> digest_of(#[trigger] given[j]) != d@,
            decreases blobs@.len() - k,
        {
            if blobs[k].digest().equals(d) {
                assert(digest_of(given[k as int]) == d@);
                return true;
            }
            k += 1;
        }
        false
    }

    /// Whether every blob that `manifest` refers to is in the pool or on
    /// offer.
    fn covers(&self, manifest: &Manifest, manifest_blob: &Blob, blobs: &Vec<Blob>) -> (b: bool)
        requires
            distinct(self@.blobs),
        ensures
            b == all_present(
                self@.pool_after(manifest_blob@, blob_views(blobs@)),
                manifest@.references(),
            ),
    {
        let ghost given = blob_views(blobs@);
        let ghost mid = pool_insert_all(self@.blobs, given);
        let ghost after = self@.pool_after(manifest_blob@, given);
        proof {
            lemma_pool_insert_all(self@.blobs, given);
            lemma_pool_insert(mid, manifest_blob@);
            assert forall|d: DigestView|
                pool_has(after, d) <==> pool_has(self@.blobs, d) || d == digest_of(manifest_blob@)
                    || exists|k: int|
                    0 <= k < given.len() && digest_of(#[trigger] given[k]) == d by {
                assert(pool_has(after, d) <==> pool_has(mid, d) || d == digest_of(manifest_blob@));
            }
        }
        let refs = manifest.references();
        let ghost ref_views = manifest@.references();
        let mut i: usize = 0;
        while i < refs.len()
            invariant
                0 <= i <= refs@.len(),
                digest_views(refs@) == ref_views,
                ref_views == manifest@.references(),
                given == blob_views(blobs@),
                after == self@.pool_after(manifest_blob@, given),
                forall|d: DigestView|
                    pool_has(after, d) <==> pool_has(self@.blobs, d) || d == digest_of(
                        manifest_blob@,
                    ) || exists|k: int| 0 <= k < given.len() && digest_of(#[trigger] given[k]) == d,
                forall|j: int| 0 <= j < i ==> pool_has(after, #[trigger] ref_views[j]),
            decreases refs@.len() - i,
        {
            let d = &refs[i];
            assert(d@ == ref_views[i as int]);
            if !(self.pool.contains(d) || Store::offered(d, manifest_blob, blobs)) {
                assert(!pool_has(after, ref_views[i as int]));
                return false;
            }
            i += 1;
        }
        true
    }

    /// Lets the name of `entry` stand for `entry`.
    fn register(&mut self, entry: StoredImage)
        ensures
            final(self)@.blobs == old(self)@.blobs,
            final(self)@.images == old(self)@.images.insert(entry.key(), entry.entry()),
            final(self).names() == (if old(self).names().contains(entry.key()) {
                old(self).names()
            } else {
                old(self).names().push(entry.key())
            }),
    {
        let k = self.find(&entry.name);
        let ghost old_images = self.images@;
        let ghost target = self@.images.insert(entry.key(), entry.entry());
        proof {
            self.lemma_names();
            lemma_any(old_images, named(entry.key()));
        }
        if k < self.images.len() {
            assert(named(entry.key())(old_images[k as int]));
            self.images.set(k, entry);
            proof {
                assert forall|m: ImageNameView|
                    #![trigger any(self.images@, named(m))]
                    #![trigger first(self.images@, named(m))]
                    any(self.images@, named(m)) == any(old_images, named(m)) && first(
                        self.images@,
                        named(m),
                    ) == first(old_images, named(m)) by {
                    lemma_first_update(old_images, named(m), k as int, entry);
                }
                assert(self.names() =~= old(self).names());
                assert forall|m: ImageNameView|
                    self@.images.contains_key(m) == target.contains_key(m) && (
                    target.contains_key(m) ==> self@.images[m] == target[m]) by {
                    lemma_any(old_images, named(m));
                    assert(first(self.images@, named(m)) == first(old_images, named(m)));
                    let f = first(old_images, named(m));
                    if any(old_images, named(m)) && m != entry.key() {
                        assert(named(m)(old_images[f]));
                        assert(f != k);
                    }
                }
            }
        } else {
            self.images.push(entry);
            proof {
                assert forall|m: ImageNameView|
                    #![trigger any(self.images@, named(m))]
                    #![trigger first(self.images@, named(m))]
                    {
                        &&& any(self.images@, named(m)) == (any(old_images, named(m)) || m
                            == entry.key())
                        &&& any(old_images, named(m)) ==> first(self.images@, named(m)) == first(
                            old_images,
                            named(m),
                        )
                        &&& !any(old_images, named(m)) && m == entry.key() ==> first(
                            self.images@,
                            named(m),
                        ) == old_images.len()
                    } by {
                    lemma_any(old_images, named(m));
                    lemma_first_push(old_images, named(m), entry);
                }
                assert(self.names() =~= old(self).names().push(entry.key()));
                assert forall|m: ImageNameView|
                    self@.images.contains_key(m) == target.contains_key(m) && (
                    target.contains_key(m) ==> self@.images[m] == target[m]) by {
                    lemma_any(old_images, named(m));
                    assert(any(self.images@, named(m)) == (any(old_images, named(m)) || m
                        == entry.key()));
                }
            }
        }
        assert(self@.images =~= target);
    }

    /// Registers an image: puts `blobs` and the manifest's own bytes into the
    /// pool and lets `name` stand for `manifest`, whatever it stood for
    /// before. If the manifest refers to a blob that is neither in the pool
    /// nor among `blobs`, the store stays exactly as it is.
    pub fn insert(
        &mut self,
        name: ImageName,
        manifest: Manifest,
        manifest_blob: Blob,
        blobs: Vec<Blob>,
    ) -> (r: Result<(), Error>)
        requires
            old(self).wf(),
        ensures
            final(self).wf(),
            r is Ok <==> old(self)@.insert(
                name@,
                manifest@,
                manifest_blob@,
                blob_views(blobs@),
            ) is Ok,
            r is Ok ==> Ok::<StoreView, Error>(final(self)@) == old(self)@.insert(
                name@,
                manifest@,
                manifest_blob@,
                blob_views(blobs@),
            ),
            r matches Err(e) ==> e == Error::NotFound && final(self)@ == old(self)@,
    {
        if !self.covers(&manifest, &manifest_blob, &blobs) {
            return Err(Error::NotFound);
        }
        proof {
            use_type_invariant(&name);
            lemma_insert_preserves(
                self@,
                name@,
                manifest@,
                manifest_blob@,
                blob_views(blobs@),
            );
        }
        let manifest_digest = manifest_blob.digest().clone();
        self.pool.insert_all(blobs);
        self.pool.insert_blob(manifest_blob);
        self.register(StoredImage { name, manifest_digest, manifest });
        proof {
            self.lemma_names();
        }
        Ok(())
    }
}

/// The character that stands for `c` in a directory name: `+` for `:` and
/// `=` for `@`, which not every filesystem accepts.
pub open spec fn dir_char(c: char) -> char {
    if c == ':' {
        '+'
    } else if c == '@' {
        '='
    } else {
        c
    }
}

/// The character that `c` stands for in a directory name.
pub open spec fn name_char(c: char) -> char {
    if c == '+' {
        ':'
    } else if c == '=' {
        '@'
    } else {
        c
    }
}

/// The directory of an image below the root of the store: its canonical
/// text, character by character through `dir_char`.
pub open spec fn dir_name(n: ImageNameView) -> Seq<char> {
    n.text().map_values(|c: char| dir_char(c))
}

/// The directory of an image: the root, `/` and the image's own directory.
pub open spec fn image_dir_of(root: Seq<char>, n: ImageNameView) -> Seq<char> {
    root + seq!['/'] + dir_name(n)
}

/// The canonical text that a directory name stands for.
pub open spec fn text_of_dir(rel: Seq<char>) -> Seq<char> {
    rel.map_values(|c: char| name_char(c))
}

/// A directory name stands for the text it was made from.
pub proof fn lemma_dir_name_inverse(n: ImageNameView)
    requires
        n.wf(),
    ensures
        text_of_dir(dir_name(n)) == n.text(),
        forall|i: int|
            0 <= i < dir_name(n).len() ==> dir_name(n)[i] != ':' && dir_name(n)[i] != '@',
{
    lemma_text_alphabet(n);
    assert forall|i: int| 0 <= i < n.text().len() implies name_char(dir_char(n.text()[i]))
        == n.text()[i] by {
        assert(is_name_char(n.text()[i]));
    }
    assert(text_of_dir(dir_name(n)) =~= n.text());
}

/// Different images have different directories: the directory of an image is
/// a function of its name alone, and no two well-formed names share one.
pub proof fn lemma_image_dir_injective(root: Seq<char>, a: ImageNameView, b: ImageNameView)
    requires
        a.wf(),
        b.wf(),
        image_dir_of(root, a) == image_dir_of(root, b),
    ensures
        a == b,
{
    let da = dir_name(a);
    let db = dir_name(b);
    assert(da =~= image_dir_of(root, a).skip(root.len() as int + 1));
    assert(db =~= image_dir_of(root, b).skip(root.len() as int + 1));
    lemma_dir_name_inverse(a);
    lemma_dir_name_inverse(b);
    lemma_text_injective(a, b);
}

/// The directory of the image `name` in the store rooted at `root`.
pub fn image_dir(root: &str, name: &ImageName) -> (dir: String)
    ensures
        dir@ == image_dir_of(root@, name@),
{
    let text = name.to_string();
    let chars = chars_of(text.as_str());
    let mut dir = root.to_owned();
    dir.push('/');
    let ghost head = dir@;
    let mut i: usize = 0;
    while i < chars.len()
        invariant
            0 <= i <= chars@.len(),
            chars@ == name@.text(),
            head == root@ + seq!['/'],
            dir@ == head + dir_name(name@).take(i as int),
        decreases chars@.len() - i,
    {
        let c = chars[i];
        let m = if c == ':' {
            '+'
        } else if c == '@' {
            '='
        } else {
            c
        };
        dir.push(m);
        i += 1;
        assert(dir_name(name@).take(i as int) =~= dir_name(name@).take(i - 1).push(m));
    }
    assert(dir_name(name@).take(chars@.len() as int) =~= dir_name(name@));
    dir
}

/// The image whose directory below the root is `rel`. A directory name is
/// accepted exactly if it is the directory of some well-formed name, and that
/// name is then the result.
pub fn image_name_of_dir(rel: &str) -> (r: Result<ImageName, Error>)
    ensures
        r matches Ok(n) ==> n@.wf() && dir_name(n@) == rel@,
        r matches Err(e) ==> e == Error::InvalidName,
        r is Err ==> forall|n: ImageNameView| n.wf() ==> #[trigger] dir_name(n) != rel@,
{
    let chars = chars_of(rel);
    let mut text = String::new();
    let mut i: usize = 0;
    while i < chars.len()
        invariant
            0 <= i <= chars@.len(),
            chars@ == rel@,
            text@ == text_of_dir(rel@).take(i as int),
            forall|j: int| 0 <= j < i ==> rel@[j] != ':' && rel@[j] != '@',
        decreases chars@.len() - i,
    {
        let c = chars[i];
        if c == ':' || c == '@' {
            proof {
                assert forall|n: ImageNameView| n.wf() implies #[trigger] dir_name(n) != rel@ by {
                    lemma_dir_name_inverse(n);
                }
            }
            return Err(Error::InvalidName);
        }
        let m = if c == '+' {
            ':'
        } else if c == '=' {
            '@'
        } else {
            c
        };
        text.push(m);
        i += 1;
        assert(text_of_dir(rel@).take(i as int) =~= text_of_dir(rel@).take(i - 1).push(m));
    }
    assert(text_of_dir(rel@).take(chars@.len() as int) =~= text_of_dir(rel@));
    match ImageName::parse(text.as_str()) {
        Ok(n) => {
            assert(dir_name(n@) =~= rel@);
            Ok(n)
        },
        Err(e) => {
            proof {
                assert forall|n: ImageNameView| n.wf() implies #[trigger] dir_name(n) != rel@ by {
                    lemma_dir_name_inverse(n);
                    assert(n.text() != text@);
                }
            }
            Err(e)
        },
    }
}

/// The name of the file that holds the manifest in the directory of an
/// image.
pub const MANIFEST_FILE: &'static str = "image.json";

/// What is put behind the name of a file while it is being written.
pub const TEMP_SUFFIX: &'static str = ".tmp";

/// What a step of writing the store to disk is.
pub enum FileOpView {
    /// Write these bytes to this path.
    Write { path: Seq<char>, data: Seq<u8> },
    /// Rename this file, replacing what is there.
    Rename { from: Seq<char>, to: Seq<char> },
}

/// A step of writing the store to disk.
#[derive(Debug, PartialEq, Eq)]
pub enum FileOp {
    /// Write these bytes to this path.
    Write { path: String, data: Vec<u8> },
    /// Rename this file, replacing what is there.
    Rename { from: String, to: String },
}

impl View for FileOp {
    type V = FileOpView;

    open spec fn view(&self) -> FileOpView {
        match self {
            FileOp::Write { path, data } => FileOpView::Write { path: path@, data: data@ },
            FileOp::Rename { from, to } => FileOpView::Rename { from: from@, to: to@ },
        }
    }
}

/// The views of a sequence of steps.
pub open spec fn op_views(s: Seq<FileOp>) -> Seq<FileOpView> {
    s.map_values(|op: FileOp| op@)
}

/// The file of the blob with digest `d` in the store rooted at `root`.
pub open spec fn pool_path(root: Seq<char>, d: DigestView) -> Seq<char> {
    root + seq!['/'] + blob_path(d)
}

/// The file of the manifest of the image `name` in the store rooted at
/// `root`.
pub open spec fn manifest_file(root: Seq<char>, name: ImageNameView) -> Seq<char> {
    image_dir_of(root, name) + seq!['/'] + MANIFEST_FILE@
}

/// The two steps that bring `data` to `path` so that the file is either
/// absent, as it was, or complete: written beside it, then renamed.
pub open spec fn write_then_rename(path: Seq<char>, data: Seq<u8>) -> Seq<FileOpView> {
    seq![
        FileOpView::Write { path: path + TEMP_SUFFIX@, data },
        FileOpView::Rename { from: path + TEMP_SUFFIX@, to: path },
    ]
}

/// The steps that bring the blobs `blobs[from..]` to disk, in their order.
pub open spec fn persist_blobs(root: Seq<char>, blobs: Seq<Seq<u8>>, from: int) -> Seq<FileOpView>
    decreases blobs.len() - from,
{
    if from < 0 || from >= blobs.len() {
        Seq::empty()
    } else {
        write_then_rename(pool_path(root, digest_of(blobs[from])), blobs[from]) + persist_blobs(
            root,
            blobs,
            from + 1,
        )
    }
}

/// The steps that bring an image to disk: the blobs that came after the
/// first `known`, then the manifest. Every file is written beside its place
/// and renamed into it, and the manifest comes last, so that at no moment a
/// manifest is visible that is incomplete or refers to a blob that is not there.
pub open spec fn persist_spec(
    s: StoreView,
    root: Seq<char>,
    name: ImageNameView,
    known: int,
) -> Seq<FileOpView> {
    persist_blobs(root, s.blobs, known) + write_then_rename(
        manifest_file(root, name),
        pool_get(s.blobs, s.images[name].manifest_digest)->0,
    )
}

/// The two steps write a file beside its place and then rename it into its
/// place.
pub open spec fn written_then_renamed(first: FileOpView, second: FileOpView) -> bool {
    &&& first matches FileOpView::Write { path, .. }
    &&& second matches FileOpView::Rename { from, to }
    &&& from == path
    &&& path == to + TEMP_SUFFIX@
}

/// Whether the steps `ops` come in pairs that each write a file beside its
/// place and then rename it into its place.
pub open spec fn in_safe_pairs(ops: Seq<FileOpView>) -> bool {
    &&& ops.len() % 2 == 0
    &&& forall|i: int|
        0 <= i < ops.len() && i % 2 == 0 ==> written_then_renamed(#[trigger] ops[i], ops[i + 1])
}

/// In a plan made by `persist_spec`, every write goes to a temporary file
/// that the next step renames, and the last step puts the manifest in place.
pub proof fn lemma_persist_discipline(
    s: StoreView,
    root: Seq<char>,
    name: ImageNameView,
    known: int,
)
    requires
        0 <= known <= s.blobs.len(),
    ensures
        ({
            let ops = persist_spec(s, root, name, known);
            &&& ops.len() == 2 * (s.blobs.len() - known) + 2
            &&& in_safe_pairs(ops)
            &&& ops[ops.len() - 1] matches FileOpView::Rename { to, .. } && to == manifest_file(
                root,
                name,
            )
        }),
{
    lemma_persist_blobs(root, s.blobs, known);
    let head = persist_blobs(root, s.blobs, known);
    let ops = persist_spec(s, root, name, known);
    assert forall|i: int| 0 <= i < ops.len() && i % 2 == 0 implies written_then_renamed(
        #[trigger] ops[i],
        ops[i + 1],
    ) by {
        if i < head.len() {
            assert(ops[i] == head[i]);
            assert(ops[i + 1] == head[i + 1]);
        }
    }
}

proof fn lemma_persist_blobs(root: Seq<char>, blobs: Seq<Seq<u8>>, from: int)
    requires
        0 <= from <= blobs.len(),
    ensures
        persist_blobs(root, blobs, from).len() == 2 * (blobs.len() - from),
        in_safe_pairs(persist_blobs(root, blobs, from)),
    decreases blobs.len() - from,
{
    if from < blobs.len() {
        lemma_persist_blobs(root, blobs, from + 1);
        let first = write_then_rename(pool_path(root, digest_of(blobs[from])), blobs[from]);
        let rest = persist_blobs(root, blobs, from + 1);
        let ops = persist_blobs(root, blobs, from);
        assert forall|i: int| 0 <= i < ops.len() && i % 2 == 0 implies written_then_renamed(
            #[trigger] ops[i],
            ops[i + 1],
        ) by {
            if i >= 2 {
                assert(ops[i] == rest[i - 2]);
                assert(ops[i + 1] == rest[i - 2 + 1]);
            } else {
                assert(ops[0] == first[0] && ops[1] == first[1]);
            }
        }
    }
}

/// Appends to `ops` the two steps that bring `data` to `path`.
fn push_write_then_rename(ops: &mut Vec<FileOp>, path: String, data: Vec<u8>)
    ensures
        op_views(final(ops)@) == op_views(old(ops)@) + write_then_rename(path@, data@),
{
    let mut temp = path.clone();
    temp.append(TEMP_SUFFIX);
    let from = temp.clone();
    let ghost before = op_views(ops@);
    ops.push(FileOp::Write { path: temp, data });
    ops.push(FileOp::Rename { from, to: path });
    assert(op_views(ops@) =~= before + write_then_rename(path@, data@));
}

impl Store {
    /// The steps that bring the image `name` to disk in the store rooted at
    /// `root`, given that the first `known` blobs of the pool are there
    /// already.
    pub fn persist_plan(&self, root: &str, name: &ImageName, known: usize) -> (r: Result<
        Vec<FileOp>,
        Error,
    >)
        requires
            self.wf(),
        ensures
            r is Ok <==> self@.images.contains_key(name@) && known <= self@.blobs.len(),
            r matches Ok(ops) ==> op_views(ops@) == persist_spec(self@, root@, name@, known as int),
            r matches Err(e) ==> e == Error::NotFound,
    {
        let n = self.pool.len();
        let digest = match self.manifest_digest(name) {
            Ok(d) => d,
            Err(e) => {
                return Err(Error::NotFound);
            },
        };
        let manifest = match self.pool.get(digest) {
            Some(b) => b,
            None => {
                assert(self@.images[name@].present_in(self@.blobs));
                return Err(Error::NotFound);
            },
        };
        if known > n {
            return Err(Error::NotFound);
        }
        let mut ops: Vec<FileOp> = Vec::new();
        let ghost blobs = self@.blobs;
        assert(op_views(ops@) =~= Seq::<FileOpView>::empty());
        let mut k: usize = known;
        while k < n
            invariant
                known <= k <= n == blobs.len(),
                blobs == self@.blobs,
                blobs == self.pool@,
                op_views(ops@) + persist_blobs(root@, blobs, k as int) == persist_blobs(
                    root@,
                    blobs,
                    known as int,
                ),
            decreases n - k,
        {
            let blob = self.pool.at(k);
            let mut path = root.to_owned();
            path.push('/');
            let rel = blob_path_of(blob.digest());
            path.append(rel.as_str());
            assert(path@ =~= pool_path(root@, digest_of(blobs[k as int])));
            let ghost before = op_views(ops@);
            push_write_then_rename(&mut ops, path, blob.data().clone());
            proof {
                let step = write_then_rename(
                    pool_path(root@, digest_of(blobs[k as int])),
                    blobs[k as int],
                );
                assert((before + step) + persist_blobs(root@, blobs, k + 1) =~= before + (step
                    + persist_blobs(root@, blobs, k + 1)));
            }
            k += 1;
        }
        assert(op_views(ops@) =~= persist_blobs(root@, blobs, known as int));
        let mut path = image_dir(root, name);
        path.push('/');
        path.append(MANIFEST_FILE);
        assert(path@ =~= manifest_file(root@, name@));
        push_write_then_rename(&mut ops, path, manifest.data().clone());
        Ok(ops)
    }
}

} // verus!
