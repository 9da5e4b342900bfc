//! Pulling an image: the manifest first, then every blob that it refers to
//! and that the store lacks, each verified against its digest, and only then
//! the image is registered in the store.

use crate::blob::{
    distinct, hashed, lemma_pool_has, lemma_pool_insert, lemma_pool_insert_all, pool_has,
    pool_insert, pool_insert_all, Blob, BlobPool,
};
use crate::descriptor::{Manifest, ManifestView};
use crate::digest::{digest_of, digest_views, Digest, DigestView};
use crate::error::Error;
use crate::image_name::{ImageName, ImageNameView, Reference, ReferenceView};
use crate::local::{lemma_insert_preserves, Store, StoreView};
use vstd::prelude::*;

verus! {

/// A manifest as it came: what it says, and its bytes.
pub struct ReceivedView {
    pub manifest: ManifestView,
    pub json: Seq<u8>,
}

/// What a pull has received.
pub struct PullView {
    /// The image that is pulled.
    pub name: ImageNameView,
    /// The manifest, once it has come.
    pub manifest: Option<ReceivedView>,
    /// The blobs that have come and were verified.
    pub fetched: Seq<Seq<u8>>,
}

/// What the caller is to do next.
pub enum PullActionView {
    /// Get the manifest (`GET`).
    GetManifest,
    /// Get this blob (`GET`).
    GetBlob(DigestView),
    /// Everything is there: register the image with `commit`.
    Commit,
}

impl PullView {
    /// The pull of the image `name`, before anything has come.
    pub open spec fn begin(name: ImageNameView) -> PullView {
        PullView { name, manifest: None, fetched: Seq::empty() }
    }

    /// The digests that the manifest refers to; none before it has come.
    pub open spec fn references(self) -> Seq<DigestView> {
        match self.manifest {
            Some(r) => r.manifest.references(),
            None => Seq::empty(),
        }
    }

    /// No blob has come before the manifest; every blob that has come is
    /// one that the manifest refers to; and a manifest that was asked for by
    /// digest has that digest.
    pub open spec fn wf(self) -> bool {
        &&& distinct(self.fetched)
        &&& hashed(self.fetched)
        &&& forall|i: int|
            0 <= i < self.fetched.len() ==> self.references().contains(
                digest_of(#[trigger] self.fetched[i]),
            )
        &&& self.manifest matches Some(r) ==> (self.name.reference matches ReferenceView::Digest(d)
            ==> digest_of(r.json) == d)
    }

    /// Whether the blob with digest `d` is still to be fetched, given the
    /// blobs `store` of the store.
    pub open spec fn wanted(self, store: Seq<Seq<u8>>, d: DigestView) -> bool {
        !pool_has(store, d) && !pool_has(self.fetched, d)
    }

    /// Those of the first `n` references that are still to be fetched, in
    /// their order.
    pub open spec fn wanted_list(self, store: Seq<Seq<u8>>, n: int) -> Seq<DigestView>
        decreases n,
    {
        if n <= 0 {
            Seq::empty()
        } else if self.wanted(store, self.references()[n - 1]) {
            self.wanted_list(store, n - 1).push(self.references()[n - 1])
        } else {
            self.wanted_list(store, n - 1)
        }
    }

    /// The first reference at or after `from` that is still to be fetched;
    /// the number of references if there is none.
    pub open spec fn first_wanted(self, store: Seq<Seq<u8>>, from: int) -> int
        decreases self.references().len() - from,
    {
        if from < 0 || from >= self.references().len() {
            self.references().len() as int
        } else if self.wanted(store, self.references()[from]) {
            from
        } else {
            self.first_wanted(store, from + 1)
        }
    }

    /// What to do next: the manifest first; then the first blob that the
    /// manifest refers to and that is neither in the store nor fetched; and
    /// when there is none, the registration.
    pub open spec fn next_action(self, store: Seq<Seq<u8>>) -> PullActionView {
        if self.manifest is None {
            PullActionView::GetManifest
        } else {
            let k = self.first_wanted(store, 0);
            if k < self.references().len() {
                PullActionView::GetBlob(self.references()[k])
            } else {
                PullActionView::Commit
            }
        }
    }

    /// The pull after the manifest came, with the bytes `json` that decode
    /// to `manifest`. A manifest that was asked for by digest must have that
    /// digest; one that was asked for by tag is taken as it is.
    pub open spec fn on_manifest(self, json: Seq<u8>, manifest: ManifestView) -> Result<
        PullView,
        Error,
    > {
        if self.manifest is Some {
            Err(Error::ProtocolError)
        } else if self.name.reference matches ReferenceView::Digest(d) && digest_of(json) != d {
            Err(Error::DigestMismatch)
        } else {
            Ok(PullView { manifest: Some(ReceivedView { manifest, json }), ..self })
        }
    }

    /// The pull after a blob came. Bytes that hash to no digest that the
    /// manifest refers to are discarded.
    pub open spec fn on_blob(self, data: Seq<u8>) -> Result<PullView, Error> {
        if self.manifest is None {
            Err(Error::ProtocolError)
        } else if self.references().contains(digest_of(data)) {
            Ok(PullView { fetched: pool_insert(self.fetched, data), ..self })
        } else {
            Err(Error::DigestMismatch)
        }
    }

    /// The store after the registration of what was pulled.
    pub open spec fn commit(self, store: StoreView) -> Result<StoreView, Error> {
        match self.manifest {
            Some(r) => store.insert(self.name, r.manifest, r.json, self.fetched),
            None => Err(Error::ProtocolError),
        }
    }
}

/// What `first_wanted` returns: no reference before it is still to be
/// fetched, and it is, unless it is the number of references.
pub proof fn lemma_first_wanted(p: PullView, store: Seq<Seq<u8>>, from: int)
    requires
        0 <= from <= p.references().len(),
    ensures
        from <= p.first_wanted(store, from) <= p.references().len(),
        forall|i: int|
            from <= i < p.first_wanted(store, from) ==> !p.wanted(
                store,
                #[trigger] p.references()[i],
            ),
        p.first_wanted(store, from) < p.references().len() ==> p.wanted(
            store,
            p.references()[p.first_wanted(store, from)],
        ),
    decreases p.references().len() - from,
{
    if from < p.references().len() && !p.wanted(store, p.references()[from]) {
        lemma_first_wanted(p, store, from + 1);
    }
}

/// A blob that is accepted keeps the pull well formed and is then among
/// the fetched: what is accepted was verified.
pub proof fn lemma_pull_preserves(p: PullView, data: Seq<u8>)
    requires
        p.wf(),
        digest_of(data).wf(),
    ensures
        p.on_blob(data) matches Ok(q) ==> q.wf() && pool_has(q.fetched, digest_of(data)),
{
    lemma_pool_insert(p.fetched, data);
    if let Ok(q) = p.on_blob(data) {
        assert forall|i: int| 0 <= i < q.fetched.len() implies q.references().contains(
            digest_of(#[trigger] q.fetched[i]),
        ) by {
            if i < p.fetched.len() {
                assert(q.fetched[i] == p.fetched[i]);
            }
        }
        assert forall|i: int| 0 <= i < q.fetched.len() implies (#[trigger] digest_of(
            q.fetched[i],
        )).wf() by {
            if i < p.fetched.len() {
                assert(q.fetched[i] == p.fetched[i]);
            }
        }
    }
}

/// When the pull asks for the registration, the registration succeeds: the
/// store then holds the image and every blob that its manifest refers to.
pub proof fn lemma_commit_succeeds(p: PullView, store: StoreView)
    requires
        p.wf(),
        store.wf(),
        p.name.wf(),
        p.next_action(store.blobs) is Commit,
    ensures
        p.commit(store) matches Ok(t) && t.wf() && t.images.contains_key(p.name)
            && t.images[p.name].manifest == p.manifest->0.manifest,
{
    let m = p.manifest->0.manifest;
    let json = p.manifest->0.json;
    lemma_first_wanted(p, store.blobs, 0);
    let mid = pool_insert_all(store.blobs, p.fetched);
    lemma_pool_insert_all(store.blobs, p.fetched);
    lemma_pool_insert(mid, json);
    let after = store.pool_after(json, p.fetched);
    assert forall|i: int| 0 <= i < m.references().len() implies pool_has(
        after,
        #[trigger] m.references()[i],
    ) by {
        let d = m.references()[i];
        assert(!p.wanted(store.blobs, p.references()[i]));
        if pool_has(p.fetched, d) {
            lemma_pool_has(p.fetched, d);
        }
        assert(pool_has(mid, d));
    }
    lemma_insert_preserves(store, p.name, m, json, p.fetched);
}

/// What the caller is to do next.
#[derive(Debug, PartialEq, Eq)]
pub enum PullAction {
    /// Get the manifest (`GET`).
    GetManifest,
    /// Get this blob (`GET`).
    GetBlob(Digest),
    /// Everything is there: register the image with `commit`.
    Commit,
}

impl View for PullAction {
    type V = PullActionView;

    open spec fn view(&self) -> PullActionView {
        match self {
            PullAction::GetManifest => PullActionView::GetManifest,
            PullAction::GetBlob(d) => PullActionView::GetBlob(d@),
            PullAction::Commit => PullActionView::Commit,
        }
    }
}

/// A pull in progress.
#[derive(Debug, PartialEq, Eq)]
pub struct Pull {
    name: ImageName,
    manifest: Option<(Manifest, Blob)>,
    fetched: BlobPool,
}

impl View for Pull {
    type V = PullView;

    closed spec fn view(&self) -> PullView {
        PullView {
            name: self.name@,
            manifest: match self.manifest {
                Some((m, b)) => Some(ReceivedView { manifest: m@, json: b@ }),
                None => None,
            },
            fetched: self.fetched@,
        }
    }
}

impl Pull {
    /// The pull is well formed.
    pub open spec fn wf(&self) -> bool {
        self@.wf() && self@.name.wf()
    }

    /// The pull of the image `name`.
    pub fn new(name: ImageName) -> (p: Pull)
        ensures
            p@ == PullView::begin(name@),
            p.wf(),
    {
        proof {
            use_type_invariant(&name);
        }
        Pull { name, manifest: None, fetched: BlobPool::new() }
    }

    /// The image that is pulled.
    pub fn name(&self) -> (n: &ImageName)
        ensures
            n@ == self@.name,
    {
        &self.name
    }

    /// The manifest, once it has come.
    pub fn manifest(&self) -> (m: Option<&Manifest>)
        ensures
            m is Some <==> self@.manifest is Some,
            m matches Some(m) ==> m@ == self@.manifest->0.manifest,
    {
        match &self.manifest {
            Some((m, _)) => Some(m),
            None => None,
        }
    }

    /// What to do next, given the store as it is now.
    pub fn next_action(&self, store: &Store) -> (a: PullAction)
        requires
            self.wf(),
        ensures
            a@ == self@.next_action(store@.blobs),
    {
        let m = match &self.manifest {
            None => {
                return PullAction::GetManifest;
            },
            Some((m, _)) => m,
        };
        let refs = m.references();
        let ghost blobs = store@.blobs;
        let mut k: usize = 0;
        while k < refs.len()
            invariant
                0 <= k <= refs@.len(),
                digest_views(refs@) == self@.references(),
                blobs == store@.blobs,
                self@.first_wanted(blobs, 0) == self@.first_wanted(blobs, k as int),
            decreases refs@.len() - k,
        {
            assert(refs@[k as int]@ == self@.references()[k as int]);
            if !store.contains_blob(&refs[k]) && !self.fetched.contains(&refs[k]) {
                return PullAction::GetBlob(refs[k].clone());
            }
            k += 1;
        }
        PullAction::Commit
    }

    /// The blobs that are still to be fetched, in the order of the manifest:
    /// they may be fetched in any order, or at the same time. There is none
    /// before the manifest has come.
    pub fn missing(&self, store: &Store) -> (r: Vec<Digest>)
        requires
            self.wf(),
        ensures
            digest_views(r@) == self@.wanted_list(
                store@.blobs,
                self@.references().len() as int,
            ),
    {
        let mut r: Vec<Digest> = Vec::new();
        assert(digest_views(r@) =~= self@.wanted_list(store@.blobs, 0));
        let refs = match &self.manifest {
            None => {
                return r;
            },
            Some((m, _)) => m.references(),
        };
        let mut k: usize = 0;
        while k < refs.len()
            invariant
                0 <= k <= refs@.len(),
                digest_views(refs@) == self@.references(),
                digest_views(r@) == self@.wanted_list(store@.blobs, k as int),
            decreases refs@.len() - k,
        {
            assert(refs@[k as int]@ == self@.references()[k as int]);
            if !store.contains_blob(&refs[k]) && !self.fetched.contains(&refs[k]) {
                let ghost before = digest_views(r@);
                r.push(refs[k].clone());
                assert(digest_views(r@) =~= before.push(self@.references()[k as int]));
            }
            k += 1;
        }
        r
    }

    /// Takes the manifest: its bytes `json` as they came, and `manifest`,
    /// what they decode to. On an error the pull stays as it is.
    pub fn on_manifest(&mut self, json: Vec<u8>, manifest: Manifest) -> (r: Result<(), Error>)
        requires
            old(self).wf(),
        ensures
            final(self).wf(),
            r is Ok ==> old(self)@.on_manifest(json@, manifest@) == Ok::<PullView, Error>(
                final(self)@,
            ),
            r matches Err(e) ==> old(self)@.on_manifest(json@, manifest@) == Err::<
                PullView,
                Error,
            >(e) && final(self)@ == old(self)@,
    {
        if self.manifest.is_some() {
            return Err(Error::ProtocolError);
        }
        let blob = Blob::new(json);
        match self.name.reference() {
            Reference::Digest(d) => {
                if !blob.digest().equals(d) {
                    return Err(Error::DigestMismatch);
                }
            },
            Reference::Tag(_) => {},
        }
        proof {
            // Blobs are taken only after the manifest, so none is there yet.
            if self@.fetched.len() > 0 {
                assert(self@.references().contains(digest_of(self@.fetched[0])));
            }
        }
        self.manifest = Some((manifest, blob));
        Ok(())
    }

    /// Takes a blob. Bytes that hash to no digest that the manifest refers
    /// to are discarded, and the pull stays as it is.
    pub fn on_blob(&mut self, data: Vec<u8>) -> (r: Result<Digest, Error>)
        requires
            old(self).wf(),
        ensures
            final(self).wf(),
            r matches Ok(d) ==> old(self)@.on_blob(data@) == Ok::<PullView, Error>(final(self)@)
                && d@ == digest_of(data@) && pool_has(final(self)@.fetched, d@),
            r matches Err(e) ==> old(self)@.on_blob(data@) == Err::<PullView, Error>(e)
                && final(self)@ == old(self)@,
    {
        let refs = match &self.manifest {
            None => {
                return Err(Error::ProtocolError);
            },
            Some((m, _)) => m.references(),
        };
        let blob = Blob::new(data);
        let mut k: usize = 0;
        let mut found = false;
        while !found && k < refs.len()
            invariant
                0 <= k <= refs@.len(),
                blob@ == data@,
                forall|i: int| 0 <= i < k ==> digest_views(refs@)[i] != digest_of(data@),
                found ==> k < refs@.len() && digest_views(refs@)[k as int] == digest_of(data@),
            decreases refs@.len() - k + (if found { 0int } else { 1int }),
        {
            if refs[k].equals(blob.digest()) {
                found = true;
            } else {
                k += 1;
            }
        }
        if !found {
            return Err(Error::DigestMismatch);
        }
        let d = blob.digest().clone();
        proof {
            use_type_invariant(&d);
            lemma_pull_preserves(self@, data@);
        }
        self.fetched.insert_blob(blob);
        Ok(d)
    }

    /// Registers what was pulled in the store. Where the manifest has not
    /// come, or a blob is still missing, the store stays exactly as it is.
    pub fn commit(self, store: &mut Store) -> (r: Result<(), Error>)
        requires
            self.wf(),
            old(store).wf(),
        ensures
            final(store).wf(),
            r is Ok ==> self@.commit(old(store)@) == Ok::<StoreView, Error>(final(store)@),
            r matches Err(e) ==> self@.commit(old(store)@) == Err::<StoreView, Error>(e)
                && final(store)@ == old(store)@,
            self@.next_action(old(store)@.blobs) is Commit ==> r is Ok,
    {
        proof {
            if self@.next_action(store@.blobs) is Commit {
                lemma_commit_succeeds(self@, store@);
            }
        }
        let Pull { name, manifest, fetched } = self;
        match manifest {
            Some((m, blob)) => store.insert(name, m, blob, fetched.into_blobs()),
            None => Err(Error::ProtocolError),
        }
    }
}

} // verus!
