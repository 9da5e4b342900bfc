//! The builder: collects the layers and the configuration of an image, then
//! yields its manifest, and at last the index and the blobs of the archive.

use crate::blob::{
    collision_free, distinct, lemma_pool_insert, lemma_pool_insert_all, pool_get, pool_has,
    pool_insert, pool_insert_all, Blob, BlobPool,
};
use crate::descriptor::{
    descriptor_views, named_entry, Descriptor, DescriptorView, Index, IndexView, Manifest,
    ManifestView, MEDIA_TYPE_CONFIG, MEDIA_TYPE_EMPTY, MEDIA_TYPE_LAYER, MEDIA_TYPE_MANIFEST,
    SCHEMA_VERSION,
};
use crate::digest::digest_of;
use crate::image_name::{ImageName, ImageNameView};
use crate::local::all_present;
use vstd::prelude::*;

verus! {

/// The bytes `{}`: the configuration of an image that was given none.
pub open spec fn empty_config() -> Seq<u8> {
    seq![123u8, 125u8]
}

/// The descriptor of the blob `data` with the media type `media_type`.
pub open spec fn blob_descriptor(media_type: Seq<char>, data: Seq<u8>) -> DescriptorView {
    DescriptorView {
        media_type,
        digest: digest_of(data),
        size: data.len() as u64,
        annotations: Seq::empty(),
    }
}

/// The descriptor of a layer with the content `data`.
pub open spec fn layer_descriptor(data: Seq<u8>) -> DescriptorView {
    blob_descriptor(MEDIA_TYPE_LAYER@, data)
}

/// The descriptors of the layers with the contents `layers`, in order.
pub open spec fn layer_descriptors(layers: Seq<Seq<u8>>) -> Seq<DescriptorView> {
    layers.map_values(|data: Seq<u8>| layer_descriptor(data))
}

/// What a builder holds: the name and the configuration, if they were set,
/// and the contents of the layers in the order in which they were appended.
pub struct BuilderView {
    pub name: Option<ImageNameView>,
    pub config: Option<Seq<u8>>,
    pub layers: Seq<Seq<u8>>,
}

impl BuilderView {
    /// The bytes of the configuration blob.
    pub open spec fn config_bytes(self) -> Seq<u8> {
        match self.config {
            Some(c) => c,
            None => empty_config(),
        }
    }

    /// The descriptor of the configuration blob.
    pub open spec fn config_descriptor(self) -> DescriptorView {
        match self.config {
            Some(c) => blob_descriptor(MEDIA_TYPE_CONFIG@, c),
            None => blob_descriptor(MEDIA_TYPE_EMPTY@, empty_config()),
        }
    }

    /// The manifest of the image: the configuration, and the layers in the
    /// order in which they were appended.
    pub open spec fn manifest(self) -> ManifestView {
        ManifestView {
            schema_version: SCHEMA_VERSION,
            media_type: MEDIA_TYPE_MANIFEST@,
            config: self.config_descriptor(),
            layers: layer_descriptors(self.layers),
            annotations: Seq::empty(),
        }
    }

    /// The blobs of the layers: each content once, in the order in which it
    /// was first appended.
    pub open spec fn layer_blobs(self) -> Seq<Seq<u8>> {
        pool_insert_all(Seq::empty(), self.layers)
    }

    /// The blobs of the archive: the layers, the configuration, and the
    /// manifest with the bytes `manifest_json`.
    pub open spec fn blobs(self, manifest_json: Seq<u8>) -> Seq<Seq<u8>> {
        pool_insert(pool_insert(self.layer_blobs(), self.config_bytes()), manifest_json)
    }

    /// The index of the archive: one entry, which names the manifest with the
    /// bytes `manifest_json` by the name that was set, or by `fallback`.
    pub open spec fn index(self, manifest_json: Seq<u8>, fallback: ImageNameView) -> IndexView {
        IndexView {
            schema_version: SCHEMA_VERSION,
            manifests: seq![
                named_entry(
                    blob_descriptor(MEDIA_TYPE_MANIFEST@, manifest_json),
                    match self.name {
                        Some(n) => n,
                        None => fallback,
                    },
                ),
            ],
        }
    }
}

/// Content addressing: two builders that were given the same layer contents
/// describe their layers by the same descriptors, digest for digest.
pub proof fn lemma_same_content_same_layers(a: BuilderView, b: BuilderView)
    requires
        a.layers == b.layers,
    ensures
        a.manifest().layers == b.manifest().layers,
        a.layer_blobs() == b.layer_blobs(),
        forall|i: int|
            0 <= i < a.layers.len() ==> a.manifest().layers[i].digest
                == b.manifest().layers[i].digest,
{
}

/// The archive is closed: its pool holds the manifest and every blob that the
/// manifest refers to, and no content twice.
pub proof fn lemma_archive_closed(b: BuilderView, manifest_json: Seq<u8>)
    ensures
        distinct(b.blobs(manifest_json)),
        pool_has(b.blobs(manifest_json), digest_of(manifest_json)),
        all_present(b.blobs(manifest_json), b.manifest().references()),
{
    let layers = b.layer_blobs();
    let mid = pool_insert(layers, b.config_bytes());
    let all = b.blobs(manifest_json);
    assert(distinct(Seq::<Seq<u8>>::empty()));
    lemma_pool_insert_all(Seq::empty(), b.layers);
    lemma_pool_insert(layers, b.config_bytes());
    lemma_pool_insert(mid, manifest_json);
    let refs = b.manifest().references();
    assert forall|i: int| 0 <= i < refs.len() implies pool_has(all, #[trigger] refs[i]) by {
        if i == 0 {
            assert(refs[0] == digest_of(b.config_bytes()));
            assert(pool_has(mid, refs[0]));
        } else {
            assert(refs[i] == digest_of(b.layers[i - 1]));
            assert(pool_has(layers, digest_of(b.layers[i - 1])));
            assert(pool_has(mid, refs[i]));
        }
    }
}

/// What was put into `pool_insert_all` comes out by its digest, byte for
/// byte, as long as no two of the contents collide.
pub proof fn lemma_pool_returns(s: Seq<Seq<u8>>, i: int)
    requires
        collision_free(s),
        0 <= i < s.len(),
    ensures
        pool_get(pool_insert_all(Seq::empty(), s), digest_of(s[i])) == Some(s[i]),
    decreases s.len(),
{
    let front = s.drop_last();
    let prev = pool_insert_all(Seq::empty(), front);
    let d = digest_of(s[i]);
    assert(distinct(Seq::<Seq<u8>>::empty()));
    lemma_pool_insert_all(Seq::empty(), front);
    lemma_pool_insert(prev, s.last());
    assert forall|a: int, b: int|
        #![trigger front[a], front[b]]
        0 <= a < front.len() && 0 <= b < front.len() && digest_of(front[a]) == digest_of(
            front[b],
        ) implies front[a] == front[b] by {
        assert(front[a] == s[a] && front[b] == s[b]);
    }
    if i < front.len() {
        assert(front[i] == s[i]);
        lemma_pool_returns(front, i);
        assert(pool_has(prev, d));
    } else if pool_has(prev, d) {
        let k = choose|k: int| 0 <= k < front.len() && digest_of(#[trigger] front[k]) == d;
        assert(front[k] == s[k]);
        assert(s[k] == s[i]);
        lemma_pool_returns(front, k);
    }
}

/// Every layer that was appended is in the archive under the digest by which
/// the manifest refers to it, byte for byte, as long as no two contents of
/// the archive collide.
pub proof fn lemma_layers_kept(b: BuilderView, manifest_json: Seq<u8>, i: int)
    requires
        collision_free(b.layers.push(b.config_bytes()).push(manifest_json)),
        0 <= i < b.layers.len(),
    ensures
        pool_get(b.blobs(manifest_json), b.manifest().layers[i].digest) == Some(b.layers[i]),
{
    let every = b.layers.push(b.config_bytes()).push(manifest_json);
    assert forall|x: int, y: int|
        #![trigger b.layers[x], b.layers[y]]
        0 <= x < b.layers.len() && 0 <= y < b.layers.len() && digest_of(b.layers[x]) == digest_of(
            b.layers[y],
        ) implies b.layers[x] == b.layers[y] by {
        assert(every[x] == b.layers[x] && every[y] == b.layers[y]);
    }
    lemma_pool_returns(b.layers, i);
    let layers = b.layer_blobs();
    assert(distinct(Seq::<Seq<u8>>::empty()));
    lemma_pool_insert_all(Seq::empty(), b.layers);
    lemma_pool_insert(layers, b.config_bytes());
    lemma_pool_insert(pool_insert(layers, b.config_bytes()), manifest_json);
    assert(pool_has(layers, digest_of(b.layers[i])));
    assert(pool_has(pool_insert(layers, b.config_bytes()), digest_of(b.layers[i])));
}

/// The blob of the empty configuration.
fn empty_blob() -> (b: Blob)
    ensures
        b@ == empty_config(),
{
    let mut empty: Vec<u8> = Vec::new();
    empty.push(123u8);
    empty.push(125u8);
    assert(empty@ =~= empty_config());
    Blob::new(empty)
}

/// The builder of one image.
pub struct Builder {
    name: Option<ImageName>,
    config: Option<Blob>,
    layers: Vec<Descriptor>,
    pool: BlobPool,
    contents: Ghost<Seq<Seq<u8>>>,
}

impl View for Builder {
    type V = BuilderView;

    closed spec fn view(&self) -> BuilderView {
        BuilderView {
            name: match self.name {
                Some(n) => Some(n@),
                None => None,
            },
            config: match self.config {
                Some(c) => Some(c@),
                None => None,
            },
            layers: self.contents@,
        }
    }
}

impl Builder {
    /// The descriptors and the pool agree with the contents that were
    /// appended.
    pub closed spec fn wf(&self) -> bool {
        &&& descriptor_views(self.layers@) == layer_descriptors(self.contents@)
        &&& self.pool@ == pool_insert_all(Seq::empty(), self.contents@)
    }

    /// A builder without name, configuration or layers.
    pub fn new() -> (b: Builder)
        ensures
            b.wf(),
            b@ == (BuilderView { name: None, config: None, layers: Seq::empty() }),
    {
        let b = Builder {
            name: None,
            config: None,
            layers: Vec::new(),
            pool: BlobPool::new(),
            contents: Ghost(Seq::empty()),
        };
        assert(descriptor_views(b.layers@) =~= layer_descriptors(b.contents@));
        b
    }

    /// Sets the name under which the index will list the image.
    pub fn set_name(&mut self, name: ImageName)
        requires
            old(self).wf(),
        ensures
            final(self).wf(),
            final(self)@ == (BuilderView { name: Some(name@), ..old(self)@ }),
    {
        self.name = Some(name);
    }

    /// Sets the configuration of the image.
    pub fn append_config(&mut self, config_json: Vec<u8>)
        requires
            old(self).wf(),
        ensures
            final(self).wf(),
            final(self)@ == (BuilderView { config: Some(config_json@), ..old(self)@ }),
    {
        self.config = Some(Blob::new(config_json));
    }

    /// Appends a layer with the content `data`, and returns its descriptor.
    /// The content joins the blobs unless an earlier layer had the same.
    pub fn append_layer(&mut self, data: Vec<u8>) -> (d: Descriptor)
        requires
            old(self).wf(),
        ensures
            final(self).wf(),
            final(self)@ == (BuilderView {
                layers: old(self)@.layers.push(data@),
                ..old(self)@
            }),
            d@ == layer_descriptor(data@),
    {
        let ghost before_layers = descriptor_views(self.layers@);
        let ghost before_contents = self.contents@;
        let blob = Blob::new(data);
        let d = Descriptor::of(MEDIA_TYPE_LAYER, &blob);
        let copy = d.clone();
        proof {
            let t = before_contents.push(data@);
            assert(t.drop_last() =~= before_contents);
            assert(t.last() == data@);
        }
        self.pool.insert_blob(blob);
        self.layers.push(copy);
        self.contents = Ghost(before_contents.push(data@));
        assert(descriptor_views(self.layers@) =~= before_layers.push(d@));
        assert(layer_descriptors(self.contents@) =~= layer_descriptors(before_contents).push(
            layer_descriptor(data@),
        ));
        d
    }

    /// The number of layers that were appended.
    pub fn layer_count(&self) -> (n: usize)
        requires
            self.wf(),
        ensures
            n == self@.layers.len(),
    {
        assert(descriptor_views(self.layers@).len() == layer_descriptors(
            self.contents@,
        ).len());
        self.layers.len()
    }

    /// The manifest of the image as it stands.
    pub fn manifest(&self) -> (m: Manifest)
        requires
            self.wf(),
        ensures
            m@ == self@.manifest(),
    {
        let config = match &self.config {
            Some(c) => Descriptor::of(MEDIA_TYPE_CONFIG, c),
            None => Descriptor::of(MEDIA_TYPE_EMPTY, &empty_blob()),
        };
        let layers = self.layers.clone();
        assert(descriptor_views(layers@)
            =~= descriptor_views(self.layers@));
        Manifest::new(config, layers)
    }

    /// Ends the building: given the bytes of the manifest and a name to use
    /// if none was set, yields the index and the blobs of the archive.
    pub fn finish(self, manifest_json: Vec<u8>, fallback: ImageName) -> (r: (Index, BlobPool))
        requires
            self.wf(),
        ensures
            r.0@ == self@.index(manifest_json@, fallback@),
            r.1@ == self@.blobs(manifest_json@),
    {
        let Builder { name, config, layers, pool, contents } = self;
        let mut pool = pool;
        let config = match config {
            Some(c) => c,
            None => empty_blob(),
        };
        pool.insert_blob(config);
        let manifest = Blob::new(manifest_json);
        let entry = Descriptor::of(MEDIA_TYPE_MANIFEST, &manifest);
        pool.insert_blob(manifest);
        let name = match name {
            Some(n) => n,
            None => fallback,
        };
        (Index::single(entry, &name), pool)
    }
}

} // verus!
