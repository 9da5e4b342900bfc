//! Descriptors, manifests and indexes: the documents that say which blobs make
//! up an image, without holding any blob.

use crate::blob::Blob;
use crate::digest::{digest_of, digest_views, Digest, DigestView};
use crate::error::Error;
use crate::image_name::{lemma_parse_complete, parse_spec, ImageName, ImageNameView};
use crate::search::{any, first, lemma_first_from_is, lemma_first_push};
use crate::text::str_eq;
use vstd::prelude::*;

verus! {

/// The media type of an image manifest.
pub const MEDIA_TYPE_MANIFEST: &'static str = "application/vnd.oci.image.manifest.v1+json";

/// The media type of an image configuration.
pub const MEDIA_TYPE_CONFIG: &'static str = "application/vnd.oci.image.config.v1+json";

/// The media type of the empty configuration `{}`.
pub const MEDIA_TYPE_EMPTY: &'static str = "application/vnd.oci.empty.v1+json";

/// The media type of a layer: a gzip-compressed tar stream.
pub const MEDIA_TYPE_LAYER: &'static str = "application/vnd.oci.image.layer.v1.tar+gzip";

/// The media type of an image index.
pub const MEDIA_TYPE_INDEX: &'static str = "application/vnd.oci.image.index.v1+json";

/// The annotation under which an index entry carries the name of its image.
pub const REF_NAME: &'static str = "org.opencontainers.image.ref.name";

/// The schema version of manifests and indexes.
pub const SCHEMA_VERSION: u32 = 2;

/// What an annotation is.
pub struct AnnotationView {
    pub key: Seq<char>,
    pub value: Seq<char>,
}

/// One entry of the annotations of a document.
#[derive(Debug, PartialEq, Eq)]
pub struct Annotation {
    pub key: String,
    pub value: String,
}

impl View for Annotation {
    type V = AnnotationView;

    open spec fn view(&self) -> AnnotationView {
        AnnotationView { key: self.key@, value: self.value@ }
    }
}

impl Clone for Annotation {
    fn clone(&self) -> (a: Self)
        ensures
            a@ == self@,
    {
        Annotation { key: self.key.clone(), value: self.value.clone() }
    }
}

/// The views of a sequence of annotations.
pub open spec fn annotation_views(s: Seq<Annotation>) -> Seq<AnnotationView> {
    s.map_values(|a: Annotation| a@)
}

/// The predicate "has the key `key`".
pub open spec fn has_key(key: Seq<char>) -> spec_fn(AnnotationView) -> bool {
    |a: AnnotationView| a.key == key
}

/// The value of the first annotation with the key `key`.
pub open spec fn annotation_of(s: Seq<AnnotationView>, key: Seq<char>) -> Option<Seq<char>> {
    if any(s, has_key(key)) {
        Some(s[first(s, has_key(key))].value)
    } else {
        None
    }
}

/// What a descriptor is.
pub struct DescriptorView {
    pub media_type: Seq<char>,
    pub digest: DigestView,
    pub size: u64,
    pub annotations: Seq<AnnotationView>,
}

/// A pointer to a blob: its type, its digest and its size.
#[derive(Debug, PartialEq, Eq)]
pub struct Descriptor {
    pub media_type: String,
    pub digest: Digest,
    pub size: u64,
    pub annotations: Vec<Annotation>,
}

impl View for Descriptor {
    type V = DescriptorView;

    open spec fn view(&self) -> DescriptorView {
        DescriptorView {
            media_type: self.media_type@,
            digest: self.digest@,
            size: self.size,
            annotations: annotation_views(self.annotations@),
        }
    }
}

impl Clone for Descriptor {
    fn clone(&self) -> (d: Self)
        ensures
            d@ == self@,
    {
        let annotations = self.annotations.clone();
        assert(annotation_views(annotations@) =~= annotation_views(self.annotations@));
        Descriptor {
            media_type: self.media_type.clone(),
            digest: self.digest.clone(),
            size: self.size,
            annotations,
        }
    }
}

/// The views of a sequence of descriptors.
pub open spec fn descriptor_views(s: Seq<Descriptor>) -> Seq<DescriptorView> {
    s.map_values(|d: Descriptor| d@)
}

/// The digests that a sequence of descriptors points to, in order.
pub open spec fn digests_of(s: Seq<DescriptorView>) -> Seq<DigestView> {
    s.map_values(|d: DescriptorView| d.digest)
}

impl Descriptor {
    /// The descriptor of the blob `data` with the given media type, without
    /// annotations.
    pub fn of_blob(media_type: &str, data: &[u8]) -> (d: Descriptor)
        ensures
            d@ == (DescriptorView {
                media_type: media_type@,
                digest: digest_of(data@),
                size: data@.len() as u64,
                annotations: Seq::empty(),
            }),
    {
        let n = data.len();
        assert(n <= u64::MAX);
        let d = Descriptor {
            media_type: media_type.to_owned(),
            digest: Digest::of_bytes(data),
            size: n as u64,
            annotations: Vec::new(),
        };
        assert(d@.annotations =~= Seq::empty());
        d
    }

    /// The descriptor of `blob` with the given media type, without
    /// annotations. The blob is not hashed again.
    pub fn of(media_type: &str, blob: &Blob) -> (d: Descriptor)
        ensures
            d@ == (DescriptorView {
                media_type: media_type@,
                digest: digest_of(blob@),
                size: blob@.len() as u64,
                annotations: Seq::empty(),
            }),
    {
        let n = blob.size();
        assert(n <= u64::MAX);
        let d = Descriptor {
            media_type: media_type.to_owned(),
            digest: blob.digest().clone(),
            size: n as u64,
            annotations: Vec::new(),
        };
        assert(d@.annotations =~= Seq::empty());
        d
    }

    /// The value of the first annotation with the key `key`.
    pub fn annotation(&self, key: &str) -> (r: Option<&str>)
        ensures
            r is Some <==> annotation_of(self@.annotations, key@) is Some,
            r matches Some(v) ==> annotation_of(self@.annotations, key@) == Some(v@),
    {
        let ghost s = self@.annotations;
        let mut k: usize = 0;
        let mut found = false;
        while !found && k < self.annotations.len()
            invariant
                0 <= k <= s.len(),
                s == annotation_views(self.annotations@),
                forall|i: int| 0 <= i < k ==> !has_key(key@)(#[trigger] s[i]),
                found ==> k < s.len() && has_key(key@)(s[k as int]),
            decreases s.len() - k + (if found { 0int } else { 1int }),
        {
            if str_eq(self.annotations[k].key.as_str(), key) {
                found = true;
            } else {
                k += 1;
            }
        }
        proof {
            lemma_first_from_is(s, has_key(key@), 0, k as int);
        }
        if found {
            Some(self.annotations[k].value.as_str())
        } else {
            None
        }
    }

    /// Adds an annotation behind those that are there.
    pub fn annotate(&mut self, key: &str, value: &str)
        ensures
            final(self)@ == (DescriptorView {
                annotations: old(self)@.annotations.push(
                    AnnotationView { key: key@, value: value@ },
                ),
                ..old(self)@
            }),
    {
        self.annotations.push(Annotation { key: key.to_owned(), value: value.to_owned() });
        assert(final(self)@.annotations =~= old(self)@.annotations.push(
            AnnotationView { key: key@, value: value@ },
        ));
    }
}

/// What a manifest is.
pub struct ManifestView {
    pub schema_version: u32,
    pub media_type: Seq<char>,
    pub config: DescriptorView,
    pub layers: Seq<DescriptorView>,
    pub annotations: Seq<AnnotationView>,
}

impl ManifestView {
    /// The digests of the blobs that the manifest refers to: the
    /// configuration, then the layers in their order.
    pub open spec fn references(self) -> Seq<DigestView> {
        seq![self.config.digest] + digests_of(self.layers)
    }
}

/// One image: its configuration and its layers, later layers over earlier
/// ones.
#[derive(Debug, PartialEq, Eq)]
pub struct Manifest {
    pub schema_version: u32,
    pub media_type: String,
    pub config: Descriptor,
    pub layers: Vec<Descriptor>,
    pub annotations: Vec<Annotation>,
}

impl View for Manifest {
    type V = ManifestView;

    open spec fn view(&self) -> ManifestView {
        ManifestView {
            schema_version: self.schema_version,
            media_type: self.media_type@,
            config: self.config@,
            layers: descriptor_views(self.layers@),
            annotations: annotation_views(self.annotations@),
        }
    }
}

impl Clone for Manifest {
    fn clone(&self) -> (m: Self)
        ensures
            m@ == self@,
    {
        let layers = self.layers.clone();
        let annotations = self.annotations.clone();
        assert(descriptor_views(layers@) =~= descriptor_views(self.layers@));
        assert(annotation_views(annotations@) =~= annotation_views(self.annotations@));
        Manifest {
            schema_version: self.schema_version,
            media_type: self.media_type.clone(),
            config: self.config.clone(),
            layers,
            annotations,
        }
    }
}

impl Manifest {
    /// The manifest of an image with the given configuration and layers.
    pub fn new(config: Descriptor, layers: Vec<Descriptor>) -> (m: Manifest)
        ensures
            m@ == (ManifestView {
                schema_version: SCHEMA_VERSION,
                media_type: MEDIA_TYPE_MANIFEST@,
                config: config@,
                layers: descriptor_views(layers@),
                annotations: Seq::empty(),
            }),
    {
        let m = Manifest {
            schema_version: SCHEMA_VERSION,
            media_type: MEDIA_TYPE_MANIFEST.to_owned(),
            config,
            layers,
            annotations: Vec::new(),
        };
        assert(m@.annotations =~= Seq::empty());
        m
    }

    /// The digests of the blobs that the manifest refers to: the
    /// configuration, then the layers in their order.
    pub fn references(&self) -> (r: Vec<Digest>)
        ensures
            digest_views(r@) == self@.references(),
    {
        let mut r: Vec<Digest> = Vec::new();
        r.push(self.config.digest.clone());
        let mut i: usize = 0;
        while i < self.layers.len()
            invariant
                0 <= i <= self.layers@.len(),
                r@.len() == i + 1,
                r@[0]@ == self@.config.digest,
                forall|j: int| 0 <= j < i ==> (#[trigger] r@[j + 1])@ == self.layers@[j]@.digest,
            decreases self.layers@.len() - i,
        {
            r.push(self.layers[i].digest.clone());
            i += 1;
        }
        assert(digest_views(r@) =~= self@.references()) by {
            assert forall|j: int| 0 <= j < r@.len() implies digest_views(r@)[j]
                == self@.references()[j] by {
                if j > 0 {
                    assert(r@[(j - 1) + 1]@ == self.layers@[j - 1]@.digest);
                }
            }
        }
        r
    }
}

/// What an index is.
pub struct IndexView {
    pub schema_version: u32,
    pub manifests: Seq<DescriptorView>,
}

/// The name that an index entry carries, if it carries a well-formed one.
pub open spec fn entry_name(d: DescriptorView) -> Option<ImageNameView> {
    match annotation_of(d.annotations, REF_NAME@) {
        Some(t) => parse_spec(t),
        None => None,
    }
}

/// The root of an archive: the manifests that it holds, each named by an
/// annotation.
#[derive(Debug, PartialEq, Eq)]
pub struct Index {
    pub schema_version: u32,
    pub manifests: Vec<Descriptor>,
}

impl View for Index {
    type V = IndexView;

    open spec fn view(&self) -> IndexView {
        IndexView {
            schema_version: self.schema_version,
            manifests: descriptor_views(self.manifests@),
        }
    }
}

impl Clone for Index {
    fn clone(&self) -> (x: Self)
        ensures
            x@ == self@,
    {
        let manifests = self.manifests.clone();
        assert(descriptor_views(manifests@) =~= descriptor_views(self.manifests@));
        Index { schema_version: self.schema_version, manifests }
    }
}

/// The entry of an index for the manifest `manifest`, named `name`.
pub open spec fn named_entry(manifest: DescriptorView, name: ImageNameView) -> DescriptorView {
    DescriptorView {
        annotations: manifest.annotations.push(
            AnnotationView { key: REF_NAME@, value: name.text() },
        ),
        ..manifest
    }
}

impl Index {
    /// The index with one entry: the manifest `manifest` under the name
    /// `name`.
    pub fn single(manifest: Descriptor, name: &ImageName) -> (x: Index)
        ensures
            x@ == (IndexView {
                schema_version: SCHEMA_VERSION,
                manifests: seq![named_entry(manifest@, name@)],
            }),
    {
        let mut entry = manifest;
        let text = name.to_string();
        entry.annotate(REF_NAME, text.as_str());
        let mut manifests: Vec<Descriptor> = Vec::new();
        manifests.push(entry);
        let x = Index { schema_version: SCHEMA_VERSION, manifests };
        assert(x@.manifests =~= seq![named_entry(manifest@, name@)]);
        x
    }

    /// The name of the image that the entry `entry` describes.
    pub fn name_of(entry: &Descriptor) -> (r: Result<ImageName, Error>)
        ensures
            r matches Ok(n) ==> entry_name(entry@) == Some(n@),
            r matches Err(e) ==> e == Error::InvalidName && entry_name(entry@) is None,
    {
        match entry.annotation(REF_NAME) {
            Some(text) => ImageName::parse(text),
            None => Err(Error::InvalidName),
        }
    }
}

/// The entry that `Index::single` writes carries the name it was given,
/// provided the manifest's descriptor had no name before.
pub proof fn lemma_named_entry(manifest: DescriptorView, name: ImageNameView)
    requires
        name.wf(),
        annotation_of(manifest.annotations, REF_NAME@) is None,
    ensures
        entry_name(named_entry(manifest, name)) == Some(name),
        named_entry(manifest, name).digest == manifest.digest,
{
    let a = AnnotationView { key: REF_NAME@, value: name.text() };
    lemma_first_push(manifest.annotations, has_key(REF_NAME@), a);
    assert(has_key(REF_NAME@)(a));
    lemma_parse_complete(name);
}

} // verus!
