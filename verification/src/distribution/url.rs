//! The addresses of the registry protocol.

use crate::digest::{Digest, DigestView};
use crate::image_name::{ImageName, ImageNameView};
use crate::text::{chars_of, find_any, index_of, slice_of, str_eq, string_from};
use vstd::prelude::*;

verus! {

/// How to reach a registry.
#[derive(Debug, Clone, Copy, PartialEq, Eq, Hash, Structural)]
pub enum Scheme {
    Https,
    Http,
}

impl Scheme {
    /// The beginning of an address with this scheme.
    pub open spec fn prefix(self) -> Seq<char> {
        match self {
            Scheme::Https => "https://"@,
            Scheme::Http => "http://"@,
        }
    }

    fn prefix_str(&self) -> (s: &'static str)
        ensures
            s@ == self.prefix(),
    {
        match self {
            Scheme::Https => "https://",
            Scheme::Http => "http://",
        }
    }
}

/// The host of a registry: what stands before its `:`, if it has one.
pub open spec fn host_of(registry: Seq<char>) -> Seq<char> {
    registry.subrange(0, index_of(registry, ':', 0))
}

/// How a registry is reached: one on this machine, `localhost` or
/// `127.0.0.1`, without encryption, any other with it.
pub open spec fn scheme_of(registry: Seq<char>) -> Scheme {
    if host_of(registry) == "localhost"@ || host_of(registry) == "127.0.0.1"@ {
        Scheme::Http
    } else {
        Scheme::Https
    }
}

/// The address of the registry itself: the scheme and the registry.
pub open spec fn origin_of(scheme: Scheme, name: ImageNameView) -> Seq<char> {
    scheme.prefix() + name.registry
}

/// The full address of a location that the registry named: a location that
/// begins with `/` is meant below the registry; any other is full already.
pub open spec fn resolved(origin: Seq<char>, location: Seq<char>) -> Seq<char> {
    if location.len() > 0 && location[0] == '/' {
        origin + location
    } else {
        location
    }
}

/// The address of the repository of `name`: the scheme, the registry, `/v2/`
/// and the repository.
pub open spec fn repository_url_of(scheme: Scheme, name: ImageNameView) -> Seq<char> {
    scheme.prefix() + name.registry + "/v2/"@ + name.repository
}

/// The address of the blob with digest `d`.
pub open spec fn blob_url_of(scheme: Scheme, name: ImageNameView, d: DigestView) -> Seq<char> {
    repository_url_of(scheme, name) + "/blobs/"@ + d.text()
}

/// The address at which an upload is opened.
pub open spec fn upload_url_of(scheme: Scheme, name: ImageNameView) -> Seq<char> {
    repository_url_of(scheme, name) + "/blobs/uploads/"@
}

/// The address of the manifest that `name` refers to, by its tag or digest.
pub open spec fn manifest_url_of(scheme: Scheme, name: ImageNameView) -> Seq<char> {
    repository_url_of(scheme, name) + "/manifests/"@ + name.reference.text()
}

/// The address that ends an upload: the location that the registry named,
/// with the digest of the blob as the parameter `digest`, behind `?`, or
/// behind `&` where the location has a `?` already.
pub open spec fn finish_url_of(location: Seq<char>, d: DigestView) -> Seq<char> {
    location + (if index_of(location, '?', 0) < location.len() {
        seq!['&']
    } else {
        seq!['?']
    }) + "digest="@ + d.text()
}

/// How the registry of `name` is reached.
pub fn scheme_for(name: &ImageName) -> (s: Scheme)
    ensures
        s == scheme_of(name@.registry),
{
    let v = chars_of(name.registry());
    let k = find_any(&v, ':', ':', 0);
    let host = string_from(&slice_of(&v, 0, k));
    if str_eq(host.as_str(), "localhost") || str_eq(host.as_str(), "127.0.0.1") {
        Scheme::Http
    } else {
        Scheme::Https
    }
}

/// The address of the registry of `name`.
pub fn origin(scheme: Scheme, name: &ImageName) -> (url: String)
    ensures
        url@ == origin_of(scheme, name@),
{
    let mut url = scheme.prefix_str().to_owned();
    url.append(name.registry());
    url
}

/// The full address of the location `location` that the registry at
/// `origin` named.
pub fn resolve(origin: &str, location: &str) -> (url: String)
    ensures
        url@ == resolved(origin@, location@),
{
    let v = chars_of(location);
    if v.len() > 0 && v[0] == '/' {
        let mut url = origin.to_owned();
        url.append(location);
        url
    } else {
        location.to_owned()
    }
}

/// The address of the repository of `name`.
pub fn repository_url(scheme: Scheme, name: &ImageName) -> (url: String)
    ensures
        url@ == repository_url_of(scheme, name@),
{
    let mut url = scheme.prefix_str().to_owned();
    url.append(name.registry());
    url.append("/v2/");
    url.append(name.repository());
    url
}

/// The address of the blob with digest `d` in the repository of `name`.
pub fn blob_url(scheme: Scheme, name: &ImageName, d: &Digest) -> (url: String)
    ensures
        url@ == blob_url_of(scheme, name@, d@),
{
    let mut url = repository_url(scheme, name);
    url.append("/blobs/");
    let text = d.to_string();
    url.append(text.as_str());
    url
}

/// The address at which an upload to the repository of `name` is opened.
pub fn upload_url(scheme: Scheme, name: &ImageName) -> (url: String)
    ensures
        url@ == upload_url_of(scheme, name@),
{
    let mut url = repository_url(scheme, name);
    url.append("/blobs/uploads/");
    url
}

/// The address of the manifest that `name` refers to.
pub fn manifest_url(scheme: Scheme, name: &ImageName) -> (url: String)
    ensures
        url@ == manifest_url_of(scheme, name@),
{
    let mut url = repository_url(scheme, name);
    url.append("/manifests/");
    let text = name.reference().to_string();
    url.append(text.as_str());
    url
}

/// The address that ends the upload of the blob with digest `d` in the
/// session at `location`.
pub fn finish_url(location: &str, d: &Digest) -> (url: String)
    ensures
        url@ == finish_url_of(location@, d@),
{
    let v = chars_of(location);
    let k = find_any(&v, '?', '?', 0);
    let mut url = location.to_owned();
    if k < v.len() {
        url.push('&');
    } else {
        url.push('?');
    }
    url.append("digest=");
    let text = d.to_string();
    url.append(text.as_str());
    url
}

} // verus!
