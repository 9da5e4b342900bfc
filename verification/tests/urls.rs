use ocipkg::digest::Digest;
use ocipkg::distribution::url::{
    blob_url, finish_url, manifest_url, origin, repository_url, resolve, scheme_for, upload_url,
    Scheme,
};
use ocipkg::image_name::ImageName;

const HEX: &str = "ba7816bf8f01cfea414140de5dae2223b00361a396177a9cb410ff61f20015ad";

#[test]
fn addresses_of_a_repository() {
    let name = ImageName::parse("ghcr.io/termoshtt/ocipkg:v1").unwrap();
    let d = Digest::of_bytes(b"abc");
    assert_eq!(repository_url(Scheme::Https, &name), "https://ghcr.io/v2/termoshtt/ocipkg");
    assert_eq!(
        blob_url(Scheme::Https, &name, &d),
        format!("https://ghcr.io/v2/termoshtt/ocipkg/blobs/sha256:{}", HEX)
    );
    assert_eq!(
        upload_url(Scheme::Https, &name),
        "https://ghcr.io/v2/termoshtt/ocipkg/blobs/uploads/"
    );
    assert_eq!(
        manifest_url(Scheme::Https, &name),
        "https://ghcr.io/v2/termoshtt/ocipkg/manifests/v1"
    );
}

#[test]
fn address_of_a_manifest_by_digest() {
    let name = ImageName::parse(&format!("localhost:5000/foo@sha256:{}", HEX)).unwrap();
    assert_eq!(
        manifest_url(Scheme::Http, &name),
        format!("http://localhost:5000/v2/foo/manifests/sha256:{}", HEX)
    );
}

#[test]
fn address_that_ends_an_upload() {
    let d = Digest::of_bytes(b"abc");
    assert_eq!(
        finish_url("https://ghcr.io/v2/a/blobs/uploads/123", &d),
        format!("https://ghcr.io/v2/a/blobs/uploads/123?digest=sha256:{}", HEX)
    );
    assert_eq!(
        finish_url("/v2/a/blobs/uploads/123?_state=xyz", &d),
        format!("/v2/a/blobs/uploads/123?_state=xyz&digest=sha256:{}", HEX)
    );
}

#[test]
fn registries_on_this_machine_are_reached_without_encryption() {
    for (name, scheme) in [
        ("localhost/a:b", Scheme::Http),
        ("localhost:5000/a:b", Scheme::Http),
        ("127.0.0.1:5000/a:b", Scheme::Http),
        ("127.0.0.1/a:b", Scheme::Http),
        ("localhost.example.com/a:b", Scheme::Https),
        ("127.0.0.10/a:b", Scheme::Https),
        ("Localhost/a:b", Scheme::Https),
        ("ghcr.io/a:b", Scheme::Https),
        ("ghcr.io:443/a:b", Scheme::Https),
    ] {
        assert_eq!(scheme_for(&ImageName::parse(name).unwrap()), scheme, "{}", name);
    }
}

#[test]
fn locations_are_resolved_against_the_registry() {
    let name = ImageName::parse("localhost:5000/a:b").unwrap();
    let origin = origin(Scheme::Http, &name);
    assert_eq!(origin, "http://localhost:5000");
    assert_eq!(
        resolve(&origin, "/v2/a/blobs/uploads/1"),
        "http://localhost:5000/v2/a/blobs/uploads/1"
    );
    assert_eq!(resolve(&origin, "https://cdn.example.com/u/1"), "https://cdn.example.com/u/1");
    assert_eq!(resolve(&origin, ""), "");
    let other = ImageName::parse("ghcr.io/a:b").unwrap();
    assert_eq!(ocipkg::distribution::url::origin(Scheme::Https, &other), "https://ghcr.io");
}
