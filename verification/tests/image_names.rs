use ocipkg::digest::Digest;
use ocipkg::error::Error;
use ocipkg::image_name::{ImageName, Reference};

const HEX: &str = "e3b0c44298fc1c149afbf4c8996fb92427ae41e4649b934ca495991b7852b855";

#[test]
fn parse_registry_repository_tag() {
    let name = ImageName::parse("registry.example.com/foo/bar:v1").unwrap();
    assert_eq!(name.registry(), "registry.example.com");
    assert_eq!(name.repository(), "foo/bar");
    assert_eq!(name.reference(), &Reference::Tag("v1".to_string()));
    assert_eq!(name.to_string(), "registry.example.com/foo/bar:v1");
}

#[test]
fn parse_rejects_bad_name() {
    assert_eq!(ImageName::parse("bad name"), Err(Error::InvalidName));
}

#[test]
fn parse_registry_with_port() {
    let name = ImageName::parse("localhost:5000/test_repo:tag1").unwrap();
    assert_eq!(name.registry(), "localhost:5000");
    assert_eq!(name.repository(), "test_repo");
    assert_eq!(name.reference(), &Reference::Tag("tag1".to_string()));
}

#[test]
fn parse_digest_reference() {
    let text = format!("ghcr.io/termoshtt/ocipkg/rust-lib@sha256:{}", HEX);
    let name = ImageName::parse(&text).unwrap();
    assert_eq!(name.registry(), "ghcr.io");
    assert_eq!(name.repository(), "termoshtt/ocipkg/rust-lib");
    let digest = Digest::parse(&format!("sha256:{}", HEX)).unwrap();
    assert_eq!(name.reference(), &Reference::Digest(digest));
    assert_eq!(name.to_string(), text);
}

#[test]
fn parse_then_print_is_identity() {
    for text in [
        "registry.example.com/foo/bar:v1",
        "localhost:5000/a:b",
        "quay.io/a.b-c_d/e:1.2.3",
        "Example.COM/x/y/z:latest",
    ] {
        let name = ImageName::parse(text).unwrap();
        assert_eq!(name.to_string(), text);
        assert_eq!(ImageName::parse(&name.to_string()).unwrap(), name);
    }
}

#[test]
fn parse_rejects_malformed_names() {
    for text in [
        "",
        "ubuntu",
        "ubuntu:20.04",
        "registry.example.com/foo",
        "registry.example.com/foo:",
        "registry.example.com/:v1",
        "/foo:v1",
        "registry.example.com/Foo:v1",
        "registry.example.com/foo:V1",
        "registry.example.com/foo//bar:v1",
        "registry.example.com/foo/:v1",
        "registry.example.com//foo:v1",
        "registry.example.com/foo:v1:v2",
        "registry.example.com/foo@sha256:abc",
        "registry.example.com/foo@md5:e3b0c44298fc1c149afbf4c8996fb92427ae41e4649b934ca495991b7852b855",
        "registry_example/foo:v1",
        "localhost:/foo:v1",
        "localhost:123456/foo:v1",
        "localhost:50a0/foo:v1",
        ":5000/foo:v1",
        "registry.example.com/foo bar:v1",
    ] {
        assert_eq!(ImageName::parse(text), Err(Error::InvalidName), "{}", text);
    }
}

#[test]
fn parse_rejects_uppercase_digest() {
    let upper = HEX.to_uppercase();
    let text = format!("ghcr.io/a/b@sha256:{}", upper);
    assert_eq!(ImageName::parse(&text), Err(Error::InvalidName));
}

#[test]
fn new_checks_every_part() {
    let tag = || Reference::Tag("v1".to_string());
    let name = ImageName::new("ghcr.io", "a/b", tag()).unwrap();
    assert_eq!(name.to_string(), "ghcr.io/a/b:v1");
    assert_eq!(name, ImageName::parse("ghcr.io/a/b:v1").unwrap());
    assert_eq!(ImageName::new("ghcr.io/x", "a/b", tag()), Err(Error::InvalidName));
    assert_eq!(ImageName::new("ghcr.io", "a:b", tag()), Err(Error::InvalidName));
    assert_eq!(ImageName::new("ghcr.io", "", tag()), Err(Error::InvalidName));
    assert_eq!(
        ImageName::new("ghcr.io", "a/b", Reference::Tag("".to_string())),
        Err(Error::InvalidName)
    );
    assert_eq!(
        ImageName::new("ghcr.io", "a/b", Reference::Tag("x/y".to_string())),
        Err(Error::InvalidName)
    );
}

#[test]
fn names_compare_by_their_parts() {
    let a = ImageName::parse("ghcr.io/a/b:v1").unwrap();
    let b = ImageName::parse("ghcr.io/a/b:v2").unwrap();
    let c = ImageName::parse("ghcr.io/a/b:v1").unwrap();
    assert!(a.equals(&c));
    assert!(!a.equals(&b));
    assert!(a.clone().equals(&a));
    assert!(a.reference().equals(c.reference()));
    assert!(!a.reference().equals(b.reference()));
    assert_eq!(a.reference().to_string(), "v1");
}
