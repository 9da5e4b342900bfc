use ocipkg::descriptor::{Descriptor, Manifest, MEDIA_TYPE_CONFIG, MEDIA_TYPE_LAYER};
use ocipkg::digest::Digest;
use ocipkg::distribution::pull::{Pull, PullAction};
use ocipkg::error::Error;
use ocipkg::image_name::ImageName;
use ocipkg::local::Store;

const JSON: &[u8] = b"{\"schemaVersion\":2,\"layers\":[]}";

fn manifest(layers: &[&[u8]]) -> Manifest {
    Manifest::new(
        Descriptor::of_blob(MEDIA_TYPE_CONFIG, b"{}"),
        layers.iter().map(|l| Descriptor::of_blob(MEDIA_TYPE_LAYER, l)).collect(),
    )
}

fn digest(content: &[u8]) -> Digest {
    Digest::of_bytes(content)
}

fn run(pull: &mut Pull, store: &Store, remote: &[&[u8]]) -> Vec<String> {
    let mut calls: Vec<String> = Vec::new();
    loop {
        match pull.next_action(store) {
            PullAction::GetManifest => {
                calls.push("GET manifest".to_string());
                pull.on_manifest(JSON.to_vec(), manifest(&remote[1..])).unwrap();
            }
            PullAction::GetBlob(d) => {
                calls.push(format!("GET {}", d.to_string()));
                let content = remote.iter().find(|c| digest(c) == d).unwrap();
                assert_eq!(pull.on_blob(content.to_vec()), Ok(d));
            }
            PullAction::Commit => return calls,
        }
    }
}

#[test]
fn pull_gets_manifest_then_blobs_then_commits() {
    let name = ImageName::parse("ghcr.io/a/b:v1").unwrap();
    let mut store = Store::new();
    let mut pull = Pull::new(name.clone());
    assert_eq!(pull.name(), &name);
    assert_eq!(pull.manifest(), None);
    let calls = run(&mut pull, &store, &[b"{}", b"one", b"two"]);
    assert_eq!(
        calls,
        vec![
            "GET manifest".to_string(),
            format!("GET {}", digest(b"{}").to_string()),
            format!("GET {}", digest(b"one").to_string()),
            format!("GET {}", digest(b"two").to_string()),
        ]
    );
    assert_eq!(pull.manifest(), Some(&manifest(&[b"one", b"two"])));
    assert_eq!(pull.commit(&mut store), Ok(()));
    assert_eq!(store.get(&name), Ok(&manifest(&[b"one", b"two"])));
    assert_eq!(store.manifest_digest(&name), Ok(&digest(JSON)));
    assert_eq!(store.blob(&digest(b"two")).unwrap().data(), &b"two".to_vec());
    assert_eq!(store.pool().len(), 4);
}

#[test]
fn pull_skips_blobs_that_the_store_has() {
    let mut store = Store::new();
    let mut first = Pull::new(ImageName::parse("ghcr.io/a/b:v1").unwrap());
    run(&mut first, &store, &[b"{}", b"one"]);
    first.commit(&mut store).unwrap();
    let mut second = Pull::new(ImageName::parse("ghcr.io/a/b:v2").unwrap());
    let calls = run(&mut second, &store, &[b"{}", b"one", b"two", b"one"]);
    assert_eq!(
        calls,
        vec!["GET manifest".to_string(), format!("GET {}", digest(b"two").to_string())]
    );
    assert_eq!(second.commit(&mut store), Ok(()));
    assert_eq!(store.list().len(), 2);
    assert_eq!(store.pool().len(), 4);
}

#[test]
fn pull_discards_a_blob_that_fails_verification() {
    let store = Store::new();
    let mut pull = Pull::new(ImageName::parse("ghcr.io/a/b:v1").unwrap());
    pull.on_manifest(JSON.to_vec(), manifest(&[b"one"])).unwrap();
    assert_eq!(pull.next_action(&store), PullAction::GetBlob(digest(b"{}")));
    assert_eq!(pull.on_blob(b"{ }".to_vec()), Err(Error::DigestMismatch));
    assert_eq!(pull.next_action(&store), PullAction::GetBlob(digest(b"{}")));
    assert_eq!(pull.on_blob(b"{}".to_vec()), Ok(digest(b"{}")));
    assert_eq!(pull.on_blob(b"0ne".to_vec()), Err(Error::DigestMismatch));
    assert_eq!(pull.next_action(&store), PullAction::GetBlob(digest(b"one")));
}

#[test]
fn pull_by_digest_verifies_the_manifest() {
    let good = format!("ghcr.io/a/b@{}", digest(JSON).to_string());
    let mut pull = Pull::new(ImageName::parse(&good).unwrap());
    assert_eq!(
        pull.on_manifest(b"{\"tampered\":true}".to_vec(), manifest(&[])),
        Err(Error::DigestMismatch)
    );
    assert_eq!(pull.manifest(), None);
    assert_eq!(pull.on_manifest(JSON.to_vec(), manifest(&[])), Ok(()));
    assert_eq!(pull.manifest(), Some(&manifest(&[])));
}

#[test]
fn pull_by_tag_trusts_the_manifest() {
    let mut pull = Pull::new(ImageName::parse("ghcr.io/a/b:latest").unwrap());
    assert_eq!(pull.on_manifest(b"whatever came".to_vec(), manifest(&[])), Ok(()));
    assert_eq!(
        pull.on_manifest(b"whatever came".to_vec(), manifest(&[])),
        Err(Error::ProtocolError)
    );
}

#[test]
fn pull_takes_no_blob_before_the_manifest() {
    let store = Store::new();
    let mut pull = Pull::new(ImageName::parse("ghcr.io/a/b:v1").unwrap());
    assert_eq!(pull.next_action(&store), PullAction::GetManifest);
    assert_eq!(pull.on_blob(b"{}".to_vec()), Err(Error::ProtocolError));
    assert_eq!(pull.next_action(&store), PullAction::GetManifest);
}

#[test]
fn commit_of_an_incomplete_pull_leaves_the_store_unchanged() {
    let mut store = Store::new();
    let name = ImageName::parse("ghcr.io/a/b:v1").unwrap();
    let nothing = Pull::new(name.clone());
    assert_eq!(nothing.commit(&mut store), Err(Error::ProtocolError));
    let mut partial = Pull::new(name.clone());
    partial.on_manifest(JSON.to_vec(), manifest(&[b"one"])).unwrap();
    partial.on_blob(b"{}".to_vec()).unwrap();
    assert_eq!(partial.commit(&mut store), Err(Error::NotFound));
    assert_eq!(store.get(&name), Err(Error::NotFound));
    assert_eq!(store.pool().len(), 0);
}

#[test]
fn pulls_of_two_names_give_two_independent_entries() {
    let a = ImageName::parse("ghcr.io/a/a:v1").unwrap();
    let b = ImageName::parse("ghcr.io/b/b:v1").unwrap();
    let mut store = Store::new();
    let mut pull_a = Pull::new(a.clone());
    let mut pull_b = Pull::new(b.clone());
    // Both run against the same store before either commits.
    run(&mut pull_a, &store, &[b"{}", b"shared", b"only a"]);
    run(&mut pull_b, &store, &[b"{}", b"shared", b"only b"]);
    assert_eq!(pull_b.commit(&mut store), Ok(()));
    assert_eq!(pull_a.commit(&mut store), Ok(()));
    assert_eq!(store.get(&a), Ok(&manifest(&[b"shared", b"only a"])));
    assert_eq!(store.get(&b), Ok(&manifest(&[b"shared", b"only b"])));
    assert_eq!(store.list(), vec![b, a]);
    assert_eq!(store.pool().len(), 5);
}

#[test]
fn missing_blobs_may_be_fetched_in_any_order() {
    let mut store = Store::new();
    let mut earlier = Pull::new(ImageName::parse("ghcr.io/a/b:v0").unwrap());
    run(&mut earlier, &store, &[b"{}", b"zero"]);
    earlier.commit(&mut store).unwrap();

    let mut pull = Pull::new(ImageName::parse("ghcr.io/a/b:v1").unwrap());
    assert!(pull.missing(&store).is_empty());
    pull.on_manifest(JSON.to_vec(), manifest(&[b"zero", b"one", b"two"])).unwrap();
    assert_eq!(pull.missing(&store), vec![digest(b"one"), digest(b"two")]);
    assert_eq!(pull.on_blob(b"two".to_vec()), Ok(digest(b"two")));
    assert_eq!(pull.missing(&store), vec![digest(b"one")]);
    assert_eq!(pull.on_blob(b"one".to_vec()), Ok(digest(b"one")));
    assert!(pull.missing(&store).is_empty());
    assert_eq!(pull.next_action(&store), PullAction::Commit);
}
