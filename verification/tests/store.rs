use ocipkg::blob::Blob;
use ocipkg::descriptor::{Descriptor, Manifest, MEDIA_TYPE_CONFIG, MEDIA_TYPE_LAYER};
use ocipkg::digest::Digest;
use ocipkg::error::Error;
use ocipkg::image_name::ImageName;
use ocipkg::local::{image_dir, image_name_of_dir, FileOp, Store};

fn manifest_of(config: &[u8], layers: &[&[u8]]) -> Manifest {
    Manifest::new(
        Descriptor::of_blob(MEDIA_TYPE_CONFIG, config),
        layers.iter().map(|l| Descriptor::of_blob(MEDIA_TYPE_LAYER, l)).collect(),
    )
}

fn blobs_of(contents: &[&[u8]]) -> Vec<Blob> {
    contents.iter().map(|c| Blob::new(c.to_vec())).collect()
}

#[test]
fn store_starts_empty() {
    let store = Store::new();
    let name = ImageName::parse("ghcr.io/a/b:v1").unwrap();
    assert_eq!(store.get(&name), Err(Error::NotFound));
    assert_eq!(store.manifest_digest(&name), Err(Error::NotFound));
    assert!(store.list().is_empty());
    assert_eq!(store.pool().len(), 0);
}

#[test]
fn store_returns_what_was_inserted() {
    let mut store = Store::new();
    let name = ImageName::parse("ghcr.io/a/b:v1").unwrap();
    let manifest = manifest_of(b"{}", &[b"one", b"two"]);
    let r = store.insert(
        name.clone(),
        manifest.clone(),
        Blob::new(b"manifest".to_vec()),
        blobs_of(&[b"{}", b"one", b"two"]),
    );
    assert_eq!(r, Ok(()));
    assert_eq!(store.get(&name), Ok(&manifest));
    assert_eq!(store.manifest_digest(&name), Ok(&Digest::of_bytes(b"manifest")));
    assert_eq!(store.list(), vec![name]);
    assert_eq!(store.pool().len(), 4);
    assert_eq!(store.blob(&Digest::of_bytes(b"one")).unwrap().data(), &b"one".to_vec());
    assert!(store.contains_blob(&Digest::of_bytes(b"manifest")));
    assert!(!store.contains_blob(&Digest::of_bytes(b"three")));
}

#[test]
fn store_refuses_a_dangling_reference() {
    let mut store = Store::new();
    let first = ImageName::parse("ghcr.io/a/b:v1").unwrap();
    store
        .insert(
            first.clone(),
            manifest_of(b"{}", &[b"one"]),
            Blob::new(b"m1".to_vec()),
            blobs_of(&[b"{}", b"one"]),
        )
        .unwrap();
    let before = store.list();
    let second = ImageName::parse("ghcr.io/a/b:v2").unwrap();
    let r = store.insert(
        second.clone(),
        manifest_of(b"{}", &[b"one", b"two"]),
        Blob::new(b"m2".to_vec()),
        blobs_of(&[b"three"]),
    );
    assert_eq!(r, Err(Error::NotFound));
    assert_eq!(store.get(&second), Err(Error::NotFound));
    assert_eq!(store.list(), before);
    assert_eq!(store.pool().len(), 3);
    assert!(!store.contains_blob(&Digest::of_bytes(b"three")));
    assert!(!store.contains_blob(&Digest::of_bytes(b"m2")));
}

#[test]
fn store_shares_blobs_between_images() {
    let mut store = Store::new();
    let first = ImageName::parse("ghcr.io/a/b:v1").unwrap();
    let second = ImageName::parse("ghcr.io/a/b:v2").unwrap();
    store
        .insert(
            first,
            manifest_of(b"{}", &[b"one"]),
            Blob::new(b"m1".to_vec()),
            blobs_of(&[b"{}", b"one"]),
        )
        .unwrap();
    let r = store.insert(
        second.clone(),
        manifest_of(b"{}", &[b"one", b"two"]),
        Blob::new(b"m2".to_vec()),
        blobs_of(&[b"two"]),
    );
    assert_eq!(r, Ok(()));
    assert_eq!(store.pool().len(), 5);
    assert_eq!(store.get(&second).unwrap().layers.len(), 2);
}

#[test]
fn store_lets_the_last_writer_win() {
    let mut store = Store::new();
    let name = ImageName::parse("ghcr.io/a/b:v1").unwrap();
    let old = manifest_of(b"{}", &[b"one"]);
    let new = manifest_of(b"{}", &[b"two"]);
    store
        .insert(name.clone(), old, Blob::new(b"m1".to_vec()), blobs_of(&[b"{}", b"one"]))
        .unwrap();
    store
        .insert(name.clone(), new.clone(), Blob::new(b"m2".to_vec()), blobs_of(&[b"two"]))
        .unwrap();
    assert_eq!(store.get(&name), Ok(&new));
    assert_eq!(store.manifest_digest(&name), Ok(&Digest::of_bytes(b"m2")));
    assert_eq!(store.list(), vec![name]);
    assert!(store.contains_blob(&Digest::of_bytes(b"one")));
}

#[test]
fn store_entries_of_different_names_do_not_interfere() {
    let a = ImageName::parse("ghcr.io/a/a:v1").unwrap();
    let b = ImageName::parse("ghcr.io/b/b:v1").unwrap();
    let ma = manifest_of(b"{}", &[b"shared", b"only a"]);
    let mb = manifest_of(b"{}", &[b"shared", b"only b"]);
    let insert_a = |s: &mut Store| {
        s.insert(
            a.clone(),
            ma.clone(),
            Blob::new(b"ma".to_vec()),
            blobs_of(&[b"{}", b"shared", b"only a"]),
        )
    };
    let insert_b = |s: &mut Store| {
        s.insert(
            b.clone(),
            mb.clone(),
            Blob::new(b"mb".to_vec()),
            blobs_of(&[b"{}", b"shared", b"only b"]),
        )
    };
    let mut ab = Store::new();
    assert_eq!(insert_a(&mut ab), Ok(()));
    assert_eq!(insert_b(&mut ab), Ok(()));
    let mut ba = Store::new();
    assert_eq!(insert_b(&mut ba), Ok(()));
    assert_eq!(insert_a(&mut ba), Ok(()));
    for store in [&ab, &ba] {
        assert_eq!(store.get(&a), Ok(&ma));
        assert_eq!(store.get(&b), Ok(&mb));
        assert_eq!(store.pool().len(), 6);
        for content in [&b"{}"[..], b"shared", b"only a", b"only b", b"ma", b"mb"] {
            assert_eq!(
                store.blob(&Digest::of_bytes(content)).unwrap().data(),
                &content.to_vec()
            );
        }
    }
    assert_eq!(ab.list(), vec![a.clone(), b.clone()]);
    assert_eq!(ba.list(), vec![b, a]);
}

#[test]
fn store_absorbs_blobs_without_touching_images() {
    let mut store = Store::new();
    store.absorb(blobs_of(&[b"one", b"two", b"one"]));
    assert_eq!(store.pool().len(), 2);
    assert!(store.list().is_empty());
}

#[test]
fn image_dir_replaces_what_filesystems_refuse() {
    let name = ImageName::parse("localhost:5000/foo/bar:v1").unwrap();
    assert_eq!(image_dir("/var/lib/ocipkg", &name), "/var/lib/ocipkg/localhost+5000/foo/bar+v1");
    let hex = "e3b0c44298fc1c149afbf4c8996fb92427ae41e4649b934ca495991b7852b855";
    let by_digest = ImageName::parse(&format!("ghcr.io/a/b@sha256:{}", hex)).unwrap();
    assert_eq!(image_dir("data", &by_digest), format!("data/ghcr.io/a/b=sha256+{}", hex));
}

#[test]
fn image_dir_is_deterministic_and_free_of_collisions() {
    let names = [
        "ghcr.io/a/b:v1",
        "ghcr.io/a/b:v2",
        "ghcr.io/a:b",
        "ghcr.io/a/b/c:v1",
        "ghcr.io:80/a/b:v1",
        "ghcr.io/a/b:v1_",
        "ghcr.io/a_b:v1",
        "ghcr.io/a/b-v1:x",
    ];
    let mut dirs: Vec<String> = Vec::new();
    for text in names {
        let name = ImageName::parse(text).unwrap();
        let dir = image_dir("root", &name);
        assert_eq!(dir, image_dir("root", &name.clone()));
        assert!(!dirs.contains(&dir), "{}", dir);
        dirs.push(dir);
    }
}

#[test]
fn image_dir_reads_back_as_the_name() {
    for text in ["ghcr.io/a/b:v1", "localhost:5000/foo/bar:v1.2-rc_3"] {
        let name = ImageName::parse(text).unwrap();
        let dir = image_dir("root", &name);
        let rel = &dir["root/".len()..];
        assert_eq!(image_name_of_dir(rel), Ok(name));
    }
    assert_eq!(image_name_of_dir("ghcr.io/a/b:v1"), Err(Error::InvalidName));
    assert_eq!(image_name_of_dir("ghcr.io/a/b"), Err(Error::InvalidName));
    assert_eq!(image_name_of_dir("ghcr.io/a@b+v1"), Err(Error::InvalidName));
    assert_eq!(image_name_of_dir(""), Err(Error::InvalidName));
}

fn write_then_rename(path: String, data: &[u8]) -> Vec<FileOp> {
    vec![
        FileOp::Write { path: format!("{}.tmp", path), data: data.to_vec() },
        FileOp::Rename { from: format!("{}.tmp", path), to: path },
    ]
}

#[test]
fn persist_plan_puts_new_blobs_then_the_manifest_in_place() {
    let mut store = Store::new();
    store.absorb(blobs_of(&[b"on disk already"]));
    let name = ImageName::parse("ghcr.io/a/b:v1").unwrap();
    store
        .insert(
            name.clone(),
            manifest_of(b"{}", &[b"one"]),
            Blob::new(b"manifest bytes".to_vec()),
            blobs_of(&[b"{}", b"one"]),
        )
        .unwrap();
    let blob = |content: &[u8]| {
        write_then_rename(
            format!("/data/blobs/sha256/{}", Digest::of_bytes(content).hex()),
            content,
        )
    };
    let mut expected = Vec::new();
    expected.extend(blob(b"{}"));
    expected.extend(blob(b"one"));
    expected.extend(blob(b"manifest bytes"));
    expected.extend(write_then_rename(
        "/data/ghcr.io/a/b+v1/image.json".to_string(),
        b"manifest bytes",
    ));
    assert_eq!(store.persist_plan("/data", &name, 1), Ok(expected));

    let all_known = store.persist_plan("/data", &name, 4).unwrap();
    assert_eq!(
        all_known,
        write_then_rename("/data/ghcr.io/a/b+v1/image.json".to_string(), b"manifest bytes")
    );
}

#[test]
fn persist_plan_of_an_unknown_image_or_pool_is_refused() {
    let mut store = Store::new();
    let name = ImageName::parse("ghcr.io/a/b:v1").unwrap();
    assert_eq!(store.persist_plan("/data", &name, 0), Err(Error::NotFound));
    store
        .insert(name.clone(), manifest_of(b"{}", &[]), Blob::new(b"m".to_vec()), blobs_of(&[b"{}"]))
        .unwrap();
    assert_eq!(store.persist_plan("/data", &name, 3), Err(Error::NotFound));
    assert!(store.persist_plan("/data", &name, 2).is_ok());
}
