use ocipkg::blob::BlobPool;
use ocipkg::descriptor::{
    Index, Manifest, MEDIA_TYPE_CONFIG, MEDIA_TYPE_EMPTY, MEDIA_TYPE_LAYER, MEDIA_TYPE_MANIFEST,
};
use ocipkg::digest::Digest;
use ocipkg::error::Error;
use ocipkg::image::layout::{blob_path_of, parse_blob_path};
use ocipkg::image::{load, read_archive, verified_blobs, write_archive, Builder, Entry};
use ocipkg::image_name::ImageName;
use ocipkg::local::Store;

const MANIFEST_JSON: &[u8] = b"{\"schemaVersion\":2}";
const INDEX_JSON: &[u8] = b"{\"manifests\":[]}";

struct Packed {
    manifest: Manifest,
    index: Index,
    entries: Vec<Entry>,
}

fn pack(name: Option<&str>, config: Option<&[u8]>, layers: &[&[u8]]) -> Packed {
    let mut builder = Builder::new();
    if let Some(name) = name {
        builder.set_name(ImageName::parse(name).unwrap());
    }
    if let Some(config) = config {
        builder.append_config(config.to_vec());
    }
    for layer in layers {
        builder.append_layer(layer.to_vec());
    }
    let manifest = builder.manifest();
    let fallback = ImageName::parse("localhost/unnamed:fallback").unwrap();
    let (index, pool) = builder.finish(MANIFEST_JSON.to_vec(), fallback);
    let entries = write_archive(INDEX_JSON.to_vec(), &pool);
    Packed { manifest, index, entries }
}

fn copy(entries: &[Entry]) -> Vec<Entry> {
    entries.iter().map(|e| Entry { path: e.path.clone(), data: e.data.clone() }).collect()
}

#[test]
fn blob_paths_carry_the_digest() {
    let d = Digest::of_bytes(b"abc");
    let path = blob_path_of(&d);
    assert_eq!(
        path,
        "blobs/sha256/ba7816bf8f01cfea414140de5dae2223b00361a396177a9cb410ff61f20015ad"
    );
    assert_eq!(parse_blob_path(&path), Some(d));
    assert_eq!(parse_blob_path("blobs/sha256/abc"), None);
    assert_eq!(parse_blob_path("index.json"), None);
    assert_eq!(
        parse_blob_path(
            "blobs/sha512/ba7816bf8f01cfea414140de5dae2223b00361a396177a9cb410ff61f20015ad"
        ),
        None
    );
}

#[test]
fn builder_describes_layers_in_append_order() {
    let mut builder = Builder::new();
    let first = builder.append_layer(b"layer one".to_vec());
    let second = builder.append_layer(b"layer two".to_vec());
    assert_eq!(builder.layer_count(), 2);
    assert_eq!(first.media_type, MEDIA_TYPE_LAYER);
    assert_eq!(first.digest, Digest::of_bytes(b"layer one"));
    assert_eq!(first.size, 9);
    builder.append_config(b"{\"os\":\"linux\"}".to_vec());
    let manifest = builder.manifest();
    assert_eq!(manifest.layers, vec![first, second]);
    assert_eq!(manifest.config.media_type, MEDIA_TYPE_CONFIG);
    assert_eq!(manifest.config.digest, Digest::of_bytes(b"{\"os\":\"linux\"}"));
    assert_eq!(manifest.config.size, 14);
}

#[test]
fn builder_without_configuration_uses_the_empty_one() {
    let packed = pack(None, None, &[b"layer"]);
    assert_eq!(packed.manifest.config.media_type, MEDIA_TYPE_EMPTY);
    assert_eq!(packed.manifest.config.digest, Digest::of_bytes(b"{}"));
    assert_eq!(packed.manifest.config.size, 2);
    assert_eq!(
        Index::name_of(&packed.index.manifests[0]),
        Ok(ImageName::parse("localhost/unnamed:fallback").unwrap())
    );
}

#[test]
fn builder_names_the_manifest_in_the_index() {
    let packed = pack(Some("ghcr.io/a/b:v1"), Some(b"{}"), &[b"layer"]);
    assert_eq!(packed.index.manifests.len(), 1);
    let entry = &packed.index.manifests[0];
    assert_eq!(entry.media_type, MEDIA_TYPE_MANIFEST);
    assert_eq!(entry.digest, Digest::of_bytes(MANIFEST_JSON));
    assert_eq!(entry.size, MANIFEST_JSON.len() as u64);
    assert_eq!(Index::name_of(entry), Ok(ImageName::parse("ghcr.io/a/b:v1").unwrap()));
}

#[test]
fn archive_holds_marker_index_and_each_blob_once() {
    let packed = pack(Some("ghcr.io/a/b:v1"), Some(b"{}"), &[b"same", b"other", b"same"]);
    assert_eq!(packed.manifest.layers.len(), 3);
    let paths: Vec<&str> = packed.entries.iter().map(|e| e.path.as_str()).collect();
    assert_eq!(
        paths,
        vec![
            "oci-layout".to_string(),
            "index.json".to_string(),
            blob_path_of(&Digest::of_bytes(b"same")),
            blob_path_of(&Digest::of_bytes(b"other")),
            blob_path_of(&Digest::of_bytes(b"{}")),
            blob_path_of(&Digest::of_bytes(MANIFEST_JSON)),
        ]
    );
    assert_eq!(packed.entries[0].data, b"{\"imageLayoutVersion\":\"1.0.0\"}".to_vec());
    assert_eq!(packed.entries[1].data, INDEX_JSON.to_vec());
    assert_eq!(packed.entries[2].data, b"same".to_vec());
}

#[test]
fn repacking_the_same_content_gives_the_same_digests() {
    let first = pack(Some("ghcr.io/a/b:v1"), Some(b"{}"), &[b"one", b"two"]);
    let second = pack(Some("ghcr.io/other/name:v9"), None, &[b"one", b"two"]);
    assert_eq!(first.manifest.layers, second.manifest.layers);
    assert_eq!(
        first.manifest.layers[0].digest.to_string(),
        "sha256:7692c3ad3540bb803c020b3aee66cd8887123234ea0c6e7143c0add73ff431ed"
    );
}

#[test]
fn archive_reads_back_byte_for_byte() {
    let layers: [&[u8]; 3] = [b"layer one", b"", b"\x00\xff\x10binary"];
    let packed = pack(Some("ghcr.io/a/b:v1"), Some(b"{}"), &layers);
    let archive = read_archive(packed.entries).unwrap();
    assert_eq!(archive.index(), &INDEX_JSON.to_vec());
    assert_eq!(archive.layout(), &b"{\"imageLayoutVersion\":\"1.0.0\"}".to_vec());
    for (layer, descriptor) in layers.iter().zip(&packed.manifest.layers) {
        let blob = archive.pool().get(&descriptor.digest).unwrap();
        assert_eq!(blob.data(), &layer.to_vec());
        assert_eq!(descriptor.size, layer.len() as u64);
    }
    assert_eq!(
        archive.pool().get(&packed.index.manifests[0].digest).unwrap().data(),
        &MANIFEST_JSON.to_vec()
    );
    assert_eq!(archive.pool().len(), 5);
}

#[test]
fn archive_with_an_altered_blob_is_refused() {
    let packed = pack(Some("ghcr.io/a/b:v1"), Some(b"{}"), &[b"layer one", b"layer two"]);
    for i in 2..packed.entries.len() {
        let mut entries = copy(&packed.entries);
        entries[i].data[0] ^= 1;
        assert_eq!(read_archive(entries), Err(Error::DigestMismatch), "{}", i);
    }
}

#[test]
fn archive_without_marker_or_index_is_refused() {
    let packed = pack(Some("ghcr.io/a/b:v1"), None, &[b"layer"]);
    let mut without_marker = copy(&packed.entries);
    without_marker.remove(0);
    assert_eq!(read_archive(without_marker), Err(Error::NotFound));
    let mut without_index = copy(&packed.entries);
    without_index.remove(1);
    assert_eq!(read_archive(without_index), Err(Error::NotFound));
    assert_eq!(read_archive(Vec::new()), Err(Error::NotFound));
    let mut both = copy(&packed.entries);
    both.remove(0);
    both[1].data.push(0);
    assert_eq!(read_archive(both), Err(Error::DigestMismatch));
}

#[test]
fn archive_passes_over_other_files_and_repeats() {
    let packed = pack(Some("ghcr.io/a/b:v1"), None, &[b"layer"]);
    let mut entries = copy(&packed.entries);
    entries.push(Entry { path: "README".to_string(), data: b"hello".to_vec() });
    entries.push(Entry { path: "index.json".to_string(), data: b"later".to_vec() });
    entries.push(Entry {
        path: blob_path_of(&Digest::of_bytes(b"layer")),
        data: b"layer".to_vec(),
    });
    let archive = read_archive(entries).unwrap();
    assert_eq!(archive.index(), &INDEX_JSON.to_vec());
    assert_eq!(archive.pool().len(), 3);
}

#[test]
fn load_registers_the_image_and_its_blobs() {
    let packed = pack(Some("ghcr.io/a/b:v1"), Some(b"{}"), &[b"layer one", b"layer two"]);
    let name = ImageName::parse("ghcr.io/a/b:v1").unwrap();
    let archive = read_archive(packed.entries).unwrap();
    let mut store = Store::new();
    let loaded = load(&mut store, archive, "1.0.0", &packed.index, vec![packed.manifest.clone()]);
    assert_eq!(loaded, Ok(vec![name.clone()]));
    assert_eq!(store.get(&name), Ok(&packed.manifest));
    assert_eq!(store.manifest_digest(&name), Ok(&Digest::of_bytes(MANIFEST_JSON)));
    assert_eq!(store.pool().len(), 4);
    for layer in [&b"layer one"[..], b"layer two"] {
        assert_eq!(store.blob(&Digest::of_bytes(layer)).unwrap().data(), &layer.to_vec());
    }
}

#[test]
fn load_twice_changes_nothing() {
    let name = ImageName::parse("ghcr.io/a/b:v1").unwrap();
    let mut store = Store::new();
    for _ in 0..2 {
        let packed = pack(Some("ghcr.io/a/b:v1"), Some(b"{}"), &[b"layer one"]);
        let archive = read_archive(packed.entries).unwrap();
        let loaded = load(&mut store, archive, "1.0.0", &packed.index, vec![packed.manifest]);
        assert_eq!(loaded, Ok(vec![name.clone()]));
        assert_eq!(store.pool().len(), 3);
        assert_eq!(store.list(), vec![name.clone()]);
    }
}

#[test]
fn load_of_a_faulty_archive_leaves_the_store_unchanged() {
    let mut store = Store::new();
    let kept = pack(Some("ghcr.io/kept/image:v1"), None, &[b"kept layer"]);
    let archive = read_archive(kept.entries).unwrap();
    load(&mut store, archive, "1.0.0", &kept.index, vec![kept.manifest]).unwrap();
    let names = store.list();
    let blobs = store.pool().len();

    let packed = pack(Some("ghcr.io/a/b:v1"), Some(b"{}"), &[b"layer one"]);
    let other = pack(Some("ghcr.io/a/b:v1"), Some(b"{}"), &[b"layer one", b"missing layer"]);

    let archive = read_archive(copy(&packed.entries)).unwrap();
    let r = load(&mut store, archive, "2.0.0", &packed.index, vec![packed.manifest.clone()]);
    assert_eq!(r, Err(Error::ProtocolError));

    let archive = read_archive(copy(&packed.entries)).unwrap();
    let r = load(&mut store, archive, "1.0.0", &packed.index, Vec::new());
    assert_eq!(r, Err(Error::ProtocolError));

    let archive = read_archive(copy(&packed.entries)).unwrap();
    let r = load(&mut store, archive, "1.0.0", &packed.index, vec![other.manifest.clone()]);
    assert_eq!(r, Err(Error::NotFound));

    let mut unnamed = packed.index.clone();
    unnamed.manifests[0].annotations.clear();
    let archive = read_archive(copy(&packed.entries)).unwrap();
    let r = load(&mut store, archive, "1.0.0", &unnamed, vec![packed.manifest.clone()]);
    assert_eq!(r, Err(Error::InvalidName));

    let mut elsewhere = packed.index.clone();
    elsewhere.manifests[0].digest = Digest::of_bytes(b"some other manifest");
    let archive = read_archive(copy(&packed.entries)).unwrap();
    let r = load(&mut store, archive, "1.0.0", &elsewhere, vec![packed.manifest.clone()]);
    assert_eq!(r, Err(Error::NotFound));

    assert_eq!(store.list(), names);
    assert_eq!(store.pool().len(), blobs);
    assert!(!store.contains_blob(&Digest::of_bytes(b"layer one")));
}

#[test]
fn write_archive_of_an_empty_pool() {
    let entries = write_archive(b"index".to_vec(), &BlobPool::new());
    assert_eq!(entries.len(), 2);
    let archive = read_archive(entries).unwrap();
    assert_eq!(archive.index(), &b"index".to_vec());
    assert_eq!(archive.into_pool().len(), 1 - 1);
}

#[test]
fn verified_blobs_of_loose_files() {
    let good = |content: &[u8]| Entry {
        path: blob_path_of(&Digest::of_bytes(content)),
        data: content.to_vec(),
    };
    let entries = vec![
        good(b"one"),
        Entry { path: "blobs/sha256/leftover.tmp".to_string(), data: b"partial".to_vec() },
        good(b"two"),
        good(b"one"),
    ];
    let pool = verified_blobs(entries).unwrap();
    assert_eq!(pool.len(), 2);
    assert_eq!(pool.at(0).data(), &b"one".to_vec());
    assert_eq!(pool.at(1).data(), &b"two".to_vec());

    let mut bad = good(b"three");
    bad.data.push(b'!');
    assert_eq!(verified_blobs(vec![good(b"one"), bad]), Err(Error::DigestMismatch));
    assert_eq!(verified_blobs(Vec::new()).unwrap().len(), 0);
}
