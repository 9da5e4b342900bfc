use ocipkg::descriptor::{Descriptor, Manifest, MEDIA_TYPE_CONFIG, MEDIA_TYPE_LAYER};
use ocipkg::digest::Digest;
use ocipkg::distribution::push::{Push, PushAction};
use ocipkg::error::Error;

fn manifest() -> Manifest {
    Manifest::new(
        Descriptor::of_blob(MEDIA_TYPE_CONFIG, b"{}"),
        vec![
            Descriptor::of_blob(MEDIA_TYPE_LAYER, b"one"),
            Descriptor::of_blob(MEDIA_TYPE_LAYER, b"two"),
        ],
    )
}

fn digest(content: &[u8]) -> Digest {
    Digest::of_bytes(content)
}

#[test]
fn manifest_is_put_only_after_every_blob_is_confirmed() {
    let mut push = Push::new(&manifest());
    let mut calls: Vec<String> = Vec::new();
    let remote_has = [digest(b"{}")];
    loop {
        match push.next_action() {
            PushAction::CheckBlob(d) => {
                calls.push(format!("HEAD {}", d.to_string()));
                let exists = remote_has.contains(&d);
                push.on_check(&d, exists);
            }
            PushAction::UploadBlob(d) => {
                calls.push(format!("UPLOAD {}", d.to_string()));
                push.on_uploaded(&d);
            }
            PushAction::PutManifest => {
                calls.push("PUT manifest".to_string());
                assert_eq!(push.on_manifest_put(), Ok(()));
            }
            PushAction::Done => break,
        }
    }
    assert!(push.is_done());
    assert_eq!(
        calls,
        vec![
            format!("HEAD {}", digest(b"{}").to_string()),
            format!("HEAD {}", digest(b"one").to_string()),
            format!("UPLOAD {}", digest(b"one").to_string()),
            format!("HEAD {}", digest(b"two").to_string()),
            format!("UPLOAD {}", digest(b"two").to_string()),
            "PUT manifest".to_string(),
        ]
    );
}

#[test]
fn manifest_put_before_the_blobs_does_not_count() {
    let mut push = Push::new(&manifest());
    assert_eq!(push.on_manifest_put(), Err(Error::ProtocolError));
    assert!(!push.is_done());
    push.on_check(&digest(b"{}"), true);
    push.on_check(&digest(b"one"), true);
    assert_eq!(push.on_manifest_put(), Err(Error::ProtocolError));
    assert_eq!(push.next_action(), PushAction::CheckBlob(digest(b"two")));
    push.on_check(&digest(b"two"), false);
    assert_eq!(push.on_manifest_put(), Err(Error::ProtocolError));
    assert_eq!(push.next_action(), PushAction::UploadBlob(digest(b"two")));
    push.on_uploaded(&digest(b"two"));
    assert_eq!(push.next_action(), PushAction::PutManifest);
    assert!(!push.is_done());
    assert_eq!(push.on_manifest_put(), Ok(()));
    assert_eq!(push.next_action(), PushAction::Done);
}

#[test]
fn blobs_may_be_confirmed_in_any_order() {
    let mut push = Push::new(&manifest());
    assert_eq!(push.open_blobs(), vec![digest(b"{}"), digest(b"one"), digest(b"two")]);
    push.on_uploaded(&digest(b"two"));
    push.on_check(&digest(b"one"), false);
    assert_eq!(push.open_blobs(), vec![digest(b"{}"), digest(b"one")]);
    push.on_check(&digest(b"{}"), true);
    assert_eq!(push.next_action(), PushAction::UploadBlob(digest(b"one")));
    push.on_check(&digest(b"two"), false);
    assert_eq!(push.open_blobs(), vec![digest(b"one")]);
    push.on_uploaded(&digest(b"one"));
    assert!(push.open_blobs().is_empty());
    assert_eq!(push.next_action(), PushAction::PutManifest);
}

#[test]
fn reports_about_other_blobs_change_nothing() {
    let mut push = Push::new(&manifest());
    push.on_check(&digest(b"stranger"), true);
    push.on_uploaded(&digest(b"stranger"));
    assert_eq!(push.open_blobs().len(), 3);
    assert_eq!(push.next_action(), PushAction::CheckBlob(digest(b"{}")));
}

#[test]
fn a_blob_that_occurs_twice_is_confirmed_once() {
    let twice = Manifest::new(
        Descriptor::of_blob(MEDIA_TYPE_CONFIG, b"{}"),
        vec![
            Descriptor::of_blob(MEDIA_TYPE_LAYER, b"same"),
            Descriptor::of_blob(MEDIA_TYPE_LAYER, b"same"),
        ],
    );
    let mut push = Push::new(&twice);
    push.on_check(&digest(b"{}"), true);
    push.on_uploaded(&digest(b"same"));
    assert_eq!(push.next_action(), PushAction::PutManifest);
}
