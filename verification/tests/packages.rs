use ocipkg::error::Error;
use ocipkg::image_name::{ImageName, Reference};
use ocipkg::package::{
    archive_name, artifact_name, artifact_names, image_name_of_revision, manifest_path,
    profile_dir, registry, select_package, Metadata, MetadataError, Ocipkg, Registry,
};

fn strings(items: &[&str]) -> Vec<String> {
    items.iter().map(|s| s.to_string()).collect()
}

#[test]
fn manifest_path_in_the_next_argument() {
    let args =
        strings(&["cargo-ocipkg", "ocipkg", "build", "--manifest-path", "a/Cargo.toml", "-p", "x"]);
    assert_eq!(manifest_path(&args), Ok(Some("a/Cargo.toml".to_string())));
}

#[test]
fn manifest_path_in_the_same_argument() {
    let args = strings(&["build", "--manifest-path=a/Cargo.toml", "--manifest-path", "b"]);
    assert_eq!(manifest_path(&args), Ok(Some("a/Cargo.toml".to_string())));
    let repeated = strings(&["--manifest-path=--manifest-path=x"]);
    assert_eq!(manifest_path(&repeated), Ok(Some("x".to_string())));
    let glued = strings(&["--manifest-pathology"]);
    assert_eq!(manifest_path(&glued), Ok(Some("--manifest-pathology".to_string())));
    let empty = strings(&["--manifest-path="]);
    assert_eq!(manifest_path(&empty), Ok(Some(String::new())));
}

#[test]
fn manifest_path_absent_or_cut_off() {
    assert_eq!(manifest_path(&strings(&["build", "--release"])), Ok(None));
    assert_eq!(manifest_path(&Vec::new()), Ok(None));
    assert_eq!(manifest_path(&strings(&["build", "--manifest-path"])), Err(Error::NotFound));
}

#[test]
fn named_package_goes_before_the_root() {
    let names = strings(&["core", "cli", "core"]);
    assert_eq!(select_package(&names, Some(1), Some("core")), Some(0));
    assert_eq!(select_package(&names, Some(0), Some("cli")), Some(1));
    assert_eq!(select_package(&names, Some(1), Some("other")), Some(1));
    assert_eq!(select_package(&names, Some(2), None), Some(2));
    assert_eq!(select_package(&names, None, Some("other")), None);
    assert_eq!(select_package(&names, None, None), None);
    assert_eq!(select_package(&Vec::new(), None, Some("core")), None);
}

#[test]
fn artifacts_of_library_targets() {
    assert_eq!(artifact_name("rust-lib", "staticlib"), Some("librust_lib.a".to_string()));
    assert_eq!(artifact_name("rust-lib", "cdylib"), Some("librust_lib.so".to_string()));
    assert_eq!(artifact_name("a-b-c", "cdylib"), Some("liba_b_c.so".to_string()));
    assert_eq!(artifact_name("rust-lib", "rlib"), None);
    assert_eq!(artifact_name("rust-lib", "bin"), None);
    assert_eq!(
        artifact_names("rust-lib", &strings(&["rlib", "cdylib", "bin", "staticlib", "cdylib"])),
        strings(&["librust_lib.so", "librust_lib.a", "librust_lib.so"])
    );
    assert!(artifact_names("rust-exe", &strings(&["bin"])).is_empty());
    assert!(artifact_names("rust-exe", &Vec::new()).is_empty());
    assert_eq!(archive_name("rust-lib"), "rust-lib.tar");
}

#[test]
fn profile_directories() {
    assert_eq!(profile_dir(true), "release");
    assert_eq!(profile_dir(false), "debug");
}

#[test]
fn registry_from_the_metadata() {
    let text = Metadata::Table(Ocipkg::Table(Registry::Text("ghcr.io/a/b".to_string())));
    assert_eq!(registry(&text), Ok("ghcr.io/a/b"));
    assert_eq!(registry(&Metadata::NotATable), Err(MetadataError::MetadataRequired));
    assert_eq!(registry(&Metadata::Table(Ocipkg::Missing)), Err(MetadataError::OcipkgMissing));
    assert_eq!(
        registry(&Metadata::Table(Ocipkg::NotATable)),
        Err(MetadataError::OcipkgNotATable)
    );
    assert_eq!(
        registry(&Metadata::Table(Ocipkg::Table(Registry::Missing))),
        Err(MetadataError::RegistryMissing)
    );
    assert_eq!(
        registry(&Metadata::Table(Ocipkg::Table(Registry::NotText))),
        Err(MetadataError::RegistryNotText)
    );
}

#[test]
fn image_name_from_registry_and_revision() {
    let revision = "0123456789abcdef0123456789abcdef01234567";
    let name = image_name_of_revision("ghcr.io/termoshtt/ocipkg/rust-lib", revision).unwrap();
    assert_eq!(name.registry(), "ghcr.io");
    assert_eq!(name.repository(), "termoshtt/ocipkg/rust-lib");
    assert_eq!(name.reference(), &Reference::Tag(revision.to_string()));
    assert_eq!(
        name,
        ImageName::parse(&format!("ghcr.io/termoshtt/ocipkg/rust-lib:{}", revision)).unwrap()
    );
    assert_eq!(image_name_of_revision("ghcr.io", revision), Err(Error::InvalidName));
    assert_eq!(image_name_of_revision("ghcr.io/a", "HEAD"), Err(Error::InvalidName));
    assert_eq!(image_name_of_revision("ghcr.io/a", ""), Err(Error::InvalidName));
}
