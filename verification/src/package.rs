//! Packing the libraries of a cargo package: which package is meant, what
//! its artifacts are called, and under which name the image goes.

use crate::error::Error;
use crate::image_name::{parse_spec, ImageName};
use crate::search::{any, first, lemma_first_from_is};
use crate::text::{chars_of, slice_of, starts_with_at, str_eq, string_from};
use vstd::prelude::*;

verus! {

/// The option that names the manifest of the package.
pub const MANIFEST_PATH: &'static str = "--manifest-path";

/// The same option, with `=` for a value in the same argument.
pub const MANIFEST_PATH_EQ: &'static str = "--manifest-path=";

/// `s` without the prefix `prefix`, as often as it begins with it.
pub open spec fn strip_all(s: Seq<char>, prefix: Seq<char>) -> Seq<char>
    decreases s.len(),
{
    if prefix.len() > 0 && s.len() >= prefix.len() && s.subrange(0, prefix.len() as int)
        == prefix {
        strip_all(s.skip(prefix.len() as int), prefix)
    } else {
        s
    }
}

/// Whether `s` begins with `prefix`.
pub open spec fn begins_with(s: Seq<char>, prefix: Seq<char>) -> bool {
    s.len() >= prefix.len() && s.subrange(0, prefix.len() as int) == prefix
}

/// The first argument at or after `from` that begins with the option;
/// the number of arguments if there is none.
pub open spec fn option_index(args: Seq<Seq<char>>, from: int) -> int
    decreases args.len() - from,
{
    if from < 0 || from >= args.len() {
        args.len() as int
    } else if begins_with(args[from], MANIFEST_PATH@) {
        from
    } else {
        option_index(args, from + 1)
    }
}

/// The path that the arguments give for the manifest. The first argument
/// that begins with the option decides: if it is the option itself, the
/// next argument is the path, and it is an error if there is none; else the
/// path is that argument without the option and `=` in front, as often as
/// they stand there. Without such an argument there is no path.
pub open spec fn manifest_path_of(args: Seq<Seq<char>>) -> Result<Option<Seq<char>>, Error> {
    let k = option_index(args, 0);
    if k >= args.len() {
        Ok(None)
    } else if args[k] == MANIFEST_PATH@ {
        if k + 1 < args.len() {
            Ok(Some(args[k + 1]))
        } else {
            Err(Error::NotFound)
        }
    } else {
        Ok(Some(strip_all(args[k], MANIFEST_PATH_EQ@)))
    }
}

/// The views of a sequence of strings.
pub open spec fn string_views(s: Seq<String>) -> Seq<Seq<char>> {
    s.map_values(|x: String| x@)
}

/// Computes `strip_all`.
fn strip(v: &Vec<char>, prefix: &str) -> (r: Vec<char>)
    ensures
        r@ == strip_all(v@, prefix@),
{
    let n = chars_of(prefix).len();
    let len = v.len();
    let mut from: usize = 0;
    assert(v@.skip(0) =~= v@);
    if n > 0 {
        while starts_with_at(v, from, prefix)
            invariant
                0 <= from <= v@.len() == len,
                n == prefix@.len(),
                n > 0,
                strip_all(v@, prefix@) == strip_all(v@.skip(from as int), prefix@),
            decreases v@.len() - from,
        {
            proof {
                let s = v@.skip(from as int);
                assert(s.subrange(0, n as int) =~= v@.subrange(from as int, from + n));
                assert(s.skip(n as int) =~= v@.skip(from + n));
            }
            from += n;
        }
        proof {
            let s = v@.skip(from as int);
            if s.len() >= n {
                assert(s.subrange(0, n as int) =~= v@.subrange(from as int, from + n));
            }
        }
    }
    let r = slice_of(v, from, v.len());
    assert(r@ =~= v@.skip(from as int));
    r
}

/// The path that the arguments of the command line give for the manifest.
pub fn manifest_path(args: &Vec<String>) -> (r: Result<Option<String>, Error>)
    ensures
        r matches Ok(Some(p)) ==> manifest_path_of(string_views(args@)) == Ok::<
            Option<Seq<char>>,
            Error,
        >(Some(p@)),
        r matches Ok(None) ==> manifest_path_of(string_views(args@)) == Ok::<
            Option<Seq<char>>,
            Error,
        >(None),
        r matches Err(e) ==> manifest_path_of(string_views(args@)) == Err::<
            Option<Seq<char>>,
            Error,
        >(e),
{
    let ghost views = string_views(args@);
    let mut k: usize = 0;
    while k < args.len()
        invariant
            0 <= k <= args@.len(),
            views == string_views(args@),
            option_index(views, 0) == option_index(views, k as int),
        decreases args@.len() - k,
    {
        let v = chars_of(args[k].as_str());
        assert(v@ == views[k as int]);
        if starts_with_at(&v, 0, MANIFEST_PATH) {
            if str_eq(args[k].as_str(), MANIFEST_PATH) {
                if k + 1 < args.len() {
                    assert(args@[k + 1]@ == views[k + 1]);
                    return Ok(Some(args[k + 1].clone()));
                } else {
                    return Err(Error::NotFound);
                }
            }
            let path = strip(&v, MANIFEST_PATH_EQ);
            return Ok(Some(string_from(&path)));
        }
        k += 1;
    }
    Ok(None)
}

/// The predicate "is the text `t`".
pub open spec fn is_text(t: Seq<char>) -> spec_fn(Seq<char>) -> bool {
    |s: Seq<char>| s == t
}

/// The package that is meant: the first package of the workspace with the
/// name that was asked for; where none was asked for or none has it, the
/// root package; where there is no root package either, none.
pub open spec fn selected(
    names: Seq<Seq<char>>,
    root: Option<usize>,
    wanted: Option<Seq<char>>,
) -> Option<int> {
    match wanted {
        Some(w) if any(names, is_text(w)) => Some(first(names, is_text(w))),
        _ => match root {
            Some(k) => Some(k as int),
            None => None,
        },
    }
}

/// Selects the package to pack among the packages of the workspace, given
/// by their names: a name that was asked for goes before the root package.
pub fn select_package(names: &Vec<String>, root: Option<usize>, wanted: Option<&str>) -> (r:
    Option<usize>)
    ensures
        r matches Some(k) ==> selected(
            string_views(names@),
            root,
            match wanted {
                Some(w) => Some(w@),
                None => None,
            },
        ) == Some(k as int),
        r is None ==> selected(
            string_views(names@),
            root,
            match wanted {
                Some(w) => Some(w@),
                None => None,
            },
        ) is None,
{
    let ghost views = string_views(names@);
    match wanted {
        Some(w) => {
            let mut k: usize = 0;
            while k < names.len()
                invariant
                    0 <= k <= names@.len(),
                    views == string_views(names@),
                    wanted == Some(w),
                    forall|j: int| 0 <= j < k ==> !is_text(w@)(#[trigger] views[j]),
                decreases names@.len() - k,
            {
                if str_eq(names[k].as_str(), w) {
                    proof {
                        assert(is_text(w@)(views[k as int]));
                        lemma_first_from_is(views, is_text(w@), 0, k as int);
                    }
                    return Some(k);
                }
                k += 1;
            }
            proof {
                lemma_first_from_is(views, is_text(w@), 0, k as int);
            }
            root
        },
        None => root,
    }
}

/// The directory of the artifacts below the target directory.
pub fn profile_dir(release: bool) -> (d: &'static str)
    ensures
        d@ == (if release {
            "release"@
        } else {
            "debug"@
        }),
{
    if release {
        "release"
    } else {
        "debug"
    }
}

/// The name of a target as it stands in the names of its files: with `_`
/// for each `-`.
pub open spec fn file_stem(target: Seq<char>) -> Seq<char> {
    target.map_values(
        |c: char|
            if c == '-' {
                '_'
            } else {
                c
            },
    )
}

/// The file that a target makes for one of its crate types: `lib<stem>.a`
/// for a static library, `lib<stem>.so` for a C dynamic library, none for
/// any other.
pub open spec fn artifact_of(target: Seq<char>, crate_type: Seq<char>) -> Option<Seq<char>> {
    if crate_type == "staticlib"@ {
        Some("lib"@ + file_stem(target) + ".a"@)
    } else if crate_type == "cdylib"@ {
        Some("lib"@ + file_stem(target) + ".so"@)
    } else {
        None
    }
}

/// The files that a target makes for its crate types, in their order.
pub open spec fn artifacts_of(target: Seq<char>, crate_types: Seq<Seq<char>>) -> Seq<Seq<char>>
    decreases crate_types.len(),
{
    if crate_types.len() == 0 {
        Seq::empty()
    } else {
        let before = artifacts_of(target, crate_types.drop_last());
        match artifact_of(target, crate_types.last()) {
            Some(f) => before.push(f),
            None => before,
        }
    }
}

/// The file that the target `target` makes for the crate type `crate_type`.
pub fn artifact_name(target: &str, crate_type: &str) -> (r: Option<String>)
    ensures
        r is Some <==> artifact_of(target@, crate_type@) is Some,
        r matches Some(f) ==> artifact_of(target@, crate_type@) == Some(f@),
{
    let extension = if str_eq(crate_type, "staticlib") {
        ".a"
    } else if str_eq(crate_type, "cdylib") {
        ".so"
    } else {
        return None;
    };
    let chars = chars_of(target);
    let mut name = "lib".to_owned();
    let ghost head = name@;
    let mut i: usize = 0;
    while i < chars.len()
        invariant
            0 <= i <= chars@.len(),
            chars@ == target@,
            name@ == head + file_stem(target@).take(i as int),
        decreases chars@.len() - i,
    {
        let c = chars[i];
        let m = if c == '-' {
            '_'
        } else {
            c
        };
        name.push(m);
        i += 1;
        assert(file_stem(target@).take(i as int) =~= file_stem(target@).take(i - 1).push(m));
    }
    assert(file_stem(target@).take(chars@.len() as int) =~= file_stem(target@));
    name.append(extension);
    Some(name)
}

/// The files that the target `target` makes for its crate types, in their
/// order; a target with none of them has nothing to pack.
pub fn artifact_names(target: &str, crate_types: &Vec<String>) -> (r: Vec<String>)
    ensures
        string_views(r@) == artifacts_of(target@, string_views(crate_types@)),
{
    let ghost types = string_views(crate_types@);
    let mut r: Vec<String> = Vec::new();
    let mut i: usize = 0;
    assert(types.take(0) =~= Seq::<Seq<char>>::empty());
    assert(string_views(r@) =~= Seq::<Seq<char>>::empty());
    while i < crate_types.len()
        invariant
            0 <= i <= crate_types@.len(),
            types == string_views(crate_types@),
            string_views(r@) == artifacts_of(target@, types.take(i as int)),
        decreases crate_types@.len() - i,
    {
        let ghost before = string_views(r@);
        proof {
            let t = types.take(i + 1);
            assert(t.drop_last() =~= types.take(i as int));
            assert(t.last() == crate_types@[i as int]@);
        }
        match artifact_name(target, crate_types[i].as_str()) {
            Some(f) => {
                let ghost fv = f@;
                r.push(f);
                assert(string_views(r@) =~= before.push(fv));
            },
            None => {},
        }
        i += 1;
    }
    assert(types.take(types.len() as int) =~= types);
    r
}

/// The name of the archive of the target `target`: its name and `.tar`.
pub fn archive_name(target: &str) -> (r: String)
    ensures
        r@ == target@ + ".tar"@,
{
    let mut r = target.to_owned();
    r.append(".tar");
    r
}

/// What the package says of its registry.
#[derive(Debug, PartialEq, Eq)]
pub enum Registry {
    /// The table has no entry `registry`.
    Missing,
    /// The entry is no text.
    NotText,
    /// The entry is this text.
    Text(String),
}

/// What the metadata of the package says under `ocipkg`.
#[derive(Debug, PartialEq, Eq)]
pub enum Ocipkg {
    /// The metadata has no entry `ocipkg`.
    Missing,
    /// The entry is no table.
    NotATable,
    /// The entry is a table.
    Table(Registry),
}

/// What the package has for metadata, as far as this crate reads it.
#[derive(Debug, PartialEq, Eq)]
pub enum Metadata {
    /// The metadata is no table, or there is none.
    NotATable,
    /// The metadata is a table.
    Table(Ocipkg),
}

/// Why the metadata names no registry.
#[derive(Debug, Clone, Copy, PartialEq, Eq, Hash, Structural)]
pub enum MetadataError {
    /// `package.metadata` is no table.
    MetadataRequired,
    /// `package.metadata.ocipkg` is missing.
    OcipkgMissing,
    /// `package.metadata.ocipkg` is no table.
    OcipkgNotATable,
    /// `package.metadata.ocipkg.registry` is missing.
    RegistryMissing,
    /// `package.metadata.ocipkg.registry` is no text.
    RegistryNotText,
}

/// The registry that the metadata names, or what keeps it from naming one.
pub open spec fn registry_of(m: Metadata) -> Result<Seq<char>, MetadataError> {
    match m {
        Metadata::NotATable => Err(MetadataError::MetadataRequired),
        Metadata::Table(Ocipkg::Missing) => Err(MetadataError::OcipkgMissing),
        Metadata::Table(Ocipkg::NotATable) => Err(MetadataError::OcipkgNotATable),
        Metadata::Table(Ocipkg::Table(Registry::Missing)) => Err(MetadataError::RegistryMissing),
        Metadata::Table(Ocipkg::Table(Registry::NotText)) => Err(MetadataError::RegistryNotText),
        Metadata::Table(Ocipkg::Table(Registry::Text(t))) => Ok(t@),
    }
}

/// The registry that the metadata of the package names.
pub fn registry(m: &Metadata) -> (r: Result<&str, MetadataError>)
    ensures
        r matches Ok(t) ==> registry_of(*m) == Ok::<Seq<char>, MetadataError>(t@),
        r matches Err(e) ==> registry_of(*m) == Err::<Seq<char>, MetadataError>(e),
{
    match m {
        Metadata::NotATable => Err(MetadataError::MetadataRequired),
        Metadata::Table(Ocipkg::Missing) => Err(MetadataError::OcipkgMissing),
        Metadata::Table(Ocipkg::NotATable) => Err(MetadataError::OcipkgNotATable),
        Metadata::Table(Ocipkg::Table(Registry::Missing)) => Err(MetadataError::RegistryMissing),
        Metadata::Table(Ocipkg::Table(Registry::NotText)) => Err(MetadataError::RegistryNotText),
        Metadata::Table(Ocipkg::Table(Registry::Text(t))) => Ok(t.as_str()),
    }
}

/// The name of the image of a package: the registry that its metadata
/// names, `:`, and the revision of its sources as the tag.
pub fn image_name_of_revision(registry: &str, revision: &str) -> (r: Result<ImageName, Error>)
    ensures
        r matches Ok(n) ==> parse_spec(registry@ + seq![':'] + revision@) == Some(n@) && n@.text()
            == registry@ + seq![':'] + revision@,
        r matches Err(e) ==> e == Error::InvalidName && parse_spec(
            registry@ + seq![':'] + revision@,
        ) is None,
{
    let mut text = registry.to_owned();
    text.push(':');
    text.append(revision);
    assert(text@ =~= registry@ + seq![':'] + revision@);
    ImageName::parse(text.as_str())
}

} // verus!
