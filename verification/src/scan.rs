//! The descriptor scanner: turns the files observed in a project tree
//! into `UnityMeta` entries, extracting each descriptor's identifier and
//! resolving its sibling asset file and logical path.
//!
//! The caller walks the tree and hands over, for every descriptor file,
//! its path, its text and whether the sibling asset path is a regular
//! file; everything from there on is computed here.

use vstd::prelude::*;

verus! {

use crate::paths::spec_asset_path;
use crate::paths::spec_is_descriptor_path;
use crate::paths::spec_strip_bom;
use crate::paths::spec_strip_root;
use crate::paths::asset_path_of;
use crate::paths::strip_bom;
use crate::paths::strip_root;

/// One asset entry discovered by a scan.
#[derive(Debug)]
pub struct UnityMeta {
    /// The asset's globally unique identifier, from the descriptor's
    /// `guid` field.
    pub guid: String,
    /// The asset's logical path: the candidate asset path, relative to
    /// the project root when one was supplied.
    pub path: String,
    /// The sibling asset payload, present only when a regular file
    /// stands at the descriptor's path less its suffix.
    pub asset_file: Option<String>,
    /// The descriptor file itself.
    pub meta_file: String,
}

/// What the tree walk observed of one descriptor file: where it stands,
/// what it holds, and whether its sibling asset path is a regular file.
#[derive(Debug)]
pub struct DescriptorSource {
    pub path: String,
    pub content: String,
    pub asset_is_file: bool,
}

/// Why a scan failed.
#[derive(Debug)]
pub enum ScanError {
    /// The descriptor at `file` is not a well-formed document with a
    /// scalar `guid` field.
    Parse { file: String },
    /// The candidate asset path does not lie under the supplied project
    /// root.
    Path { path: String, root: String },
}

/// The named top-level field of the first document of the text, parsed
/// as YAML, when the text parses and that field is a string scalar.
pub uninterp spec fn yaml_scalar_field_of(content: Seq<char>, key: Seq<char>) -> Option<Seq<char>>;

/// Relies on `yaml_rust::YamlLoader::load_from_str`, together with
/// `Yaml`'s indexing by key and `Yaml::as_str`, to look up the named
/// top-level field of the first document: the outcome is a function of
/// the two texts alone, and is `None` when the text does not parse, holds
/// no document, or holds no string scalar under the key.
#[verifier::external_body]
fn yaml_scalar_field(content: &str, key: &str) -> (r: Option<String>)
    ensures
        r matches Some(s) ==> yaml_scalar_field_of(content@, key@) == Some(s@),
        r is None ==> yaml_scalar_field_of(content@, key@) is None,
{
    match yaml_rust::YamlLoader::load_from_str(content) {
        Ok(docs) => match docs.first() {
            Some(doc) => doc[key].as_str().map(|s| s.to_owned()),
            None => None,
        },
        Err(_) => None,
    }
}

/// The identifier recorded in a descriptor text: its `guid` field, read
/// after removing a leading byte-order mark.
pub open spec fn guid_of(content: Seq<char>) -> Option<Seq<char>> {
    yaml_scalar_field_of(spec_strip_bom(content), "guid"@)
}

/// The entry's logical path: the candidate asset path itself, or, when a
/// project root is supplied, that path with the root prefix stripped.
pub open spec fn spec_logical_path(asset: Seq<char>, root: Option<Seq<char>>) -> Option<Seq<char>> {
    match root {
        Some(r) => spec_strip_root(asset, r),
        None => Some(asset),
    }
}

/// The view of an optional project root.
pub open spec fn spec_root_view(root: Option<&str>) -> Option<Seq<char>> {
    match root {
        Some(r) => Some(r@),
        None => None,
    }
}

pub fn parse_guid(content: &str) -> (r: Option<String>)
    ensures
        r matches Some(g) ==> guid_of(content@) == Some(g@),
        r is None ==> guid_of(content@) is None,
{
    let stripped = strip_bom(content);
    yaml_scalar_field(stripped.as_str(), "guid")
}

/// How one discovered entry relates to the descriptor it came from.
pub open spec fn spec_entry_matches(
    d: DescriptorSource,
    root: Option<Seq<char>>,
    m: UnityMeta,
) -> bool {
    &&& Some(m.guid@) == guid_of(d.content@)
    &&& m.meta_file@ == d.path@
    &&& Some(m.path@) == spec_logical_path(spec_asset_path(d.path@), root)
    &&& (d.asset_is_file ==> (m.asset_file matches Some(a) && a@ == spec_asset_path(d.path@)))
    &&& (!d.asset_is_file ==> m.asset_file is None)
}

/// Whether one observed descriptor can be turned into an entry: its text
/// yields an identifier and its candidate asset path lies under the root.
pub open spec fn spec_source_ok(d: DescriptorSource, root: Option<Seq<char>>) -> bool {
    &&& guid_of(d.content@) is Some
    &&& spec_logical_path(spec_asset_path(d.path@), root) is Some
}

/// Which error an observed descriptor that cannot be turned into an
/// entry gives rise to.
pub open spec fn spec_error_matches(
    e: ScanError,
    d: DescriptorSource,
    root: Option<Seq<char>>,
) -> bool {
    if guid_of(d.content@) is None {
        e matches ScanError::Parse { file } && file@ == d.path@
    } else {
        &&& e matches ScanError::Path { path, root: r } && path@ == spec_asset_path(d.path@)
            && Some(r@) == root
    }
}

/// Builds the entry for one descriptor once its identifier is in hand:
/// derives the candidate asset path, records it as the asset file exactly
/// when a regular file stands there, and resolves the logical path
/// against the project root.
pub fn entry_from_parts(
    path: &str,
    guid: String,
    asset_is_file: bool,
    root: Option<&str>,
) -> (r: Result<UnityMeta, ScanError>)
    requires
        spec_is_descriptor_path(path@),
    ensures
        r is Ok <==> spec_logical_path(spec_asset_path(path@), spec_root_view(root)) is Some,
        r matches Ok(m) ==> {
            &&& m.guid@ == guid@
            &&& m.meta_file@ == path@
            &&& Some(m.path@) == spec_logical_path(spec_asset_path(path@), spec_root_view(root))
            &&& (asset_is_file ==> (m.asset_file matches Some(a) && a@ == spec_asset_path(path@)))
            &&& (!asset_is_file ==> m.asset_file is None)
        },
        r matches Err(e) ==> {
            &&& e matches ScanError::Path { path: p, root: r } && p@ == spec_asset_path(path@)
                && Some(r@) == spec_root_view(root)
        },
{
    let asset = asset_path_of(path);
    let logical: String = match root {
        Some(r) => match strip_root(asset.as_str(), r) {
            Some(s) => s,
            None => {
                return Err(ScanError::Path { path: asset, root: r.to_owned() });
            },
        },
        None => asset.clone(),
    };
    let asset_file: Option<String> = if asset_is_file {
        Some(asset)
    } else {
        None
    };
    Ok(UnityMeta { guid, path: logical, asset_file, meta_file: path.to_owned() })
}

/// The scan proper.  Every observed descriptor yields exactly one entry,
/// in the order given; the first descriptor that yields no identifier or
/// whose asset path does not lie under the root aborts the whole scan
/// with the matching error, and nothing is returned.
pub fn find_unity_meta(files: &Vec<DescriptorSource>, unity_root: Option<&str>) -> (r: Result<
    Vec<UnityMeta>,
    ScanError,
>)
    requires
        forall|i: int| 0 <= i < files@.len() ==> spec_is_descriptor_path(files@[i].path@),
    ensures
        r is Ok <==> (forall|i: int|
            0 <= i < files@.len() ==> spec_source_ok(files@[i], spec_root_view(unity_root))),
        r matches Ok(v) ==> {
            &&& v@.len() == files@.len()
            &&& forall|i: int|
                0 <= i < files@.len() ==> spec_entry_matches(
                    files@[i],
                    spec_root_view(unity_root),
                    v@[i],
                )
        },
        r matches Err(e) ==> (exists|i: int|
            {
                &&& 0 <= i < files@.len()
                &&& !spec_source_ok(files@[i], spec_root_view(unity_root))
                &&& (forall|j: int| 0 <= j < i ==> spec_source_ok(files@[j], spec_root_view(unity_root)))
                &&& spec_error_matches(e, files@[i], spec_root_view(unity_root))
            }),
{
    let ghost rv = spec_root_view(unity_root);
    let mut res: Vec<UnityMeta> = Vec::new();
    let mut i: usize = 0;
    while i < files.len()
        invariant
            i <= files@.len(),
            rv == spec_root_view(unity_root),
            forall|k: int| 0 <= k < files@.len() ==> spec_is_descriptor_path(files@[k].path@),
            res@.len() == i,
            forall|k: int| 0 <= k < i ==> spec_source_ok(files@[k], rv),
            forall|k: int| 0 <= k < i ==> spec_entry_matches(files@[k], rv, res@[k]),
        decreases files@.len() - i,
    {
        let d = &files[i];
        let guid: String = match parse_guid(d.content.as_str()) {
            Some(g) => g,
            None => {
                return Err(ScanError::Parse { file: d.path.clone() });
            },
        };
        match entry_from_parts(d.path.as_str(), guid, d.asset_is_file, unity_root) {
            Ok(m) => {
                res.push(m);
            },
            Err(e) => {
                return Err(e);
            },
        }
        i = i + 1;
    }
    Ok(res)
}

} // verus!
