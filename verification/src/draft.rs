//! Rebinding the materials of a ready draft (`draft_package` bundles): which
//! files of the draft are rewritten, which material entries take a new path,
//! and where a bundled asset is copied inside the draft.

use vstd::prelude::*;
use crate::bundle::AssetKind;
use crate::chars::{decimal, decimal_vec};
use crate::text::{chars_of, push_str, str_eq, string_from_chars};

verus! {

broadcast use vstd::string::group_string_axioms;

/// Why a draft package was refused.
#[derive(Debug, Clone, Copy, PartialEq, Eq)]
pub enum DraftPackageError {
    /// The bundle lists no asset to rebind.
    NoAssets,
}

/// Checks a draft package before anything is copied: it must list assets.
pub fn check_draft_package(asset_count: usize) -> (r: Result<(), DraftPackageError>)
    ensures
        r is Ok <==> asset_count > 0,
{
    if asset_count == 0 {
        return Err(DraftPackageError::NoAssets);
    }
    Ok(())
}

/// Where a draft lists the materials of an asset kind, and the key that
/// names each: `videos` by `material_name` for videos and images, `audios`
/// by `name` for audio.
pub fn material_keys(kind: AssetKind) -> (r: (&'static str, &'static str))
    ensures
        match kind {
            AssetKind::Audio => r.0@ == "audios"@ && r.1@ == "name"@,
            _ => r.0@ == "videos"@ && r.1@ == "material_name"@,
        },
{
    match kind {
        AssetKind::Audio => ("audios", "name"),
        _ => ("videos", "material_name"),
    }
}

/// The files of a draft that hold its material list.
pub open spec fn is_snapshot_name(name: Seq<char>) -> bool {
    name == "draft_content.json"@ || name == "draft_info.json"@ || name == "draft_info.json.bak"@ || name == "template-2.tmp"@
}

/// Whether a file, by its name, holds a snapshot of the draft to rewrite.
pub fn is_draft_snapshot_file(file_name: Option<&str>) -> (r: bool)
    ensures
        r == (file_name matches Some(n) && is_snapshot_name(n@)),
{
    match file_name {
        Some(n) => str_eq(n, "draft_content.json") || str_eq(n, "draft_info.json") || str_eq(n, "draft_info.json.bak")
            || str_eq(n, "template-2.tmp"),
        None => false,
    }
}

/// The indices of the material entries named `name` (entries whose name is
/// missing or not text carry `None`).
pub open spec fn matching_indices(names: Seq<Option<String>>, name: Seq<char>) -> Seq<int>
    decreases names.len(),
{
    if names.len() == 0 {
        Seq::empty()
    } else {
        let prev = matching_indices(names.drop_last(), name);
        if names.last() matches Some(n) && n@ == name {
            prev.push(names.len() - 1)
        } else {
            prev
        }
    }
}

/// The indices of the material entries whose name is `name`, in order: the
/// entries whose path the bundle's asset replaces.
pub fn matching_material_indices(names: &Vec<Option<String>>, name: &str) -> (r: Vec<usize>)
    ensures
        r@.map_values(|i: usize| i as int) == matching_indices(names@, name@),
{
    let mut out: Vec<usize> = Vec::new();
    let mut i: usize = 0;
    assert(names@.take(0) =~= Seq::<Option<String>>::empty());
    while i < names.len()
        invariant
            i <= names.len(),
            out@.map_values(|i: usize| i as int) == matching_indices(names@.take(i as int), name@),
        decreases names.len() - i,
    {
        assert(names@.take(i + 1).drop_last() =~= names@.take(i as int));
        assert(names@.take(i + 1).last() == names@[i as int]);
        let hit = match &names[i] {
            Some(n) => str_eq(n.as_str(), name),
            None => false,
        };
        if hit {
            let ghost prev = out@.map_values(|i: usize| i as int);
            out.push(i);
            assert(out@.map_values(|i: usize| i as int) =~= prev.push(i as int));
        }
        i += 1;
    }
    assert(names@.take(i as int) =~= names@);
    out
}

/// `n` written in decimal with at least four digits, zeros in front.
pub open spec fn padded4(n: nat) -> Seq<char> {
    let d = decimal(n);
    if d.len() < 4 {
        Seq::new((4 - d.len()) as nat, |i: int| '0') + d
    } else {
        d
    }
}

/// The folder and file name a bundled asset is copied to inside the draft:
/// `video` or `audio`, and `<prefix>_<index>_<file name>` with the index in
/// four digits at least and `asset` for a path without file name.
pub open spec fn spec_localized_asset(kind: AssetKind, index: nat, file_name: Option<Seq<char>>) -> (Seq<char>, Seq<char>) {
    let category = match kind {
        AssetKind::Audio => "audio"@,
        _ => "video"@,
    };
    let name = match file_name {
        Some(n) => n,
        None => "asset"@,
    };
    (category, category + "_"@ + padded4(index) + "_"@ + name)
}

/// The folder (under `_assets`) and file name a bundled asset is copied to
/// inside the draft (see [`spec_localized_asset`]).
pub fn localized_asset_name(kind: AssetKind, index: usize, file_name: Option<&str>) -> (r: (String, String))
    ensures
        (r.0@, r.1@) == spec_localized_asset(kind, index as nat, match file_name { Some(n) => Some(n@), None => None }),
{
    let category = match kind {
        AssetKind::Audio => "audio",
        _ => "video",
    };
    let mut v = chars_of(category);
    push_str(&mut v, "_");
    let d = decimal_vec(index as u128);
    let ghost before = v@;
    if d.len() < 4 {
        let mut z: usize = 0;
        let pad = 4 - d.len();
        while z < pad
            invariant
                z <= pad,
                pad == 4 - d@.len(),
                v@ == before + Seq::new(z as nat, |i: int| '0'),
            decreases pad - z,
        {
            v.push('0');
            assert(before + Seq::new((z + 1) as nat, |i: int| '0') =~= (before + Seq::new(z as nat, |i: int| '0')).push('0'));
            z += 1;
        }
    }
    let mut dd = d;
    v.append(&mut dd);
    push_str(&mut v, "_");
    match file_name {
        Some(n) => push_str(&mut v, n),
        None => push_str(&mut v, "asset"),
    }
    assert(v@ =~= category@ + "_"@ + padded4(index as nat) + "_"@ + match file_name { Some(n) => n@, None => "asset"@ });
    (category.to_string(), string_from_chars(&v))
}

} // verus!
