//! The installation manifest of Meson (`intro-installed.json`): reading it, and where the IR
//! of each installed product goes.
use vstd::prelude::*;
use crate::paths::{
    is_absolute, is_absolute_path, join_path, path_join, path_strip_prefix, strip_path_prefix,
};

verus! {

broadcast use vstd::string::group_string_axioms;

/// The error of `serde_json`, carried through without looking inside.
#[verifier::external_type_specification]
#[verifier::external_body]
pub struct ExJsonError(serde_json::Error);

/// The entries of a list of string pairs.
pub open spec fn pairs_view(v: Seq<(String, String)>) -> Seq<(Seq<char>, Seq<char>)> {
    Seq::new(v.len(), |i: int| (v[i].0@, v[i].1@))
}

/// What `serde_json::from_str` gives for `text` read as a map from strings to strings: its
/// entries in the order of the map's keys, or `None` where `text` is no such map.
pub uninterp spec fn json_string_map(text: Seq<char>) -> Option<Seq<(Seq<char>, Seq<char>)>>;

/// Reads `text` as a JSON object whose values are strings, through `serde_json::from_str`
/// into a `BTreeMap<String, String>`, whose entries come out in the order of their keys. The
/// result is named, not stated; the map holds each key once, so no two entries share a key.
#[verifier::external_body]
fn parse_string_map(text: &str) -> (r: Result<Vec<(String, String)>, serde_json::Error>)
    ensures
        r is Ok <==> json_string_map(text@) is Some,
        r matches Ok(v) ==> pairs_view(v@) == json_string_map(text@)->0,
        r matches Ok(v) ==> forall|i: int, j: int|
            0 <= i < j < v@.len() ==> #[trigger] v@[i].0@ != #[trigger] v@[j].0@,
{
    serde_json::from_str::<std::collections::BTreeMap<String, String>>(text).map(
        |m| m.into_iter().collect(),
    )
}

/// The message of a `serde_json` error, through its `Display` implementation.
#[verifier::external_body]
fn json_error_text(e: &serde_json::Error) -> (r: String) {
    e.to_string()
}

/// Why a manifest could not be read.
pub struct ManifestError {
    /// What the JSON reader reported.
    pub message: String,
}

/// The entries (build product, installed path) of the Meson manifest `text`, in the order of
/// the products; an error where `text` is not a JSON object of strings.
pub fn read_meson_manifest(text: &str) -> (r: Result<Vec<(String, String)>, ManifestError>)
    ensures
        r is Ok <==> json_string_map(text@) is Some,
        r matches Ok(v) ==> pairs_view(v@) == json_string_map(text@)->0,
        r matches Ok(v) ==> forall|i: int, j: int|
            0 <= i < j < v@.len() ==> #[trigger] v@[i].0@ != #[trigger] v@[j].0@,
{
    match parse_string_map(text) {
        Ok(v) => Ok(v),
        Err(e) => Err(ManifestError { message: json_error_text(&e) }),
    }
}

/// What becomes of one entry of the manifest.
pub enum MesonTarget {
    /// A relative product: an installed symbolic link, with no IR of its own.
    Skip,
    /// The installed path is relative, which Meson never writes.
    NotAbsolute,
    /// The IR is installed for the product placed at this path.
    Install(String),
}

/// The mathematical form of [`MesonTarget`].
pub enum MesonTargetView {
    Skip,
    NotAbsolute,
    Install(Seq<char>),
}

impl MesonTarget {
    pub open spec fn view(&self) -> MesonTargetView {
        match self {
            MesonTarget::Skip => MesonTargetView::Skip,
            MesonTarget::NotAbsolute => MesonTargetView::NotAbsolute,
            MesonTarget::Install(p) => MesonTargetView::Install(p@),
        }
    }
}

/// What becomes of the manifest entry that installs `source` at `installed`, the installation
/// going to `destdir`: a relative product is skipped; a relative installed path is refused;
/// otherwise the product is placed at `installed` without its root, under `destdir`.
pub open spec fn meson_target(source: Seq<char>, installed: Seq<char>, destdir: Seq<char>) -> MesonTargetView {
    if !is_absolute_path(source) {
        MesonTargetView::Skip
    } else if !is_absolute_path(installed) {
        MesonTargetView::NotAbsolute
    } else {
        MesonTargetView::Install(path_join(destdir, path_strip_prefix(installed, seq!['/'])->0))
    }
}

/// What becomes of the manifest entry that installs `source` at `installed` under `destdir`.
pub fn meson_install_target(source: &str, installed: &str, destdir: &str) -> (r: MesonTarget)
    ensures
        r.view() == meson_target(source@, installed@, destdir@),
{
    if !is_absolute(source) {
        return MesonTarget::Skip;
    }
    if !is_absolute(installed) {
        return MesonTarget::NotAbsolute;
    }
    let root = "/";
    proof {
        reveal_strlit("/");
        assert(root@ =~= seq!['/']);
    }
    match strip_path_prefix(installed, root) {
        Some(rel) => MesonTarget::Install(join_path(destdir, rel.as_str())),
        None => MesonTarget::NotAbsolute,
    }
}

/// The views of manifest targets.
pub open spec fn targets_view(v: Seq<MesonTarget>) -> Seq<MesonTargetView> {
    Seq::new(v.len(), |i: int| v[i].view())
}

/// What becomes of each entry of the manifest `entries`, the installation going to
/// `destdir`.
pub fn meson_install_targets(entries: &Vec<(String, String)>, destdir: &str) -> (r: Vec<MesonTarget>)
    ensures
        targets_view(r@) == Seq::new(
            entries@.len(),
            |i: int| meson_target(entries@[i].0@, entries@[i].1@, destdir@),
        ),
{
    let mut out: Vec<MesonTarget> = Vec::new();
    let mut i: usize = 0;
    while i < entries.len()
        invariant
            i <= entries.len(),
            out@.len() == i,
            forall|k: int|
                0 <= k < i ==> #[trigger] out@[k].view() == meson_target(
                    entries@[k].0@,
                    entries@[k].1@,
                    destdir@,
                ),
        decreases entries.len() - i,
    {
        let t = meson_install_target(entries[i].0.as_str(), entries[i].1.as_str(), destdir);
        out.push(t);
        i += 1;
    }
    assert(targets_view(out@) =~= Seq::new(
        entries@.len(),
        |i: int| meson_target(entries@[i].0@, entries@[i].1@, destdir@),
    ));
    out
}

} // verus!
