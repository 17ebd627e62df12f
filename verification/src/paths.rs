//! Path operations. The component-level parsing of `std::path` is called through
//! trusted wrappers whose results are named; the mapping of build products into the
//! LLVM IR tree is verified on top of them.
use vstd::prelude::*;
use crate::text::{chars_of, concat, owned};

verus! {

broadcast use vstd::string::group_string_axioms;

/// The view of an optional string.
pub open spec fn opt_view(o: Option<String>) -> Option<Seq<char>> {
    match o {
        Some(s) => Some(s@),
        None => None,
    }
}

/// What `Path::file_name` gives for the path `p`.
pub uninterp spec fn path_file_name(p: Seq<char>) -> Option<Seq<char>>;

/// What `Path::parent` gives for the path `p`.
pub uninterp spec fn path_parent(p: Seq<char>) -> Option<Seq<char>>;

/// What `Path::join` gives for the base `base` and the path `p`.
pub uninterp spec fn path_join(base: Seq<char>, p: Seq<char>) -> Seq<char>;

/// What `Path::strip_prefix` gives for the path `p` and the prefix `prefix`.
pub uninterp spec fn path_strip_prefix(p: Seq<char>, prefix: Seq<char>) -> Option<Seq<char>>;

/// What `Path::with_extension` gives for the path `p` and the extension `ext`.
pub uninterp spec fn path_with_extension(p: Seq<char>, ext: Seq<char>) -> Seq<char>;

/// What `Path::extension` gives for the path `p`.
pub uninterp spec fn path_extension(p: Seq<char>) -> Option<Seq<char>>;

/// What `Path::file_stem` gives for the path `p`.
pub uninterp spec fn path_file_stem(p: Seq<char>) -> Option<Seq<char>>;

/// The final component of `p` through `Path::file_name`; its result is named, not stated.
#[verifier::external_body]
pub(crate) fn file_name(p: &str) -> (r: Option<String>)
    ensures
        opt_view(r) == path_file_name(p@),
{
    std::path::Path::new(p).file_name().map(|n| n.to_string_lossy().into_owned())
}

/// The parent of `p` through `Path::parent`; its result is named, not stated.
#[verifier::external_body]
pub(crate) fn parent(p: &str) -> (r: Option<String>)
    ensures
        opt_view(r) == path_parent(p@),
{
    std::path::Path::new(p).parent().map(|n| n.to_string_lossy().into_owned())
}

/// `p` appended to `base` through `Path::join`; its result is named, not stated. Its
/// documentation says that an absolute `p` replaces `base`, and otherwise `p` is appended to
/// `base`, so that the result of an absolute base is absolute too.
#[verifier::external_body]
pub(crate) fn join_path(base: &str, p: &str) -> (r: String)
    ensures
        r@ == path_join(base@, p@),
        is_absolute_path(p@) ==> r@ == p@,
        is_absolute_path(base@) ==> is_absolute_path(r@),
{
    std::path::Path::new(base).join(p).to_string_lossy().into_owned()
}

/// `p` without the leading components `prefix`, through `Path::strip_prefix`; its result is
/// named, not stated. Its documentation says that it fails only where `prefix` is not a prefix
/// of `p` by whole components, so an absolute path always has the root `/` to strip.
#[verifier::external_body]
pub(crate) fn strip_path_prefix(p: &str, prefix: &str) -> (r: Option<String>)
    ensures
        opt_view(r) == path_strip_prefix(p@, prefix@),
        is_absolute_path(p@) && prefix@ == seq!['/'] ==> r is Some,
{
    std::path::Path::new(p).strip_prefix(prefix).ok().map(|n| n.to_string_lossy().into_owned())
}

/// `p` with its extension set to `ext`, through `Path::with_extension`; its result is named,
/// not stated. It panics on an extension that holds a path separator, which is left out.
#[verifier::external_body]
pub(crate) fn with_extension(p: &str, ext: &str) -> (r: String)
    requires
        !ext@.contains('/'),
    ensures
        r@ == path_with_extension(p@, ext@),
{
    std::path::Path::new(p).with_extension(ext).to_string_lossy().into_owned()
}

/// The extension of `p`, through `Path::extension`; its result is named, not stated.
#[verifier::external_body]
pub(crate) fn extension(p: &str) -> (r: Option<String>)
    ensures
        opt_view(r) == path_extension(p@),
{
    std::path::Path::new(p).extension().map(|n| n.to_string_lossy().into_owned())
}

/// The file name of `p` without its extension, through `Path::file_stem`; its result is
/// named, not stated.
#[verifier::external_body]
pub(crate) fn file_stem(p: &str) -> (r: Option<String>)
    ensures
        opt_view(r) == path_file_stem(p@),
{
    std::path::Path::new(p).file_stem().map(|n| n.to_string_lossy().into_owned())
}

/// What `==` on `Path` (which compares paths component by component, so that `a/./b` and
/// `a/b` are equal) gives for `a` and `b`.
pub uninterp spec fn path_eq(a: Seq<char>, b: Seq<char>) -> bool;

/// Whether `a` and `b` are the same path, through `==` on `Path`; its result is named, not
/// stated. `Path` implements `Eq`, so a path equals itself.
#[verifier::external_body]
pub(crate) fn same_path(a: &str, b: &str) -> (r: bool)
    ensures
        r == path_eq(a@, b@),
        a@ == b@ ==> r,
{
    std::path::Path::new(a) == std::path::Path::new(b)
}

/// Whether something exists at `p`, through `Path::exists`. The answer depends on the file
/// system at the time of the call, so nothing is stated of it.
#[verifier::external_body]
pub(crate) fn path_exists(p: &str) -> (r: bool) {
    std::path::Path::new(p).exists()
}

/// The file system, asked through [`path_exists`] whether something exists at `p`, answered
/// `b` (on some call). Nothing more is known of it than what such calls give: an answer
/// that no call gave cannot be claimed.
pub closed spec fn exists_answer(p: Seq<char>, b: bool) -> bool {
    exists|s: &str| s@ == p && #[trigger] call_ensures(path_exists, (s,), b)
}

/// Asks the file system whether something exists at `p`; the answer is recorded as
/// [`exists_answer`].
pub(crate) fn ask_exists(p: &str) -> (r: bool)
    ensures
        exists_answer(p@, r),
{
    path_exists(p)
}

/// Whether `p` names a directory, through `Path::is_dir`. The answer depends on the file
/// system at the time of the call, so nothing is stated of it.
#[verifier::external_body]
pub(crate) fn path_is_dir(p: &str) -> (r: bool) {
    std::path::Path::new(p).is_dir()
}

/// The canonical form of `p`, through `Path::canonicalize`. It depends on the file system at
/// the time of the call; its documentation promises an absolute path, which is all that is
/// stated of it.
#[verifier::external_body]
pub(crate) fn canonicalize(p: &str) -> (r: Option<String>)
    ensures
        r matches Some(c) ==> is_absolute_path(c@),
{
    std::path::Path::new(p).canonicalize().ok().map(|n| n.to_string_lossy().into_owned())
}

/// The file system, asked through [`canonicalize`] for the canonical form of `p`, answered
/// `r` (on some call). Nothing more is known of it than what such calls give.
pub closed spec fn canonical_answer(p: Seq<char>, r: Option<Seq<char>>) -> bool {
    exists|s: &str, o: Option<String>|
        s@ == p && opt_view(o) == r && #[trigger] call_ensures(canonicalize, (s,), o)
}

/// Asks the file system for the canonical form of `p`; the answer is recorded as
/// [`canonical_answer`].
pub(crate) fn ask_canonical(p: &str) -> (r: Option<String>)
    ensures
        canonical_answer(p@, opt_view(r)),
        r matches Some(c) ==> is_absolute_path(c@),
{
    canonicalize(p)
}

/// The file system, asked through [`path_is_dir`] whether `p` names a directory, answered
/// `b` (on some call). Nothing more is known of it than what such calls give.
pub closed spec fn dir_answer(p: Seq<char>, b: bool) -> bool {
    exists|s: &str| s@ == p && #[trigger] call_ensures(path_is_dir, (s,), b)
}

/// Asks the file system whether `p` names a directory; the answer is recorded as
/// [`dir_answer`].
pub(crate) fn ask_is_dir(p: &str) -> (r: bool)
    ensures
        dir_answer(p@, r),
{
    path_is_dir(p)
}

/// On Unix a path is absolute exactly when it begins with the root `/`.
pub open spec fn is_absolute_path(p: Seq<char>) -> bool {
    p.len() > 0 && p[0] == '/'
}

/// Whether `p` is an absolute path.
pub fn is_absolute(p: &str) -> (r: bool)
    ensures
        r == is_absolute_path(p@),
{
    let v = chars_of(p);
    v.len() > 0 && v[0] == '/'
}

/// `p` as seen from the working directory `cwd`.
pub open spec fn absolute_of(p: Seq<char>, cwd: Seq<char>) -> Seq<char> {
    if is_absolute_path(p) {
        p
    } else {
        path_join(cwd, p)
    }
}

/// The absolute form of `path`, relative paths being taken from the working directory `cwd`.
pub fn get_absolute_path(path: &str, cwd: &str) -> (r: String)
    ensures
        r@ == absolute_of(path@, cwd@),
{
    if is_absolute(path) {
        owned(path)
    } else {
        join_path(cwd, path)
    }
}

/// Where the IR tree under `llvmir_dir` mirrors the absolute path `abs`: `abs` with its root
/// removed, appended to `llvmir_dir`.
pub open spec fn mirrored(abs: Seq<char>, llvmir_dir: Seq<char>) -> Seq<char> {
    let rel = match path_strip_prefix(abs, seq!['/']) {
        Some(r) => r,
        None => abs,
    };
    path_join(llvmir_dir, rel)
}

/// The location under `llvmir_dir` that mirrors `path`, seen from `cwd`.
pub open spec fn llvmir_location(path: Seq<char>, cwd: Seq<char>, llvmir_dir: Seq<char>) -> Seq<
    char,
> {
    mirrored(absolute_of(path, cwd), llvmir_dir)
}

/// The location under `llvmir_dir` that mirrors the absolute path `abs`.
pub fn mirror_path(abs: &str, llvmir_dir: &str) -> (r: String)
    ensures
        r@ == mirrored(abs@, llvmir_dir@),
{
    let root = "/";
    proof {
        reveal_strlit("/");
        assert(root@ =~= seq!['/']);
    }
    match strip_path_prefix(abs, root) {
        Some(rel) => join_path(llvmir_dir, rel.as_str()),
        None => join_path(llvmir_dir, abs),
    }
}

/// The path in the LLVM IR tree `llvmir_dir` that corresponds to `path`: the absolute form of
/// `path` without its leading `/`, appended to `llvmir_dir`.
pub fn compute_llvmir_path(path: &str, cwd: &str, llvmir_dir: &str) -> (r: String)
    ensures
        r@ == llvmir_location(path@, cwd@, llvmir_dir@),
{
    let abs = get_absolute_path(path, cwd);
    mirror_path(abs.as_str(), llvmir_dir)
}

/// The directory in the LLVM IR tree that corresponds to the directory `target_dir`; the same
/// mapping as for files.
pub fn compute_llvmir_target_dir(target_dir: &str, cwd: &str, llvmir_dir: &str) -> (r: String)
    ensures
        r@ == llvmir_location(target_dir@, cwd@, llvmir_dir@),
{
    compute_llvmir_path(target_dir, cwd, llvmir_dir)
}

/// `path` followed directly by `suffix`.
pub fn append_tmp_suffix(path: &str, suffix: &str) -> (r: String)
    ensures
        r@ == path@ + suffix@,
{
    concat(path, suffix)
}

/// What `pathdiff::diff_paths` gives for the path `path` and the base directory `base`.
pub uninterp spec fn path_relative_to(path: Seq<char>, base: Seq<char>) -> Option<Seq<char>>;

/// The path that leads from the directory `base` to `path`, through `pathdiff::diff_paths`.
/// Its result is named, not stated; the source of that function also shows that an absolute
/// `path` seen from a relative `base` comes back unchanged, and that a relative `path` seen
/// from an absolute `base` has no such path.
#[verifier::external_body]
pub(crate) fn diff_paths(path: &str, base: &str) -> (r: Option<String>)
    ensures
        opt_view(r) == path_relative_to(path@, base@),
        is_absolute_path(path@) && !is_absolute_path(base@) ==> opt_view(r) == Some(path@),
        !is_absolute_path(path@) && is_absolute_path(base@) ==> r is None,
{
    pathdiff::diff_paths(path, base).map(|p| p.to_string_lossy().into_owned())
}

/// The mirror of an absolute path does not depend on the working directory.
pub proof fn lemma_absolute_mirror_ignores_cwd(
    path: Seq<char>,
    cwd1: Seq<char>,
    cwd2: Seq<char>,
    llvmir_dir: Seq<char>,
)
    requires
        is_absolute_path(path),
    ensures
        llvmir_location(path, cwd1, llvmir_dir) == llvmir_location(path, cwd2, llvmir_dir),
        llvmir_location(path, cwd1, llvmir_dir) == mirrored(path, llvmir_dir),
{
}

} // verus!
