//! Installation of the LLVM IR that belongs to a build product: the command line of
//! `install`, where the IR of an installed file goes, and under which names.
use vstd::prelude::*;
use crate::text::{
    chars_of, concat, contains_seq, contains_str, ends_with, occurs_at, owned, push_string, substring,
    replace_all, replaced, split_whitespace, starts_with, str_eq, strip_prefix, strip_suffix,
    string_of_range, trim, trimmed, words,
};
use crate::link::joined_option;
use crate::paths::{
    compute_llvmir_path, path_eq, same_path, file_name, get_absolute_path, join_path,
    llvmir_location, opt_view, parent, path_file_name, path_join, ask_is_dir, dir_answer,
    ask_canonical, ask_exists, canonical_answer, exists_answer,
    path_parent, path_with_extension, with_extension, absolute_of,
};
use crate::file_ops::{place_at, placed_at, resolve_single_dest};
use crate::cmd_script::{find_first, first_occurrence};

verus! {

broadcast use vstd::string::group_string_axioms;

/// The operands and options of an `install` command.
pub struct InstallArgs {
    pub create_dirs: bool,
    pub target_dir: Option<String>,
    pub sources: Vec<String>,
    pub destination: Option<String>,
    pub mode: Option<String>,
}

/// The mathematical form of [`InstallArgs`].
pub struct InstallArgsView {
    pub create_dirs: bool,
    pub target_dir: Option<Seq<char>>,
    pub sources: Seq<Seq<char>>,
    pub destination: Option<Seq<char>>,
    pub mode: Option<Seq<char>>,
}

impl InstallArgs {
    pub open spec fn view(&self) -> InstallArgsView {
        InstallArgsView {
            create_dirs: self.create_dirs,
            target_dir: self.target_dir.deep_view(),
            sources: self.sources.deep_view(),
            destination: self.destination.deep_view(),
            mode: self.mode.deep_view(),
        }
    }
}

/// An option of `install` whose value (an owner, a group, a backup suffix) follows it as the
/// next argument and names no file.
pub open spec fn value_option(a: Seq<char>) -> bool {
    a == "-o"@ || a == "--owner"@ || a == "-g"@ || a == "--group"@ || a == "-S"@ || a
        == "--suffix"@
}

/// Whether `a` is an option of `install` whose value follows it and names no file.
fn is_value_option(a: &str) -> (r: bool)
    ensures
        r == value_option(a@),
{
    str_eq(a, "-o") || str_eq(a, "--owner") || str_eq(a, "-g") || str_eq(a, "--group") || str_eq(
        a,
        "-S",
    ) || str_eq(a, "--suffix")
}

/// One step of reading an `install` command: the state after the argument at `i`, and how many
/// arguments it takes. Options that take a value (the target directory, the mode, the owner,
/// the group, the backup suffix) take the next argument; a last such option without one is
/// ignored, as are options that this reading does not know.
pub open spec fn install_step(args: Seq<Seq<char>>, i: int, st: InstallArgsView) -> (
    InstallArgsView,
    int,
) {
    let a = args[i];
    let next = if i + 1 < args.len() {
        Some(args[i + 1])
    } else {
        None
    };
    if a == "-d"@ || a == "--directory"@ {
        (InstallArgsView { create_dirs: true, ..st }, 1)
    } else if a == "-t"@ || a == "--target-directory"@ {
        match next {
            Some(v) => (InstallArgsView { target_dir: Some(v), ..st }, 2),
            None => (st, 1),
        }
    } else if a == "-m"@ || a == "--mode"@ {
        match next {
            Some(v) => (InstallArgsView { mode: Some(v), ..st }, 2),
            None => (st, 1),
        }
    } else if value_option(a) {
        match next {
            Some(_) => (st, 2),
            None => (st, 1),
        }
    } else if "--target-directory="@.is_prefix_of(a) {
        (
            InstallArgsView {
                target_dir: Some(a.skip("--target-directory="@.len() as int)),
                ..st
            },
            1,
        )
    } else if joined_option(a, "-t"@) {
        (InstallArgsView { target_dir: Some(a.skip(2)), ..st }, 1)
    } else if "--mode="@.is_prefix_of(a) {
        (InstallArgsView { mode: Some(a.skip("--mode="@.len() as int)), ..st }, 1)
    } else if joined_option(a, "-m"@) {
        (InstallArgsView { mode: Some(a.skip(2)), ..st }, 1)
    } else if !"-"@.is_prefix_of(a) {
        (InstallArgsView { sources: st.sources.push(a), ..st }, 1)
    } else {
        (st, 1)
    }
}

/// Reading an `install` command from position `i` on.
pub open spec fn install_from(args: Seq<Seq<char>>, i: int, st: InstallArgsView) -> InstallArgsView
    decreases args.len() - i,
{
    if i < 0 || i >= args.len() {
        st
    } else {
        let (st2, taken) = install_step(args, i, st);
        install_from(args, i + taken, st2)
    }
}

/// What an `install` command with the arguments `args` (without the program) says: whether it
/// creates directories, its target directory, its operands and its mode; where it creates no
/// directories, has no target directory and more than one operand, the last operand is the
/// destination.
pub open spec fn install_spec(args: Seq<Seq<char>>) -> InstallArgsView {
    let st = install_from(
        args,
        0,
        InstallArgsView {
            create_dirs: false,
            target_dir: None,
            sources: Seq::empty(),
            destination: None,
            mode: None,
        },
    );
    if !st.create_dirs && st.target_dir is None && st.sources.len() > 1 {
        InstallArgsView {
            destination: Some(st.sources.last()),
            sources: st.sources.drop_last(),
            ..st
        }
    } else {
        st
    }
}

/// What an `install` command (its arguments without the program) says.
pub fn parse_install_args(args: &Vec<String>) -> (r: InstallArgs)
    ensures
        r.view() == install_spec(args.deep_view()),
{
    let ghost av = args.deep_view();
    let mut st = InstallArgs {
        create_dirs: false,
        target_dir: None,
        sources: Vec::new(),
        destination: None,
        mode: None,
    };
    assert(st.sources.deep_view() =~= Seq::<Seq<char>>::empty());
    let ghost init = st.view();
    let n = args.len();
    let mut i: usize = 0;
    while i < n
        invariant
            n == args.len(),
            av == args.deep_view(),
            i <= n,
            install_from(av, i as int, st.view()) == install_from(av, 0, init),
        decreases n - i,
    {
        let a = args[i].as_str();
        assert(a@ == av[i as int]);
        if str_eq(a, "-d") || str_eq(a, "--directory") {
            st.create_dirs = true;
            i += 1;
            continue;
        }
        if str_eq(a, "-t") || str_eq(a, "--target-directory") {
            if i + 1 < n {
                st.target_dir = Some(args[i + 1].clone());
                i += 2;
            } else {
                i += 1;
            }
            continue;
        }
        if str_eq(a, "-m") || str_eq(a, "--mode") {
            if i + 1 < n {
                st.mode = Some(args[i + 1].clone());
                i += 2;
            } else {
                i += 1;
            }
            continue;
        }
        if is_value_option(a) {
            if i + 1 < n {
                i += 2;
            } else {
                i += 1;
            }
            continue;
        }
        if let Some(t) = strip_prefix(a, "--target-directory=") {
            assert(t@ =~= a@.skip("--target-directory="@.len() as int));
            st.target_dir = Some(t);
            i += 1;
            continue;
        }
        if let Some(t) = strip_prefix(a, "-t") {
            if t.as_str().unicode_len() > 0 {
                proof {
                    reveal_strlit("-t");
                }
                assert(t@ =~= a@.skip(2));
                st.target_dir = Some(t);
                i += 1;
                continue;
            }
        }
        if let Some(t) = strip_prefix(a, "--mode=") {
            assert(t@ =~= a@.skip("--mode="@.len() as int));
            st.mode = Some(t);
            i += 1;
            continue;
        }
        if let Some(t) = strip_prefix(a, "-m") {
            if t.as_str().unicode_len() > 0 {
                proof {
                    reveal_strlit("-m");
                }
                assert(t@ =~= a@.skip(2));
                st.mode = Some(t);
                i += 1;
                continue;
            }
        }
        if !starts_with(a, "-") {
            push_string(&mut st.sources, owned(a));
        }
        i += 1;
    }
    if !st.create_dirs && st.target_dir.is_none() && st.sources.len() > 1 {
        let ghost before = st.sources.deep_view();
        let last = st.sources.pop();
        assert(st.sources.deep_view() =~= before.drop_last());
        match last {
            Some(d) => {
                st.destination = Some(d);
            },
            None => {},
        }
    }
    st
}

/// Where `source` is installed with the destination `destination`: inside it under its own
/// name where it is a directory, else at it. Whether it is a directory is asked of the file
/// system, whose answer is not stated.
pub fn installed_path(source: &str, destination: &str) -> (r: String)
    ensures
        exists|is_dir: bool| r@ == #[trigger] placed_at(source@, destination@, is_dir),
{
    resolve_single_dest(source, destination)
}

/// Where the operand `source` of an `install` command is installed: inside the target
/// directory under its own name (empty where it has none), else by the destination, else
/// nowhere. `dest_is_dir` tells whether the destination is a directory.
pub open spec fn install_target(ia: InstallArgsView, source: Seq<char>, dest_is_dir: bool) -> Option<
    Seq<char>,
> {
    match ia.target_dir {
        Some(t) => Some(
            path_join(
                t,
                match path_file_name(source) {
                    Some(n) => n,
                    None => Seq::empty(),
                },
            ),
        ),
        None => match ia.destination {
            Some(d) => Some(placed_at(source, d, dest_is_dir)),
            None => None,
        },
    }
}

/// Where the operand `source` of the `install` command `ia` is installed, `dest_is_dir`
/// telling whether the destination is a directory.
pub fn install_destination_for(ia: &InstallArgs, source: &str, dest_is_dir: bool) -> (r: Option<
    String,
>)
    ensures
        opt_view(r) == install_target(ia.view(), source@, dest_is_dir),
{
    match &ia.target_dir {
        Some(t) => {
            let name = match file_name(source) {
                Some(n) => n,
                None => String::new(),
            };
            Some(join_path(t.as_str(), name.as_str()))
        },
        None => match &ia.destination {
            Some(d) => Some(place_at(source, d.as_str(), dest_is_dir)),
            None => None,
        },
    }
}

/// Where the operand `source` of the `install` command `ia` is installed; whether the
/// destination is a directory is asked of the file system, whose answer is not stated.
pub fn install_destination(ia: &InstallArgs, source: &str) -> (r: Option<String>)
    ensures
        exists|is_dir: bool| opt_view(r) == #[trigger] install_target(ia.view(), source@, is_dir),
        exists|is_dir: bool|
            opt_view(r) == #[trigger] install_target(ia.view(), source@, is_dir) && (ia.view().target_dir
                is None && ia.view().destination is Some ==> dir_answer(ia.view().destination->0, is_dir)),
{
    let is_dir = match (&ia.target_dir, &ia.destination) {
        (None, Some(d)) => ask_is_dir(d.as_str()),
        _ => false,
    };
    install_destination_for(ia, source, is_dir)
}

/// The mirror of `path` under `llvmir_dir`, seen from `cwd`.
pub fn llvmir_path(path: &str, cwd: &str, llvmir_dir: &str) -> (r: String)
    ensures
        r@ == llvmir_location(path@, cwd@, llvmir_dir@),
{
    compute_llvmir_path(path, cwd, llvmir_dir)
}

/// The files that may accompany a build product whose mirror is `base`: the mirror itself,
/// the mirror with extension `bc`, and the mirror's `_cmd` and `_verscript` files.
pub open spec fn base_candidates(base: Seq<char>) -> Seq<Seq<char>> {
    seq![base, path_with_extension(base, "bc"@), base + "_cmd"@, base + "_verscript"@]
}

/// The file name of `path`, empty where it has none.
pub open spec fn name_or_empty(path: Seq<char>) -> Seq<char> {
    match path_file_name(path) {
        Some(n) => n,
        None => Seq::empty(),
    }
}

/// The name of `source` without its final `T`, where it ends with one: a product that was
/// linked under a temporary name.
pub open spec fn name_without_t(source: Seq<char>) -> Option<Seq<char>> {
    match path_file_name(source) {
        Some(n) => if n.len() > 0 && n.last() == 'T' {
            Some(n.drop_last())
        } else {
            None
        },
        None => None,
    }
}

/// For a product linked under a temporary name (ending in `T`), the files that accompany the
/// name without the `T`, beside the mirror `base`.
pub open spec fn untagged_candidates(source: Seq<char>, base: Seq<char>) -> Seq<Seq<char>> {
    match (name_without_t(source), path_parent(base)) {
        (Some(n), Some(p)) => seq![
            path_join(p, n),
            path_join(p, n + ".bc"@),
            path_join(p, n + "_cmd"@),
            path_join(p, n + "_verscript"@),
        ],
        _ => Seq::empty(),
    }
}

/// The files, in the order in which they are looked for, that may hold the IR of `source`
/// and its auxiliary files: those beside the mirror of its absolute path, then, where
/// `resolved` (its canonical form) differs, those beside the mirror of that, then those of the
/// name without a temporary `T`.
pub open spec fn install_candidates(
    source: Seq<char>,
    cwd: Seq<char>,
    llvmir_dir: Seq<char>,
    resolved: Option<Seq<char>>,
) -> Seq<Seq<char>> {
    let abs = absolute_of(source, cwd);
    let res = match resolved {
        Some(r) => r,
        None => abs,
    };
    let b0 = llvmir_location(abs, cwd, llvmir_dir);
    let bases = if !path_eq(res, abs) {
        base_candidates(b0) + base_candidates(llvmir_location(res, cwd, llvmir_dir))
    } else {
        base_candidates(b0)
    };
    bases + untagged_candidates(source, b0)
}

/// Appends the files that accompany the mirror `base`.
fn push_base_candidates(v: &mut Vec<String>, base: &str)
    ensures
        final(v).deep_view() == old(v).deep_view() + base_candidates(base@),
{
    let ghost before = v.deep_view();
    push_string(v, owned(base));
    proof {
        reveal_strlit("bc");
    }
    push_string(v, with_extension(base, "bc"));
    push_string(v, concat(base, "_cmd"));
    push_string(v, concat(base, "_verscript"));
    proof {
        reveal_strlit("bc");
    }
    assert(v.deep_view() =~= before + base_candidates(base@));
}

/// The files that may hold the IR of `source` and its auxiliary files, `resolved` being the
/// canonical form of its absolute path where the file system gave one.
pub fn install_candidate_files(
    source: &str,
    cwd: &str,
    llvmir_dir: &str,
    resolved: Option<String>,
) -> (r: Vec<String>)
    ensures
        r.deep_view() == install_candidates(source@, cwd@, llvmir_dir@, opt_view(resolved)),
{
    let abs = get_absolute_path(source, cwd);
    let res = match resolved {
        Some(r) => r,
        None => owned(abs.as_str()),
    };
    let b0 = llvmir_path(abs.as_str(), cwd, llvmir_dir);
    let mut v: Vec<String> = Vec::new();
    assert(v.deep_view() =~= Seq::<Seq<char>>::empty());
    push_base_candidates(&mut v, b0.as_str());
    if !same_path(res.as_str(), abs.as_str()) {
        let b1 = llvmir_path(res.as_str(), cwd, llvmir_dir);
        push_base_candidates(&mut v, b1.as_str());
    }
    let ghost before = v.deep_view();
    let name = file_name(source);
    let par = parent(b0.as_str());
    match (name, par) {
        (Some(n), Some(p)) => {
            let nv = chars_of(n.as_str());
            if nv.len() > 0 && nv[nv.len() - 1] == 'T' {
                let stem = string_of_range(&nv, 0, nv.len() - 1);
                assert(stem@ =~= n@.drop_last());
                push_string(&mut v, join_path(p.as_str(), stem.as_str()));
                let a = concat(stem.as_str(), ".bc");
                push_string(&mut v, join_path(p.as_str(), a.as_str()));
                let b = concat(stem.as_str(), "_cmd");
                push_string(&mut v, join_path(p.as_str(), b.as_str()));
                let c = concat(stem.as_str(), "_verscript");
                push_string(&mut v, join_path(p.as_str(), c.as_str()));
                assert(v.deep_view() =~= before + untagged_candidates(source@, b0@));
            } else {
                assert(v.deep_view() =~= before + untagged_candidates(source@, b0@));
            }
        },
        _ => {
            assert(v.deep_view() =~= before + untagged_candidates(source@, b0@));
        },
    }
    v
}

/// `files` holds a path that is the same path as `path` (by `Path` equality).
pub open spec fn holds_path(files: Seq<Seq<char>>, path: Seq<char>) -> bool {
    exists|j: int| 0 <= j < files.len() && path_eq(files[j], path)
}

/// `files` after looking at `path`: with `path` appended where it exists (`exists`) and no
/// file already there is the same path.
pub open spec fn with_if_present(files: Seq<Seq<char>>, path: Seq<char>, exists: bool) -> Seq<
    Seq<char>,
> {
    if exists && !holds_path(files, path) {
        files.push(path)
    } else {
        files
    }
}

/// The first `n` of `cands` that exist (`present`), each once, in their order.
pub open spec fn present_distinct(cands: Seq<Seq<char>>, present: Seq<bool>, n: int) -> Seq<
    Seq<char>,
>
    decreases n,
{
    if n <= 0 {
        Seq::empty()
    } else {
        with_if_present(present_distinct(cands, present, n - 1), cands[n - 1], present[n - 1])
    }
}

/// Appends `path` to `files` where it exists (`exists`, as the file system answered) and no
/// file already there is the same path.
pub fn add_if_exists(files: &mut Vec<String>, path: String, exists: bool)
    ensures
        final(files).deep_view() == with_if_present(old(files).deep_view(), path@, exists),
{
    if !exists {
        return;
    }
    let ghost fv = files.deep_view();
    let mut i: usize = 0;
    while i < files.len()
        invariant
            fv == files.deep_view(),
            i <= files.len(),
            forall|j: int| 0 <= j < i ==> !path_eq(fv[j], path@),
        decreases files.len() - i,
    {
        if same_path(files[i].as_str(), path.as_str()) {
            assert(path_eq(fv[i as int], path@));
            assert(holds_path(fv, path@));
            return;
        }
        i += 1;
    }
    assert(!holds_path(fv, path@));
    push_string(files, path);
}

/// The files that hold the IR of `source` and its auxiliary files, each once, in the order in
/// which they are looked for (see [`install_candidates`]). Which of them exist, and the
/// canonical form of the path, are asked of the file system, whose answers are not stated.
pub fn find_llvmir_files(source: &str, cwd: &str, llvmir_dir: &str) -> (r: Vec<String>)
    ensures
        exists|resolved: Option<Seq<char>>, present: Seq<bool>|
            #![trigger install_candidates(source@, cwd@, llvmir_dir@, resolved), present_distinct(
                install_candidates(source@, cwd@, llvmir_dir@, resolved),
                present,
                present.len() as int,
            )]
            present.len() == install_candidates(source@, cwd@, llvmir_dir@, resolved).len()
                && r.deep_view() == present_distinct(
                install_candidates(source@, cwd@, llvmir_dir@, resolved),
                present,
                present.len() as int,
            ),
        exists|resolved: Option<Seq<char>>, present: Seq<bool>|
            #![trigger install_candidates(source@, cwd@, llvmir_dir@, resolved), present_distinct(
                install_candidates(source@, cwd@, llvmir_dir@, resolved),
                present,
                present.len() as int,
            )]
            canonical_answer(absolute_of(source@, cwd@), resolved) && answered_candidates(
                install_candidates(source@, cwd@, llvmir_dir@, resolved),
                present,
            ) && r.deep_view() == present_distinct(
                install_candidates(source@, cwd@, llvmir_dir@, resolved),
                present,
                present.len() as int,
            ),
{
    let abs = get_absolute_path(source, cwd);
    let resolved = ask_canonical(abs.as_str());
    let ghost rv = opt_view(resolved);
    let cands = install_candidate_files(source, cwd, llvmir_dir, resolved);
    let ghost cv = cands.deep_view();
    let mut files: Vec<String> = Vec::new();
    let ghost mut present: Seq<bool> = Seq::empty();
    assert(files.deep_view() =~= Seq::<Seq<char>>::empty());
    let mut i: usize = 0;
    while i < cands.len()
        invariant
            cv == cands.deep_view(),
            i <= cands.len(),
            present.len() == i,
            files.deep_view() == present_distinct(cv, present, i as int),
            forall|k: int| 0 <= k < i ==> exists_answer(cv[k], #[trigger] present[k]),
        decreases cands.len() - i,
    {
        let c = cands[i].clone();
        assert(c@ == cv[i as int]);
        let e = ask_exists(c.as_str());
        proof {
            lemma_present_distinct_prefix(cv, present.push(e), present, i as int);
            present = present.push(e);
        }
        add_if_exists(&mut files, c, e);
        i += 1;
    }
    assert(present.len() == install_candidates(source@, cwd@, llvmir_dir@, rv).len());
    assert(answered_candidates(cv, present));
    files
}

/// `present` holds, candidate by candidate, what the file system answered when asked whether
/// the candidate exists.
pub open spec fn answered_candidates(cands: Seq<Seq<char>>, present: Seq<bool>) -> bool {
    present.len() == cands.len() && forall|i: int|
        0 <= i < cands.len() ==> exists_answer(cands[i], #[trigger] present[i])
}

/// `files` holds `path` itself or a path that is the same path.
pub open spec fn has_same(files: Seq<Seq<char>>, path: Seq<char>) -> bool {
    exists|j: int| 0 <= j < files.len() && (files[j] == path || path_eq(#[trigger] files[j], path))
}

/// The IR files found for an installed product are exactly the candidates that the file
/// system said exist: each file found was said to exist, and each candidate said to exist is
/// found, itself or as a path that is the same path found before it.
pub proof fn lemma_found_files_were_said_to_exist(cands: Seq<Seq<char>>, present: Seq<bool>)
    requires
        answered_candidates(cands, present),
    ensures
        forall|k: int|
            0 <= k < present_distinct(cands, present, present.len() as int).len() ==> exists_answer(
                #[trigger] present_distinct(cands, present, present.len() as int)[k],
                true,
            ),
        forall|i: int|
            0 <= i < cands.len() && #[trigger] present[i] ==> has_same(
                present_distinct(cands, present, present.len() as int),
                cands[i],
            ),
{
    let n = present.len() as int;
    lemma_found_files_distinct(cands, present, n);
    let r = present_distinct(cands, present, n);
    assert forall|k: int| 0 <= k < r.len() implies exists_answer(#[trigger] r[k], true) by {
        let j = choose|j: int| 0 <= j < n && present[j] && #[trigger] r[k] == cands[j];
        assert(exists_answer(cands[j], present[j]));
    }
    lemma_present_kept(cands, present, n);
}

/// Each candidate among the first `n` that is present is kept, itself or as the same path.
proof fn lemma_present_kept(cands: Seq<Seq<char>>, present: Seq<bool>, n: int)
    requires
        0 <= n <= cands.len(),
        n <= present.len(),
    ensures
        forall|i: int|
            0 <= i < n && #[trigger] present[i] ==> has_same(present_distinct(cands, present, n), cands[i]),
    decreases n,
{
    if n > 0 {
        lemma_present_kept(cands, present, n - 1);
        let prev = present_distinct(cands, present, n - 1);
        let cur = present_distinct(cands, present, n);
        assert(prev.is_prefix_of(cur));
        assert forall|i: int| 0 <= i < n && #[trigger] present[i] implies has_same(cur, cands[i]) by {
            if i < n - 1 {
                let j = choose|j: int| 0 <= j < prev.len() && (prev[j] == cands[i] || path_eq(#[trigger] prev[j], cands[i]));
                assert(cur[j] == prev[j]);
            } else if holds_path(prev, cands[i]) {
                let j = choose|j: int| 0 <= j < prev.len() && path_eq(prev[j], cands[i]);
                assert(cur[j] == prev[j]);
            } else {
                assert(cur[cur.len() - 1] == cands[i]);
            }
        }
    }
}

/// The files kept among the first `n` candidates depend only on the first `n` answers.
proof fn lemma_present_distinct_prefix(cands: Seq<Seq<char>>, p: Seq<bool>, q: Seq<bool>, n: int)
    requires
        0 <= n <= p.len(),
        n <= q.len(),
        forall|i: int| 0 <= i < n ==> p[i] == q[i],
    ensures
        present_distinct(cands, p, n) == present_distinct(cands, q, n),
    decreases n,
{
    if n > 0 {
        lemma_present_distinct_prefix(cands, p, q, n - 1);
    }
}

/// The IR files found for an installed product are found once each: no file found later is
/// the same path (by `Path` equality) as one found earlier, and each is a candidate that was
/// looked for and exists.
pub proof fn lemma_found_files_distinct(cands: Seq<Seq<char>>, present: Seq<bool>, n: int)
    requires
        0 <= n <= cands.len(),
        n <= present.len(),
    ensures
        forall|a: int, b: int|
            0 <= a < b < present_distinct(cands, present, n).len() ==> !path_eq(
                #[trigger] present_distinct(cands, present, n)[a],
                #[trigger] present_distinct(cands, present, n)[b],
            ),
        forall|k: int|
            0 <= k < present_distinct(cands, present, n).len() ==> exists|j: int|
                0 <= j < n && present[j] && #[trigger] present_distinct(cands, present, n)[k]
                    == cands[j],
    decreases n,
{
    if n > 0 {
        lemma_found_files_distinct(cands, present, n - 1);
        let prev = present_distinct(cands, present, n - 1);
        let cur = present_distinct(cands, present, n);
        if present[n - 1] && !holds_path(prev, cands[n - 1]) {
            assert(cur == prev.push(cands[n - 1]));
            assert forall|k: int| 0 <= k < cur.len() implies exists|j: int|
                0 <= j < n && present[j] && #[trigger] cur[k] == cands[j] by {
                if k < prev.len() {
                    assert(cur[k] == prev[k]);
                    let j = choose|j: int| 0 <= j < n - 1 && present[j] && prev[k] == cands[j];
                    assert(0 <= j < n && present[j] && cur[k] == cands[j]);
                } else {
                    assert(cur[k] == cands[n - 1]);
                }
            }
            assert forall|a: int, b: int| 0 <= a < b < cur.len() implies !path_eq(
                #[trigger] cur[a],
                #[trigger] cur[b],
            ) by {
                if b < prev.len() {
                    assert(cur[a] == prev[a] && cur[b] == prev[b]);
                } else {
                    assert(cur[a] == prev[a]);
                    assert(cur[b] == cands[n - 1]);
                    if path_eq(prev[a], cands[n - 1]) {
                        assert(holds_path(prev, cands[n - 1]));
                    }
                }
            }
        }
    }
}

/// A file of this name is a shared library: it does not end with `.o`, and ends with `.so`
/// or `.dylib` or holds `.so.` or `.dylib.`.
pub open spec fn shared_library_name(name: Seq<char>) -> bool {
    !".o"@.is_suffix_of(name) && (contains_seq(name, ".so."@) || ".so"@.is_suffix_of(name)
        || ".dylib"@.is_suffix_of(name) || contains_seq(name, ".dylib."@))
}

/// Whether the file name of `path` names a shared library.
pub fn is_shared_library(path: &str) -> (r: bool)
    ensures
        r == shared_library_name(name_or_empty(path@)),
{
    let name = match file_name(path) {
        Some(n) => n,
        None => String::new(),
    };
    let n = name.as_str();
    !ends_with(n, ".o") && (contains_str(n, ".so.") || ends_with(n, ".so") || ends_with(
        n,
        ".dylib",
    ) || contains_str(n, ".dylib."))
}

/// The digits of a mode argument: without surrounding white space and one leading `0`.
pub open spec fn mode_digits(mode: Seq<char>) -> Seq<char> {
    let t = trimmed(mode);
    if "0"@.is_prefix_of(t) {
        t.skip(1)
    } else {
        t
    }
}

/// `c` is an octal digit.
pub open spec fn octal_digit(c: char) -> bool {
    '0' <= c && c <= '7'
}

/// The octal digit `c` has its lowest bit set.
pub open spec fn odd_octal(c: char) -> bool {
    c == '1' || c == '3' || c == '5' || c == '7'
}

/// The mode argument `mode` is an octal number that lets someone execute the file: its digits
/// are octal and one of the last three sets the execute bit.
pub open spec fn mode_executable(mode: Seq<char>) -> bool {
    let m = mode_digits(mode);
    &&& m.len() > 0
    &&& forall|i: int| 0 <= i < m.len() ==> octal_digit(#[trigger] m[i])
    &&& exists|i: int| m.len() - 3 <= i < m.len() && 0 <= i && odd_octal(#[trigger] m[i])
}

/// Whether the octal mode `mode` lets someone execute the file.
pub fn mode_has_execute_bit(mode: &str) -> (r: bool)
    ensures
        r == mode_executable(mode@),
{
    let t = trim(mode);
    let m = match strip_prefix(t.as_str(), "0") {
        Some(rest) => rest,
        None => t,
    };
    proof {
        reveal_strlit("0");
        if "0"@.is_prefix_of(trimmed(mode@)) {
            assert(m@ =~= trimmed(mode@).skip(1));
        }
    }
    assert(m@ == mode_digits(mode@));
    let v = chars_of(m.as_str());
    if v.len() == 0 {
        return false;
    }
    let mut i: usize = 0;
    while i < v.len()
        invariant
            v@ == m@,
            m@ == mode_digits(mode@),
            i <= v.len(),
            forall|j: int| 0 <= j < i ==> octal_digit(#[trigger] v@[j]),
        decreases v.len() - i,
    {
        if !('0' <= v[i] && v[i] <= '7') {
            assert(!octal_digit(v@[i as int]));
            return false;
        }
        i += 1;
    }
    let low: usize = if v.len() >= 3 {
        v.len() - 3
    } else {
        0
    };
    let mut k: usize = low;
    while k < v.len()
        invariant
            v@ == m@,
            m@ == mode_digits(mode@),
            forall|j: int| 0 <= j < v.len() ==> octal_digit(#[trigger] v@[j]),
            low <= k <= v.len(),
            low == (if v.len() >= 3 { v.len() - 3 } else { 0 }),
            forall|j: int| low <= j < k ==> !odd_octal(#[trigger] v@[j]),
        decreases v.len() - k,
    {
        let c = v[k];
        if c == '1' || c == '3' || c == '5' || c == '7' {
            assert(odd_octal(v@[k as int]));
            return true;
        }
        k += 1;
    }
    false
}

/// Whether the product at `path` is an executable: not a shared library, object or archive
/// by its name; an executable where its path holds `/bin/` or the mode `mode` given to
/// `install` lets someone execute it; otherwise where its permission bits `permissions` (as
/// the file system reported them, `None` where it could not) let someone execute it.
pub open spec fn executable_file(path: Seq<char>, mode: Option<Seq<char>>, permissions: Option<
    u32,
>) -> bool {
    let name = name_or_empty(path);
    if shared_library_name(name) || ".o"@.is_suffix_of(name) || ".a"@.is_suffix_of(name) {
        false
    } else if contains_seq(path, "/bin/"@) || (mode matches Some(m) && mode_executable(m)) {
        true
    } else {
        match permissions {
            Some(bits) => bits & 0o111u32 != 0,
            None => false,
        }
    }
}

/// The view of an optional string slice.
pub open spec fn opt_str(o: Option<&str>) -> Option<Seq<char>> {
    match o {
        Some(s) => Some(s@),
        None => None,
    }
}

/// Whether the product at `path` is an executable; `permissions` are its permission bits as
/// the file system reported them.
pub fn is_executable(path: &str, mode: Option<&str>, permissions: Option<u32>) -> (r: bool)
    ensures
        r == executable_file(path@, opt_str(mode), permissions),
{
    let name = match file_name(path) {
        Some(n) => n,
        None => String::new(),
    };
    let n = name.as_str();
    if is_shared_library(path) || ends_with(n, ".o") || ends_with(n, ".a") {
        return false;
    }
    let by_mode = match mode {
        Some(m) => mode_has_execute_bit(m),
        None => false,
    };
    if contains_str(path, "/bin/") || by_mode {
        return true;
    }
    match permissions {
        Some(bits) => bits & 0o111u32 != 0,
        None => false,
    }
}

/// The directory that receives the IR of a product installed at `installed`: for a shared
/// library, `llvmir` under the `lib` directory of its path (or beside it); for an executable,
/// `lib/llvmir-bin` under the prefix of its `bin` directory (or of its parent); otherwise
/// `llvmir` beside it.
pub open spec fn install_dir_for(installed: Seq<char>, shared: bool, executable: bool) -> Seq<char> {
    let parent = match path_parent(installed) {
        Some(p) => p,
        None => installed,
    };
    if shared {
        if contains_seq(parent, "/lib/"@) {
            parent.take(first_occurrence(parent, "/lib/"@) + 4) + "/llvmir"@
        } else {
            path_join(parent, "llvmir"@)
        }
    } else if executable {
        if contains_seq(parent, "/bin/"@) {
            parent.take(first_occurrence(parent, "/bin/"@)) + "/lib/llvmir-bin"@
        } else {
            match path_parent(parent) {
                Some(prefix) => path_join(prefix, "lib/llvmir-bin"@),
                None => path_join(parent, "llvmir-bin"@),
            }
        }
    } else {
        path_join(parent, "llvmir"@)
    }
}

/// The directory that receives the IR of a product installed at `installed_path`.
pub fn llvmir_install_dir(installed_path: &str, shared: bool, executable: bool) -> (r: String)
    ensures
        r@ == install_dir_for(installed_path@, shared, executable),
{
    let par = match parent(installed_path) {
        Some(p) => p,
        None => owned(installed_path),
    };
    let p = par.as_str();
    let pv = chars_of(p);
    if shared {
        match find_first(p, "/lib/") {
            Some(i) => {
                proof {
                    reveal_strlit("/lib/");
                }
                assert(occurs_at(p@, "/lib/"@, i as int));
                let plen = pv.len();
                assert(i + 5 <= plen);
                let head = substring(p, 0, i + 4);
                assert(head@ =~= p@.take(i + 4));
                concat(head.as_str(), "/llvmir")
            },
            None => join_path(p, "llvmir"),
        }
    } else if executable {
        match find_first(p, "/bin/") {
            Some(i) => {
                proof {
                    reveal_strlit("/bin/");
                }
                let head = substring(p, 0, i);
                assert(head@ =~= p@.take(i as int));
                concat(head.as_str(), "/lib/llvmir-bin")
            },
            None => match parent(p) {
                Some(prefix) => join_path(prefix.as_str(), "lib/llvmir-bin"),
                None => join_path(p, "llvmir-bin"),
            },
        }
    } else {
        join_path(p, "llvmir")
    }
}

/// The first of `files` whose name ends with `_cmd`: the re-link script among them.
pub open spec fn first_cmd_file(files: Seq<Seq<char>>) -> Option<Seq<char>>
    decreases files.len(),
{
    if files.len() == 0 {
        None
    } else if "_cmd"@.is_suffix_of(name_or_empty(files[0])) {
        Some(files[0])
    } else {
        first_cmd_file(files.skip(1))
    }
}

/// The re-link script among `files`, if any.
pub fn cmd_file_of(files: &Vec<String>) -> (r: Option<String>)
    ensures
        opt_view(r) == first_cmd_file(files.deep_view()),
{
    let ghost fv = files.deep_view();
    let mut i: usize = 0;
    assert(fv.skip(0) =~= fv);
    while i < files.len()
        invariant
            fv == files.deep_view(),
            i <= files.len(),
            first_cmd_file(fv) == first_cmd_file(fv.skip(i as int)),
        decreases files.len() - i,
    {
        let f = files[i].as_str();
        assert(fv.skip(i as int)[0] == f@);
        assert(fv.skip(i as int).skip(1) =~= fv.skip(i + 1));
        let name = match file_name(f) {
            Some(n) => n,
            None => String::new(),
        };
        if ends_with(name.as_str(), "_cmd") {
            return Some(owned(f));
        }
        i += 1;
    }
    None
}

/// The shared-object name that the linker option `w` sets (`-Wl,-soname,`, `-Wl,-soname=`,
/// `-Wl,-h,` or `-Wl,-h=` followed by it), where it sets a non-empty one.
pub open spec fn soname_of_word(w: Seq<char>) -> Option<Seq<char>> {
    let rest = if "-Wl,-soname,"@.is_prefix_of(w) || "-Wl,-soname="@.is_prefix_of(w) {
        Some(w.skip(12))
    } else if "-Wl,-h,"@.is_prefix_of(w) || "-Wl,-h="@.is_prefix_of(w) {
        Some(w.skip(7))
    } else {
        None
    };
    match rest {
        Some(n) => if n.len() > 0 {
            Some(n)
        } else {
            None
        },
        None => None,
    }
}

/// The shared-object name set by the first of `ws` that sets one.
pub open spec fn first_soname(ws: Seq<Seq<char>>) -> Option<Seq<char>>
    decreases ws.len(),
{
    if ws.len() == 0 {
        None
    } else {
        match soname_of_word(ws[0]) {
            Some(n) => Some(n),
            None => first_soname(ws.skip(1)),
        }
    }
}

/// The shared-object name that the linker option `w` sets.
fn soname_in_word(w: &str) -> (r: Option<String>)
    ensures
        opt_view(r) == soname_of_word(w@),
{
    proof {
        reveal_strlit("-Wl,-soname,");
        reveal_strlit("-Wl,-soname=");
        reveal_strlit("-Wl,-h,");
        reveal_strlit("-Wl,-h=");
    }
    let rest = match strip_prefix(w, "-Wl,-soname,") {
        Some(t) => Some(t),
        None => match strip_prefix(w, "-Wl,-soname=") {
            Some(t) => Some(t),
            None => match strip_prefix(w, "-Wl,-h,") {
                Some(t) => Some(t),
                None => strip_prefix(w, "-Wl,-h="),
            },
        },
    };
    match rest {
        Some(t) => {
            assert(t@ =~= w@.skip(if "-Wl,-soname,"@.is_prefix_of(w@) || "-Wl,-soname="@.is_prefix_of(w@) { 12int } else { 7int }));
            if t.as_str().unicode_len() > 0 {
                Some(t)
            } else {
                None
            }
        },
        None => None,
    }
}

/// The shared-object name that the re-link script `content` passes to the linker: the first
/// white-space separated word of it that sets one.
pub fn soname_in_cmd(content: &str) -> (r: Option<String>)
    ensures
        opt_view(r) == first_soname(words(content@)),
{
    let ws = split_whitespace(content);
    let ghost wv = ws.deep_view();
    let mut i: usize = 0;
    assert(wv.skip(0) =~= wv);
    while i < ws.len()
        invariant
            wv == ws.deep_view(),
            wv == words(content@),
            i <= ws.len(),
            first_soname(wv) == first_soname(wv.skip(i as int)),
        decreases ws.len() - i,
    {
        let w = ws[i].as_str();
        assert(wv.skip(i as int)[0] == w@);
        assert(wv.skip(i as int).skip(1) =~= wv.skip(i + 1));
        match soname_in_word(w) {
            Some(n) => {
                return Some(n);
            },
            None => {},
        }
        i += 1;
    }
    None
}

/// The name under which the file `file` that accompanies the product `source` is installed
/// with the product at `installed`: for a shared library, its shared-object name `soname`
/// (else the installed name) with the file's kind of suffix; for a product linked under a
/// temporary name ending in `T`, the file's name without its final `T`; otherwise its name.
pub open spec fn destination_name(
    file: Seq<char>,
    soname: Option<Seq<char>>,
    source: Seq<char>,
    installed: Seq<char>,
) -> Seq<char> {
    let name = name_or_empty(file);
    if shared_library_name(name_or_empty(installed)) {
        let base = match soname {
            Some(n) => n,
            None => name_or_empty(installed),
        };
        if "_cmd"@.is_suffix_of(name) {
            base + "_cmd"@
        } else if "_verscript"@.is_suffix_of(name) {
            base + "_verscript"@
        } else if ".bc"@.is_suffix_of(name) {
            base + ".bc"@
        } else {
            base
        }
    } else if "T"@.is_suffix_of(name_or_empty(source)) {
        if "T"@.is_suffix_of(name) {
            name.drop_last()
        } else {
            name
        }
    } else {
        name
    }
}

/// The name under which `file` is installed; `soname` is the shared-object name that the
/// re-link script among the product's files sets, where it sets one.
pub fn destination_filename(file: &str, soname: Option<&str>, source: &str, installed: &str) -> (r:
    String)
    ensures
        r@ == destination_name(file@, opt_str(soname), source@, installed@),
{
    proof {
        reveal_strlit("T");
    }
    let name = match file_name(file) {
        Some(n) => n,
        None => String::new(),
    };
    let n = name.as_str();
    if is_shared_library(installed) {
        let base = match soname {
            Some(b) => owned(b),
            None => match file_name(installed) {
                Some(i) => i,
                None => String::new(),
            },
        };
        if ends_with(n, "_cmd") {
            return concat(base.as_str(), "_cmd");
        }
        if ends_with(n, "_verscript") {
            return concat(base.as_str(), "_verscript");
        }
        if ends_with(n, ".bc") {
            return concat(base.as_str(), ".bc");
        }
        return base;
    }
    let source_name = match file_name(source) {
        Some(sn) => sn,
        None => String::new(),
    };
    if ends_with(source_name.as_str(), "T") {
        return match strip_suffix(n, "T") {
            Some(t) => {
                assert(t@ =~= n@.drop_last());
                t
            },
            None => name,
        };
    }
    name
}

/// The re-link script `content` of a product named `source_name` rewritten for the name
/// `destination_name`: its output comment, its `./NAME` and `output/NAME` references and
/// its version script references follow the new name.
pub open spec fn rewritten_cmd(
    content: Seq<char>,
    source_name: Seq<char>,
    destination_name: Seq<char>,
) -> Seq<char> {
    replaced(
        replaced(
            replaced(
                replaced(
                    content,
                    "# Original output: "@ + source_name,
                    "# Original output: "@ + destination_name,
                ),
                "./"@ + source_name,
                "./"@ + destination_name,
            ),
            "output/"@ + source_name,
            "output/"@ + destination_name,
        ),
        source_name + "_verscript"@,
        destination_name + "_verscript"@,
    )
}

/// The re-link script `content` rewritten from the name `source_name` to `destination_name`.
pub fn rewrite_cmd(content: &str, source_name: &str, destination_name: &str) -> (r: String)
    ensures
        r@ == rewritten_cmd(content@, source_name@, destination_name@),
{
    proof {
        reveal_strlit("# Original output: ");
        reveal_strlit("./");
        reveal_strlit("output/");
        reveal_strlit("_verscript");
    }
    let a = replace_all(
        content,
        concat("# Original output: ", source_name).as_str(),
        concat("# Original output: ", destination_name).as_str(),
    );
    let b = replace_all(
        a.as_str(),
        concat("./", source_name).as_str(),
        concat("./", destination_name).as_str(),
    );
    let c = replace_all(
        b.as_str(),
        concat("output/", source_name).as_str(),
        concat("output/", destination_name).as_str(),
    );
    replace_all(
        c.as_str(),
        concat(source_name, "_verscript").as_str(),
        concat(destination_name, "_verscript").as_str(),
    )
}

/// Replacing a pattern by itself changes nothing.
pub proof fn lemma_replaced_same(s: Seq<char>, p: Seq<char>)
    ensures
        replaced(s, p, p) == s,
    decreases s.len(),
{
    if s.len() > 0 && p.len() > 0 {
        if p.is_prefix_of(s) {
            lemma_replaced_same(s.skip(p.len() as int), p);
            assert(p + s.skip(p.len() as int) =~= s);
        } else {
            lemma_replaced_same(s.skip(1), p);
            assert(seq![s[0]] + s.skip(1) =~= s);
        }
    }
}

/// Replacing a pattern that does not occur changes nothing.
pub proof fn lemma_replaced_absent(s: Seq<char>, p: Seq<char>, t: Seq<char>)
    requires
        !contains_seq(s, p),
    ensures
        replaced(s, p, t) == s,
    decreases s.len(),
{
    if s.len() > 0 && p.len() > 0 {
        if p.is_prefix_of(s) {
            assert(occurs_at(s, p, 0)) by {
                assert(s.subrange(0, p.len() as int) =~= p);
            }
        } else {
            assert forall|i: int| !occurs_at(s.skip(1), p, i) by {
                if occurs_at(s.skip(1), p, i) {
                    assert(s.skip(1).subrange(i, i + p.len()) =~= s.subrange(i + 1, i + 1 + p.len()));
                    assert(occurs_at(s, p, i + 1));
                }
            }
            lemma_replaced_absent(s.skip(1), p, t);
            assert(seq![s[0]] + s.skip(1) =~= s);
        }
    }
}

/// A re-link script that mentions none of the rewritten forms of its product's name (its
/// output comment, `./NAME`, `output/NAME`, `NAME_verscript`) is copied unchanged, whatever
/// the new name.
pub proof fn lemma_rewrite_unmentioned(
    content: Seq<char>,
    source_name: Seq<char>,
    destination_name: Seq<char>,
)
    requires
        !contains_seq(content, "# Original output: "@ + source_name),
        !contains_seq(content, "./"@ + source_name),
        !contains_seq(content, "output/"@ + source_name),
        !contains_seq(content, source_name + "_verscript"@),
    ensures
        rewritten_cmd(content, source_name, destination_name) == content,
{
    lemma_replaced_absent(content, "# Original output: "@ + source_name, "# Original output: "@ + destination_name);
    lemma_replaced_absent(content, "./"@ + source_name, "./"@ + destination_name);
    lemma_replaced_absent(content, "output/"@ + source_name, "output/"@ + destination_name);
    lemma_replaced_absent(content, source_name + "_verscript"@, destination_name + "_verscript"@);
}

/// A re-link script installed under the name it was made for is copied unchanged.
pub proof fn lemma_rewrite_same_name(content: Seq<char>, name: Seq<char>)
    ensures
        rewritten_cmd(content, name, name) == content,
{
    lemma_replaced_same(content, "# Original output: "@ + name);
    lemma_replaced_same(content, "./"@ + name);
    lemma_replaced_same(content, "output/"@ + name);
    lemma_replaced_same(content, name + "_verscript"@);
}

/// `n` without the trailing `suffix`, where it ends with it.
pub open spec fn without_suffix(n: Seq<char>, suffix: Seq<char>) -> Seq<char> {
    if suffix.is_suffix_of(n) {
        n.take(n.len() - suffix.len())
    } else {
        n
    }
}

/// One file to install: copied from `from` to `to`, or, where `cmd_names` is given, written
/// to `to` as the re-link script at `from` rewritten from the first name to the second;
/// `mode` gives the permission bits of the new file.
pub struct InstallStep {
    pub from: String,
    pub to: String,
    pub cmd_names: Option<(String, String)>,
    pub mode: u32,
}

/// The mathematical form of [`InstallStep`].
pub struct InstallStepView {
    pub from: Seq<char>,
    pub to: Seq<char>,
    pub cmd_names: Option<(Seq<char>, Seq<char>)>,
    pub mode: u32,
}

impl InstallStep {
    pub open spec fn view(&self) -> InstallStepView {
        InstallStepView {
            from: self.from@,
            to: self.to@,
            cmd_names: match self.cmd_names {
                Some((a, b)) => Some((a@, b@)),
                None => None,
            },
            mode: self.mode,
        }
    }
}

/// How the IR file `from` is installed at `to`: a re-link script (its name ends with `_cmd`)
/// is rewritten from its product's name to the new one and made executable (`0o755`); any
/// other file is copied and made readable (`0o644`).
pub open spec fn copy_step(from: Seq<char>, to: Seq<char>) -> InstallStepView {
    let is_cmd = "_cmd"@.is_suffix_of(name_or_empty(from));
    InstallStepView {
        from,
        to,
        cmd_names: if is_cmd {
            Some(
                (
                    without_suffix(name_or_empty(from), "_cmd"@),
                    without_suffix(name_or_empty(to), "_cmd"@),
                ),
            )
        } else {
            None
        },
        mode: if is_cmd {
            0o755
        } else {
            0o644
        },
    }
}

/// `n` without the trailing `suffix`.
fn cut_suffix(n: &str, suffix: &str) -> (r: String)
    ensures
        r@ == without_suffix(n@, suffix@),
{
    match strip_suffix(n, suffix) {
        Some(t) => {
            assert(t@ =~= n@.take(n@.len() - suffix@.len()));
            t
        },
        None => owned(n),
    }
}

/// How the IR file `from` is installed at `to`.
pub fn llvmir_copy_step(from: &str, to: &str) -> (r: InstallStep)
    ensures
        r.view() == copy_step(from@, to@),
{
    let from_name = match file_name(from) {
        Some(n) => n,
        None => String::new(),
    };
    if ends_with(from_name.as_str(), "_cmd") {
        let to_name = match file_name(to) {
            Some(n) => n,
            None => String::new(),
        };
        let a = cut_suffix(from_name.as_str(), "_cmd");
        let b = cut_suffix(to_name.as_str(), "_cmd");
        InstallStep { from: owned(from), to: owned(to), cmd_names: Some((a, b)), mode: 0o755 }
    } else {
        InstallStep { from: owned(from), to: owned(to), cmd_names: None, mode: 0o644 }
    }
}

/// The directory that receives the IR of `source` installed at `installed`: the product is
/// a shared library where either name says so, an executable where either path is one (see
/// [`executable_file`]; `source_permissions` and `installed_permissions` are the permission
/// bits that the file system reported).
pub open spec fn install_plan_dir(
    source: Seq<char>,
    installed: Seq<char>,
    mode: Option<Seq<char>>,
    source_permissions: Option<u32>,
    installed_permissions: Option<u32>,
) -> Seq<char> {
    install_dir_for(
        installed,
        shared_library_name(name_or_empty(source)) || shared_library_name(name_or_empty(installed)),
        executable_file(source, mode, source_permissions) || executable_file(
            installed,
            mode,
            installed_permissions,
        ),
    )
}

/// The steps that install `files` into `dir`, each under its destination name.
pub open spec fn install_steps(
    files: Seq<Seq<char>>,
    dir: Seq<char>,
    soname: Option<Seq<char>>,
    source: Seq<char>,
    installed: Seq<char>,
) -> Seq<InstallStepView> {
    Seq::new(
        files.len(),
        |i: int| copy_step(files[i], path_join(dir, destination_name(files[i], soname, source, installed))),
    )
}

/// The views of install steps.
pub open spec fn steps_view(v: Seq<InstallStep>) -> Seq<InstallStepView> {
    Seq::new(v.len(), |i: int| v[i].view())
}

/// Where and how the IR files of an installed product are installed.
pub struct InstallPlan {
    pub dir: String,
    pub steps: Vec<InstallStep>,
}

/// Where and how the IR files `files` of `source`, installed at `installed`, are installed:
/// the directory to create and one step per file, in their order; `None` where there is no
/// IR file, so that nothing is installed and no directory created. `soname` is the
/// shared-object name that the re-link script among `files` sets; the permission bits are
/// those that the file system reported for `source` and `installed`.
pub fn plan_installed_llvmir(
    source: &str,
    installed: &str,
    files: &Vec<String>,
    mode: Option<&str>,
    soname: Option<&str>,
    source_permissions: Option<u32>,
    installed_permissions: Option<u32>,
) -> (r: Option<InstallPlan>)
    ensures
        r is None <==> files@.len() == 0,
        r matches Some(p) ==> p.dir@ == install_plan_dir(
            source@,
            installed@,
            opt_str(mode),
            source_permissions,
            installed_permissions,
        ),
        r matches Some(p) ==> steps_view(p.steps@) == install_steps(
            files.deep_view(),
            p.dir@,
            opt_str(soname),
            source@,
            installed@,
        ),
{
    if files.len() == 0 {
        return None;
    }
    let shared = is_shared_library(source) || is_shared_library(installed);
    let executable = is_executable(source, mode, source_permissions) || is_executable(
        installed,
        mode,
        installed_permissions,
    );
    let dir = llvmir_install_dir(installed, shared, executable);
    let ghost fv = files.deep_view();
    let ghost sv = opt_str(soname);
    let mut steps: Vec<InstallStep> = Vec::new();
    let mut i: usize = 0;
    while i < files.len()
        invariant
            fv == files.deep_view(),
            sv == opt_str(soname),
            i <= files.len(),
            steps@.len() == i,
            steps_view(steps@) == install_steps(fv, dir@, sv, source@, installed@).take(i as int),
        decreases files.len() - i,
    {
        let f = files[i].as_str();
        assert(f@ == fv[i as int]);
        let name = destination_filename(f, soname, source, installed);
        let to = join_path(dir.as_str(), name.as_str());
        let step = llvmir_copy_step(f, to.as_str());
        assert(step.view() == install_steps(fv, dir@, sv, source@, installed@)[i as int]);
        let ghost before = steps@;
        steps.push(step);
        assert(steps@ =~= before.push(step));
        assert forall|k: int| 0 <= k < i implies #[trigger] steps@[k].view() == install_steps(
            fv,
            dir@,
            sv,
            source@,
            installed@,
        )[k] by {
            assert(steps@[k] == before[k]);
            assert(steps_view(before)[k] == before[k].view());
        }
        assert(steps_view(steps@) =~= install_steps(fv, dir@, sv, source@, installed@).take(i + 1));
        i += 1;
    }
    assert(install_steps(fv, dir@, sv, source@, installed@).take(i as int) =~= install_steps(
        fv,
        dir@,
        sv,
        source@,
        installed@,
    ));
    Some(InstallPlan { dir, steps })
}

} // verus!
