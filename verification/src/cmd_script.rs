//! The `_cmd` script that re-links the merged bitcode of a link step with the options of the
//! original link.
use vstd::prelude::*;
use crate::text::{
    chars_of, concat, contains_seq, find_str, occurs_at, owned, push_string, starts_with, str_eq,
    string_of_range,
};
use crate::link::{LinkArgs, LinkArgsView};
use crate::paths::{file_name, path_file_name};
use crate::shell::{
    is_blank, lemma_posix_word, lemma_word_reads_back, posix_from, posix_words, reads_back, response_args,
    response_from, shell_escape, shell_word,
};
use crate::text::is_ws;

verus! {

broadcast use vstd::string::group_string_axioms;

/// Whether the compile option `a` stays out of the re-link command, and whether the argument
/// after it goes with it.
pub open spec fn compile_arg_dropped(a: Seq<char>) -> (bool, bool) {
    if a == "-c"@ || a == "-emit-llvm"@ || a == "-shared"@ || a == "-ffat-lto-objects"@ || a
        == "-MD"@ || a == "-MMD"@ || "-Wl,"@.is_prefix_of(a) {
        (true, false)
    } else if a == "-I"@ || a == "-D"@ || a == "-U"@ || a == "-include"@ || a == "-imacros"@ || a
        == "-idirafter"@ || a == "-iprefix"@ || a == "-iwithprefix"@ || a
        == "-iwithprefixbefore"@ || a == "-isystem"@ || a == "-iquote"@ || a == "-isysroot"@ || a
        == "-MT"@ || a == "-MF"@ || a == "-MQ"@ || a == "-std"@ {
        (true, true)
    } else if "-I"@.is_prefix_of(a) || "-D"@.is_prefix_of(a) || "-U"@.is_prefix_of(a)
        || "-std="@.is_prefix_of(a) {
        (true, false)
    } else {
        (false, false)
    }
}

/// Whether the link flag `f` stays out of the re-link command, and whether the flag after it
/// goes with it. Library search flags are written separately, the version script is replaced
/// by its installed copy, and run-time search paths are dropped.
pub open spec fn link_flag_dropped(f: Seq<char>, is_shared: bool) -> (bool, bool) {
    if (f == "-shared"@ && is_shared) || "-L"@.is_prefix_of(f) || "-l"@.is_prefix_of(f)
        || "-Wl,--version-script="@.is_prefix_of(f) || "-Wl,-rpath,"@.is_prefix_of(f)
        || "-Wl,-rpath="@.is_prefix_of(f) || "-Wl,--rpath,"@.is_prefix_of(f)
        || "-Wl,--rpath="@.is_prefix_of(f) {
        (true, false)
    } else if f == "-Wl,-rpath"@ || f == "-Wl,--rpath"@ {
        (true, true)
    } else {
        (false, false)
    }
}

/// The compile options of `args` that the re-link command keeps, `skip` telling whether the
/// first of them is the value of a dropped option.
pub open spec fn kept_compile_args(args: Seq<Seq<char>>, skip: bool) -> Seq<Seq<char>>
    decreases args.len(),
{
    if args.len() == 0 {
        Seq::empty()
    } else if skip {
        kept_compile_args(args.skip(1), false)
    } else {
        let (drop, drop_next) = compile_arg_dropped(args[0]);
        if drop {
            kept_compile_args(args.skip(1), drop_next)
        } else {
            seq![args[0]] + kept_compile_args(args.skip(1), false)
        }
    }
}

/// The link flags of `flags` that the re-link command keeps, `skip` telling whether the first
/// of them goes with a dropped flag.
pub open spec fn kept_link_flags(flags: Seq<Seq<char>>, is_shared: bool, skip: bool) -> Seq<
    Seq<char>,
>
    decreases flags.len(),
{
    if flags.len() == 0 {
        Seq::empty()
    } else if skip {
        kept_link_flags(flags.skip(1), is_shared, false)
    } else {
        let (drop, drop_next) = link_flag_dropped(flags[0], is_shared);
        if drop {
            kept_link_flags(flags.skip(1), is_shared, drop_next)
        } else {
            seq![flags[0]] + kept_link_flags(flags.skip(1), is_shared, false)
        }
    }
}

/// Whether the compile option `a` stays out of the re-link command, and whether the argument
/// after it goes with it.
pub fn compile_arg_drop(a: &str) -> (r: (bool, bool))
    ensures
        r == compile_arg_dropped(a@),
{
    if str_eq(a, "-c") || str_eq(a, "-emit-llvm") || str_eq(a, "-shared") || str_eq(
        a,
        "-ffat-lto-objects",
    ) || str_eq(a, "-MD") || str_eq(a, "-MMD") || starts_with(a, "-Wl,") {
        (true, false)
    } else if str_eq(a, "-I") || str_eq(a, "-D") || str_eq(a, "-U") || str_eq(a, "-include")
        || str_eq(a, "-imacros") || str_eq(a, "-idirafter") || str_eq(a, "-iprefix") || str_eq(
        a,
        "-iwithprefix",
    ) || str_eq(a, "-iwithprefixbefore") || str_eq(a, "-isystem") || str_eq(a, "-iquote")
        || str_eq(a, "-isysroot") || str_eq(a, "-MT") || str_eq(a, "-MF") || str_eq(a, "-MQ")
        || str_eq(a, "-std") {
        (true, true)
    } else if starts_with(a, "-I") || starts_with(a, "-D") || starts_with(a, "-U") || starts_with(
        a,
        "-std=",
    ) {
        (true, false)
    } else {
        (false, false)
    }
}

/// Whether the link flag `f` stays out of the re-link command, and whether the flag after it
/// goes with it.
pub fn link_flag_drop(f: &str, is_shared: bool) -> (r: (bool, bool))
    ensures
        r == link_flag_dropped(f@, is_shared),
{
    if (str_eq(f, "-shared") && is_shared) || starts_with(f, "-L") || starts_with(f, "-l")
        || starts_with(f, "-Wl,--version-script=") || starts_with(f, "-Wl,-rpath,") || starts_with(
        f,
        "-Wl,-rpath=",
    ) || starts_with(f, "-Wl,--rpath,") || starts_with(f, "-Wl,--rpath=") {
        (true, false)
    } else if str_eq(f, "-Wl,-rpath") || str_eq(f, "-Wl,--rpath") {
        (true, true)
    } else {
        (false, false)
    }
}

/// The compile options of `args` that the re-link command keeps.
pub fn keep_compile_args(args: &Vec<String>) -> (r: Vec<String>)
    ensures
        r.deep_view() == kept_compile_args(args.deep_view(), false),
{
    let ghost av = args.deep_view();
    let mut out: Vec<String> = Vec::new();
    let mut skip = false;
    let mut i: usize = 0;
    assert(av.skip(0) =~= av);
    assert(out.deep_view() + kept_compile_args(av, false) =~= kept_compile_args(av, false));
    while i < args.len()
        invariant
            av == args.deep_view(),
            i <= args.len(),
            out.deep_view() + kept_compile_args(av.skip(i as int), skip) == kept_compile_args(
                av,
                false,
            ),
        decreases args.len() - i,
    {
        let ghost rest = av.skip(i as int);
        assert(rest.skip(1) =~= av.skip(i + 1));
        assert(rest[0] == args[i as int]@);
        if skip {
            skip = false;
        } else {
            let (drop, drop_next) = compile_arg_drop(args[i].as_str());
            if drop {
                skip = drop_next;
            } else {
                let ghost before = out.deep_view();
                push_string(&mut out, args[i].clone());
                assert(before + (seq![rest[0]] + kept_compile_args(av.skip(i + 1), false))
                    =~= out.deep_view() + kept_compile_args(av.skip(i + 1), false));
            }
        }
        i += 1;
    }
    assert(av.skip(i as int) =~= Seq::<Seq<char>>::empty());
    assert(out.deep_view() + kept_compile_args(av.skip(i as int), skip) =~= out.deep_view());
    out
}

/// The link flags of `flags` that the re-link command keeps.
pub fn keep_link_flags(flags: &Vec<String>, is_shared: bool) -> (r: Vec<String>)
    ensures
        r.deep_view() == kept_link_flags(flags.deep_view(), is_shared, false),
{
    let ghost fv = flags.deep_view();
    let mut out: Vec<String> = Vec::new();
    let mut skip = false;
    let mut i: usize = 0;
    assert(fv.skip(0) =~= fv);
    assert(out.deep_view() + kept_link_flags(fv, is_shared, false) =~= kept_link_flags(
        fv,
        is_shared,
        false,
    ));
    while i < flags.len()
        invariant
            fv == flags.deep_view(),
            i <= flags.len(),
            out.deep_view() + kept_link_flags(fv.skip(i as int), is_shared, skip)
                == kept_link_flags(fv, is_shared, false),
        decreases flags.len() - i,
    {
        let ghost rest = fv.skip(i as int);
        assert(rest.skip(1) =~= fv.skip(i + 1));
        assert(rest[0] == flags[i as int]@);
        if skip {
            skip = false;
        } else {
            let (drop, drop_next) = link_flag_drop(flags[i].as_str(), is_shared);
            if drop {
                skip = drop_next;
            } else {
                let ghost before = out.deep_view();
                push_string(&mut out, flags[i].clone());
                assert(before + (seq![rest[0]] + kept_link_flags(fv.skip(i + 1), is_shared, false))
                    =~= out.deep_view() + kept_link_flags(fv.skip(i + 1), is_shared, false));
            }
        }
        i += 1;
    }
    assert(fv.skip(i as int) =~= Seq::<Seq<char>>::empty());
    assert(out.deep_view() + kept_link_flags(fv.skip(i as int), is_shared, skip)
        =~= out.deep_view());
    out
}

/// `args` hold an optimization level option.
pub open spec fn has_opt_level(args: Seq<Seq<char>>) -> bool {
    exists|i: int| 0 <= i < args.len() && "-O"@.is_prefix_of(args[i])
}

/// Whether `args` hold an optimization level option.
pub fn holds_opt_level(args: &Vec<String>) -> (r: bool)
    ensures
        r == has_opt_level(args.deep_view()),
{
    let mut i: usize = 0;
    while i < args.len()
        invariant
            i <= args.len(),
            forall|j: int| 0 <= j < i ==> !"-O"@.is_prefix_of(args.deep_view()[j]),
        decreases args.len() - i,
    {
        if starts_with(args[i].as_str(), "-O") {
            assert("-O"@.is_prefix_of(args.deep_view()[i as int]));
            return true;
        }
        i += 1;
    }
    false
}

/// `i` is the start of the first occurrence of `p` in `s`.
pub open spec fn is_first_occurrence(s: Seq<char>, p: Seq<char>, i: int) -> bool {
    occurs_at(s, p, i) && forall|j: int| 0 <= j < i ==> !occurs_at(s, p, j)
}

/// The start of the first occurrence of `p` in `s`, where there is one.
pub open spec fn first_occurrence(s: Seq<char>, p: Seq<char>) -> int {
    choose|i: int| is_first_occurrence(s, p, i)
}

/// The first occurrence of `p` in `s`, with the proof that it is the one the spec picks.
pub(crate) fn find_first(s: &str, p: &str) -> (r: Option<usize>)
    ensures
        r is None <==> !contains_seq(s@, p@),
        r matches Some(i) ==> i == first_occurrence(s@, p@) && is_first_occurrence(
            s@,
            p@,
            i as int,
        ),
{
    let r = find_str(s, p);
    match r {
        Some(i) => {
            proof {
                assert(is_first_occurrence(s@, p@, i as int));
                let j = first_occurrence(s@, p@);
                assert(is_first_occurrence(s@, p@, j));
                assert(j == i) by {
                    if j < i {
                    } else if i < j {
                    }
                }
            }
            Some(i)
        },
        None => None,
    }
}

/// The file name under which the re-link command writes its result: the name of the original
/// output, with the library version `soversion` put after `.so` (or before `.dylib`) where
/// a shared library is linked with a version.
pub open spec fn relink_output_name(
    original_output: Seq<char>,
    is_shared: bool,
    soversion: Option<Seq<char>>,
) -> Seq<char> {
    let n = match path_file_name(original_output) {
        Some(n) => n,
        None => "a.out"@,
    };
    if is_shared && soversion is Some {
        if contains_seq(n, ".so"@) {
            n.take(first_occurrence(n, ".so"@)) + ".so."@ + soversion->0
        } else if contains_seq(n, ".dylib"@) {
            n.take(first_occurrence(n, ".dylib"@)) + "."@ + soversion->0 + ".dylib"@
        } else {
            n
        }
    } else {
        n
    }
}

/// The file name under which the re-link command writes its result.
pub fn relink_output_filename(original_output: &str, is_shared: bool, soversion: Option<&str>) -> (r:
    String)
    ensures
        r@ == relink_output_name(
            original_output@,
            is_shared,
            match soversion {
                Some(s) => Some(s@),
                None => None,
            },
        ),
{
    let n = match file_name(original_output) {
        Some(n) => n,
        None => owned("a.out"),
    };
    match soversion {
        Some(sov) if is_shared => {
            let v = chars_of(n.as_str());
            if let Some(idx) = find_first(n.as_str(), ".so") {
                let mut r = string_of_range(&v, 0, idx);
                assert(v@.subrange(0, idx as int) =~= v@.take(idx as int));
                r.append(".so.");
                r.append(sov);
                r
            } else if let Some(idx) = find_first(n.as_str(), ".dylib") {
                let mut r = string_of_range(&v, 0, idx);
                assert(v@.subrange(0, idx as int) =~= v@.take(idx as int));
                r.append(".");
                r.append(sov);
                r.append(".dylib");
                r
            } else {
                n
            }
        },
        _ => n,
    }
}

/// The name of the library that the library file name `b` (beginning with `lib`) stands for:
/// what lies between `lib` and its first `.so`, else its first `.a`, else the whole name.
pub open spec fn library_stem(b: Seq<char>) -> Seq<char> {
    if contains_seq(b, ".so"@) {
        b.subrange(3, first_occurrence(b, ".so"@))
    } else if contains_seq(b, ".a"@) {
        b.subrange(3, first_occurrence(b, ".a"@))
    } else {
        b
    }
}

/// How the re-link command refers to the library file `f` given on the link command line,
/// `resolved` being the name of the file that it finally resolves to, where that was found.
/// `None` where `f` has no file name.
pub open spec fn library_file_ref(f: Seq<char>, resolved: Option<Seq<char>>) -> Option<Seq<char>> {
    match path_file_name(f) {
        None => None,
        Some(b) => match resolved {
            Some(r) => Some("-l:"@ + r),
            None => if "lib"@.is_prefix_of(b) {
                Some("-l"@ + library_stem(b))
            } else {
                Some("./"@ + b)
            },
        },
    }
}

/// The references of the re-link command to the first `n` library files of `files`; those
/// whose IR was merged into the bitcode are left out.
pub open spec fn library_file_refs(
    files: Seq<Seq<char>>,
    merged: Seq<Seq<char>>,
    resolved: Seq<Option<Seq<char>>>,
    n: int,
) -> Seq<Seq<char>>
    decreases n,
{
    if n <= 0 {
        Seq::empty()
    } else {
        let before = library_file_refs(files, merged, resolved, n - 1);
        let f = files[n - 1];
        if merged.contains(f) {
            before
        } else {
            match library_file_ref(f, resolved[n - 1]) {
                Some(a) => before.push(a),
                None => before,
            }
        }
    }
}

/// The references of the re-link command to the first `n` libraries `-l<name>` of `libs`,
/// `resolved[i]` being the names of the files that `libs[i]` resolves to (empty where it was
/// not resolved).
pub open spec fn library_refs(libs: Seq<Seq<char>>, resolved: Seq<Seq<Seq<char>>>, n: int) -> Seq<
    Seq<char>,
>
    decreases n,
{
    if n <= 0 {
        Seq::empty()
    } else {
        let before = library_refs(libs, resolved, n - 1);
        let r = resolved[n - 1];
        if r.len() > 0 {
            before + r.map_values(|x: Seq<char>| "-l:"@ + x)
        } else {
            before.push("-l"@ + libs[n - 1])
        }
    }
}

/// Whether `v` holds `s`.
fn holds(v: &Vec<String>, s: &str) -> (r: bool)
    ensures
        r == v.deep_view().contains(s@),
{
    let mut i: usize = 0;
    while i < v.len()
        invariant
            i <= v.len(),
            forall|j: int| 0 <= j < i ==> v.deep_view()[j] != s@,
        decreases v.len() - i,
    {
        if str_eq(v[i].as_str(), s) {
            assert(v.deep_view()[i as int] == s@);
            return true;
        }
        i += 1;
    }
    false
}

/// The name of the library that the library file name `b` stands for.
fn library_stem_of(b: &str) -> (r: String)
    requires
        "lib"@.is_prefix_of(b@),
    ensures
        r@ == library_stem(b@),
{
    let v = chars_of(b);
    proof {
        reveal_strlit("lib");
        reveal_strlit(".so");
        reveal_strlit(".a");
    }
    if let Some(idx) = find_first(b, ".so") {
        if idx < 3 {
            assert(b@.subrange(idx as int, idx + 3)[0] == b@[idx as int]);
            assert(b@[idx as int] == '.');
            assert(b@.subrange(0, 3)[idx as int] == b@[idx as int]);
            assert(false);
        }
        string_of_range(&v, 3, idx)
    } else if let Some(idx) = find_first(b, ".a") {
        if idx < 3 {
            assert(b@.subrange(idx as int, idx + 2)[0] == b@[idx as int]);
            assert(b@[idx as int] == '.');
            assert(b@.subrange(0, 3)[idx as int] == b@[idx as int]);
            assert(false);
        }
        string_of_range(&v, 3, idx)
    } else {
        owned(b)
    }
}

/// How the re-link command refers to the library file `f`.
pub fn library_file_reference(f: &str, resolved: Option<&str>) -> (r: Option<String>)
    ensures
        opt_string_view(r) == library_file_ref(
            f@,
            match resolved {
                Some(x) => Some(x@),
                None => None,
            },
        ),
{
    match file_name(f) {
        None => None,
        Some(b) => match resolved {
            Some(x) => Some(concat("-l:", x)),
            None => if starts_with(b.as_str(), "lib") {
                Some(concat("-l", library_stem_of(b.as_str()).as_str()))
            } else {
                Some(concat("./", b.as_str()))
            },
        },
    }
}

/// The view of an optional string.
pub open spec fn opt_string_view(o: Option<String>) -> Option<Seq<char>> {
    o.deep_view()
}

/// The view of an optional string reference.
pub open spec fn opt_str_view(o: Option<&str>) -> Option<Seq<char>> {
    match o {
        Some(x) => Some(x@),
        None => None,
    }
}

/// The references of the re-link command to the library files given on the link command
/// line, except those whose IR was merged.
pub fn library_file_references(
    files: &Vec<String>,
    merged: &Vec<String>,
    resolved: &Vec<Option<String>>,
) -> (r: Vec<String>)
    requires
        resolved.len() == files.len(),
    ensures
        r.deep_view() == library_file_refs(
            files.deep_view(),
            merged.deep_view(),
            resolved.deep_view(),
            files.len() as int,
        ),
{
    let mut out: Vec<String> = Vec::new();
    let mut i: usize = 0;
    while i < files.len()
        invariant
            resolved.len() == files.len(),
            i <= files.len(),
            out.deep_view() == library_file_refs(
                files.deep_view(),
                merged.deep_view(),
                resolved.deep_view(),
                i as int,
            ),
        decreases files.len() - i,
    {
        let f = files[i].as_str();
        assert(files.deep_view()[i as int] == f@);
        if !holds(merged, f) {
            let res: Option<&str> = match &resolved[i] {
                Some(x) => Some(x.as_str()),
                None => None,
            };
            assert(opt_str_view(res) == resolved.deep_view()[i as int]);
            match library_file_reference(f, res) {
                Some(a) => push_string(&mut out, a),
                None => {},
            }
        }
        i += 1;
    }
    out
}

/// The references of the re-link command to the libraries named with `-l`.
pub fn library_references(libs: &Vec<String>, resolved: &Vec<Vec<String>>) -> (r: Vec<String>)
    requires
        resolved.len() == libs.len(),
    ensures
        r.deep_view() == library_refs(libs.deep_view(), resolved.deep_view(), libs.len() as int),
{
    let mut out: Vec<String> = Vec::new();
    let mut i: usize = 0;
    while i < libs.len()
        invariant
            resolved.len() == libs.len(),
            i <= libs.len(),
            out.deep_view() == library_refs(libs.deep_view(), resolved.deep_view(), i as int),
        decreases libs.len() - i,
    {
        let names = &resolved[i];
        assert(resolved.deep_view()[i as int] == names.deep_view());
        if names.len() > 0 {
            let ghost base = out.deep_view();
            let ghost mapped = names.deep_view().map_values(|x: Seq<char>| "-l:"@ + x);
            let mut k: usize = 0;
            while k < names.len()
                invariant
                    k <= names.len(),
                    mapped == names.deep_view().map_values(|x: Seq<char>| "-l:"@ + x),
                    out.deep_view() == base + mapped.take(k as int),
                decreases names.len() - k,
            {
                let ghost before = out.deep_view();
                push_string(&mut out, concat("-l:", names[k].as_str()));
                assert(mapped.take(k + 1) =~= mapped.take(k as int).push(mapped[k as int]));
                assert(out.deep_view() =~= base + mapped.take(k + 1));
                k += 1;
            }
            assert(mapped.take(k as int) =~= mapped);
        } else {
            push_string(&mut out, concat("-l", libs[i].as_str()));
        }
        i += 1;
    }
    out
}

/// What the re-link command takes besides the link: the clang to run, the merged bitcode,
/// the name of the result, how the libraries resolved, and the installed version script.
pub struct RelinkInputs {
    pub clang_path: String,
    pub llvm_link_output: String,
    pub output_filename: String,
    pub merged_static_libs: Vec<String>,
    pub resolved_library_files: Vec<Option<String>>,
    pub resolved_libraries: Vec<Vec<String>>,
    pub version_script_dest: Option<String>,
}

/// The name of the merged bitcode file beside the script.
pub open spec fn bitcode_name(llvm_link_output: Seq<char>) -> Seq<char> {
    match path_file_name(llvm_link_output) {
        Some(n) => n,
        None => "output.bc"@,
    }
}

/// The version script option of the re-link command.
pub open spec fn version_script_args(dest: Option<Seq<char>>) -> Seq<Seq<char>> {
    match dest {
        Some(p) => match path_file_name(p) {
            Some(f) => seq!["-Wl,--version-script=./"@ + f],
            None => Seq::empty(),
        },
        None => Seq::empty(),
    }
}

/// `-L<dir>` for each of `dirs`.
pub open spec fn dir_flags(dirs: Seq<Seq<char>>) -> Seq<Seq<char>> {
    dirs.map_values(|d: Seq<char>| "-L"@ + d)
}

/// The options of the re-link command, the program first: the link of the merged bitcode as
/// IR with lld, the kept compile options (with `-O3` where none sets an optimization level),
/// the kept link flags and the library directories.
pub open spec fn relink_options(la: LinkArgsView, clang_path: Seq<char>) -> Seq<Seq<char>> {
    let kept = kept_compile_args(la.other_args, false);
    seq![clang_path] + (if la.is_shared {
        seq!["-shared"@, "-fPIC"@]
    } else {
        Seq::empty()
    }) + seq!["-x"@, "ir"@, "-fuse-ld=lld"@] + kept + (if has_opt_level(kept) {
        Seq::empty()
    } else {
        seq!["-O3"@]
    }) + kept_link_flags(la.link_flags, la.is_shared, false) + dir_flags(la.library_dirs)
}

/// The inputs of the re-link command: `..` as a library directory, the bitcode, the
/// libraries, the version script, and the output under `output/`.
pub open spec fn relink_operands(
    la: LinkArgsView,
    llvm_link_output: Seq<char>,
    output_filename: Seq<char>,
    merged: Seq<Seq<char>>,
    resolved_files: Seq<Option<Seq<char>>>,
    resolved_libs: Seq<Seq<Seq<char>>>,
    version_script_dest: Option<Seq<char>>,
) -> Seq<Seq<char>> {
    seq!["-L"@, ".."@, "./"@ + bitcode_name(llvm_link_output)] + library_file_refs(
        la.library_files,
        merged,
        resolved_files,
        la.library_files.len() as int,
    ) + library_refs(la.libraries, resolved_libs, la.libraries.len() as int)
        + version_script_args(version_script_dest) + seq!["--output=output/"@ + output_filename]
}

/// The arguments of the re-link command: its options, then its inputs.
pub open spec fn relink_args(
    la: LinkArgsView,
    clang_path: Seq<char>,
    llvm_link_output: Seq<char>,
    output_filename: Seq<char>,
    merged: Seq<Seq<char>>,
    resolved_files: Seq<Option<Seq<char>>>,
    resolved_libs: Seq<Seq<Seq<char>>>,
    version_script_dest: Option<Seq<char>>,
) -> Seq<Seq<char>> {
    relink_options(la, clang_path) + relink_operands(
        la,
        llvm_link_output,
        output_filename,
        merged,
        resolved_files,
        resolved_libs,
        version_script_dest,
    )
}

/// Appends all of `b` to `a`.
fn append_all(a: &mut Vec<String>, b: Vec<String>)
    ensures
        final(a).deep_view() == old(a).deep_view() + b.deep_view(),
{
    let ghost a0 = a.deep_view();
    let mut i: usize = 0;
    while i < b.len()
        invariant
            i <= b.len(),
            a.deep_view() == a0 + b.deep_view().take(i as int),
        decreases b.len() - i,
    {
        push_string(a, b[i].clone());
        assert(b.deep_view().take(i + 1) =~= b.deep_view().take(i as int).push(
            b.deep_view()[i as int],
        ));
        assert(a.deep_view() =~= a0 + b.deep_view().take(i + 1));
        i += 1;
    }
    assert(b.deep_view().take(i as int) =~= b.deep_view());
}

/// The options of the command that re-links the merged bitcode of the link `link`.
fn relink_command_options(link: &LinkArgs, clang_path: &str) -> (r: Vec<String>)
    ensures
        r.deep_view() == relink_options(link.view(), clang_path@),
{
    let ghost la = link.view();
    let mut r: Vec<String> = Vec::new();
    push_string(&mut r, owned(clang_path));
    if link.is_shared {
        push_string(&mut r, owned("-shared"));
        push_string(&mut r, owned("-fPIC"));
    }
    push_string(&mut r, owned("-x"));
    push_string(&mut r, owned("ir"));
    push_string(&mut r, owned("-fuse-ld=lld"));
    let ghost p1 = r.deep_view();
    assert(p1 =~= seq![clang_path@] + (if la.is_shared {
        seq!["-shared"@, "-fPIC"@]
    } else {
        Seq::empty()
    }) + seq!["-x"@, "ir"@, "-fuse-ld=lld"@]);
    let kept = keep_compile_args(&link.other_args);
    let opt = holds_opt_level(&kept);
    append_all(&mut r, kept);
    if !opt {
        push_string(&mut r, owned("-O3"));
    }
    let ghost p2 = r.deep_view();
    append_all(&mut r, keep_link_flags(&link.link_flags, link.is_shared));
    let ghost before_dirs = r.deep_view();
    let mut i: usize = 0;
    while i < link.library_dirs.len()
        invariant
            i <= link.library_dirs.len(),
            r.deep_view() == before_dirs + dir_flags(link.library_dirs.deep_view()).take(i as int),
        decreases link.library_dirs.len() - i,
    {
        push_string(&mut r, concat("-L", link.library_dirs[i].as_str()));
        assert(dir_flags(link.library_dirs.deep_view()).take(i + 1) =~= dir_flags(
            link.library_dirs.deep_view(),
        ).take(i as int).push("-L"@ + link.library_dirs.deep_view()[i as int]));
        assert(r.deep_view() =~= before_dirs + dir_flags(link.library_dirs.deep_view()).take(i + 1));
        i += 1;
    }
    assert(dir_flags(link.library_dirs.deep_view()).take(i as int) =~= dir_flags(
        link.library_dirs.deep_view(),
    ));
    assert(r.deep_view() =~= relink_options(la, clang_path@));
    r
}

/// The inputs of the command that re-links the merged bitcode of the link `link`.
fn relink_command_operands(link: &LinkArgs, inputs: &RelinkInputs) -> (r: Vec<String>)
    requires
        inputs.resolved_library_files.len() == link.library_files.len(),
        inputs.resolved_libraries.len() == link.libraries.len(),
    ensures
        r.deep_view() == relink_operands(
            link.view(),
            inputs.llvm_link_output@,
            inputs.output_filename@,
            inputs.merged_static_libs.deep_view(),
            inputs.resolved_library_files.deep_view(),
            inputs.resolved_libraries.deep_view(),
            inputs.version_script_dest.deep_view(),
        ),
{
    let mut r: Vec<String> = Vec::new();
    push_string(&mut r, owned("-L"));
    push_string(&mut r, owned(".."));
    let bc = match file_name(inputs.llvm_link_output.as_str()) {
        Some(n) => n,
        None => owned("output.bc"),
    };
    push_string(&mut r, concat("./", bc.as_str()));
    append_all(
        &mut r,
        library_file_references(
            &link.library_files,
            &inputs.merged_static_libs,
            &inputs.resolved_library_files,
        ),
    );
    append_all(&mut r, library_references(&link.libraries, &inputs.resolved_libraries));
    let ghost p = r.deep_view();
    match &inputs.version_script_dest {
        Some(p) => match file_name(p.as_str()) {
            Some(f) => push_string(&mut r, concat("-Wl,--version-script=./", f.as_str())),
            None => {},
        },
        None => {},
    }
    assert(r.deep_view() =~= p + version_script_args(inputs.version_script_dest.deep_view()));
    push_string(&mut r, concat("--output=output/", inputs.output_filename.as_str()));
    assert(r.deep_view() =~= relink_operands(
        link.view(),
        inputs.llvm_link_output@,
        inputs.output_filename@,
        inputs.merged_static_libs.deep_view(),
        inputs.resolved_library_files.deep_view(),
        inputs.resolved_libraries.deep_view(),
        inputs.version_script_dest.deep_view(),
    ));
    r
}

/// The arguments of the command that re-links the merged bitcode of the link `link`.
pub fn relink_command_args(link: &LinkArgs, inputs: &RelinkInputs) -> (r: Vec<String>)
    requires
        inputs.resolved_library_files.len() == link.library_files.len(),
        inputs.resolved_libraries.len() == link.libraries.len(),
    ensures
        r.deep_view() == relink_args(
            link.view(),
            inputs.clang_path@,
            inputs.llvm_link_output@,
            inputs.output_filename@,
            inputs.merged_static_libs.deep_view(),
            inputs.resolved_library_files.deep_view(),
            inputs.resolved_libraries.deep_view(),
            inputs.version_script_dest.deep_view(),
        ),
{
    let mut r = relink_command_options(link, inputs.clang_path.as_str());
    append_all(&mut r, relink_command_operands(link, inputs));
    r
}

/// The lines `  <word>` of the command array, one for each argument, each written as a shell
/// word.
pub open spec fn command_array_lines(args: Seq<Seq<char>>) -> Seq<char>
    decreases args.len(),
{
    if args.len() == 0 {
        Seq::empty()
    } else {
        command_array_lines(args.drop_last()) + "  "@ + shell_word(args.last()) + "\n"@
    }
}

/// The text before the clang version in the script.
pub open spec fn script_preamble() -> Seq<char> {
    "#!/bin/bash\n#\n# Link command script for LLVM bitcode\n#\n# This script links LLVM bitcode files into executable or shared library\n# using the same linker options as the original build. It allows\n# re-linking LLVM bitcode without re-compilation.\n#\n# Generated by clang-wrap\n# Clang version: "@
}

/// The text between the clang version and the original output name.
pub open spec fn script_output_label() -> Seq<char> {
    "\n# Original output: "@
}

/// The text between the original output name and the command array.
pub open spec fn script_prologue() -> Seq<char> {
    "\n#\n\nset -e\n\n# Create output directory\nmkdir -p output\n\n# Link bitcode with original options\ncmd=(\n"@
}

/// The text after the command array: it closes the array and runs the command.
pub open spec fn script_epilogue() -> Seq<char> {
    ")\n\"${cmd[@]}\"\n"@
}

/// The `_cmd` script: a commented header that names the clang version and the original
/// output, then a bash array that holds the re-link command, one shell word per line, and its
/// execution.
pub open spec fn relink_script(
    clang_version: Seq<char>,
    output_filename: Seq<char>,
    args: Seq<Seq<char>>,
) -> Seq<char> {
    script_preamble() + clang_version + script_output_label() + output_filename
        + script_prologue() + command_array_lines(args) + script_epilogue()
}

/// The text of the `_cmd` script for the re-link command `args`.
pub fn render_relink_script(clang_version: &str, output_filename: &str, args: &Vec<String>) -> (r:
    String)
    ensures
        r@ == relink_script(clang_version@, output_filename@, args.deep_view()),
{
    let mut s = String::from_str(
        "#!/bin/bash\n#\n# Link command script for LLVM bitcode\n#\n# This script links LLVM bitcode files into executable or shared library\n# using the same linker options as the original build. It allows\n# re-linking LLVM bitcode without re-compilation.\n#\n# Generated by clang-wrap\n# Clang version: ",
    );
    s.append(clang_version);
    s.append("\n# Original output: ");
    s.append(output_filename);
    s.append(
        "\n#\n\nset -e\n\n# Create output directory\nmkdir -p output\n\n# Link bitcode with original options\ncmd=(\n",
    );
    let ghost head = s@;
    let mut i: usize = 0;
    while i < args.len()
        invariant
            i <= args.len(),
            s@ == head + command_array_lines(args.deep_view().take(i as int)),
        decreases args.len() - i,
    {
        assert(args.deep_view().take(i + 1).drop_last() =~= args.deep_view().take(i as int));
        let ghost before = s@;
        s.append("  ");
        s.append(shell_escape(args[i].as_str()).as_str());
        s.append("\n");
        assert(s@ =~= head + command_array_lines(args.deep_view().take(i + 1)));
        i += 1;
    }
    assert(args.deep_view().take(i as int) =~= args.deep_view());
    s.append(")\n\"${cmd[@]}\"\n");
    assert(s@ =~= relink_script(clang_version@, output_filename@, args.deep_view()));
    s
}

/// The `_cmd` script that re-links the merged bitcode of the link `link` with its original
/// options: the script of [`render_relink_script`] for the arguments of
/// [`relink_command_args`].
pub fn generate_link_cmd_script(link: &LinkArgs, inputs: &RelinkInputs, clang_version: &str) -> (r:
    String)
    requires
        inputs.resolved_library_files.len() == link.library_files.len(),
        inputs.resolved_libraries.len() == link.libraries.len(),
    ensures
        r@ == relink_script(
            clang_version@,
            inputs.output_filename@,
            relink_args(
                link.view(),
                inputs.clang_path@,
                inputs.llvm_link_output@,
                inputs.output_filename@,
                inputs.merged_static_libs.deep_view(),
                inputs.resolved_library_files.deep_view(),
                inputs.resolved_libraries.deep_view(),
                inputs.version_script_dest.deep_view(),
            ),
        ),
{
    let args = relink_command_args(link, inputs);
    render_relink_script(clang_version, inputs.output_filename.as_str(), &args)
}

/// The lines of the command array, seen from the front.
proof fn lemma_array_lines_front(args: Seq<Seq<char>>)
    requires
        args.len() >= 1,
    ensures
        command_array_lines(args) == "  "@ + shell_word(args[0]) + "\n"@ + command_array_lines(
            args.skip(1),
        ),
    decreases args.len(),
{
    if args.len() == 1 {
        assert(args.drop_last() =~= Seq::<Seq<char>>::empty());
        assert(args.skip(1) =~= Seq::<Seq<char>>::empty());
        assert(command_array_lines(args.drop_last()) == Seq::<char>::empty());
        assert(command_array_lines(args) =~= "  "@ + shell_word(args[0]) + "\n"@
            + command_array_lines(args.skip(1)));
    } else {
        let dl = args.drop_last();
        lemma_array_lines_front(dl);
        assert(dl.skip(1) =~= args.skip(1).drop_last());
        assert(dl[0] == args[0]);
        assert(args.skip(1).last() == args.last());
        assert(command_array_lines(args.skip(1)) == command_array_lines(args.skip(1).drop_last())
            + "  "@ + shell_word(args.skip(1).last()) + "\n"@);
        assert(command_array_lines(args) =~= "  "@ + shell_word(args[0]) + "\n"@
            + command_array_lines(args.skip(1)));
    }
}

/// The command array of the re-link script holds exactly the re-link arguments: its lines,
/// read as shell words (white space separating them, quotes grouping them), give back `args`,
/// where every argument is one that its shell word gives back.
pub proof fn lemma_command_array_reads_back(args: Seq<Seq<char>>)
    requires
        forall|i: int| 0 <= i < args.len() ==> reads_back(#[trigger] args[i]),
    ensures
        response_args(command_array_lines(args)) == args,
    decreases args.len(),
{
    reveal_strlit("  ");
    reveal_strlit(" ");
    reveal_strlit("\n");
    if args.len() == 0 {
        assert(response_args(Seq::<char>::empty()) =~= args);
    } else {
        lemma_array_lines_front(args);
        let tail = args.skip(1);
        assert forall|i: int| 0 <= i < tail.len() implies reads_back(#[trigger] tail[i]) by {
            assert(tail[i] == args[i + 1]);
        }
        lemma_command_array_reads_back(tail);
        let t = command_array_lines(tail);
        let nl = "\n"@;
        let x = "  "@ + shell_word(args[0]) + nl + t;
        assert(x.skip(1) =~= " "@ + shell_word(args[0]) + nl + t);
        assert(x.skip(1).skip(1) =~= shell_word(args[0]) + (nl + t));
        assert(is_ws(' '));
        assert(response_from(x, Seq::empty(), false, false) == response_from(
            x.skip(1),
            Seq::empty(),
            false,
            false,
        )) by {
            assert(Seq::<Seq<char>>::empty() + response_from(x.skip(1), Seq::empty(), false, false)
                =~= response_from(x.skip(1), Seq::empty(), false, false));
        }
        assert(response_from(x.skip(1), Seq::empty(), false, false) == response_from(
            x.skip(1).skip(1),
            Seq::empty(),
            false,
            false,
        )) by {
            assert(Seq::<Seq<char>>::empty() + response_from(x.skip(1).skip(1), Seq::empty(), false, false)
                =~= response_from(x.skip(1).skip(1), Seq::empty(), false, false));
        }
        lemma_word_reads_back(args[0], nl + t, Seq::empty());
        assert(Seq::<char>::empty() + args[0] =~= args[0]);
        assert((nl + t).skip(1) =~= t);
        assert(is_ws('\n'));
        assert(response_from(nl + t, args[0], false, false) == seq![args[0]] + response_from(
            t,
            Seq::empty(),
            false,
            false,
        ));
        assert(seq![args[0]] + tail =~= args);
    }
}

/// Blanks before a word that has not begun change nothing.
proof fn lemma_posix_leading_blank(x: Seq<char>)
    requires
        x.len() > 0,
        is_blank(x[0]),
    ensures
        posix_from(x, Seq::empty(), false, false) == posix_from(x.skip(1), Seq::empty(), false, false),
{
    match posix_from(x.skip(1), Seq::empty(), false, false) {
        Some(r) => {
            assert(Seq::<Seq<char>>::empty() + r =~= r);
        },
        None => {},
    }
}

/// The bash array of the re-link script holds exactly the re-link arguments: a POSIX shell
/// reads its lines back as `args`, for any arguments.
pub proof fn lemma_command_array_posix(args: Seq<Seq<char>>)
    ensures
        posix_words(command_array_lines(args)) == Some(args),
    decreases args.len(),
{
    reveal_strlit("  ");
    reveal_strlit(" ");
    reveal_strlit("\n");
    if args.len() == 0 {
        assert(Seq::<Seq<char>>::empty() =~= args);
    } else {
        lemma_array_lines_front(args);
        let tail = args.skip(1);
        lemma_command_array_posix(tail);
        let t = command_array_lines(tail);
        let nl = "\n"@;
        let x = "  "@ + shell_word(args[0]) + nl + t;
        assert(x.skip(1) =~= " "@ + shell_word(args[0]) + nl + t);
        assert(x.skip(1).skip(1) =~= shell_word(args[0]) + (nl + t));
        assert(is_blank(' '));
        lemma_posix_leading_blank(x);
        lemma_posix_leading_blank(x.skip(1));
        lemma_posix_word(args[0], nl + t, Seq::empty(), false);
        assert(Seq::<char>::empty() + args[0] =~= args[0]);
        assert((nl + t).skip(1) =~= t);
        assert(is_blank('\n'));
        assert(posix_from(nl + t, args[0], true, false) == Some(seq![args[0]] + tail));
        assert(seq![args[0]] + tail =~= args);
    }
}

} // verus!
