//! The file operations `cp`, `mv`, `ln` and `strip`: what their command lines say, and the
//! commands that repeat them on the corresponding LLVM IR files.
use vstd::prelude::*;
use crate::text::{
    chars_of, concat, owned, push_string, starts_with, str_eq, strip_prefix, string_of_range,
};
use crate::link::joined_option;
use crate::paths::{
    compute_llvmir_path, diff_paths, file_name, join_path, llvmir_location,
    opt_view, parent, path_file_name, ask_is_dir, dir_answer, path_join, path_parent, path_relative_to,
};
use crate::llvmir_files::{aux_answers, find_all_aux_files, is_aux_selection, aux_views, AuxFileSuffix};

verus! {

broadcast use vstd::string::group_string_axioms;

/// The operands and options of a `cp`, `mv` or `ln` command.
pub struct FileOpArgs {
    pub sources: Vec<String>,
    pub destination: Option<String>,
    pub target_dir: Option<String>,
    pub other_args: Vec<String>,
}

/// The mathematical form of [`FileOpArgs`].
pub struct FileOpArgsView {
    pub sources: Seq<Seq<char>>,
    pub destination: Option<Seq<char>>,
    pub target_dir: Option<Seq<char>>,
    pub other_args: Seq<Seq<char>>,
}

impl FileOpArgs {
    pub open spec fn view(&self) -> FileOpArgsView {
        FileOpArgsView {
            sources: self.sources.deep_view(),
            destination: self.destination.deep_view(),
            target_dir: self.target_dir.deep_view(),
            other_args: self.other_args.deep_view(),
        }
    }
}

/// One step of reading a file operation: the state after the argument at `i`, and how many
/// arguments it takes.
pub open spec fn file_op_step(args: Seq<Seq<char>>, i: int, st: FileOpArgsView) -> (
    FileOpArgsView,
    int,
) {
    let a = args[i];
    if a == "-t"@ {
        if i + 1 < args.len() {
            (
                FileOpArgsView {
                    target_dir: Some(args[i + 1]),
                    other_args: st.other_args.push(a).push(args[i + 1]),
                    ..st
                },
                2,
            )
        } else {
            (st, 1)
        }
    } else if joined_option(a, "-t"@) {
        (FileOpArgsView { target_dir: Some(a.skip(2)), other_args: st.other_args.push(a), ..st }, 1)
    } else if "--target-directory="@.is_prefix_of(a) {
        (FileOpArgsView { target_dir: Some(a.skip(target_directory_prefix_len())), other_args: st.other_args.push(a), ..st }, 1)
    } else if "-"@.is_prefix_of(a) {
        (FileOpArgsView { other_args: st.other_args.push(a), ..st }, 1)
    } else {
        (FileOpArgsView { sources: st.sources.push(a), ..st }, 1)
    }
}

/// Reading a file operation from position `i` on.
pub open spec fn file_op_from(args: Seq<Seq<char>>, i: int, st: FileOpArgsView) -> FileOpArgsView
    decreases args.len() - i,
{
    if i < 0 || i >= args.len() {
        st
    } else {
        let (st2, taken) = file_op_step(args, i, st);
        file_op_from(args, i + taken, st2)
    }
}

/// What a file operation with the arguments `args` (without the program) says: its
/// operands, its target directory, its other options (target directory options among them);
/// without a target directory and with more than one operand, the last operand is the
/// destination.
pub open spec fn file_op_spec(args: Seq<Seq<char>>) -> FileOpArgsView {
    let st = file_op_from(
        args,
        0,
        FileOpArgsView {
            sources: Seq::empty(),
            destination: None,
            target_dir: None,
            other_args: Seq::empty(),
        },
    );
    if st.target_dir is None && st.sources.len() > 1 {
        FileOpArgsView { destination: Some(st.sources.last()), sources: st.sources.drop_last(), ..st }
    } else {
        st
    }
}

/// The number of characters that `--target-directory=` has.
pub open spec fn target_directory_prefix_len() -> int {
    "--target-directory="@.len() as int
}

/// Reads a file operation; the directory of `--target-directory=DIR` is what follows the
/// `=`.
fn parse_file_op(args: &Vec<String>) -> (r: FileOpArgs)
    ensures
        r.view() == file_op_spec(args.deep_view()),
{
    let ghost av = args.deep_view();
    let mut st = FileOpArgs {
        sources: Vec::new(),
        destination: None,
        target_dir: None,
        other_args: Vec::new(),
    };
    proof {
        assert(st.sources.deep_view() =~= Seq::<Seq<char>>::empty());
        assert(st.other_args.deep_view() =~= Seq::<Seq<char>>::empty());
    }
    let ghost init = st.view();
    let n = args.len();
    let mut i: usize = 0;
    while i < n
        invariant
            n == args.len(),
            av == args.deep_view(),
                i <= n,
            file_op_from(av, i as int, st.view()) == file_op_from(av, 0, init),
        decreases n - i,
    {
        let a = args[i].as_str();
        assert(a@ == av[i as int]);
        if str_eq(a, "-t") {
            if i + 1 < n {
                st.target_dir = Some(args[i + 1].clone());
                push_string(&mut st.other_args, owned(a));
                push_string(&mut st.other_args, args[i + 1].clone());
                i += 2;
            } else {
                i += 1;
            }
            continue;
        }
        if let Some(t) = strip_prefix(a, "-t") {
            if t.as_str().unicode_len() > 0 {
                proof {
                    reveal_strlit("-t");
                }
                assert(t@ =~= a@.skip(2));
                st.target_dir = Some(t);
                push_string(&mut st.other_args, owned(a));
                i += 1;
                continue;
            }
        }
        if starts_with(a, "--target-directory=") {
            proof {
                reveal_strlit("--target-directory=");
            }
            let v = chars_of(a);
            let t = string_of_range(&v, 19, v.len());
            assert(t@ =~= a@.skip(19));
            st.target_dir = Some(t);
            push_string(&mut st.other_args, owned(a));
            i += 1;
            continue;
        }
        if starts_with(a, "-") {
            push_string(&mut st.other_args, owned(a));
        } else {
            push_string(&mut st.sources, owned(a));
        }
        i += 1;
    }
    if st.target_dir.is_none() && st.sources.len() > 1 {
        let ghost before = st.sources.deep_view();
        let last = st.sources.pop();
        assert(st.sources.deep_view() =~= before.drop_last());
        match last {
            Some(d) => {
                st.destination = Some(d);
            },
            None => {},
        }
    }
    st
}

/// What a `cp` command (its arguments without the program) says.
pub fn parse_cp_args(args: &Vec<String>) -> (r: FileOpArgs)
    ensures
        r.view() == file_op_spec(args.deep_view()),
{
    parse_file_op(args)
}

/// What an `ln` command (its arguments without the program) says: the link targets are the
/// sources, the link name or directory the destination.
pub fn parse_ln_args(args: &Vec<String>) -> (r: FileOpArgs)
    ensures
        r.view() == file_op_spec(args.deep_view()),
{
    parse_file_op(args)
}

/// What an `mv` command (its arguments without the program) says.
pub fn parse_mv_args(args: &Vec<String>) -> (r: FileOpArgs)
    ensures
        r.view() == file_op_spec(args.deep_view()),
{
    parse_file_op(args)
}

/// The operands and options of a `strip` command.
pub struct StripArgs {
    pub files: Vec<String>,
    pub output: Option<String>,
    pub other_args: Vec<String>,
}

/// The mathematical form of [`StripArgs`].
pub struct StripArgsView {
    pub files: Seq<Seq<char>>,
    pub output: Option<Seq<char>>,
    pub other_args: Seq<Seq<char>>,
}

impl StripArgs {
    pub open spec fn view(&self) -> StripArgsView {
        StripArgsView {
            files: self.files.deep_view(),
            output: self.output.deep_view(),
            other_args: self.other_args.deep_view(),
        }
    }
}

/// One step of reading a `strip` command.
pub open spec fn strip_step(args: Seq<Seq<char>>, i: int, st: StripArgsView) -> (StripArgsView, int) {
    let a = args[i];
    if a == "-o"@ || a == "--output"@ {
        if i + 1 < args.len() {
            (
                StripArgsView {
                    output: Some(args[i + 1]),
                    other_args: st.other_args.push(a).push(args[i + 1]),
                    ..st
                },
                2,
            )
        } else {
            (st, 1)
        }
    } else if joined_option(a, "-o"@) {
        (StripArgsView { output: Some(a.skip(2)), other_args: st.other_args.push(a), ..st }, 1)
    } else if "--output="@.is_prefix_of(a) {
        (
            StripArgsView {
                output: Some(a.skip("--output="@.len() as int)),
                other_args: st.other_args.push(a),
                ..st
            },
            1,
        )
    } else if "-"@.is_prefix_of(a) {
        (StripArgsView { other_args: st.other_args.push(a), ..st }, 1)
    } else {
        (StripArgsView { files: st.files.push(a), ..st }, 1)
    }
}

/// Reading a `strip` command from position `i` on.
pub open spec fn strip_from(args: Seq<Seq<char>>, i: int, st: StripArgsView) -> StripArgsView
    decreases args.len() - i,
{
    if i < 0 || i >= args.len() {
        st
    } else {
        let (st2, taken) = strip_step(args, i, st);
        strip_from(args, i + taken, st2)
    }
}

/// What a `strip` command with the arguments `args` (without the program) says: the files it
/// strips, its output file (`-o`, `--output`), and its options, the output options among them.
pub open spec fn strip_spec(args: Seq<Seq<char>>) -> StripArgsView {
    strip_from(
        args,
        0,
        StripArgsView { files: Seq::empty(), output: None, other_args: Seq::empty() },
    )
}

/// What a `strip` command (its arguments without the program) says.
pub fn parse_strip_args(args: &Vec<String>) -> (r: StripArgs)
    ensures
        r.view() == strip_spec(args.deep_view()),
{
    let ghost av = args.deep_view();
    let mut st = StripArgs { files: Vec::new(), output: None, other_args: Vec::new() };
    proof {
        assert(st.files.deep_view() =~= Seq::<Seq<char>>::empty());
        assert(st.other_args.deep_view() =~= Seq::<Seq<char>>::empty());
    }
    let n = args.len();
    let mut i: usize = 0;
    while i < n
        invariant
            n == args.len(),
            av == args.deep_view(),
            i <= n,
            strip_from(av, i as int, st.view()) == strip_spec(av),
        decreases n - i,
    {
        let a = args[i].as_str();
        assert(a@ == av[i as int]);
        if str_eq(a, "-o") || str_eq(a, "--output") {
            if i + 1 < n {
                st.output = Some(args[i + 1].clone());
                push_string(&mut st.other_args, owned(a));
                push_string(&mut st.other_args, args[i + 1].clone());
                i += 2;
            } else {
                i += 1;
            }
            continue;
        }
        if let Some(t) = strip_prefix(a, "-o") {
            if t.as_str().unicode_len() > 0 {
                proof {
                    reveal_strlit("-o");
                }
                assert(t@ =~= a@.skip(2));
                st.output = Some(t);
                push_string(&mut st.other_args, owned(a));
                i += 1;
                continue;
            }
        }
        if let Some(t) = strip_prefix(a, "--output=") {
            assert(t@ =~= a@.skip("--output="@.len() as int));
            st.output = Some(t);
            push_string(&mut st.other_args, owned(a));
            i += 1;
            continue;
        }
        if starts_with(a, "-") {
            push_string(&mut st.other_args, owned(a));
        } else {
            push_string(&mut st.files, owned(a));
        }
        i += 1;
    }
    st
}

/// `a` begins with one of `prefixes`.
pub open spec fn has_any_prefix(a: Seq<char>, prefixes: Seq<Seq<char>>) -> bool {
    exists|k: int| 0 <= k < prefixes.len() && prefixes[k].is_prefix_of(a)
}

/// Whether `a` begins with one of `prefixes`.
fn begins_with_any(a: &str, prefixes: &Vec<String>) -> (r: bool)
    ensures
        r == has_any_prefix(a@, prefixes.deep_view()),
{
    let mut k: usize = 0;
    while k < prefixes.len()
        invariant
            k <= prefixes.len(),
            forall|j: int| 0 <= j < k ==> !prefixes.deep_view()[j].is_prefix_of(a@),
        decreases prefixes.len() - k,
    {
        if starts_with(a, prefixes[k].as_str()) {
            assert(prefixes.deep_view()[k as int].is_prefix_of(a@));
            return true;
        }
        k += 1;
    }
    false
}

/// The options of `args` that begin with none of `skip`, in their order, the first `n` of
/// `args` considered.
pub open spec fn options_kept(args: Seq<Seq<char>>, skip: Seq<Seq<char>>, n: int) -> Seq<Seq<char>>
    decreases n,
{
    if n <= 0 {
        Seq::empty()
    } else if has_any_prefix(args[n - 1], skip) {
        options_kept(args, skip, n - 1)
    } else {
        options_kept(args, skip, n - 1).push(args[n - 1])
    }
}

/// `a` asks `ln` for a symbolic link: `--symbolic`, or a group of short options with `s`.
pub open spec fn asks_symbolic(a: Seq<char>) -> bool {
    a == "--symbolic"@ || ("-"@.is_prefix_of(a) && !"-"@.is_prefix_of(a.skip(1)) && a.skip(
        1,
    ).contains('s'))
}

/// The operation is an `ln` that makes symbolic links.
pub open spec fn symbolic_link_op(cmd_name: Seq<char>, other_args: Seq<Seq<char>>) -> bool {
    cmd_name == "ln"@ && exists|i: int| 0 <= i < other_args.len() && asks_symbolic(other_args[i])
}

/// The arguments of the command `cmd_name` that repeats a file operation from `source` to
/// `dest`: the options of the original command except those that begin with one of `skip`
/// (which name its target), then the source, then `dest`. A symbolic link refers to its
/// source by the path from the directory of `dest` (`.` where it has none), where there is one.
pub open spec fn file_cmd_spec(
    cmd_name: Seq<char>,
    source: Seq<char>,
    dest: Seq<char>,
    other_args: Seq<Seq<char>>,
    skip: Seq<Seq<char>>,
) -> Seq<Seq<char>> {
    let kept = options_kept(other_args, skip, other_args.len() as int);
    let src = if symbolic_link_op(cmd_name, other_args) {
        let link_dir = match path_parent(dest) {
            Some(p) => p,
            None => "."@,
        };
        match path_relative_to(source, link_dir) {
            Some(r) => r,
            None => source,
        }
    } else {
        source
    };
    kept.push(src).push(dest)
}

/// Whether `a` asks `ln` for a symbolic link.
fn symbolic_option(a: &str) -> (r: bool)
    ensures
        r == asks_symbolic(a@),
{
    if str_eq(a, "--symbolic") {
        return true;
    }
    match strip_prefix(a, "-") {
        Some(rest) => {
            proof {
                reveal_strlit("-");
                assert(rest@ =~= a@.skip(1));
            }
            !starts_with(rest.as_str(), "-") && crate::text::contains_char(rest.as_str(), 's')
        },
        None => false,
    }
}

/// The arguments of the command `cmd_name` that repeats a file operation from `source` to
/// `dest`.
pub fn file_cmd_args(
    cmd_name: &str,
    source: &str,
    dest: &str,
    other_args: &Vec<String>,
    skip: &Vec<String>,
) -> (r: Vec<String>)
    ensures
        r.deep_view() == file_cmd_spec(
            cmd_name@,
            source@,
            dest@,
            other_args.deep_view(),
            skip.deep_view(),
        ),
{
    let ghost ov = other_args.deep_view();
    let mut args: Vec<String> = Vec::new();
    let mut symbolic = false;
    let mut i: usize = 0;
    assert(args.deep_view() =~= Seq::<Seq<char>>::empty());
    while i < other_args.len()
        invariant
            ov == other_args.deep_view(),
            i <= other_args.len(),
            args.deep_view() == options_kept(ov, skip.deep_view(), i as int),
            symbolic == exists|j: int| 0 <= j < i && asks_symbolic(ov[j]),
        decreases other_args.len() - i,
    {
        let a = other_args[i].as_str();
        assert(a@ == ov[i as int]);
        if !begins_with_any(a, skip) {
            push_string(&mut args, owned(a));
        }
        if symbolic_option(a) {
            symbolic = true;
        }
        i += 1;
    }
    let is_ln = str_eq(cmd_name, "ln");
    if is_ln && symbolic {
        let link_dir = match parent(dest) {
            Some(p) => p,
            None => owned("."),
        };
        let rel = match diff_paths(source, link_dir.as_str()) {
            Some(r) => r,
            None => owned(source),
        };
        push_string(&mut args, rel);
    } else {
        push_string(&mut args, owned(source));
    }
    push_string(&mut args, owned(dest));
    args
}

/// The commands that repeat a file operation on an IR file and its auxiliary files.
pub struct SyncPlan {
    /// For each command, its arguments: first for the IR file, then for each auxiliary file.
    pub commands: Vec<Vec<String>>,
}

/// The argument lists that repeat a file operation on the IR file `source` (to `dest`) and, for
/// each auxiliary file `found[i]` of `source`, on that file (to `dest` with its suffix).
pub open spec fn sync_commands(
    cmd_name: Seq<char>,
    source: Seq<char>,
    dest: Seq<char>,
    other_args: Seq<Seq<char>>,
    skip: Seq<Seq<char>>,
    found: Seq<(AuxFileSuffix, Seq<char>)>,
) -> Seq<Seq<Seq<char>>> {
    seq![file_cmd_spec(cmd_name, source, dest, other_args, skip)] + aux_commands(
        cmd_name,
        dest,
        other_args,
        skip,
        found,
        found.len() as int,
    )
}

/// The argument lists that repeat a file operation on the first `n` auxiliary files of
/// `found`, each giving `dest` with its suffix.
pub open spec fn aux_commands(
    cmd_name: Seq<char>,
    dest: Seq<char>,
    other_args: Seq<Seq<char>>,
    skip: Seq<Seq<char>>,
    found: Seq<(AuxFileSuffix, Seq<char>)>,
    n: int,
) -> Seq<Seq<Seq<char>>>
    decreases n,
{
    if n <= 0 {
        Seq::empty()
    } else {
        aux_commands(cmd_name, dest, other_args, skip, found, n - 1).push(
            file_cmd_spec(
                cmd_name,
                found[n - 1].1,
                dest + crate::llvmir_files::suffix_text(found[n - 1].0),
                other_args,
                skip,
            ),
        )
    }
}

/// `commands` repeat the operation on `source` and on the auxiliary files that some answers
/// of the file system give.
pub open spec fn is_sync_plan(
    cmd_name: Seq<char>,
    source: Seq<char>,
    dest: Seq<char>,
    other_args: Seq<Seq<char>>,
    skip: Seq<Seq<char>>,
    commands: Seq<Seq<Seq<char>>>,
) -> bool {
    exists|present: Seq<bool>, found: Seq<(AuxFileSuffix, Seq<char>)>|
        #[trigger] is_aux_selection(source, present, found) && commands == sync_commands(
            cmd_name,
            source,
            dest,
            other_args,
            skip,
            found,
        )
}

/// The commands (argument lists for the program `cmd_name`) that repeat a file operation on
/// each of the auxiliary files `found` of an IR file, each giving `llvmir_dest` with the same
/// suffix.
pub fn plan_aux_commands(
    cmd_name: &str,
    llvmir_dest: &str,
    other_args: &Vec<String>,
    skip_args: &Vec<String>,
    found: &Vec<(AuxFileSuffix, String)>,
) -> (r: Vec<Vec<String>>)
    ensures
        r.deep_view() == aux_commands(
            cmd_name@,
            llvmir_dest@,
            other_args.deep_view(),
            skip_args.deep_view(),
            aux_views(found@),
            found@.len() as int,
        ),
{
    let ghost fv = aux_views(found@);
    let mut commands: Vec<Vec<String>> = Vec::new();
    assert(commands.deep_view() =~= Seq::<Seq<Seq<char>>>::empty());
    let mut i: usize = 0;
    while i < found.len()
        invariant
            fv == aux_views(found@),
            i <= found.len(),
            commands.deep_view() == aux_commands(
                cmd_name@,
                llvmir_dest@,
                other_args.deep_view(),
                skip_args.deep_view(),
                fv,
                i as int,
            ),
        decreases found.len() - i,
    {
        let (kind, path) = (found[i].0, found[i].1.as_str());
        let aux_dest = concat(llvmir_dest, kind.as_str());
        let c = file_cmd_args(cmd_name, path, aux_dest.as_str(), other_args, skip_args);
        let ghost before = commands.deep_view();
        commands.push(c);
        assert(commands.deep_view() =~= before.push(c.deep_view()));
        assert(fv[i as int] == (kind, path@));
        i += 1;
    }
    commands
}

/// The commands (argument lists for the program `cmd_name`) that repeat a file operation on
/// the IR file `llvmir_source`, giving `llvmir_dest`, and then on each of the auxiliary files
/// `found` of it, giving `llvmir_dest` with the same suffix.
pub fn plan_sync_commands(
    cmd_name: &str,
    llvmir_source: &str,
    llvmir_dest: &str,
    other_args: &Vec<String>,
    skip_args: &Vec<String>,
    found: &Vec<(AuxFileSuffix, String)>,
) -> (r: SyncPlan)
    ensures
        r.commands.deep_view() == sync_commands(
            cmd_name@,
            llvmir_source@,
            llvmir_dest@,
            other_args.deep_view(),
            skip_args.deep_view(),
            aux_views(found@),
        ),
{
    let first = file_cmd_args(cmd_name, llvmir_source, llvmir_dest, other_args, skip_args);
    let mut commands = plan_aux_commands(cmd_name, llvmir_dest, other_args, skip_args, found);
    let ghost rest = commands@;
    let ghost rest_dv = commands.deep_view();
    let ghost first_dv = first.deep_view();
    commands.insert(0, first);
    assert(commands@ =~= rest.insert(0, first));
    assert(commands.deep_view() =~= seq![first_dv] + rest_dv);
    assert(commands.deep_view() =~= sync_commands(
        cmd_name@,
        llvmir_source@,
        llvmir_dest@,
        other_args.deep_view(),
        skip_args.deep_view(),
        aux_views(found@),
    ));
    SyncPlan { commands }
}

/// The commands that repeat a file operation on the auxiliary files of the IR file
/// `llvmir_source` that exist now, each giving `llvmir_dest` with the same suffix. The
/// wrappers ask for them after the command on the IR file itself has run, since that command
/// can change which of them exist. Which exist is asked of the file system, whose answers are
/// not stated.
pub fn aux_sync_commands(
    cmd_name: &str,
    llvmir_source: &str,
    llvmir_dest: &str,
    other_args: &Vec<String>,
    skip_args: &Vec<String>,
) -> (r: Vec<Vec<String>>)
    ensures
        exists|present: Seq<bool>, found: Seq<(AuxFileSuffix, Seq<char>)>|
            #[trigger] is_aux_selection(llvmir_source@, present, found) && aux_answers(
                llvmir_source@,
                present,
            ) && r.deep_view() == aux_commands(
                cmd_name@,
                llvmir_dest@,
                other_args.deep_view(),
                skip_args.deep_view(),
                found,
                found.len() as int,
            ),
{
    let found = find_all_aux_files(llvmir_source);
    let r = plan_aux_commands(cmd_name, llvmir_dest, other_args, skip_args, &found);
    let ghost fv = aux_views(found@);
    let ghost present = choose|present: Seq<bool>|
        is_aux_selection(llvmir_source@, present, fv) && aux_answers(llvmir_source@, present);
    assert(is_aux_selection(llvmir_source@, present, fv));
    assert(fv.len() == found@.len());
    r
}

/// The commands (argument lists for the program `cmd_name`) that repeat a file operation on
/// the IR file `llvmir_source`, giving `llvmir_dest`, and then on each of its auxiliary files
/// that exist when this is asked, giving `llvmir_dest` with the same suffix. Which exist is
/// asked of the file system, whose answers are not stated. Where the first command can change
/// which auxiliary files exist, run it ([`file_cmd_args`]) before asking for the others
/// ([`aux_sync_commands`]), as the wrappers do.
pub fn sync_llvmir_with_aux_files(
    cmd_name: &str,
    llvmir_source: &str,
    llvmir_dest: &str,
    other_args: &Vec<String>,
    skip_args: &Vec<String>,
) -> (r: SyncPlan)
    ensures
        is_sync_plan(
            cmd_name@,
            llvmir_source@,
            llvmir_dest@,
            other_args.deep_view(),
            skip_args.deep_view(),
            r.commands.deep_view(),
        ),
        exists|present: Seq<bool>, found: Seq<(AuxFileSuffix, Seq<char>)>|
            #[trigger] is_aux_selection(llvmir_source@, present, found) && aux_answers(
                llvmir_source@,
                present,
            ) && r.commands.deep_view() == sync_commands(
                cmd_name@,
                llvmir_source@,
                llvmir_dest@,
                other_args.deep_view(),
                skip_args.deep_view(),
                found,
            ),
{
    let found = find_all_aux_files(llvmir_source);
    let r = plan_sync_commands(cmd_name, llvmir_source, llvmir_dest, other_args, skip_args, &found);
    let ghost fv = aux_views(found@);
    let ghost present = choose|present: Seq<bool>|
        is_aux_selection(llvmir_source@, present, fv) && aux_answers(llvmir_source@, present);
    assert(is_aux_selection(llvmir_source@, present, fv));
    r
}

/// Where a file `source` moved or copied to `dest` ends up: inside `dest` under its own name
/// where `dest` is a directory (`dest_is_dir`) and `source` has a name, else at `dest`.
pub open spec fn placed_at(source: Seq<char>, dest: Seq<char>, dest_is_dir: bool) -> Seq<char> {
    if dest_is_dir && path_file_name(source) is Some {
        path_join(dest, path_file_name(source)->0)
    } else {
        dest
    }
}

/// Where the file `source` ends up when moved or copied to `dest`, `dest_is_dir` telling
/// whether `dest` is a directory.
pub fn place_at(source: &str, dest: &str, dest_is_dir: bool) -> (r: String)
    ensures
        r@ == placed_at(source@, dest@, dest_is_dir),
{
    if dest_is_dir {
        match file_name(source) {
            Some(n) => join_path(dest, n.as_str()),
            None => owned(dest),
        }
    } else {
        owned(dest)
    }
}

/// Where the file `source` ends up when moved to `dest`; whether `dest` is a directory is
/// asked of the file system, whose answer is not stated.
pub fn resolve_single_dest(source: &str, dest: &str) -> (r: String)
    ensures
        exists|is_dir: bool| r@ == #[trigger] placed_at(source@, dest@, is_dir),
        exists|is_dir: bool| r@ == #[trigger] placed_at(source@, dest@, is_dir) && dir_answer(dest@, is_dir),
{
    let is_dir = ask_is_dir(dest);
    let r = place_at(source, dest, is_dir);
    assert(r@ == placed_at(source@, dest@, is_dir));
    r
}

/// The file operations whose IR is kept in step.
#[derive(PartialEq, Eq, Structural, Clone, Copy, Debug)]
pub enum FileCommand {
    Cp,
    Mv,
    Ln,
}

/// Where the IR of one operand goes: into the mirror of a directory under the operand's own
/// name, or to the mirror of a path.
pub enum SyncTarget {
    InDir(String),
    At(String),
}

/// The mathematical form of [`SyncTarget`].
pub enum SyncTargetView {
    InDir(Seq<char>),
    At(Seq<char>),
}

impl SyncTarget {
    pub open spec fn view(&self) -> SyncTargetView {
        match self {
            SyncTarget::InDir(d) => SyncTargetView::InDir(d@),
            SyncTarget::At(p) => SyncTargetView::At(p@),
        }
    }
}

/// One operand whose IR is kept in step, and where its IR goes.
pub struct SyncJob {
    pub source: String,
    pub target: SyncTarget,
}

/// The views of sync jobs.
pub open spec fn jobs_view(v: Seq<SyncJob>) -> Seq<(Seq<char>, SyncTargetView)> {
    Seq::new(v.len(), |i: int| (v[i].source@, v[i].target.view()))
}

/// Every operand of `sources`, going into the directory `dir`.
pub open spec fn all_into(sources: Seq<Seq<char>>, dir: Seq<char>) -> Seq<(Seq<char>, SyncTargetView)> {
    Seq::new(sources.len(), |i: int| (sources[i], SyncTargetView::InDir(dir)))
}

/// The operands of the file operation `fa` whose IR is kept in step, and where: with a target
/// directory, every operand into it; with several operands and a destination that is a
/// directory (`dest_is_dir`), every operand into it; with a single operand, to where the
/// operand itself went (inside the destination where that is a directory, for a link without
/// a destination a link of its own name in the working directory).
pub open spec fn sync_jobs(cmd: FileCommand, fa: FileOpArgsView, dest_is_dir: bool) -> Seq<
    (Seq<char>, SyncTargetView),
> {
    match fa.target_dir {
        Some(t) => all_into(fa.sources, t),
        None => if fa.sources.len() > 1 {
            match fa.destination {
                Some(d) => if dest_is_dir {
                    all_into(fa.sources, d)
                } else {
                    Seq::empty()
                },
                None => Seq::empty(),
            }
        } else if fa.sources.len() == 1 {
            let s = fa.sources[0];
            match fa.destination {
                Some(d) => seq![(s, SyncTargetView::At(placed_at(s, d, dest_is_dir)))],
                None => if cmd == FileCommand::Ln && path_file_name(s) is Some {
                    seq![(s, SyncTargetView::At(path_join("."@, path_file_name(s)->0)))]
                } else {
                    Seq::empty()
                },
            }
        } else {
            Seq::empty()
        },
    }
}

/// Only operands of the file operation have their IR kept in step, each at most once: the
/// jobs follow the operands in their order.
pub proof fn lemma_sync_jobs_follow_operands(cmd: FileCommand, fa: FileOpArgsView, dest_is_dir: bool)
    ensures
        sync_jobs(cmd, fa, dest_is_dir).len() <= fa.sources.len(),
        forall|j: int|
            0 <= j < sync_jobs(cmd, fa, dest_is_dir).len() ==> #[trigger] sync_jobs(
                cmd,
                fa,
                dest_is_dir,
            )[j].0 == fa.sources[j],
{
}

/// Every operand of `sources`, going into the directory `dir`.
fn jobs_into(sources: &Vec<String>, dir: &str) -> (r: Vec<SyncJob>)
    ensures
        jobs_view(r@) == all_into(sources.deep_view(), dir@),
{
    let ghost sv = sources.deep_view();
    let mut out: Vec<SyncJob> = Vec::new();
    let mut i: usize = 0;
    while i < sources.len()
        invariant
            sv == sources.deep_view(),
            i <= sources.len(),
            out@.len() == i,
            forall|k: int|
                0 <= k < i ==> #[trigger] out@[k].source@ == sv[k] && out@[k].target.view()
                    == SyncTargetView::InDir(dir@),
        decreases sources.len() - i,
    {
        assert(sources[i as int]@ == sv[i as int]);
        out.push(SyncJob { source: sources[i].clone(), target: SyncTarget::InDir(owned(dir)) });
        i += 1;
    }
    assert(jobs_view(out@) =~= all_into(sv, dir@));
    out
}

/// The operands of the file operation `fa` (by the command `cmd`) whose IR is kept in step,
/// and where; `dest_is_dir` tells whether the destination is a directory.
pub fn file_op_sync_jobs(cmd: FileCommand, fa: &FileOpArgs, dest_is_dir: bool) -> (r: Vec<SyncJob>)
    ensures
        jobs_view(r@) == sync_jobs(cmd, fa.view(), dest_is_dir),
{
    let mut out: Vec<SyncJob> = Vec::new();
    match &fa.target_dir {
        Some(t) => {
            return jobs_into(&fa.sources, t.as_str());
        },
        None => {},
    }
    if fa.sources.len() > 1 {
        match &fa.destination {
            Some(d) => {
                if dest_is_dir {
                    return jobs_into(&fa.sources, d.as_str());
                }
            },
            None => {},
        }
        assert(jobs_view(out@) =~= Seq::<(Seq<char>, SyncTargetView)>::empty());
        return out;
    }
    if fa.sources.len() == 1 {
        let s = fa.sources[0].as_str();
        assert(s@ == fa.view().sources[0]);
        match &fa.destination {
            Some(d) => {
                out.push(SyncJob { source: owned(s), target: SyncTarget::At(place_at(s, d.as_str(), dest_is_dir)) });
            },
            None => {
                if cmd == FileCommand::Ln {
                    match file_name(s) {
                        Some(n) => {
                            proof {
                                reveal_strlit(".");
                            }
                            out.push(SyncJob { source: owned(s), target: SyncTarget::At(join_path(".", n.as_str())) });
                        },
                        None => {},
                    }
                }
            },
        }
    }
    assert(jobs_view(out@) =~= sync_jobs(cmd, fa.view(), dest_is_dir));
    out
}

/// The file operation `fa` needs to know whether its destination is a directory: it has no
/// target directory and a destination.
pub open spec fn asks_dest_dir(fa: FileOpArgsView) -> bool {
    fa.target_dir is None && fa.destination is Some
}

/// The operands of the file operation `fa` whose IR is kept in step, and where; whether the
/// destination is a directory is asked of the file system, whose answer is not stated.
pub fn plan_file_op_sync(cmd: FileCommand, fa: &FileOpArgs) -> (r: Vec<SyncJob>)
    ensures
        exists|dest_is_dir: bool| jobs_view(r@) == #[trigger] sync_jobs(cmd, fa.view(), dest_is_dir),
        exists|dest_is_dir: bool|
            jobs_view(r@) == #[trigger] sync_jobs(cmd, fa.view(), dest_is_dir) && (fa.view().target_dir
                is None && fa.view().destination is Some ==> dir_answer(fa.view().destination->0, dest_is_dir)),
{
    let dest_is_dir = match (&fa.target_dir, &fa.destination) {
        (None, Some(d)) => ask_is_dir(d.as_str()),
        _ => false,
    };
    file_op_sync_jobs(cmd, fa, dest_is_dir)
}

/// Where the IR of `source` goes for the target `target`: into the mirror of a directory under
/// the operand's file name (`None` where it has none), or to the mirror of a path.
pub open spec fn sync_destination(
    source: Seq<char>,
    target: SyncTargetView,
    cwd: Seq<char>,
    llvm_ir_dir: Seq<char>,
) -> Option<Seq<char>> {
    match target {
        SyncTargetView::InDir(d) => llvmir_in_dir(source, d, cwd, llvm_ir_dir),
        SyncTargetView::At(p) => Some(llvmir_location(p, cwd, llvm_ir_dir)),
    }
}

/// Where the IR of the operand of `job` goes.
pub fn sync_job_destination(job: &SyncJob, cwd: &str, llvm_ir_dir: &str) -> (r: Option<String>)
    ensures
        opt_view(r) == sync_destination(job.source@, job.target.view(), cwd@, llvm_ir_dir@),
{
    match &job.target {
        SyncTarget::InDir(d) => llvmir_dest_in_dir(job.source.as_str(), d.as_str(), cwd, llvm_ir_dir),
        SyncTarget::At(p) => Some(compute_llvmir_path(p.as_str(), cwd, llvm_ir_dir)),
    }
}

/// The mirror, under `llvm_ir_dir`, of the place that `source` takes inside the directory
/// `target_dir`; `None` where `source` has no file name.
pub open spec fn llvmir_in_dir(
    source: Seq<char>,
    target_dir: Seq<char>,
    cwd: Seq<char>,
    llvm_ir_dir: Seq<char>,
) -> Option<Seq<char>> {
    match path_file_name(source) {
        Some(n) => Some(path_join(llvmir_location(target_dir, cwd, llvm_ir_dir), n)),
        None => None,
    }
}

/// The mirror, under `llvm_ir_dir`, of the place that `source` takes inside `target_dir`.
pub fn llvmir_dest_in_dir(source: &str, target_dir: &str, cwd: &str, llvm_ir_dir: &str) -> (r: Option<String>)
    ensures
        opt_view(r) == llvmir_in_dir(source@, target_dir@, cwd@, llvm_ir_dir@),
{
    match file_name(source) {
        Some(n) => {
            let dir = compute_llvmir_path(target_dir, cwd, llvm_ir_dir);
            Some(join_path(dir.as_str(), n.as_str()))
        },
        None => None,
    }
}

/// One file that `strip -o` copies in the IR tree: from `from` to `to`, and, for a re-link
/// script, with the product's name rewritten from the first name to the second.
pub struct StripCopy {
    pub from: String,
    pub to: String,
    pub rename: Option<(String, String)>,
}

/// The mathematical form of a [`StripCopy`].
pub open spec fn strip_copy_view(c: StripCopy) -> (Seq<char>, Seq<char>, Option<(Seq<char>, Seq<char>)>) {
    (
        c.from@,
        c.to@,
        match c.rename {
            Some((a, b)) => Some((a@, b@)),
            None => None,
        },
    )
}

/// The views of strip copies.
pub open spec fn strip_copies_view(v: Seq<StripCopy>) -> Seq<
    (Seq<char>, Seq<char>, Option<(Seq<char>, Seq<char>)>),
> {
    Seq::new(v.len(), |i: int| strip_copy_view(v[i]))
}

/// The file name of `p`, or `fallback` where it has none.
pub open spec fn name_or(p: Seq<char>, fallback: Seq<char>) -> Seq<char> {
    match path_file_name(p) {
        Some(n) => n,
        None => fallback,
    }
}

/// The copies that keep the IR in step with `strip -o output input`, the IR of `input` being
/// `ir_source` with the auxiliary files `aux`: the IR goes to the mirror of `output`, each
/// auxiliary file beside it with its suffix, the re-link script rewritten from the name of
/// `input` (`input` where it has none) to that of `output` (`output` where it has none).
pub open spec fn strip_copies(
    input: Seq<char>,
    output: Seq<char>,
    ir_source: Seq<char>,
    aux: Seq<(AuxFileSuffix, Seq<char>)>,
    cwd: Seq<char>,
    llvm_ir_dir: Seq<char>,
) -> Seq<(Seq<char>, Seq<char>, Option<(Seq<char>, Seq<char>)>)> {
    let dest = llvmir_location(output, cwd, llvm_ir_dir);
    seq![(ir_source, dest, None)] + Seq::new(
        aux.len(),
        |i: int|
            (
                aux[i].1,
                dest + crate::llvmir_files::suffix_text(aux[i].0),
                if aux[i].0 == AuxFileSuffix::Cmd {
                    Some((name_or(input, "input"@), name_or(output, "output"@)))
                } else {
                    None
                },
            ),
    )
}

/// The file name of `p`, or `fallback` where it has none.
fn file_name_or(p: &str, fallback: &str) -> (r: String)
    ensures
        r@ == name_or(p@, fallback@),
{
    match file_name(p) {
        Some(n) => n,
        None => owned(fallback),
    }
}

/// The copies that keep the IR in step with `strip -o output input`, given the IR file
/// `ir_source` of `input` and its auxiliary files `aux`.
pub fn plan_strip_copies(
    input: &str,
    output: &str,
    ir_source: &str,
    aux: &Vec<(AuxFileSuffix, String)>,
    cwd: &str,
    llvm_ir_dir: &str,
) -> (r: Vec<StripCopy>)
    ensures
        strip_copies_view(r@) == strip_copies(
            input@,
            output@,
            ir_source@,
            aux_views(aux@),
            cwd@,
            llvm_ir_dir@,
        ),
{
    proof {
        reveal_strlit("input");
        reveal_strlit("output");
    }
    let dest = compute_llvmir_path(output, cwd, llvm_ir_dir);
    let ghost target = strip_copies(input@, output@, ir_source@, aux_views(aux@), cwd@, llvm_ir_dir@);
    let mut out: Vec<StripCopy> = Vec::new();
    out.push(StripCopy { from: owned(ir_source), to: owned(dest.as_str()), rename: None });
    let mut i: usize = 0;
    while i < aux.len()
        invariant
            target == strip_copies(input@, output@, ir_source@, aux_views(aux@), cwd@, llvm_ir_dir@),
            dest@ == llvmir_location(output@, cwd@, llvm_ir_dir@),
            i <= aux.len(),
            out@.len() == i + 1,
            forall|k: int| 0 <= k <= i ==> #[trigger] strip_copy_view(out@[k]) == target[k],
        decreases aux.len() - i,
    {
        let kind = aux[i].0;
        let from = owned(aux[i].1.as_str());
        let to = concat(dest.as_str(), kind.as_str());
        let rename = if kind == AuxFileSuffix::Cmd {
            Some((file_name_or(input, "input"), file_name_or(output, "output")))
        } else {
            None
        };
        let c = StripCopy { from, to, rename };
        assert(aux_views(aux@)[i as int] == (kind, aux@[i as int].1@));
        assert(strip_copy_view(c) == target[i + 1]);
        out.push(c);
        i += 1;
    }
    assert(strip_copies_view(out@) =~= target);
    out
}

/// The permission bits of a rewritten re-link script: those of the script it was made from,
/// with read and execute for everyone and write for the owner added.
pub fn cmd_copy_mode(source_mode: u32) -> (r: u32)
    ensures
        r == source_mode | 0o755u32,
{
    source_mode | 0o755u32
}

} // verus!
