//! The decisions of the compiler wrapper: which kind of invocation a command line is, what a
//! compile command is made of, and the commands that generate LLVM IR beside it.
use vstd::prelude::*;
use crate::text::{
    concat, contains_str, owned, push_string, starts_with, str_eq, strip_prefix, trim,
    trimmed, lines, text_lines, split_whitespace, words, contains_seq,
};
use crate::link::{is_object_name, is_source_name, source_extension, joined_option};
use crate::paths::{
    append_tmp_suffix, compute_llvmir_path, file_stem, llvmir_location, path_file_stem,
};

verus! {

broadcast use vstd::string::group_string_axioms;

/// The compiler that the wrapper runs: `clang` for the name `clang-wrap`, `clang++` for
/// `clangxx`, else the name it was run under.
pub open spec fn clang_command(program_name: Seq<char>) -> Seq<char> {
    if program_name == "clang-wrap"@ {
        "clang"@
    } else if program_name == "clangxx"@ {
        "clang++"@
    } else {
        program_name
    }
}

/// The compiler that the wrapper runs when run under the name `program_name`.
pub fn clang_command_name(program_name: &str) -> (r: String)
    ensures
        r@ == clang_command(program_name@),
{
    if str_eq(program_name, "clang-wrap") {
        owned("clang")
    } else if str_eq(program_name, "clangxx") {
        owned("clang++")
    } else {
        owned(program_name)
    }
}

/// What the wrapper does with a command line.
#[derive(PartialEq, Eq, Structural, Clone, Copy, Debug)]
pub enum Invocation {
    /// Preprocessing only: the compiler is run as it is.
    Preprocess,
    /// Neither a compile nor a link: the compiler is run as it is.
    PassThrough,
    /// A link, whose inputs' IR is merged.
    Link,
    /// A compile, whose IR is generated beside it.
    Compile,
}

/// The first position of `a` in `args`.
pub open spec fn first_position(args: Seq<Seq<char>>, a: Seq<char>) -> Option<int> {
    if args.contains(a) {
        Some(choose|i: int| 0 <= i < args.len() && args[i] == a && forall|j: int| 0 <= j < i ==> args[j] != a)
    } else {
        None
    }
}

/// The arguments after the program.
pub open spec fn after_program(args: Seq<Seq<char>>) -> Seq<Seq<char>> {
    if args.len() == 0 {
        Seq::empty()
    } else {
        args.skip(1)
    }
}

/// What the wrapper does with the command line `args` (the program first). `-c` and `-E`
/// decide by whichever comes later; a link is a command without `-c` that has an object or
/// source operand, or `-shared`.
pub open spec fn invocation_kind(args: Seq<Seq<char>>) -> Invocation {
    let (compile, preprocess) = match (first_position(args, "-c"@), first_position(args, "-E"@)) {
        (Some(c), Some(e)) => if c > e {
            (true, false)
        } else {
            (false, true)
        },
        (Some(_), None) => (true, false),
        (None, Some(_)) => (false, true),
        (None, None) => (false, false),
    };
    let ops = after_program(args);
    let objects = exists|i: int| 0 <= i < ops.len() && is_object_name(ops[i]);
    let sources = exists|i: int| 0 <= i < ops.len() && is_source_name(ops[i]);
    let link = !compile && (objects || args.contains("-shared"@) || sources);
    if preprocess {
        Invocation::Preprocess
    } else if !compile && !link {
        Invocation::PassThrough
    } else if link {
        Invocation::Link
    } else {
        Invocation::Compile
    }
}

/// The first position of `a` in `args`.
fn position_of(args: &Vec<String>, a: &str) -> (r: Option<usize>)
    ensures
        match r {
            Some(i) => first_position(args.deep_view(), a@) == Some(i as int),
            None => first_position(args.deep_view(), a@) is None,
        },
{
    let ghost av = args.deep_view();
    let mut i: usize = 0;
    while i < args.len()
        invariant
            av == args.deep_view(),
            i <= args.len(),
            forall|j: int| 0 <= j < i ==> av[j] != a@,
        decreases args.len() - i,
    {
        if str_eq(args[i].as_str(), a) {
            proof {
                assert(av[i as int] == a@);
                assert(av.contains(a@));
                let k = choose|k: int|
                    0 <= k < av.len() && av[k] == a@ && forall|j: int| 0 <= j < k ==> av[j] != a@;
                assert(k == i) by {
                    if k < i {
                    } else if i < k {
                    }
                }
            }
            return Some(i);
        }
        i += 1;
    }
    proof {
        if av.contains(a@) {
            let k = choose|k: int| 0 <= k < av.len() && av[k] == a@;
            assert(av[k] != a@);
        }
    }
    None
}

/// What the wrapper does with the command line `args` (the program first).
pub fn classify_invocation(args: &Vec<String>) -> (r: Invocation)
    ensures
        r == invocation_kind(args.deep_view()),
{
    let ghost av = args.deep_view();
    let c = position_of(args, "-c");
    let e = position_of(args, "-E");
    let (compile, preprocess) = match (c, e) {
        (Some(ci), Some(ei)) => if ci > ei {
            (true, false)
        } else {
            (false, true)
        },
        (Some(_), None) => (true, false),
        (None, Some(_)) => (false, true),
        (None, None) => (false, false),
    };
    let shared = position_of(args, "-shared").is_some();
    assert(shared == av.contains("-shared"@)) by {
        if av.contains("-shared"@) {
            let k = choose|k: int| 0 <= k < av.len() && av[k] == "-shared"@;
            assert(av[k] == "-shared"@);
        }
    }
    let ghost ops = after_program(av);
    let mut objects = false;
    let mut sources = false;
    let mut k: usize = 0;
    while k + 1 < args.len()
        invariant
            av == args.deep_view(),
            ops == after_program(av),
            args.len() == 0 || k + 1 <= args.len(),
            args.len() == 0 ==> k == 0,
            objects == exists|j: int| 0 <= j < k && is_object_name(ops[j]),
            sources == exists|j: int| 0 <= j < k && is_source_name(ops[j]),
        decreases args.len() - k,
    {
        let a = args[k + 1].as_str();
        assert(ops[k as int] == a@);
        let operand = !starts_with(a, "-");
        if crate::text::ends_with(a, ".o") && operand {
            objects = true;
        }
        if operand && source_extension(a) {
            sources = true;
        }
        k += 1;
    }
    assert(ops.len() == k);
    let link = !compile && (objects || shared || sources);
    if preprocess {
        Invocation::Preprocess
    } else if !compile && !link {
        Invocation::PassThrough
    } else if link {
        Invocation::Link
    } else {
        Invocation::Compile
    }
}

/// What a compile command is made of.
pub struct CompileArgs {
    pub input_file: Option<String>,
    pub output_file: Option<String>,
    pub other_args: Vec<String>,
}

/// The mathematical form of [`CompileArgs`].
pub struct CompileArgsView {
    pub input_file: Option<Seq<char>>,
    pub output_file: Option<Seq<char>>,
    pub other_args: Seq<Seq<char>>,
}

impl CompileArgs {
    pub open spec fn view(&self) -> CompileArgsView {
        CompileArgsView {
            input_file: self.input_file.deep_view(),
            output_file: self.output_file.deep_view(),
            other_args: self.other_args.deep_view(),
        }
    }
}

/// An option of the compiler that takes the argument after it as its value.
pub open spec fn takes_value(a: Seq<char>) -> bool {
    a == "-MT"@ || a == "-MF"@ || a == "-MQ"@ || a == "-MD"@ || a == "-MMD"@ || a == "-I"@ || a
        == "-L"@ || a == "-l"@ || a == "-D"@ || a == "-U"@ || a == "-include"@ || a
        == "-imacros"@ || a == "-idirafter"@ || a == "-iprefix"@ || a == "-iwithprefix"@ || a
        == "-iwithprefixbefore"@ || a == "-isystem"@ || a == "-iquote"@ || a == "-isysroot"@ || a
        == "-framework"@ || a == "-F"@ || a == "-x"@ || a == "-std"@ || a == "-arch"@ || a
        == "-target"@ || a == "-mllvm"@ || a == "--param"@ || a == "-Xclang"@
}

/// Whether the compiler option `a` takes the argument after it as its value.
pub fn option_takes_value(a: &str) -> (r: bool)
    ensures
        r == takes_value(a@),
{
    str_eq(a, "-MT") || str_eq(a, "-MF") || str_eq(a, "-MQ") || str_eq(a, "-MD") || str_eq(
        a,
        "-MMD",
    ) || str_eq(a, "-I") || str_eq(a, "-L") || str_eq(a, "-l") || str_eq(a, "-D") || str_eq(
        a,
        "-U",
    ) || str_eq(a, "-include") || str_eq(a, "-imacros") || str_eq(a, "-idirafter") || str_eq(
        a,
        "-iprefix",
    ) || str_eq(a, "-iwithprefix") || str_eq(a, "-iwithprefixbefore") || str_eq(a, "-isystem")
        || str_eq(a, "-iquote") || str_eq(a, "-isysroot") || str_eq(a, "-framework") || str_eq(
        a,
        "-F",
    ) || str_eq(a, "-x") || str_eq(a, "-std") || str_eq(a, "-arch") || str_eq(a, "-target")
        || str_eq(a, "-mllvm") || str_eq(a, "--param") || str_eq(a, "-Xclang")
}

/// One step of reading a compile command: the state after the argument at `i`, and how many
/// arguments it takes. `present[i]` tells whether a file exists under the name `args[i]`.
pub open spec fn compile_step(
    args: Seq<Seq<char>>,
    present: Seq<bool>,
    i: int,
    st: CompileArgsView,
) -> (CompileArgsView, int) {
    let a = args[i];
    let has_next = i + 1 < args.len();
    if a == "-o"@ {
        if has_next {
            (CompileArgsView { output_file: Some(args[i + 1]), ..st }, 2)
        } else {
            (st, 1)
        }
    } else if joined_option(a, "-o"@) {
        (CompileArgsView { output_file: Some(a.skip(2)), ..st }, 1)
    } else if takes_value(a) {
        if has_next {
            (CompileArgsView { other_args: st.other_args.push(a).push(args[i + 1]), ..st }, 2)
        } else {
            (CompileArgsView { other_args: st.other_args.push(a), ..st }, 1)
        }
    } else if !"-"@.is_prefix_of(a) && st.input_file is None {
        if present[i] {
            (CompileArgsView { input_file: Some(a), ..st }, 1)
        } else {
            (CompileArgsView { other_args: st.other_args.push(a), ..st }, 1)
        }
    } else {
        (CompileArgsView { other_args: st.other_args.push(a), ..st }, 1)
    }
}

/// Reading a compile command from position `i` on, in the state `st`.
pub open spec fn compile_from(
    args: Seq<Seq<char>>,
    present: Seq<bool>,
    i: int,
    st: CompileArgsView,
) -> CompileArgsView
    decreases args.len() - i,
{
    if i < 0 || i >= args.len() {
        st
    } else {
        let (st2, taken) = compile_step(args, present, i, st);
        compile_from(args, present, i + taken, st2)
    }
}

/// What the compile command `args` (the program first) is made of: its output (`-o`), its
/// input (the first operand that names an existing file) and the other arguments, values of
/// options kept with them. `present[i]` tells whether a file exists under the name `args[i]`.
pub open spec fn compile_spec(args: Seq<Seq<char>>, present: Seq<bool>) -> CompileArgsView {
    compile_from(
        args,
        present,
        1,
        CompileArgsView { input_file: None, output_file: None, other_args: Seq::empty() },
    )
}

/// What the compile command `args` (the program first) is made of, `present[i]` telling
/// whether a file exists under the name `args[i]`.
pub fn parse_compile_args(args: &Vec<String>, present: &Vec<bool>) -> (r: CompileArgs)
    requires
        present.len() == args.len(),
    ensures
        r.view() == compile_spec(args.deep_view(), present@),
{
    let ghost av = args.deep_view();
    let mut st = CompileArgs { input_file: None, output_file: None, other_args: Vec::new() };
    assert(st.other_args.deep_view() =~= Seq::<Seq<char>>::empty());
    let n = args.len();
    let mut i: usize = 1;
    if n == 0 {
        return st;
    }
    while i < n
        invariant
            n == args.len() == present.len(),
            av == args.deep_view(),
            1 <= i <= n,
            compile_from(av, present@, i as int, st.view()) == compile_spec(av, present@),
        decreases n - i,
    {
        let a = args[i].as_str();
        assert(a@ == av[i as int]);
        let has_next = i + 1 < n;
        if str_eq(a, "-o") {
            if has_next {
                st.output_file = Some(args[i + 1].clone());
                i += 2;
            } else {
                i += 1;
            }
            continue;
        }
        if let Some(t) = strip_prefix(a, "-o") {
            if t.as_str().unicode_len() > 0 {
                proof {
                    reveal_strlit("-o");
                }
                assert(t@ =~= a@.skip(2));
                st.output_file = Some(t);
                i += 1;
                continue;
            }
        }
        if option_takes_value(a) {
            push_string(&mut st.other_args, owned(a));
            if has_next {
                push_string(&mut st.other_args, args[i + 1].clone());
                i += 2;
            } else {
                i += 1;
            }
            continue;
        }
        if !starts_with(a, "-") && st.input_file.is_none() {
            if present[i] {
                st.input_file = Some(owned(a));
            } else {
                push_string(&mut st.other_args, owned(a));
            }
            i += 1;
            continue;
        }
        push_string(&mut st.other_args, owned(a));
        i += 1;
    }
    st
}

/// What the compile command `args` (the program first) is made of; whether an operand names
/// an existing file is asked of the file system, whose answers are not stated.
pub fn parse_compile_command(args: &Vec<String>) -> (r: CompileArgs)
    ensures
        exists|present: Seq<bool>|
            present.len() == args.len() && r.view() == #[trigger] compile_spec(
                args.deep_view(),
                present,
            ),
        exists|present: Seq<bool>|
            present.len() == args.len() && (forall|k: int|
                0 <= k < args.len() ==> crate::paths::exists_answer(
                    args[k]@,
                    #[trigger] present[k],
                )) && r.view() == #[trigger] compile_spec(args.deep_view(), present),
{
    let mut present: Vec<bool> = Vec::new();
    let mut i: usize = 0;
    while i < args.len()
        invariant
            i <= args.len(),
            present.len() == i,
            forall|k: int| 0 <= k < i ==> crate::paths::exists_answer(args[k]@, #[trigger] present@[k]),
        decreases args.len() - i,
    {
        let e = crate::paths::ask_exists(args[i].as_str());
        present.push(e);
        i += 1;
    }
    parse_compile_args(args, &present)
}

/// The object file that a compile writes: the `-o` path, else the input's file stem (or
/// `output`) with extension `.o`, else `output.o`.
pub open spec fn compile_output(ca: CompileArgsView) -> Seq<char> {
    match ca.output_file {
        Some(o) => o,
        None => match ca.input_file {
            Some(input) => (match path_file_stem(input) {
                Some(stem) => stem,
                None => "output"@,
            }) + ".o"@,
            None => "output.o"@,
        },
    }
}

/// The object file that the compile `ca` writes.
pub fn compile_output_path(ca: &CompileArgs) -> (r: String)
    ensures
        r@ == compile_output(ca.view()),
{
    match &ca.output_file {
        Some(o) => o.clone(),
        None => match &ca.input_file {
            Some(input) => {
                let stem = match file_stem(input.as_str()) {
                    Some(s) => s,
                    None => owned("output"),
                };
                concat(stem.as_str(), ".o")
            },
            None => owned("output.o"),
        },
    }
}

/// The extra options that the value `emit` of the switch for LLVM IR adds: none for `1`, else
/// its white-space separated words.
pub open spec fn emit_extra_options(emit: Seq<char>) -> Seq<Seq<char>> {
    if emit == "1"@ {
        Seq::empty()
    } else {
        words(emit)
    }
}

/// The extra options that the value `emit` of the switch for LLVM IR adds.
pub fn extra_emit_options(emit: &str) -> (r: Vec<String>)
    ensures
        r.deep_view() == emit_extra_options(emit@),
{
    if str_eq(emit, "1") {
        let r: Vec<String> = Vec::new();
        assert(r.deep_view() =~= Seq::<Seq<char>>::empty());
        r
    } else {
        split_whitespace(emit)
    }
}

/// The arguments after the program that generate the IR of a compile into `out`: its other
/// arguments, the extra options, the target option, `-emit-llvm`, its input, and `-o out`.
pub open spec fn compile_ir_args(
    other_args: Seq<Seq<char>>,
    extra: Seq<Seq<char>>,
    march: Option<Seq<char>>,
    input: Option<Seq<char>>,
    out: Seq<char>,
) -> Seq<Seq<char>> {
    other_args + extra + (match march {
        Some(m) => seq![m],
        None => Seq::empty(),
    }) + seq!["-emit-llvm"@] + (match input {
        Some(i) => seq![i],
        None => Seq::empty(),
    }) + seq!["-o"@, out]
}

/// The IR compile of a compile keeps all that it is given: its own options and the extra
/// options come first, in order; a target option `m` comes right after them and right before
/// `-emit-llvm`, and is the only difference from the IR compile without it; the input, if
/// any, and `-o out` end it.
pub proof fn lemma_ir_compile_keeps_options(
    other_args: Seq<Seq<char>>,
    extra: Seq<Seq<char>>,
    m: Seq<char>,
    input: Option<Seq<char>>,
    out: Seq<char>,
)
    ensures
        compile_ir_args(other_args, extra, Some(m), input, out) == compile_ir_args(
            other_args,
            extra,
            None,
            input,
            out,
        ).insert((other_args.len() + extra.len()) as int, m),
        compile_ir_args(other_args, extra, Some(m), input, out).subrange(
            0,
            (other_args.len() + extra.len()) as int,
        ) == other_args + extra,
        compile_ir_args(other_args, extra, Some(m), input, out)[(other_args.len() + extra.len()) as int]
            == m,
        compile_ir_args(other_args, extra, Some(m), input, out)[(other_args.len() + extra.len() + 1) as int] == "-emit-llvm"@,
        compile_ir_args(other_args, extra, None, input, out)[(other_args.len() + extra.len()) as int]
            == "-emit-llvm"@,
        compile_ir_args(other_args, extra, Some(m), input, out).len() == other_args.len()
            + extra.len() + 4 + (if input is Some {
            1int
        } else {
            0
        }),
        compile_ir_args(other_args, extra, None, input, out).last() == out,
        input matches Some(i) ==> compile_ir_args(other_args, extra, None, input, out)[(other_args.len() + extra.len() + 1) as int] == i,
{
    let n = (other_args.len() + extra.len()) as int;
    let with = compile_ir_args(other_args, extra, Some(m), input, out);
    let without = compile_ir_args(other_args, extra, None, input, out);
    assert(with =~= without.insert(n, m));
    assert(with.subrange(0, n) =~= other_args + extra);
}

/// Appends all of `b` to `a`.
fn extend_strings(a: &mut Vec<String>, b: &Vec<String>)
    ensures
        final(a).deep_view() == old(a).deep_view() + b.deep_view(),
{
    let ghost a0 = a.deep_view();
    let mut i: usize = 0;
    while i < b.len()
        invariant
            i <= b.len(),
            a.deep_view() == a0 + b.deep_view().take(i as int),
        decreases b.len() - i,
    {
        push_string(a, b[i].clone());
        assert(a.deep_view() =~= a0 + b.deep_view().take(i + 1));
        i += 1;
    }
    assert(b.deep_view().take(i as int) =~= b.deep_view());
}

/// The arguments that generate the IR of the compile `ca` into `out`.
pub fn compile_ir_command_args(
    ca: &CompileArgs,
    extra: &Vec<String>,
    march: Option<&str>,
    out: &str,
) -> (r: Vec<String>)
    ensures
        r.deep_view() == compile_ir_args(
            ca.view().other_args,
            extra.deep_view(),
            match march {
                Some(m) => Some(m@),
                None => None,
            },
            ca.view().input_file,
            out@,
        ),
{
    let mut r: Vec<String> = Vec::new();
    assert(r.deep_view() =~= Seq::<Seq<char>>::empty());
    extend_strings(&mut r, &ca.other_args);
    extend_strings(&mut r, extra);
    let ghost p = r.deep_view();
    match march {
        Some(m) => push_string(&mut r, owned(m)),
        None => {},
    }
    push_string(&mut r, owned("-emit-llvm"));
    match &ca.input_file {
        Some(i) => push_string(&mut r, i.clone()),
        None => {},
    }
    push_string(&mut r, owned("-o"));
    push_string(&mut r, owned(out));
    assert(r.deep_view() =~= compile_ir_args(
        ca.view().other_args,
        extra.deep_view(),
        match march {
            Some(m) => Some(m@),
            None => None,
        },
        ca.view().input_file,
        out@,
    ));
    r
}

/// Where the IR of a compile goes: the mirror of its object file, written there directly
/// where the command names its output or its input, else first to that path followed by
/// `tmp_suffix` (and moved in place afterwards).
pub open spec fn compile_ir_output(
    ca: CompileArgsView,
    cwd: Seq<char>,
    llvm_ir_dir: Seq<char>,
    tmp_suffix: Seq<char>,
) -> (Seq<char>, bool) {
    let ir = llvmir_location(compile_output(ca), cwd, llvm_ir_dir);
    if ca.output_file is Some || ca.input_file is Some {
        (ir, false)
    } else {
        (ir + tmp_suffix, true)
    }
}

/// The IR file of the compile `ca`, the file first written, and whether that one is a
/// temporary file to be moved onto the IR file.
pub fn compile_ir_paths(ca: &CompileArgs, cwd: &str, llvm_ir_dir: &str, tmp_suffix: &str) -> (r: (
    String,
    String,
    bool,
))
    ensures
        r.0@ == llvmir_location(compile_output(ca.view()), cwd@, llvm_ir_dir@),
        (r.1@, r.2) == compile_ir_output(ca.view(), cwd@, llvm_ir_dir@, tmp_suffix@),
{
    let out = compile_output_path(ca);
    let ir = compute_llvmir_path(out.as_str(), cwd, llvm_ir_dir);
    if ca.output_file.is_some() || ca.input_file.is_some() {
        let first = ir.clone();
        (ir, first, false)
    } else {
        let first = append_tmp_suffix(ir.as_str(), tmp_suffix);
        (ir, first, true)
    }
}

/// The option that selects the target CPU level for the IR of a target: `rva23u64` for
/// 64-bit RISC-V, `x86-64-v4` for x86-64, none for others.
pub open spec fn march_for_target(target: Seq<char>) -> Option<Seq<char>> {
    if "riscv64"@.is_prefix_of(target) || contains_seq(target, "riscv64"@) {
        Some("-march=rva23u64"@)
    } else if "x86_64"@.is_prefix_of(target) || "x86-64"@.is_prefix_of(target) || contains_seq(
        target,
        "x86_64"@,
    ) || contains_seq(target, "x86-64"@) {
        Some("-march=x86-64-v4"@)
    } else {
        None
    }
}

/// The option that selects the target CPU level for the IR of the target `target`.
pub fn get_march_for_target(target: &str) -> (r: Option<&'static str>)
    ensures
        match r {
            Some(m) => march_for_target(target@) == Some(m@),
            None => march_for_target(target@) is None,
        },
{
    if starts_with(target, "riscv64") || contains_str(target, "riscv64") {
        return Some("-march=rva23u64");
    }
    if starts_with(target, "x86_64") || starts_with(target, "x86-64") || contains_str(
        target,
        "x86_64",
    ) || contains_str(target, "x86-64") {
        return Some("-march=x86-64-v4");
    }
    None
}

/// The target that the output of `clang ... --version` names: the rest, trimmed, of its first
/// line that begins with `Target:`.
pub open spec fn reported_target(output: Seq<char>) -> Option<Seq<char>> {
    let ls = text_lines(output);
    if exists|i: int| 0 <= i < ls.len() && "Target:"@.is_prefix_of(ls[i]) {
        let i = choose|i: int|
            0 <= i < ls.len() && "Target:"@.is_prefix_of(ls[i]) && forall|j: int|
                0 <= j < i ==> !"Target:"@.is_prefix_of(ls[j]);
        Some(trimmed(ls[i].skip("Target:"@.len() as int)))
    } else {
        None
    }
}

/// The target that the output of `clang ... --version` names.
pub fn parse_compile_target(output: &str) -> (r: Option<String>)
    ensures
        r.deep_view() == reported_target(output@),
{
    let ls = lines(output);
    let ghost lv = ls.deep_view();
    let mut i: usize = 0;
    while i < ls.len()
        invariant
            lv == ls.deep_view(),
            lv == text_lines(output@),
            i <= ls.len(),
            forall|j: int| 0 <= j < i ==> !"Target:"@.is_prefix_of(lv[j]),
        decreases ls.len() - i,
    {
        if let Some(rest) = strip_prefix(ls[i].as_str(), "Target:") {
            proof {
                assert("Target:"@.is_prefix_of(lv[i as int]));
                let k = choose|k: int|
                    0 <= k < lv.len() && "Target:"@.is_prefix_of(lv[k]) && forall|j: int|
                        0 <= j < k ==> !"Target:"@.is_prefix_of(lv[j]);
                assert(k == i) by {
                    if k < i {
                    } else if i < k {
                    }
                }
                assert(rest@ =~= lv[i as int].skip("Target:"@.len() as int));
            }
            return Some(trim(rest.as_str()));
        }
        i += 1;
    }
    None
}

/// The version line of a compiler: the first line of the output of `clang --version`.
pub open spec fn reported_version(output: Seq<char>) -> Option<Seq<char>> {
    let ls = text_lines(output);
    if ls.len() > 0 {
        Some(ls[0])
    } else {
        None
    }
}

/// The version line of a compiler, from the output of `clang --version`.
pub fn parse_clang_version(output: &str) -> (r: Option<String>)
    ensures
        r.deep_view() == reported_version(output@),
{
    let ls = lines(output);
    if ls.len() > 0 {
        Some(ls[0].clone())
    } else {
        None
    }
}

} // verus!
