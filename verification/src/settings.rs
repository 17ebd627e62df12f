//! What the wrappers take from their environment and command line: the IR directory, the
//! switches, the name they were called by, and where the tools they run are found.
use vstd::prelude::*;
use crate::paths::{
    ask_canonical, ask_exists, canonical_answer, exists_answer, file_name, join_path, opt_view,
    path_file_name, path_join,
};
use crate::text::{chars_of, concat, owned, split_on, split_on_char, str_eq, strip_prefix};
use crate::install::opt_str;

verus! {

broadcast use vstd::string::group_string_axioms;

/// A setting is on where the variable is set to something other than the empty string and `0`.
pub open spec fn switched_on(value: Option<Seq<char>>) -> bool {
    match value {
        Some(v) => v.len() > 0 && v != "0"@,
        None => false,
    }
}

/// Whether a switch with the value `value` (`None` where the variable is unset) is on.
fn switch_on(value: Option<&str>) -> (r: bool)
    ensures
        r == switched_on(opt_str(value)),
{
    match value {
        Some(v) => v.unicode_len() > 0 && !str_eq(v, "0"),
        None => false,
    }
}

/// The directory of the IR tree: `LLVM_IR_DIR` where it is set and not empty, else `tmp/llvmir`
/// under the home directory `home`.
pub open spec fn llvm_ir_dir_of(var: Option<Seq<char>>, home: Option<Seq<char>>) -> Seq<char> {
    match var {
        Some(v) if v.len() > 0 => v,
        _ => home->0 + "/tmp/llvmir"@,
    }
}

/// The directory of the IR tree, from the values of `LLVM_IR_DIR` and `HOME` (`None` where
/// unset). Without a usable `LLVM_IR_DIR` the home directory must be known.
pub fn get_llvm_ir_dir(llvm_ir_dir: Option<&str>, home: Option<&str>) -> (r: String)
    requires
        (opt_str(llvm_ir_dir) matches Some(v) && v.len() > 0) || home is Some,
    ensures
        r@ == llvm_ir_dir_of(opt_str(llvm_ir_dir), opt_str(home)),
{
    match llvm_ir_dir {
        Some(v) => {
            if v.unicode_len() > 0 {
                return owned(v);
            }
        },
        None => {},
    }
    match home {
        Some(h) => concat(h, "/tmp/llvmir"),
        None => owned(""),
    }
}

/// Whether debug logging is on, from the value of `CLANG_WRAP_DEBUG`.
pub fn is_debug_mode(value: Option<&str>) -> (r: bool)
    ensures
        r == switched_on(opt_str(value)),
{
    switch_on(value)
}

/// Whether IR generation is on, from the value of `EMIT_LLVMIR`.
pub fn is_emit_llvmir_enabled(value: Option<&str>) -> (r: bool)
    ensures
        r == switched_on(opt_str(value)),
{
    switch_on(value)
}

/// The value of `EMIT_LLVMIR` where it switches IR generation on (it may hold extra options).
pub fn get_emit_llvmir_opt(value: Option<&str>) -> (r: Option<String>)
    ensures
        switched_on(opt_str(value)) ==> opt_view(r) == opt_str(value),
        !switched_on(opt_str(value)) ==> r is None,
{
    match value {
        Some(v) => if switch_on(value) {
            Some(owned(v))
        } else {
            None
        },
        None => None,
    }
}

/// The name a program was called by: the file name of its first argument, `unknown` where it
/// has none.
pub open spec fn program_name_of(args: Seq<Seq<char>>) -> Seq<char> {
    match path_file_name(args[0]) {
        Some(n) => n,
        None => "unknown"@,
    }
}

/// The name the program was called by, from its arguments (the first being its path).
pub fn get_program_name(args: &Vec<String>) -> (r: String)
    requires
        args.len() > 0,
    ensures
        r@ == program_name_of(args.deep_view()),
{
    match file_name(args[0].as_str()) {
        Some(n) => n,
        None => {
            proof {
                reveal_strlit("unknown");
            }
            owned("unknown")
        },
    }
}

/// The command to run for a wrapper called as `program_name`: `default_cmd` where it was
/// called by its own name `wrap_name`, else the name it was called by.
pub fn resolve_cmd_name<'a>(program_name: &'a str, wrap_name: &str, default_cmd: &'a str) -> (r:
    &'a str)
    ensures
        r@ == (if program_name@ == wrap_name@ {
            default_cmd@
        } else {
            program_name@
        }),
{
    if str_eq(program_name, wrap_name) {
        default_cmd
    } else {
        program_name
    }
}

/// The places that the search path `path_env` offers for the program `exe`: `exe` in each of
/// its `:`-separated directories, in order.
pub open spec fn path_candidates(path_env: Seq<char>, exe: Seq<char>) -> Seq<Seq<char>> {
    let dirs = split_on_char(path_env, ':');
    Seq::new(dirs.len(), |i: int| path_join(dirs[i], exe))
}

/// The places that the search path `path_env` offers for `exe`.
pub fn path_candidate_files(path_env: &str, exe: &str) -> (r: Vec<String>)
    ensures
        r.deep_view() == path_candidates(path_env@, exe@),
{
    let dirs = split_on(path_env, ':');
    let ghost dv = dirs.deep_view();
    let mut out: Vec<String> = Vec::new();
    let mut i: usize = 0;
    while i < dirs.len()
        invariant
            dv == dirs.deep_view(),
            dv == split_on_char(path_env@, ':'),
            i <= dirs.len(),
            out.deep_view() == Seq::new(i as nat, |k: int| path_join(dv[k], exe@)),
        decreases dirs.len() - i,
    {
        let c = join_path(dirs[i].as_str(), exe);
        assert(dirs[i as int]@ == dv[i as int]);
        let ghost before = out.deep_view();
        out.push(c);
        assert(out.deep_view() =~= before.push(c@));
        assert(out.deep_view() =~= Seq::new((i + 1) as nat, |k: int| path_join(dv[k], exe@)));
        i += 1;
    }
    out
}

/// The first of `cands`, from position `i` on, that exists (`present`) and is not the program
/// itself: its canonical form (`canonical`, where the file system gave one) is not `self_real`.
pub open spec fn other_from(
    cands: Seq<Seq<char>>,
    present: Seq<bool>,
    canonical: Seq<Option<Seq<char>>>,
    self_real: Seq<char>,
    i: int,
) -> Option<Seq<char>>
    decreases cands.len() - i,
{
    if i < 0 || i >= cands.len() {
        None
    } else if present[i] && canonical[i] != Some(self_real) {
        Some(cands[i])
    } else {
        other_from(cands, present, canonical, self_real, i + 1)
    }
}

/// The views of optional strings.
pub open spec fn opt_views(v: Seq<Option<String>>) -> Seq<Option<Seq<char>>> {
    Seq::new(v.len(), |i: int| opt_view(v[i]))
}

/// The first of `cands` that exists and is not the program itself, given the file system's
/// answers: `present[i]` whether `cands[i]` exists, `canonical[i]` its canonical form, `self_real`
/// the canonical form of the running program.
pub fn first_other_executable(
    cands: &Vec<String>,
    present: &Vec<bool>,
    canonical: &Vec<Option<String>>,
    self_real: &str,
) -> (r: Option<String>)
    requires
        present.len() == cands.len(),
        canonical.len() == cands.len(),
    ensures
        opt_view(r) == other_from(cands.deep_view(), present@, opt_views(canonical@), self_real@, 0),
{
    let ghost cv = cands.deep_view();
    let ghost rv = opt_views(canonical@);
    let mut i: usize = 0;
    while i < cands.len()
        invariant
            cv == cands.deep_view(),
            rv == opt_views(canonical@),
            present.len() == cands.len(),
            canonical.len() == cands.len(),
            i <= cands.len(),
            other_from(cv, present@, rv, self_real@, 0) == other_from(
                cv,
                present@,
                rv,
                self_real@,
                i as int,
            ),
        decreases cands.len() - i,
    {
        if present[i] {
            let is_self = match &canonical[i] {
                Some(p) => str_eq(p.as_str(), self_real),
                None => false,
            };
            assert(rv[i as int] == opt_view(canonical@[i as int]));
            if !is_self {
                assert(cands[i as int]@ == cv[i as int]);
                return Some(cands[i].clone());
            }
        }
        i += 1;
    }
    None
}

/// The program `exe` as the search path `path_env` finds it, the running program (at
/// `current_exe`) left out; `None` without a search path or where the running program cannot
/// be resolved. `present`, `canonical` and `self_real` are the file system's answers.
pub open spec fn exe_search(
    path_env: Option<Seq<char>>,
    exe: Seq<char>,
    self_real: Option<Seq<char>>,
    present: Seq<bool>,
    canonical: Seq<Option<Seq<char>>>,
) -> Option<Seq<char>> {
    match (path_env, self_real) {
        (Some(pe), Some(s)) => other_from(path_candidates(pe, exe), present, canonical, s, 0),
        _ => None,
    }
}

/// The program `exe` as the search path `path_env` (`None` where unset) finds it, leaving out
/// the running program at `current_exe`. Which places exist and the canonical forms of paths
/// are asked of the file system, whose answers are not stated.
pub fn find_exe_in_path(exe_name: &str, current_exe: &str, path_env: Option<&str>) -> (r: Option<
    String,
>)
    ensures
        exists|self_real: Option<Seq<char>>, present: Seq<bool>, canonical: Seq<Option<Seq<char>>>|
            #[trigger] exe_search(opt_str(path_env), exe_name@, self_real, present, canonical) == opt_view(r),
        exists|self_real: Option<Seq<char>>, present: Seq<bool>, canonical: Seq<Option<Seq<char>>>|
            #[trigger] exe_search(opt_str(path_env), exe_name@, self_real, present, canonical)
                == opt_view(r) && (path_env matches Some(pe) ==> exe_search_answered(
                pe@,
                exe_name@,
                current_exe@,
                self_real,
                present,
                canonical,
            )),
{
    let pe = match path_env {
        Some(p) => p,
        None => {
            assert(exe_search(None, exe_name@, None, Seq::empty(), Seq::empty()) == opt_view(None));
            return None;
        },
    };
    let self_real = match ask_canonical(current_exe) {
        Some(s) => s,
        None => {
            assert(exe_search(Some(pe@), exe_name@, None, Seq::empty(), Seq::empty()) == opt_view(None));
            assert(exe_search_answered(pe@, exe_name@, current_exe@, None, Seq::empty(), Seq::empty()));
            return None;
        },
    };
    let cands = path_candidate_files(pe, exe_name);
    let ghost cv = cands.deep_view();
    let mut present: Vec<bool> = Vec::new();
    let mut canon: Vec<Option<String>> = Vec::new();
    let mut i: usize = 0;
    while i < cands.len()
        invariant
            i <= cands.len(),
            present.len() == i,
            canon.len() == i,
            cv == cands.deep_view(),
            forall|k: int| 0 <= k < i ==> exists_answer(cv[k], #[trigger] present@[k]),
            forall|k: int|
                0 <= k < i && #[trigger] present@[k] ==> canonical_answer(cv[k], opt_view(canon@[k])),
        decreases cands.len() - i,
    {
        assert(cands[i as int]@ == cv[i as int]);
        let e = ask_exists(cands[i].as_str());
        present.push(e);
        canon.push(if e {
            ask_canonical(cands[i].as_str())
        } else {
            None
        });
        i += 1;
    }
    let r = first_other_executable(&cands, &present, &canon, self_real.as_str());
    assert(exe_search(Some(pe@), exe_name@, Some(self_real@), present@, opt_views(canon@)) == opt_view(r));
    assert(exe_search_answered(pe@, exe_name@, current_exe@, Some(self_real@), present@, opt_views(canon@)));
    r
}

/// The answers behind a search for `exe` on the search path `pe`, the running program being
/// at `current_exe`: `self_real` is what the file system gave as the canonical form of
/// `current_exe`; where it gave one, `present` holds its answers on whether each place exists
/// and `canonical` its canonical forms of the places that exist.
pub open spec fn exe_search_answered(
    pe: Seq<char>,
    exe: Seq<char>,
    current_exe: Seq<char>,
    self_real: Option<Seq<char>>,
    present: Seq<bool>,
    canonical: Seq<Option<Seq<char>>>,
) -> bool {
    &&& canonical_answer(current_exe, self_real)
    &&& self_real is Some ==> {
        &&& answered_all(path_candidates(pe, exe), present)
        &&& canonical.len() == present.len()
        &&& forall|k: int|
            0 <= k < present.len() && #[trigger] present[k] ==> canonical_answer(
                path_candidates(pe, exe)[k],
                canonical[k],
            )
    }
}

/// `present` holds, place by place, what the file system answered when asked whether
/// something exists there.
pub open spec fn answered_all(cands: Seq<Seq<char>>, present: Seq<bool>) -> bool {
    present.len() == cands.len() && forall|k: int|
        0 <= k < cands.len() ==> exists_answer(cands[k], #[trigger] present[k])
}

/// What `char::is_numeric` says of `c`: whether it is in one of Unicode's number categories.
pub uninterp spec fn char_numeric(c: char) -> bool;

/// Whether `c` is numeric, through `char::is_numeric`. Its result is named, not stated; the
/// decimal digits `0` to `9` are numeric.
#[verifier::external_body]
fn is_numeric(c: char) -> (r: bool)
    ensures
        r == char_numeric(c),
        '0' <= c <= '9' ==> r,
{
    c.is_numeric()
}

/// What follows `clang` (and a `++` right after it) in the compiler command `clang_cmd`.
pub open spec fn after_clang(clang_cmd: Seq<char>) -> Seq<char> {
    let rest = clang_cmd.skip(5);
    if "++"@.is_prefix_of(rest) {
        rest.skip(2)
    } else {
        rest
    }
}

/// `c` is a decimal digit, or another numeric character.
pub open spec fn numeric_char(c: char) -> bool {
    ('0' <= c && c <= '9') || char_numeric(c)
}

/// The version suffix of the compiler command `clang_cmd` (`clang`, `clang++` or either with
/// a version): what follows `clang` or `clang++` where that begins with `-` or `+`, or `-` and
/// it where it begins with a numeric character; else nothing. So `clang-22`, `clang22`,
/// `clang++-22` and `clang++22` all give `-22`.
pub open spec fn version_suffix(clang_cmd: Seq<char>) -> Seq<char> {
    if "clang"@.is_prefix_of(clang_cmd) {
        let rest = after_clang(clang_cmd);
        if rest.len() > 0 && (rest[0] == '-' || rest[0] == '+') {
            rest
        } else if rest.len() > 0 && numeric_char(rest[0]) {
            "-"@ + rest
        } else {
            Seq::empty()
        }
    } else {
        Seq::empty()
    }
}

/// The version suffix of the compiler command `clang_cmd`.
pub fn clang_version_suffix(clang_cmd: &str) -> (r: String)
    ensures
        r@ == version_suffix(clang_cmd@),
{
    proof {
        reveal_strlit("clang");
        reveal_strlit("++");
        reveal_strlit("-");
    }
    match strip_prefix(clang_cmd, "clang") {
        Some(after) => {
            assert(after@ =~= clang_cmd@.skip(5));
            let rest = match strip_prefix(after.as_str(), "++") {
                Some(r) => {
                    assert(r@ =~= after@.skip(2));
                    r
                },
                None => after,
            };
            assert(rest@ == after_clang(clang_cmd@));
            let v = chars_of(rest.as_str());
            if v.len() > 0 && (v[0] == '-' || v[0] == '+') {
                rest
            } else if v.len() > 0 && (('0' <= v[0] && v[0] <= '9') || is_numeric(v[0])) {
                concat("-", rest.as_str())
            } else {
                String::new()
            }
        },
        None => String::new(),
    }
}

/// The first of `cands`, from position `i` on, that exists (`present`).
pub open spec fn present_from(cands: Seq<Seq<char>>, present: Seq<bool>, i: int) -> Option<
    Seq<char>,
>
    decreases cands.len() - i,
{
    if i < 0 || i >= cands.len() {
        None
    } else if present[i] {
        Some(cands[i])
    } else {
        present_from(cands, present, i + 1)
    }
}

/// The first of `cands` that exists, given the file system's answers `present`.
pub fn first_present(cands: &Vec<String>, present: &Vec<bool>) -> (r: Option<String>)
    requires
        present.len() == cands.len(),
    ensures
        opt_view(r) == present_from(cands.deep_view(), present@, 0),
{
    let ghost cv = cands.deep_view();
    let mut i: usize = 0;
    while i < cands.len()
        invariant
            cv == cands.deep_view(),
            present.len() == cands.len(),
            i <= cands.len(),
            present_from(cv, present@, 0) == present_from(cv, present@, i as int),
        decreases cands.len() - i,
    {
        if present[i] {
            assert(cands[i as int]@ == cv[i as int]);
            return Some(cands[i].clone());
        }
        i += 1;
    }
    None
}

/// The LLVM tool `tool` to run beside the compiler `clang_cmd`: the first place on the search
/// path `path_env` that holds the tool with the compiler's version suffix, if it has one; else
/// the first that holds the tool; else the bare name. `versioned` and `plain` tell which
/// places hold the tool with and without the suffix.
pub open spec fn tool_choice(
    tool: Seq<char>,
    clang_cmd: Seq<char>,
    path_env: Option<Seq<char>>,
    versioned: Seq<bool>,
    plain: Seq<bool>,
) -> Seq<char> {
    match path_env {
        None => tool,
        Some(pe) => {
            let suffix = version_suffix(clang_cmd);
            let v = if suffix.len() > 0 {
                present_from(path_candidates(pe, tool + suffix), versioned, 0)
            } else {
                None
            };
            match v {
                Some(c) => c,
                None => match present_from(path_candidates(pe, tool), plain, 0) {
                    Some(c) => c,
                    None => tool,
                },
            }
        },
    }
}

/// The LLVM tool `tool` to run beside the compiler `clang_cmd`, given the file system's
/// answers: `versioned[i]` and `plain[i]` tell whether the `i`-th directory of the search path
/// `path_env` holds the tool with and without the compiler's version suffix.
pub fn choose_llvm_tool(
    tool_name: &str,
    clang_cmd: &str,
    path_env: Option<&str>,
    versioned: &Vec<bool>,
    plain: &Vec<bool>,
) -> (r: String)
    requires
        path_env matches Some(pe) ==> versioned.len() == path_candidates(
            pe@,
            tool_name@ + version_suffix(clang_cmd@),
        ).len() && plain.len() == path_candidates(pe@, tool_name@).len(),
    ensures
        r@ == tool_choice(tool_name@, clang_cmd@, opt_str(path_env), versioned@, plain@),
{
    let pe = match path_env {
        Some(p) => p,
        None => {
            return owned(tool_name);
        },
    };
    let suffix = clang_version_suffix(clang_cmd);
    let versioned_tool = concat(tool_name, suffix.as_str());
    let vc = path_candidate_files(pe, versioned_tool.as_str());
    let pc = path_candidate_files(pe, tool_name);
    let v = if suffix.as_str().unicode_len() > 0 {
        first_present(&vc, versioned)
    } else {
        None
    };
    match v {
        Some(c) => c,
        None => match first_present(&pc, plain) {
            Some(c) => c,
            None => owned(tool_name),
        },
    }
}

/// The answers of the file system: whether each of `cands` exists.
fn existing(cands: &Vec<String>) -> (r: Vec<bool>)
    ensures
        r.len() == cands.len(),
        answered_all(cands.deep_view(), r@),
{
    let ghost cv = cands.deep_view();
    let mut r: Vec<bool> = Vec::new();
    let mut i: usize = 0;
    while i < cands.len()
        invariant
            i <= cands.len(),
            r.len() == i,
            cv == cands.deep_view(),
            forall|k: int| 0 <= k < i ==> exists_answer(cv[k], #[trigger] r@[k]),
        decreases cands.len() - i,
    {
        assert(cands[i as int]@ == cv[i as int]);
        let e = ask_exists(cands[i].as_str());
        r.push(e);
        i += 1;
    }
    r
}

/// The LLVM tool `tool` to run beside the compiler `clang_cmd`, searched on `path_env`
/// (`None` where unset). Which places hold it is asked of the file system, whose answers are
/// not stated.
pub fn find_llvm_tool(tool_name: &str, clang_cmd: &str, path_env: Option<&str>) -> (r: String)
    ensures
        exists|versioned: Seq<bool>, plain: Seq<bool>|
            #[trigger] tool_choice(tool_name@, clang_cmd@, opt_str(path_env), versioned, plain) == r@,
        exists|versioned: Seq<bool>, plain: Seq<bool>|
            #[trigger] tool_choice(tool_name@, clang_cmd@, opt_str(path_env), versioned, plain) == r@
                && (path_env matches Some(pe) ==> answered_all(
                path_candidates(pe@, tool_name@ + version_suffix(clang_cmd@)),
                versioned,
            ) && answered_all(path_candidates(pe@, tool_name@), plain)),
{
    match path_env {
        Some(pe) => {
            let suffix = clang_version_suffix(clang_cmd);
            let versioned_tool = concat(tool_name, suffix.as_str());
            let vp = existing(&path_candidate_files(pe, versioned_tool.as_str()));
            let pp = existing(&path_candidate_files(pe, tool_name));
            let r = choose_llvm_tool(tool_name, clang_cmd, path_env, &vp, &pp);
            assert(tool_choice(tool_name@, clang_cmd@, opt_str(path_env), vp@, pp@) == r@);
            r
        },
        None => {
            let r = choose_llvm_tool(tool_name, clang_cmd, path_env, &Vec::new(), &Vec::new());
            assert(tool_choice(tool_name@, clang_cmd@, None, Seq::empty(), Seq::empty()) == r@);
            r
        },
    }
}

} // verus!
