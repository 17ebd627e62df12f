//! Where the LLVM IR of a build product and its auxiliary files are found.
use vstd::prelude::*;
use crate::text::concat;
use crate::paths::{
    ask_exists, exists_answer, opt_view, compute_llvmir_path, llvmir_location,
    path_with_extension, with_extension,
};

verus! {

broadcast use vstd::string::group_string_axioms;

/// The kinds of auxiliary file that accompany a merged IR file: the `llvm-link` log, the
/// re-link script, and the version script.
#[derive(PartialEq, Eq, Structural, Clone, Copy, Debug)]
pub enum AuxFileSuffix {
    Log,
    Cmd,
    Verscript,
}

/// The suffix that an auxiliary file adds to the name of its IR file.
pub open spec fn suffix_text(s: AuxFileSuffix) -> Seq<char> {
    match s {
        AuxFileSuffix::Log => "_log"@,
        AuxFileSuffix::Cmd => "_cmd"@,
        AuxFileSuffix::Verscript => "_verscript"@,
    }
}

impl AuxFileSuffix {
    /// The suffix that an auxiliary file of this kind adds to the name of its IR file.
    pub fn as_str(&self) -> (r: &'static str)
        ensures
            r@ == suffix_text(*self),
    {
        match self {
            AuxFileSuffix::Log => "_log",
            AuxFileSuffix::Cmd => "_cmd",
            AuxFileSuffix::Verscript => "_verscript",
        }
    }
}

/// The kinds of auxiliary file, in the order in which they are looked for.
pub open spec fn aux_kinds() -> Seq<AuxFileSuffix> {
    seq![AuxFileSuffix::Log, AuxFileSuffix::Cmd, AuxFileSuffix::Verscript]
}

/// The auxiliary file of kind `suffix` for `file_path`, given the file system's answer
/// `exists` for it: `file_path` followed by the suffix where it exists, else none.
pub fn aux_file_given(file_path: &str, suffix: AuxFileSuffix, exists: bool) -> (r: Option<String>)
    ensures
        opt_view(r) == (if exists {
            Some(file_path@ + suffix_text(suffix))
        } else {
            None
        }),
{
    if exists {
        Some(concat(file_path, suffix.as_str()))
    } else {
        None
    }
}

/// The auxiliary file of kind `suffix` for `file_path`, if one exists: `file_path` followed
/// by the suffix. Whether it exists is asked of the file system, whose answer is not stated;
/// [`aux_file_given`] gives the result for each answer.
pub fn find_aux_file(file_path: &str, suffix: AuxFileSuffix) -> (r: Option<String>)
    ensures
        r matches Some(p) ==> p@ == file_path@ + suffix_text(suffix),
        exists_answer(file_path@ + suffix_text(suffix), r is Some),
{
    let aux = concat(file_path, suffix.as_str());
    let exists = ask_exists(aux.as_str());
    aux_file_given(file_path, suffix, exists)
}

/// The `_log` file of `file_path`, if one exists.
pub fn find_log_file(file_path: &str) -> (r: Option<String>)
    ensures
        r matches Some(p) ==> p@ == file_path@ + "_log"@,
        exists_answer(file_path@ + "_log"@, r is Some),
{
    find_aux_file(file_path, AuxFileSuffix::Log)
}

/// The `_cmd` file of `file_path`, if one exists.
pub fn find_cmd_file(file_path: &str) -> (r: Option<String>)
    ensures
        r matches Some(p) ==> p@ == file_path@ + "_cmd"@,
        exists_answer(file_path@ + "_cmd"@, r is Some),
{
    find_aux_file(file_path, AuxFileSuffix::Cmd)
}

/// The `_verscript` file of `file_path`, if one exists.
pub fn find_verscript_file(file_path: &str) -> (r: Option<String>)
    ensures
        r matches Some(p) ==> p@ == file_path@ + "_verscript"@,
        exists_answer(file_path@ + "_verscript"@, r is Some),
{
    find_aux_file(file_path, AuxFileSuffix::Verscript)
}

/// The auxiliary files of `file_path` among the first `n` kinds, `present[i]` telling whether
/// the one of the `i`-th kind exists.
pub open spec fn present_aux_files(file_path: Seq<char>, present: Seq<bool>, n: int) -> Seq<
    (AuxFileSuffix, Seq<char>),
>
    decreases n,
{
    if n <= 0 {
        Seq::empty()
    } else if present[n - 1] {
        present_aux_files(file_path, present, n - 1).push(
            (aux_kinds()[n - 1], file_path + suffix_text(aux_kinds()[n - 1])),
        )
    } else {
        present_aux_files(file_path, present, n - 1)
    }
}

/// The position of the kind `k` in [`aux_kinds`].
pub open spec fn kind_index(k: AuxFileSuffix) -> int {
    match k {
        AuxFileSuffix::Log => 0,
        AuxFileSuffix::Cmd => 1,
        AuxFileSuffix::Verscript => 2,
    }
}

/// What [`present_aux_files`] holds: the files of the kinds said to exist among the first
/// `n`, and nothing else.
proof fn lemma_present_aux_files_members(file_path: Seq<char>, present: Seq<bool>, n: int)
    requires
        0 <= n <= 3,
        present.len() == 3,
    ensures
        present_aux_files(file_path, present, n).len() <= n,
        forall|j: int|
            0 <= j < present_aux_files(file_path, present, n).len() ==> {
                let x = #[trigger] present_aux_files(file_path, present, n)[j];
                &&& 0 <= kind_index(x.0) < n
                &&& present[kind_index(x.0)]
                &&& x.0 == aux_kinds()[kind_index(x.0)]
                &&& x.1 == file_path + suffix_text(x.0)
            },
        forall|i: int|
            0 <= i < n && #[trigger] present[i] ==> present_aux_files(file_path, present, n).contains(
                (aux_kinds()[i], file_path + suffix_text(aux_kinds()[i])),
            ),
    decreases n,
{
    if n > 0 {
        lemma_present_aux_files_members(file_path, present, n - 1);
        let prev = present_aux_files(file_path, present, n - 1);
        let cur = present_aux_files(file_path, present, n);
        let item = (aux_kinds()[n - 1], file_path + suffix_text(aux_kinds()[n - 1]));
        assert(kind_index(aux_kinds()[n - 1]) == n - 1);
        if present[n - 1] {
            assert(cur == prev.push(item));
            assert forall|j: int| 0 <= j < cur.len() implies {
                let x = #[trigger] cur[j];
                &&& 0 <= kind_index(x.0) < n
                &&& present[kind_index(x.0)]
                &&& x.0 == aux_kinds()[kind_index(x.0)]
                &&& x.1 == file_path + suffix_text(x.0)
            } by {
                if j < prev.len() {
                    assert(cur[j] == prev[j]);
                }
            }
            assert forall|i: int| 0 <= i < n && #[trigger] present[i] implies cur.contains(
                (aux_kinds()[i], file_path + suffix_text(aux_kinds()[i])),
            ) by {
                if i < n - 1 {
                    let x = (aux_kinds()[i], file_path + suffix_text(aux_kinds()[i]));
                    let j = choose|j: int| 0 <= j < prev.len() && prev[j] == x;
                    assert(cur[j] == x);
                } else {
                    assert(cur[cur.len() - 1] == item);
                }
            }
        } else {
            assert(cur == prev);
        }
    }
}

/// The view of a found auxiliary file.
pub open spec fn aux_view(a: (AuxFileSuffix, String)) -> (AuxFileSuffix, Seq<char>) {
    (a.0, a.1@)
}

/// The views of found auxiliary files.
pub open spec fn aux_views(v: Seq<(AuxFileSuffix, String)>) -> Seq<(AuxFileSuffix, Seq<char>)> {
    v.map_values(|a: (AuxFileSuffix, String)| aux_view(a))
}

/// `found` are the auxiliary files of `file_path` for some answers `present` of the file
/// system.
pub open spec fn is_aux_selection(
    file_path: Seq<char>,
    present: Seq<bool>,
    found: Seq<(AuxFileSuffix, Seq<char>)>,
) -> bool {
    present.len() == 3 && found == present_aux_files(file_path, present, 3)
}

/// `present` holds what the file system answered, kind by kind (`_log`, `_cmd`, `_verscript`),
/// when asked whether the auxiliary file of `file_path` exists.
pub open spec fn aux_answers(file_path: Seq<char>, present: Seq<bool>) -> bool {
    forall|i: int|
        0 <= i < 3 ==> exists_answer(
            file_path + suffix_text(aux_kinds()[i]),
            #[trigger] present[i],
        )
}

/// The auxiliary files found are those that the file system said exist, in the order `_log`,
/// `_cmd`, `_verscript`: each kind said to exist gives its file, and every file given is of a
/// kind said to exist.
pub proof fn lemma_aux_files_were_said_to_exist(
    file_path: Seq<char>,
    present: Seq<bool>,
    found: Seq<(AuxFileSuffix, Seq<char>)>,
)
    requires
        is_aux_selection(file_path, present, found),
        aux_answers(file_path, present),
    ensures
        forall|j: int|
            0 <= j < found.len() ==> #[trigger] found[j].1 == file_path + suffix_text(found[j].0)
                && exists_answer(found[j].1, true),
        forall|i: int|
            0 <= i < 3 && #[trigger] present[i] ==> found.contains(
                (aux_kinds()[i], file_path + suffix_text(aux_kinds()[i])),
            ),
        found.len() <= 3,
{
    lemma_present_aux_files_members(file_path, present, 3);
    assert forall|j: int| 0 <= j < found.len() implies #[trigger] found[j].1 == file_path
        + suffix_text(found[j].0) && exists_answer(found[j].1, true) by {
        let i = kind_index(found[j].0);
        assert(exists_answer(file_path + suffix_text(aux_kinds()[i]), present[i]));
    }
}

/// The auxiliary files of `file_path` that exist, given the file system's answers: `present[i]`
/// tells whether the one of the `i`-th kind (`_log`, `_cmd`, `_verscript`) exists.
pub fn present_aux_file_list(file_path: &str, present: &Vec<bool>) -> (r: Vec<(AuxFileSuffix, String)>)
    requires
        present.len() == 3,
    ensures
        aux_views(r@) == present_aux_files(file_path@, present@, 3),
{
    let kinds = [AuxFileSuffix::Log, AuxFileSuffix::Cmd, AuxFileSuffix::Verscript];
    assert(kinds@ =~= aux_kinds());
    let mut r: Vec<(AuxFileSuffix, String)> = Vec::new();
    let mut i: usize = 0;
    assert(aux_views(r@) =~= Seq::empty());
    while i < 3
        invariant
            kinds@ == aux_kinds(),
            present.len() == 3,
            i <= 3,
            aux_views(r@) == present_aux_files(file_path@, present@, i as int),
        decreases 3 - i,
    {
        let kind = kinds[i];
        assert(kind == aux_kinds()[i as int]);
        if present[i] {
            let ghost before = aux_views(r@);
            let p = concat(file_path, kind.as_str());
            let ghost pv = p@;
            r.push((kind, p));
            assert(aux_views(r@) =~= before.push((kind, pv)));
        }
        i += 1;
    }
    r
}

/// The auxiliary files (`_log`, `_cmd`, `_verscript`, in this order) of `file_path` that exist.
/// Which exist is asked of the file system, whose answers are not stated.
pub fn find_all_aux_files(file_path: &str) -> (r: Vec<(AuxFileSuffix, String)>)
    ensures
        exists|present: Seq<bool>| #[trigger] is_aux_selection(file_path@, present, aux_views(r@)),
        exists|present: Seq<bool>|
            #[trigger] is_aux_selection(file_path@, present, aux_views(r@)) && aux_answers(
                file_path@,
                present,
            ),
{
    let kinds = [AuxFileSuffix::Log, AuxFileSuffix::Cmd, AuxFileSuffix::Verscript];
    let mut present: Vec<bool> = Vec::new();
    let mut i: usize = 0;
    while i < 3
        invariant
            i <= 3,
            present.len() == i,
            kinds@ == aux_kinds(),
            forall|k: int|
                0 <= k < i ==> exists_answer(
                    file_path@ + suffix_text(aux_kinds()[k]),
                    #[trigger] present@[k],
                ),
        decreases 3 - i,
    {
        let aux = concat(file_path, kinds[i].as_str());
        assert(aux@ == file_path@ + suffix_text(aux_kinds()[i as int]));
        let e = ask_exists(aux.as_str());
        present.push(e);
        i += 1;
    }
    let r = present_aux_file_list(file_path, &present);
    assert(is_aux_selection(file_path@, present@, aux_views(r@)));
    assert(aux_answers(file_path@, present@));
    r
}

/// Where the IR of `file_path` may lie: its mirror under `llvm_ir_dir`, then that path with
/// extension `bc`.
pub open spec fn llvmir_file_candidates(
    file_path: Seq<char>,
    cwd: Seq<char>,
    llvm_ir_dir: Seq<char>,
) -> (Seq<char>, Seq<char>) {
    let ir = llvmir_location(file_path, cwd, llvm_ir_dir);
    (ir, path_with_extension(ir, "bc"@))
}

/// The IR file found among the candidates `cands`: the first where it exists (`first_exists`),
/// else the second where it exists (`second_exists`).
pub open spec fn found_ir(cands: (Seq<char>, Seq<char>), first_exists: bool, second_exists: bool) -> Option<
    Seq<char>,
> {
    if first_exists {
        Some(cands.0)
    } else if second_exists {
        Some(cands.1)
    } else {
        None
    }
}

/// `r` is where the IR of `file_path` lies by what the file system answered: the mirror where
/// it was said to exist; else, the mirror having been said not to exist, the mirror with
/// extension `bc` where that was said to exist; else nothing, both having been said not to
/// exist.
pub open spec fn ir_found_by_asking(
    file_path: Seq<char>,
    cwd: Seq<char>,
    llvm_ir_dir: Seq<char>,
    r: Option<Seq<char>>,
) -> bool {
    let c = llvmir_file_candidates(file_path, cwd, llvm_ir_dir);
    exists|first_exists: bool, second_exists: bool|
        #![trigger found_ir(c, first_exists, second_exists)]
        exists_answer(c.0, first_exists) && (!first_exists ==> exists_answer(c.1, second_exists))
            && found_ir(c, first_exists, second_exists) == r
}

/// What the search for the IR of a file gives is what the file system said: a result is a
/// candidate that was said to exist, the mirror coming before the mirror with extension `bc`
/// (which is the result only where the mirror was said not to exist); no result means both
/// were said not to exist.
pub proof fn lemma_ir_found_was_said_to_exist(
    file_path: Seq<char>,
    cwd: Seq<char>,
    llvm_ir_dir: Seq<char>,
    r: Option<Seq<char>>,
)
    requires
        ir_found_by_asking(file_path, cwd, llvm_ir_dir, r),
    ensures
        r matches Some(p) ==> exists_answer(p, true),
        r matches Some(p) ==> p == llvmir_location(file_path, cwd, llvm_ir_dir) || (p
            == path_with_extension(llvmir_location(file_path, cwd, llvm_ir_dir), "bc"@)
            && exists_answer(llvmir_location(file_path, cwd, llvm_ir_dir), false)),
        r is None ==> exists_answer(llvmir_location(file_path, cwd, llvm_ir_dir), false)
            && exists_answer(
            path_with_extension(llvmir_location(file_path, cwd, llvm_ir_dir), "bc"@),
            false,
        ),
{
    let c = llvmir_file_candidates(file_path, cwd, llvm_ir_dir);
    let (a, b) = choose|a: bool, b: bool|
        exists_answer(c.0, a) && (!a ==> exists_answer(c.1, b)) && found_ir(c, a, b) == r;
    assert(exists_answer(c.0, a) && (!a ==> exists_answer(c.1, b)) && found_ir(c, a, b) == r);
}

/// The IR file of `file_path` under `llvm_ir_dir`, given the file system's answers: whether
/// its mirror exists, and whether the mirror with extension `bc` exists.
pub fn choose_llvmir_file(
    file_path: &str,
    cwd: &str,
    llvm_ir_dir: &str,
    ir_exists: bool,
    bc_exists: bool,
) -> (r: Option<String>)
    ensures
        opt_view(r) == found_ir(
            llvmir_file_candidates(file_path@, cwd@, llvm_ir_dir@),
            ir_exists,
            bc_exists,
        ),
{
    let ir = compute_llvmir_path(file_path, cwd, llvm_ir_dir);
    if ir_exists {
        return Some(ir);
    }
    if bc_exists {
        proof {
            reveal_strlit("bc");
        }
        return Some(with_extension(ir.as_str(), "bc"));
    }
    None
}

/// The IR file of `file_path` under `llvm_ir_dir`: its mirror if that exists, else the mirror
/// with extension `bc` if that exists. Whether they exist is asked of the file system, whose
/// answers are not stated.
pub fn find_llvmir_file(file_path: &str, cwd: &str, llvm_ir_dir: &str) -> (r: Option<String>)
    ensures
        exists|first_exists: bool, second_exists: bool|
            #[trigger] found_ir(
                llvmir_file_candidates(file_path@, cwd@, llvm_ir_dir@),
                first_exists,
                second_exists,
            ) == opt_view(r),
        ir_found_by_asking(file_path@, cwd@, llvm_ir_dir@, opt_view(r)),
{
    find_llvmir_file_impl(file_path, cwd, llvm_ir_dir, false)
}

/// The IR file of `file_path` under `llvm_ir_dir`, as [`find_llvmir_file`] finds it; `debug`
/// asks for the search to be logged, which the caller does.
pub fn find_llvmir_file_with_debug(file_path: &str, cwd: &str, llvm_ir_dir: &str, debug: bool) -> (r:
    Option<String>)
    ensures
        exists|first_exists: bool, second_exists: bool|
            #[trigger] found_ir(
                llvmir_file_candidates(file_path@, cwd@, llvm_ir_dir@),
                first_exists,
                second_exists,
            ) == opt_view(r),
        ir_found_by_asking(file_path@, cwd@, llvm_ir_dir@, opt_view(r)),
{
    find_llvmir_file_impl(file_path, cwd, llvm_ir_dir, debug)
}

/// The IR file of `file_path` under `llvm_ir_dir`.
fn find_llvmir_file_impl(file_path: &str, cwd: &str, llvm_ir_dir: &str, debug: bool) -> (r: Option<
    String,
>)
    ensures
        exists|first_exists: bool, second_exists: bool|
            #[trigger] found_ir(
                llvmir_file_candidates(file_path@, cwd@, llvm_ir_dir@),
                first_exists,
                second_exists,
            ) == opt_view(r),
        ir_found_by_asking(file_path@, cwd@, llvm_ir_dir@, opt_view(r)),
{
    let ghost c = llvmir_file_candidates(file_path@, cwd@, llvm_ir_dir@);
    let ir = compute_llvmir_path(file_path, cwd, llvm_ir_dir);
    let ir_exists = ask_exists(ir.as_str());
    let bc_exists = if ir_exists {
        false
    } else {
        proof {
            reveal_strlit("bc");
        }
        let bc = with_extension(ir.as_str(), "bc");
        ask_exists(bc.as_str())
    };
    let r = choose_llvmir_file(file_path, cwd, llvm_ir_dir, ir_exists, bc_exists);
    assert(found_ir(c, ir_exists, bc_exists) == opt_view(r));
    assert(exists_answer(c.0, ir_exists) && (!ir_exists ==> exists_answer(c.1, bc_exists)));
    r
}

/// The IR that a compile writes for its object file (where it writes it directly) is the
/// first place where the IR of that object file is looked for.
pub proof fn lemma_compile_ir_is_found(
    ca: crate::compile::CompileArgsView,
    cwd: Seq<char>,
    llvm_ir_dir: Seq<char>,
    tmp_suffix: Seq<char>,
)
    ensures
        !crate::compile::compile_ir_output(ca, cwd, llvm_ir_dir, tmp_suffix).1 ==> crate::compile::compile_ir_output(
            ca,
            cwd,
            llvm_ir_dir,
            tmp_suffix,
        ).0 == llvmir_file_candidates(crate::compile::compile_output(ca), cwd, llvm_ir_dir).0,
{
}

/// The IR that a link merges for an object file is the first place where the IR of that
/// object file is looked for, and the merged IR of the link lies where the IR of its output
/// is looked for.
pub proof fn lemma_link_ir_is_found(
    la: crate::link::LinkArgsView,
    cwd: Seq<char>,
    llvm_ir_dir: Seq<char>,
    i: int,
)
    requires
        0 <= i < la.object_files.len(),
    ensures
        crate::link::ir_candidates(la, cwd, llvm_ir_dir)[i].0 == llvmir_file_candidates(
            la.object_files[i],
            cwd,
            llvm_ir_dir,
        ).0,
        llvmir_location(crate::link::link_output(la), cwd, llvm_ir_dir) == llvmir_file_candidates(
            crate::link::link_output(la),
            cwd,
            llvm_ir_dir,
        ).0,
{
    lemma_object_candidates(la.object_files, cwd, llvm_ir_dir, la.object_files.len() as int, i);
}

/// The `i`-th of the first `n` object candidates is the mirror of the `i`-th object file.
proof fn lemma_object_candidates(
    objs: Seq<Seq<char>>,
    cwd: Seq<char>,
    llvm_ir_dir: Seq<char>,
    n: int,
    i: int,
)
    requires
        0 <= i < n <= objs.len(),
    ensures
        crate::link::object_candidates(objs, cwd, llvm_ir_dir, n).len() == n,
        crate::link::object_candidates(objs, cwd, llvm_ir_dir, n)[i].0 == llvmir_location(
            objs[i],
            cwd,
            llvm_ir_dir,
        ),
    decreases n,
{
    if n > 1 {
        if i < n - 1 {
            lemma_object_candidates(objs, cwd, llvm_ir_dir, n - 1, i);
        } else {
            lemma_object_candidates(objs, cwd, llvm_ir_dir, n - 1, 0);
        }
    } else {
        assert(crate::link::object_candidates(objs, cwd, llvm_ir_dir, 0).len() == 0);
    }
}

} // verus!
