//! The `ar` command line: which archive it writes and from which members, and the IR merge
//! that follows.
use vstd::prelude::*;
use crate::paths::{extension, file_name, opt_view, path_extension, path_file_name};
use crate::text::{chars_of, contains_char, owned, push_string, str_eq, starts_with};
use crate::install::opt_str;
use crate::llvmir_files::{find_llvmir_file, ir_found_by_asking, llvmir_file_candidates};

verus! {

broadcast use vstd::string::group_string_axioms;

/// The program that the wrapper runs: `ar` for the name `ar-wrap`, `llvm-ar` for
/// `llvm-ar-wrap`, else the name it was run under.
pub open spec fn ar_command(program_name: Seq<char>) -> Seq<char> {
    if program_name == "ar-wrap"@ {
        "ar"@
    } else if program_name == "llvm-ar-wrap"@ {
        "llvm-ar"@
    } else {
        program_name
    }
}

/// The program that the wrapper runs when run under the name `program_name`.
pub fn ar_command_name(program_name: &str) -> (r: String)
    ensures
        r@ == ar_command(program_name@),
{
    if str_eq(program_name, "ar-wrap") {
        owned("ar")
    } else if str_eq(program_name, "llvm-ar-wrap") {
        owned("llvm-ar")
    } else {
        owned(program_name)
    }
}

/// What an `ar` command line says: whether it creates or replaces members, the archive, and
/// the members named after it.
pub struct ArArgs {
    pub create_or_replace: bool,
    pub archive: Option<String>,
    pub members: Vec<String>,
}

/// The mathematical form of [`ArArgs`].
pub struct ArArgsView {
    pub create_or_replace: bool,
    pub archive: Option<Seq<char>>,
    pub members: Seq<Seq<char>>,
}

impl ArArgs {
    pub open spec fn view(&self) -> ArArgsView {
        ArArgsView {
            create_or_replace: self.create_or_replace,
            archive: opt_view(self.archive),
            members: self.members.deep_view(),
        }
    }
}

/// `c` is an ASCII letter.
pub open spec fn ascii_letter(c: char) -> bool {
    ('a' <= c && c <= 'z') || ('A' <= c && c <= 'Z')
}

/// `a` is a group of BSD-style operation letters (`rcs`, `csrDT`, ...) that asks to create
/// or replace: at most five ASCII letters, among them `c` or `r`.
pub open spec fn bsd_create_option(a: Seq<char>) -> bool {
    &&& forall|i: int| 0 <= i < a.len() ==> ascii_letter(#[trigger] a[i])
    &&& a.len() <= 5
    &&& (a.contains('c') || a.contains('r'))
}

/// One step of reading an `ar` command: the state after the argument at `i`, and how many
/// arguments it takes. An option that holds `c` or `r` asks to create or replace; `--plugin`
/// takes the next argument; the first operand is the archive unless it is a group of BSD
/// operation letters; later operands are members.
pub open spec fn ar_step(args: Seq<Seq<char>>, i: int, st: ArArgsView) -> (ArArgsView, int) {
    let a = args[i];
    if "-"@.is_prefix_of(a) {
        let st2 = if a.contains('c') || a.contains('r') {
            ArArgsView { create_or_replace: true, ..st }
        } else {
            st
        };
        if a == "--plugin"@ && i + 1 < args.len() {
            (st2, 2)
        } else {
            (st2, 1)
        }
    } else if st.archive is None {
        if bsd_create_option(a) {
            (ArArgsView { create_or_replace: true, ..st }, 1)
        } else {
            (ArArgsView { archive: Some(a), ..st }, 1)
        }
    } else {
        (ArArgsView { members: st.members.push(a), ..st }, 1)
    }
}

/// Reading an `ar` command from position `i` on.
pub open spec fn ar_from(args: Seq<Seq<char>>, i: int, st: ArArgsView) -> ArArgsView
    decreases args.len() - i,
{
    if i < 0 || i >= args.len() {
        st
    } else {
        let (st2, taken) = ar_step(args, i, st);
        if taken >= 1 {
            ar_from(args, i + taken, st2)
        } else {
            st2
        }
    }
}

/// What an `ar` command with the arguments `args` (without the program) says.
pub open spec fn ar_spec(args: Seq<Seq<char>>) -> ArArgsView {
    ar_from(args, 0, ArArgsView { create_or_replace: false, archive: None, members: Seq::empty() })
}

/// Whether `a` is a group of BSD-style operation letters that asks to create or replace.
fn is_bsd_create_option(a: &str) -> (r: bool)
    ensures
        r == bsd_create_option(a@),
{
    let v = chars_of(a);
    if v.len() > 5 {
        return false;
    }
    let mut i: usize = 0;
    while i < v.len()
        invariant
            v@ == a@,
            i <= v.len(),
            forall|j: int| 0 <= j < i ==> ascii_letter(#[trigger] a@[j]),
        decreases v.len() - i,
    {
        let c = v[i];
        if !(('a' <= c && c <= 'z') || ('A' <= c && c <= 'Z')) {
            assert(!ascii_letter(a@[i as int]));
            return false;
        }
        i += 1;
    }
    contains_char(a, 'c') || contains_char(a, 'r')
}

/// What an `ar` command (its arguments without the program) says.
pub fn parse_ar_args(args: &Vec<String>) -> (r: ArArgs)
    ensures
        r.view() == ar_spec(args.deep_view()),
{
    let ghost av = args.deep_view();
    let mut st = ArArgs { create_or_replace: false, archive: None, members: Vec::new() };
    assert(st.members.deep_view() =~= Seq::<Seq<char>>::empty());
    let ghost init = st.view();
    let n = args.len();
    let mut i: usize = 0;
    while i < n
        invariant
            n == args.len(),
            av == args.deep_view(),
            i <= n,
            ar_from(av, i as int, st.view()) == ar_from(av, 0, init),
        decreases n - i,
    {
        let a = args[i].as_str();
        assert(a@ == av[i as int]);
        if starts_with(a, "-") {
            if contains_char(a, 'c') || contains_char(a, 'r') {
                st.create_or_replace = true;
            }
            if str_eq(a, "--plugin") && i + 1 < n {
                i += 2;
            } else {
                i += 1;
            }
            continue;
        }
        if st.archive.is_none() {
            if is_bsd_create_option(a) {
                st.create_or_replace = true;
            } else {
                st.archive = Some(owned(a));
            }
        } else {
            push_string(&mut st.members, owned(a));
        }
        i += 1;
    }
    st
}

/// The members that are object files: those with the extension `o`, in their order.
pub open spec fn object_members(members: Seq<Seq<char>>) -> Seq<Seq<char>>
    decreases members.len(),
{
    if members.len() == 0 {
        Seq::empty()
    } else if path_extension(members.last()) == Some("o"@) {
        object_members(members.drop_last()).push(members.last())
    } else {
        object_members(members.drop_last())
    }
}

/// The members that are object files.
pub fn archive_object_members(members: &Vec<String>) -> (r: Vec<String>)
    ensures
        r.deep_view() == object_members(members.deep_view()),
{
    let ghost mv = members.deep_view();
    let mut out: Vec<String> = Vec::new();
    let mut i: usize = 0;
    assert(out.deep_view() =~= object_members(mv.take(0)));
    while i < members.len()
        invariant
            mv == members.deep_view(),
            i <= members.len(),
            out.deep_view() == object_members(mv.take(i as int)),
        decreases members.len() - i,
    {
        let m = members[i].as_str();
        assert(mv.take(i + 1).drop_last() =~= mv.take(i as int));
        assert(mv.take(i + 1).last() == m@);
        let is_obj = match extension(m) {
            Some(e) => str_eq(e.as_str(), "o"),
            None => false,
        };
        proof {
            reveal_strlit("o");
        }
        if is_obj {
            push_string(&mut out, owned(m));
        }
        i += 1;
    }
    assert(mv.take(i as int) =~= mv);
    out
}

/// The values of the entries of `found` that are present, in their order.
pub open spec fn somes(found: Seq<Option<Seq<char>>>) -> Seq<Seq<char>>
    decreases found.len(),
{
    if found.len() == 0 {
        Seq::empty()
    } else {
        match found.last() {
            Some(p) => somes(found.drop_last()).push(p),
            None => somes(found.drop_last()),
        }
    }
}

/// `found[i]` is, where present, one of the places where the IR of `objects[i]` may lie.
pub open spec fn ir_lookup(
    objects: Seq<Seq<char>>,
    cwd: Seq<char>,
    llvm_ir_dir: Seq<char>,
    found: Seq<Option<Seq<char>>>,
) -> bool {
    &&& found.len() == objects.len()
    &&& forall|i: int|
        0 <= i < found.len() ==> (#[trigger] found[i] matches Some(p) ==> (p
            == llvmir_file_candidates(objects[i], cwd, llvm_ir_dir).0 || p
            == llvmir_file_candidates(objects[i], cwd, llvm_ir_dir).1))
}

/// `found[i]` is where the IR of `objects[i]` lies by what the file system answered when the
/// IR of that object file was looked for (see [`ir_found_by_asking`]).
pub open spec fn lookups_answered(
    objects: Seq<Seq<char>>,
    cwd: Seq<char>,
    llvm_ir_dir: Seq<char>,
    found: Seq<Option<Seq<char>>>,
) -> bool {
    found.len() == objects.len() && forall|i: int|
        0 <= i < found.len() ==> ir_found_by_asking(objects[i], cwd, llvm_ir_dir, #[trigger] found[i])
}

/// The IR files of an archive are those found for its object files, each object contributing
/// exactly its own lookup's result: every IR file found for an object is in the result, the
/// result holds nothing else, and the IR of an earlier object comes before that of a later one.
pub proof fn lemma_archive_ir_is_each_lookup(found: Seq<Option<Seq<char>>>)
    ensures
        forall|i: int|
            0 <= i < found.len() && (#[trigger] found[i]) is Some ==> somes(found).contains(found[i]->0),
        forall|k: int|
            0 <= k < somes(found).len() ==> exists|i: int|
                0 <= i < found.len() && found[i] == Some(#[trigger] somes(found)[k]),
        somes(found).len() <= found.len(),
        forall|i: int, j: int|
            0 <= i < j < found.len() && (#[trigger] found[i]) is Some && (#[trigger] found[j]) is Some
                ==> somes(found.take(i + 1)).len() <= somes(found.take(j)).len()
                    && somes(found.take(j + 1)) == somes(found.take(j)).push(found[j]->0),
    decreases found.len(),
{
    if found.len() > 0 {
        let prev = found.drop_last();
        lemma_archive_ir_is_each_lookup(prev);
        let cur = somes(found);
        let sp = somes(prev);
        assert(prev.is_prefix_of(found));
        assert forall|i: int| 0 <= i < found.len() && (#[trigger] found[i]) is Some implies cur.contains(
            found[i]->0,
        ) by {
            if i < found.len() - 1 {
                assert(prev[i] == found[i]);
                let k = choose|k: int| 0 <= k < sp.len() && sp[k] == found[i]->0;
                match found.last() {
                    Some(p) => assert(cur[k] == sp[k]),
                    None => assert(cur == sp),
                }
            } else {
                assert(cur == sp.push(found[i]->0));
                assert(cur[cur.len() - 1] == found[i]->0);
            }
        }
        assert forall|k: int| 0 <= k < cur.len() implies exists|i: int|
            0 <= i < found.len() && found[i] == Some(#[trigger] cur[k]) by {
            match found.last() {
                Some(p) => {
                    if k < sp.len() {
                        assert(cur[k] == sp[k]);
                        let i = choose|i: int| 0 <= i < prev.len() && prev[i] == Some(sp[k]);
                        assert(found[i] == prev[i]);
                    } else {
                        assert(found[found.len() - 1] == Some(cur[k]));
                    }
                },
                None => {
                    assert(cur == sp);
                    let i = choose|i: int| 0 <= i < prev.len() && prev[i] == Some(sp[k]);
                    assert(found[i] == prev[i]);
                },
            }
        }
        assert forall|i: int, j: int|
            0 <= i < j < found.len() && (#[trigger] found[i]) is Some && (#[trigger] found[j]) is Some
                implies somes(found.take(i + 1)).len() <= somes(found.take(j)).len()
                    && somes(found.take(j + 1)) == somes(found.take(j)).push(found[j]->0) by {
            lemma_somes_grow(found, i + 1, j);
            assert(found.take(j + 1).drop_last() =~= found.take(j));
            assert(found.take(j + 1).last() == found[j]);
        }
    }
}

/// Taking more object files never gives fewer IR files.
proof fn lemma_somes_grow(found: Seq<Option<Seq<char>>>, a: int, b: int)
    requires
        0 <= a <= b <= found.len(),
    ensures
        somes(found.take(a)).len() <= somes(found.take(b)).len(),
    decreases b - a,
{
    if a < b {
        lemma_somes_grow(found, a, b - 1);
        assert(found.take(b).drop_last() =~= found.take(b - 1));
    }
}

/// The IR files of the object files `objects` that are found, in their order; which exist is
/// asked of the file system, whose answers are not stated.
pub fn find_archive_ir_files(objects: &Vec<String>, cwd: &str, llvm_ir_dir: &str) -> (r: Vec<
    String,
>)
    ensures
        exists|found: Seq<Option<Seq<char>>>|
            ir_lookup(objects.deep_view(), cwd@, llvm_ir_dir@, found) && r.deep_view()
                == #[trigger] somes(found),
        exists|found: Seq<Option<Seq<char>>>|
            lookups_answered(objects.deep_view(), cwd@, llvm_ir_dir@, found) && r.deep_view()
                == #[trigger] somes(found),
{
    let ghost ov = objects.deep_view();
    let ghost mut found: Seq<Option<Seq<char>>> = Seq::empty();
    let mut out: Vec<String> = Vec::new();
    let mut i: usize = 0;
    assert(out.deep_view() =~= somes(found));
    while i < objects.len()
        invariant
            ov == objects.deep_view(),
            i <= objects.len(),
            found.len() == i,
            ir_lookup(ov.take(i as int), cwd@, llvm_ir_dir@, found),
            lookups_answered(ov.take(i as int), cwd@, llvm_ir_dir@, found),
            out.deep_view() == somes(found),
        decreases objects.len() - i,
    {
        let o = objects[i].as_str();
        assert(o@ == ov[i as int]);
        let f = find_llvmir_file(o, cwd, llvm_ir_dir);
        let ghost old_found = found;
        proof {
            found = found.push(opt_view(f));
            assert(found.drop_last() =~= old_found);
        }
        match f {
            Some(p) => {
                push_string(&mut out, p);
            },
            None => {},
        }
        assert(ov.take(i + 1).drop_last() =~= ov.take(i as int));
        assert forall|k: int| 0 <= k < found.len() implies ir_found_by_asking(
            ov.take(i + 1)[k],
            cwd@,
            llvm_ir_dir@,
            #[trigger] found[k],
        ) by {
            assert(ov.take(i + 1)[k] == ov[k]);
            if k < i {
                assert(found[k] == old_found[k]);
                assert(ov.take(i as int)[k] == ov[k]);
            }
        }
        assert forall|k: int| 0 <= k < found.len() implies (#[trigger] found[k] matches Some(p)
            ==> (p == llvmir_file_candidates(ov.take(i + 1)[k], cwd@, llvm_ir_dir@).0 || p
            == llvmir_file_candidates(ov.take(i + 1)[k], cwd@, llvm_ir_dir@).1)) by {
            if k < i {
                assert(found[k] == old_found[k]);
                assert(ov.take(i + 1)[k] == ov.take(i as int)[k]);
            }
        }
        i += 1;
    }
    assert(ov.take(i as int) =~= ov);
    out
}

/// The compiler command whose version suffix picks `llvm-link`: the file name (or, where it
/// has none, the whole value) of `CC`, else of `CXX`, where set and not empty; else the `ar`
/// command itself.
pub open spec fn link_version_source(cc: Option<Seq<char>>, cxx: Option<Seq<char>>, ar_cmd: Seq<
    char,
>) -> Seq<char> {
    let pick = match cc {
        Some(c) if c.len() > 0 => Some(c),
        _ => match cxx {
            Some(c) if c.len() > 0 => Some(c),
            _ => None,
        },
    };
    match pick {
        Some(c) => match path_file_name(c) {
            Some(n) => n,
            None => c,
        },
        None => ar_cmd,
    }
}

/// The compiler command whose version suffix picks `llvm-link`, from the values of `CC` and
/// `CXX` (`None` where unset) and the `ar` command.
pub fn llvm_link_version_source(cc: Option<&str>, cxx: Option<&str>, ar_cmd: &str) -> (r: String)
    ensures
        r@ == link_version_source(opt_str(cc), opt_str(cxx), ar_cmd@),
{
    let pick: Option<&str> = match cc {
        Some(c) if c.unicode_len() > 0 => Some(c),
        _ => match cxx {
            Some(c) if c.unicode_len() > 0 => Some(c),
            _ => None,
        },
    };
    match pick {
        Some(c) => match file_name(c) {
            Some(n) => n,
            None => owned(c),
        },
        None => owned(ar_cmd),
    }
}

} // verus!
