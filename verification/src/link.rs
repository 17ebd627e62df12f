//! The link step: the arguments of a link command, the LLVM IR inputs that belong to it,
//! and the script that re-links the merged bitcode.
use vstd::prelude::*;
use crate::text::{
    chars_of, concat, contains_seq, contains_str, ends_with, join, joined, occurs_at, owned,
    push_string, rfind_str, starts_with, str_eq, strip_prefix,
};
use crate::paths::{
    compute_llvmir_path, extension, file_name, join_path, llvmir_location, parent, ask_exists, exists_answer,
    path_extension, path_file_name, path_join, path_parent, path_with_extension, with_extension,
};

verus! {

broadcast use vstd::string::group_string_axioms;

/// What a link command is made of, as its arguments give it.
pub struct LinkArgs {
    pub object_files: Vec<String>,
    pub source_files: Vec<String>,
    pub library_files: Vec<String>,
    pub output_file: Option<String>,
    pub other_args: Vec<String>,
    pub link_flags: Vec<String>,
    pub library_dirs: Vec<String>,
    pub libraries: Vec<String>,
    pub is_shared: bool,
    pub version_script: Option<String>,
    pub soversion: Option<String>,
}

/// The mathematical form of [`LinkArgs`].
pub struct LinkArgsView {
    pub object_files: Seq<Seq<char>>,
    pub source_files: Seq<Seq<char>>,
    pub library_files: Seq<Seq<char>>,
    pub output_file: Option<Seq<char>>,
    pub other_args: Seq<Seq<char>>,
    pub link_flags: Seq<Seq<char>>,
    pub library_dirs: Seq<Seq<char>>,
    pub libraries: Seq<Seq<char>>,
    pub is_shared: bool,
    pub version_script: Option<Seq<char>>,
    pub soversion: Option<Seq<char>>,
}

impl LinkArgs {
    pub open spec fn view(&self) -> LinkArgsView {
        LinkArgsView {
            object_files: self.object_files.deep_view(),
            source_files: self.source_files.deep_view(),
            library_files: self.library_files.deep_view(),
            output_file: self.output_file.deep_view(),
            other_args: self.other_args.deep_view(),
            link_flags: self.link_flags.deep_view(),
            library_dirs: self.library_dirs.deep_view(),
            libraries: self.libraries.deep_view(),
            is_shared: self.is_shared,
            version_script: self.version_script.deep_view(),
            soversion: self.soversion.deep_view(),
        }
    }
}

/// Nothing parsed yet.
pub open spec fn empty_link_view() -> LinkArgsView {
    LinkArgsView {
        object_files: Seq::empty(),
        source_files: Seq::empty(),
        library_files: Seq::empty(),
        output_file: None,
        other_args: Seq::empty(),
        link_flags: Seq::empty(),
        library_dirs: Seq::empty(),
        libraries: Seq::empty(),
        is_shared: false,
        version_script: None,
        soversion: None,
    }
}

/// The name of a source file that the compiler driver would compile before linking.
pub open spec fn has_source_extension(a: Seq<char>) -> bool {
    ||| ".c"@.is_suffix_of(a)
    ||| ".cpp"@.is_suffix_of(a)
    ||| ".cc"@.is_suffix_of(a)
    ||| ".cxx"@.is_suffix_of(a)
    ||| ".c++"@.is_suffix_of(a)
    ||| ".m"@.is_suffix_of(a)
    ||| ".mm"@.is_suffix_of(a)
    ||| ".S"@.is_suffix_of(a)
    ||| ".s"@.is_suffix_of(a)
    ||| ".asm"@.is_suffix_of(a)
}

/// Whether `a` ends with one of the source file extensions.
pub fn source_extension(a: &str) -> (r: bool)
    ensures
        r == has_source_extension(a@),
{
    ends_with(a, ".c") || ends_with(a, ".cpp") || ends_with(a, ".cc") || ends_with(a, ".cxx")
        || ends_with(a, ".c++") || ends_with(a, ".m") || ends_with(a, ".mm") || ends_with(a, ".S")
        || ends_with(a, ".s") || ends_with(a, ".asm")
}

/// `a` is an operand (it does not start with `-`).
pub open spec fn is_operand(a: Seq<char>) -> bool {
    !"-"@.is_prefix_of(a)
}

/// `a` names an object file.
pub open spec fn is_object_name(a: Seq<char>) -> bool {
    ".o"@.is_suffix_of(a) && is_operand(a)
}

/// `a` names a source file.
pub open spec fn is_source_name(a: Seq<char>) -> bool {
    is_operand(a) && has_source_extension(a)
}

/// `a` names a shared or static library file.
pub open spec fn is_library_name(a: Seq<char>) -> bool {
    is_operand(a) && (".so"@.is_suffix_of(a) || contains_seq(a, ".so."@) || ".a"@.is_suffix_of(
        a,
    ))
}

/// `a` begins with `p` and has more after it.
pub open spec fn joined_option(a: Seq<char>, p: Seq<char>) -> bool {
    p.is_prefix_of(a) && a.len() > p.len()
}

/// The linker flag at position `i` as it is recorded, and how many arguments it takes.
pub open spec fn normalized_linker_flag(args: Seq<Seq<char>>, i: int) -> (Seq<char>, int) {
    let a = args[i];
    let next_is_wl = i + 1 < args.len() && "-Wl,"@.is_prefix_of(args[i + 1]);
    if "-Wl,-version-script,"@.is_prefix_of(a) {
        ("-Wl,--version-script="@ + a.skip("-Wl,-version-script,"@.len() as int), 1)
    } else if "-Wl,--version-script,"@.is_prefix_of(a) {
        ("-Wl,--version-script="@ + a.skip("-Wl,--version-script,"@.len() as int), 1)
    } else if a == "-Wl,-version-script"@ && next_is_wl {
        ("-Wl,--version-script="@ + args[i + 1].skip("-Wl,"@.len() as int), 2)
    } else if a == "-Wl,-soname"@ && next_is_wl {
        ("-Wl,-soname,"@ + args[i + 1].skip("-Wl,"@.len() as int), 2)
    } else {
        (a, 1)
    }
}

/// `i` is the start of the last occurrence of `p` in `s`.
pub open spec fn is_last_occurrence(s: Seq<char>, p: Seq<char>, i: int) -> bool {
    occurs_at(s, p, i) && forall|j: int| i < j ==> !occurs_at(s, p, j)
}

/// The library version that a soname gives: what follows its last `.so.`.
pub open spec fn soname_version(soname: Seq<char>) -> Option<Seq<char>> {
    if contains_seq(soname, ".so."@) {
        let i = choose|i: int| is_last_occurrence(soname, ".so."@, i);
        Some(soname.skip(i + 4))
    } else {
        None
    }
}

/// A recorded `-Wl,-soname,` flag holds a name that the link step can cut out: at least one
/// character beyond the prefix and its separator, the character at the cut being ASCII.
pub open spec fn soname_flag_cuttable(n: Seq<char>) -> bool {
    n.len() >= 13 && (n[12] as u32) < 0x80
}

/// The state after the recorded linker flag `n`, or `None` where `n` is a soname flag that
/// cannot be cut.
pub open spec fn after_linker_flag(st: LinkArgsView, n: Seq<char>) -> Option<LinkArgsView> {
    let st1 = LinkArgsView {
        link_flags: st.link_flags.push(n),
        other_args: st.other_args.push(n),
        version_script: if "-Wl,--version-script="@.is_prefix_of(n) {
            Some(n.skip("-Wl,--version-script="@.len() as int))
        } else {
            st.version_script
        },
        ..st
    };
    if "-Wl,-soname,"@.is_prefix_of(n) {
        if soname_flag_cuttable(n) {
            match soname_version(n.skip(13)) {
                Some(v) => Some(LinkArgsView { soversion: Some(v), ..st1 }),
                None => Some(st1),
            }
        } else {
            None
        }
    } else {
        Some(st1)
    }
}

/// One step of reading a link command: the state after the argument at `i`, and how many
/// arguments that step takes.
pub open spec fn link_step(args: Seq<Seq<char>>, i: int, st: LinkArgsView) -> (
    Option<LinkArgsView>,
    int,
) {
    let a = args[i];
    let has_next = i + 1 < args.len();
    if a == "-o"@ {
        if has_next {
            (Some(LinkArgsView { output_file: Some(args[i + 1]), ..st }), 2)
        } else {
            (Some(st), 1)
        }
    } else if joined_option(a, "-o"@) {
        (Some(LinkArgsView { output_file: Some(a.skip(2)), ..st }), 1)
    } else if a == "-shared"@ {
        (Some(LinkArgsView { is_shared: true, link_flags: st.link_flags.push(a), ..st }), 1)
    } else if a == "-L"@ {
        if has_next {
            (
                Some(
                    LinkArgsView {
                        library_dirs: st.library_dirs.push(args[i + 1]),
                        link_flags: st.link_flags.push(a).push(args[i + 1]),
                        ..st
                    },
                ),
                2,
            )
        } else {
            (Some(st), 1)
        }
    } else if joined_option(a, "-L"@) {
        (
            Some(
                LinkArgsView {
                    library_dirs: st.library_dirs.push(a.skip(2)),
                    link_flags: st.link_flags.push(a),
                    ..st
                },
            ),
            1,
        )
    } else if a == "-l"@ {
        if has_next {
            (
                Some(
                    LinkArgsView {
                        libraries: st.libraries.push(args[i + 1]),
                        link_flags: st.link_flags.push(a).push(args[i + 1]),
                        ..st
                    },
                ),
                2,
            )
        } else {
            (Some(st), 1)
        }
    } else if joined_option(a, "-l"@) {
        (
            Some(
                LinkArgsView {
                    libraries: st.libraries.push(a.skip(2)),
                    link_flags: st.link_flags.push(a),
                    ..st
                },
            ),
            1,
        )
    } else if is_object_name(a) {
        (Some(LinkArgsView { object_files: st.object_files.push(a), ..st }), 1)
    } else if is_source_name(a) {
        (Some(LinkArgsView { source_files: st.source_files.push(a), ..st }), 1)
    } else if is_library_name(a) {
        (Some(LinkArgsView { library_files: st.library_files.push(a), ..st }), 1)
    } else if "-Wl,"@.is_prefix_of(a) || "-framework"@.is_prefix_of(a) {
        let (n, taken) = normalized_linker_flag(args, i);
        (after_linker_flag(st, n), taken)
    } else {
        (Some(LinkArgsView { other_args: st.other_args.push(a), ..st }), 1)
    }
}

/// Reading a link command from position `i` on, in the state `st`; `None` where a soname flag
/// cannot be cut.
pub open spec fn link_from(args: Seq<Seq<char>>, i: int, st: LinkArgsView) -> Option<
    LinkArgsView,
>
    decreases args.len() - i,
{
    if i < 0 || i >= args.len() {
        Some(st)
    } else {
        let (next, taken) = link_step(args, i, st);
        match next {
            Some(st2) => link_from(args, i + taken, st2),
            None => None,
        }
    }
}

/// What a link command with the arguments `args` is made of.
pub open spec fn link_spec(args: Seq<Seq<char>>) -> Option<LinkArgsView> {
    link_from(args, 0, empty_link_view())
}

/// `a` and `b` are the same reading but for their linker flags.
pub open spec fn same_but_flags(a: LinkArgsView, b: LinkArgsView) -> bool {
    a == LinkArgsView { link_flags: a.link_flags, ..b }
}

/// Reading from position `k1` of `a1` is reading from `k2` of `a2` where what follows is the
/// same.
proof fn lemma_link_from_suffix(
    a1: Seq<Seq<char>>,
    k1: int,
    a2: Seq<Seq<char>>,
    k2: int,
    st: LinkArgsView,
)
    requires
        0 <= k1 <= a1.len(),
        0 <= k2 <= a2.len(),
        a1.skip(k1) == a2.skip(k2),
    ensures
        link_from(a1, k1, st) == link_from(a2, k2, st),
    decreases a1.len() - k1,
{
    assert(a1.len() - k1 == a2.len() - k2) by {
        assert(a1.skip(k1).len() == a2.skip(k2).len());
    }
    if k1 < a1.len() {
        assert(a1[k1] == a1.skip(k1)[0]);
        assert(a2[k2] == a2.skip(k2)[0]);
        if k1 + 1 < a1.len() {
            assert(a1[k1 + 1] == a1.skip(k1)[1]);
            assert(a2[k2 + 1] == a2.skip(k2)[1]);
        }
        assert(normalized_linker_flag(a1, k1) == normalized_linker_flag(a2, k2));
        assert(link_step(a1, k1, st) == link_step(a2, k2, st));
        let (next, taken) = link_step(a1, k1, st);
        assert(1 <= taken <= 2);
        if taken == 2 {
            assert(k1 + 1 < a1.len() || a1[k1] != "-o"@);
        }
        match next {
            Some(st2) => {
                if k1 + taken <= a1.len() {
                    assert(a1.skip(k1 + taken) =~= a1.skip(k1).skip(taken));
                    assert(a2.skip(k2 + taken) =~= a2.skip(k2).skip(taken));
                    lemma_link_from_suffix(a1, k1 + taken, a2, k2 + taken, st2);
                }
            },
            None => {},
        }
    }
}

/// One step of reading does not look at the linker flags read so far.
proof fn lemma_link_step_flags(args: Seq<Seq<char>>, k: int, st1: LinkArgsView, st2: LinkArgsView)
    requires
        0 <= k < args.len(),
        same_but_flags(st1, st2),
    ensures
        link_step(args, k, st1).1 == link_step(args, k, st2).1,
        link_step(args, k, st1).0 is Some <==> link_step(args, k, st2).0 is Some,
        link_step(args, k, st1).0 matches Some(r1) ==> same_but_flags(r1, link_step(args, k, st2).0->0),
        link_step(args, k, st1).0 matches Some(r1) ==> st1.library_dirs.is_prefix_of(r1.library_dirs),
        link_step(args, k, st1).0 matches Some(r1) ==> st1.libraries.is_prefix_of(r1.libraries),
{
    let (n, t) = normalized_linker_flag(args, k);
    assert(after_linker_flag(st1, n) is Some <==> after_linker_flag(st2, n) is Some);
}

/// Reading from position `k` does not look at the linker flags read so far, and only ever
/// adds library directories after those already read.
proof fn lemma_link_from_flags(args: Seq<Seq<char>>, k: int, st1: LinkArgsView, st2: LinkArgsView)
    requires
        0 <= k,
        same_but_flags(st1, st2),
    ensures
        link_from(args, k, st1) is Some <==> link_from(args, k, st2) is Some,
        link_from(args, k, st1) matches Some(r1) ==> same_but_flags(r1, link_from(args, k, st2)->0),
        link_from(args, k, st1) matches Some(r1) ==> st1.library_dirs.is_prefix_of(r1.library_dirs),
        link_from(args, k, st1) matches Some(r1) ==> st1.libraries.is_prefix_of(r1.libraries),
    decreases args.len() - k,
{
    if k < args.len() {
        lemma_link_step_flags(args, k, st1, st2);
        let (n1, t) = link_step(args, k, st1);
        let (n2, t2) = link_step(args, k, st2);
        match n1 {
            Some(r1) => {
                let r2 = n2->0;
                lemma_link_from_flags(args, k + t, r1, r2);
                match link_from(args, k + t, r1) {
                    Some(f) => {
                        assert(st1.library_dirs.is_prefix_of(r1.library_dirs));
                        assert(r1.library_dirs.is_prefix_of(f.library_dirs));
                        assert(st1.library_dirs.is_prefix_of(f.library_dirs));
                        assert(st1.libraries.is_prefix_of(r1.libraries));
                        assert(r1.libraries.is_prefix_of(f.libraries));
                        assert(st1.libraries.is_prefix_of(f.libraries));
                    },
                    None => {},
                }
            },
            None => {},
        }
    }
}

/// A library directory joined to its option (`-L<dir>`, `<dir>` not empty) is read exactly as
/// the same directory given as a separate argument (`-L <dir>`): wherever the reading of a
/// link command reaches it, both give the same reading but for the linker flags that record
/// them, and `<dir>` comes after the library directories read before it.
pub proof fn lemma_joined_library_dir(
    pre: Seq<Seq<char>>,
    post: Seq<Seq<char>>,
    d: Seq<char>,
    st: LinkArgsView,
)
    requires
        d.len() > 0,
    ensures
        link_from(pre + seq!["-L"@ + d] + post, pre.len() as int, st) is Some <==> link_from(
            pre + seq!["-L"@, d] + post,
            pre.len() as int,
            st,
        ) is Some,
        link_from(pre + seq!["-L"@ + d] + post, pre.len() as int, st) matches Some(rj)
            ==> same_but_flags(
            rj,
            link_from(pre + seq!["-L"@, d] + post, pre.len() as int, st)->0,
        ),
        link_from(pre + seq!["-L"@ + d] + post, pre.len() as int, st) matches Some(rj)
            ==> st.library_dirs.push(d).is_prefix_of(rj.library_dirs),
{
    reveal_strlit("-L");
    reveal_strlit("-o");
    reveal_strlit("-shared");
    let i = pre.len() as int;
    let j = pre + seq!["-L"@ + d] + post;
    let s = pre + seq!["-L"@, d] + post;
    let a = "-L"@ + d;
    assert(j[i] == a);
    assert(s[i] == "-L"@);
    assert(s[i + 1] == d);
    assert(a[1] == 'L');
    assert(a != "-o"@);
    assert(!joined_option(a, "-o"@)) by {
        if "-o"@.is_prefix_of(a) {
            assert("-o"@[1] == a[1]);
        }
    }
    assert(a != "-shared"@) by {
        if a == "-shared"@ {
            assert("-shared"@[1] == a[1]);
        }
    }
    assert(a != "-L"@) by {
        assert(a.len() > 2);
    }
    assert("-L"@.is_prefix_of(a)) by {
        assert(a.subrange(0, 2) =~= "-L"@);
    }
    assert(a.skip(2) =~= d);
    let stj = LinkArgsView { library_dirs: st.library_dirs.push(d), link_flags: st.link_flags.push(a), ..st };
    let sts = LinkArgsView {
        library_dirs: st.library_dirs.push(d),
        link_flags: st.link_flags.push("-L"@).push(d),
        ..st
    };
    assert(link_step(j, i, st) == (Some(stj), 1int));
    assert(link_step(s, i, st) == (Some(sts), 2int));
    assert(link_from(j, i, st) == link_from(j, i + 1, stj));
    assert(link_from(s, i, st) == link_from(s, i + 2, sts));
    assert(j.skip(i + 1) =~= post);
    assert(s.skip(i + 2) =~= post);
    lemma_link_from_suffix(s, i + 2, j, i + 1, sts);
    lemma_link_from_flags(j, i + 1, stj, sts);
}

/// A library joined to its option (`-l<name>`, `<name>` not empty) is read exactly as the
/// same library given as a separate argument (`-l <name>`): wherever the reading of a link
/// command reaches it, both give the same reading but for the linker flags that record them,
/// and `<name>` comes after the libraries read before it.
pub proof fn lemma_joined_library(
    pre: Seq<Seq<char>>,
    post: Seq<Seq<char>>,
    d: Seq<char>,
    st: LinkArgsView,
)
    requires
        d.len() > 0,
    ensures
        link_from(pre + seq!["-l"@ + d] + post, pre.len() as int, st) is Some <==> link_from(
            pre + seq!["-l"@, d] + post,
            pre.len() as int,
            st,
        ) is Some,
        link_from(pre + seq!["-l"@ + d] + post, pre.len() as int, st) matches Some(rj)
            ==> same_but_flags(
            rj,
            link_from(pre + seq!["-l"@, d] + post, pre.len() as int, st)->0,
        ),
        link_from(pre + seq!["-l"@ + d] + post, pre.len() as int, st) matches Some(rj)
            ==> st.libraries.push(d).is_prefix_of(rj.libraries),
{
    reveal_strlit("-l");
    reveal_strlit("-L");
    reveal_strlit("-o");
    reveal_strlit("-shared");
    let i = pre.len() as int;
    let j = pre + seq!["-l"@ + d] + post;
    let s = pre + seq!["-l"@, d] + post;
    let a = "-l"@ + d;
    assert(j[i] == a);
    assert(s[i] == "-l"@);
    assert(s[i + 1] == d);
    assert(a[1] == 'l');
    assert(a != "-o"@);
    assert(!joined_option(a, "-o"@)) by {
        if "-o"@.is_prefix_of(a) {
            assert("-o"@[1] == a[1]);
        }
    }
    assert(a != "-shared"@) by {
        if a == "-shared"@ {
            assert("-shared"@[1] == a[1]);
        }
    }
    assert(a != "-L"@) by {
        assert(a.len() > 2);
    }
    assert(!joined_option(a, "-L"@)) by {
        if "-L"@.is_prefix_of(a) {
            assert("-L"@[1] == a[1]);
        }
    }
    assert(a != "-l"@) by {
        assert(a.len() > 2);
    }
    assert("-l"@.is_prefix_of(a)) by {
        assert(a.subrange(0, 2) =~= "-l"@);
    }
    assert(a.skip(2) =~= d);
    let stj = LinkArgsView { libraries: st.libraries.push(d), link_flags: st.link_flags.push(a), ..st };
    let sts = LinkArgsView {
        libraries: st.libraries.push(d),
        link_flags: st.link_flags.push("-l"@).push(d),
        ..st
    };
    assert(link_step(j, i, st) == (Some(stj), 1int));
    assert(link_step(s, i, st) == (Some(sts), 2int));
    assert(link_from(j, i, st) == link_from(j, i + 1, stj));
    assert(link_from(s, i, st) == link_from(s, i + 2, sts));
    assert(j.skip(i + 1) =~= post);
    assert(s.skip(i + 2) =~= post);
    lemma_link_from_suffix(s, i + 2, j, i + 1, sts);
    lemma_link_from_flags(j, i + 1, stj, sts);
}

/// An output joined to its option (`-o<file>`, `<file>` not empty) is read exactly as the
/// same output given as a separate argument (`-o <file>`): wherever the reading of a link
/// command reaches it, both give the same reading.
pub proof fn lemma_joined_output(pre: Seq<Seq<char>>, post: Seq<Seq<char>>, f: Seq<char>, st: LinkArgsView)
    requires
        f.len() > 0,
    ensures
        link_from(pre + seq!["-o"@ + f] + post, pre.len() as int, st) == link_from(
            pre + seq!["-o"@, f] + post,
            pre.len() as int,
            st,
        ),
        link_from(pre + seq!["-o"@ + f] + post, pre.len() as int, st) matches Some(r) ==> (r.output_file
            == Some(f) || (exists|k: int| 0 <= k < post.len() && "-o"@.is_prefix_of(#[trigger] post[k]))),
{
    reveal_strlit("-o");
    let i = pre.len() as int;
    let j = pre + seq!["-o"@ + f] + post;
    let s = pre + seq!["-o"@, f] + post;
    let a = "-o"@ + f;
    assert(j[i] == a);
    assert(s[i] == "-o"@);
    assert(s[i + 1] == f);
    assert(a != "-o"@) by {
        assert(a.len() > 2);
    }
    assert("-o"@.is_prefix_of(a)) by {
        assert(a.subrange(0, 2) =~= "-o"@);
    }
    assert(a.skip(2) =~= f);
    let st2 = LinkArgsView { output_file: Some(f), ..st };
    assert(link_step(j, i, st) == (Some(st2), 1int));
    assert(link_step(s, i, st) == (Some(st2), 2int));
    assert(j.skip(i + 1) =~= post);
    assert(s.skip(i + 2) =~= post);
    lemma_link_from_suffix(j, i + 1, s, i + 2, st2);
    lemma_output_kept(j, i + 1, st2);
}

/// The output read so far stays unless a later argument begins with `-o`.
proof fn lemma_output_kept(args: Seq<Seq<char>>, k: int, st: LinkArgsView)
    requires
        0 <= k,
    ensures
        link_from(args, k, st) matches Some(r) ==> (r.output_file == st.output_file || (exists|m: int|
            k <= m < args.len() && "-o"@.is_prefix_of(#[trigger] args[m]))),
    decreases args.len() - k,
{
    if 0 <= k < args.len() {
        let (next, t) = link_step(args, k, st);
        match next {
            Some(st2) => {
                lemma_output_kept(args, k + t, st2);
                if st2.output_file != st.output_file {
                    reveal_strlit("-o");
                    assert("-o"@.is_prefix_of(args[k])) by {
                        if args[k] != "-o"@ {
                            assert(joined_option(args[k], "-o"@));
                        }
                    }
                }
            },
            None => {},
        }
    }
}

/// The version that follows the last `.so.` of `soname`, if any.
pub fn soname_version_of(soname: &str) -> (r: Option<String>)
    ensures
        opt_view_link(r) == soname_version(soname@),
{
    match rfind_str(soname, ".so.") {
        Some(idx) => {
            let v = chars_of(soname);
            let len = v.len();
            proof {
                reveal_strlit(".so.");
                assert(is_last_occurrence(soname@, ".so."@, idx as int));
                let j = choose|j: int| is_last_occurrence(soname@, ".so."@, j);
                assert(j == idx);
                assert(".so."@.len() == 4);
                assert(idx + 4 <= len);
            }
            let t = crate::text::string_of_range(&v, idx + 4, len);
            Some(t)
        },
        None => None,
    }
}

/// The view of an optional string.
pub open spec fn opt_view_link(o: Option<String>) -> Option<Seq<char>> {
    o.deep_view()
}

/// Records the linker flag `n` in `st`; `false` where `n` is a soname flag that cannot be cut.
fn record_linker_flag(st: &mut LinkArgs, n: String) -> (ok: bool)
    ensures
        ok ==> after_linker_flag(old(st).view(), n@) == Some(final(st).view()),
        !ok ==> after_linker_flag(old(st).view(), n@) is None,
{
    let is_vs = starts_with(n.as_str(), "-Wl,--version-script=");
    let is_soname = starts_with(n.as_str(), "-Wl,-soname,");
    let nv = chars_of(n.as_str());
    if is_soname {
        proof {
            reveal_strlit("-Wl,-soname,");
        }
        if !(nv.len() >= 13 && (nv[12] as u32) < 0x80) {
            return false;
        }
    }
    push_string(&mut st.link_flags, n.clone());
    push_string(&mut st.other_args, n.clone());
    if is_vs {
        let tail = strip_prefix(n.as_str(), "-Wl,--version-script=");
        match tail {
            Some(t) => {
                assert(t@ =~= n@.skip("-Wl,--version-script="@.len() as int));
                st.version_script = Some(t);
            },
            None => {},
        }
    }
    if is_soname {
        let soname = crate::text::string_of_range(&nv, 13, nv.len());
        match soname_version_of(soname.as_str()) {
            Some(v) => {
                st.soversion = Some(v);
            },
            None => {},
        }
    }
    true
}

/// The flag recorded for the linker argument at `i`, and how many arguments it takes.
fn normalize_linker_flag(args: &Vec<String>, i: usize) -> (r: (String, usize))
    requires
        i < args.len(),
    ensures
        r.0@ == normalized_linker_flag(args.deep_view(), i as int).0,
        r.1 as int == normalized_linker_flag(args.deep_view(), i as int).1,
{
    let ghost av = args.deep_view();
    let a = args[i].as_str();
    let next_is_wl = i + 1 < args.len() && starts_with(args[i + 1].as_str(), "-Wl,");
    if let Some(t) = strip_prefix(a, "-Wl,-version-script,") {
        assert(t@ =~= a@.skip("-Wl,-version-script,"@.len() as int));
        (concat("-Wl,--version-script=", t.as_str()), 1)
    } else if let Some(t) = strip_prefix(a, "-Wl,--version-script,") {
        assert(t@ =~= a@.skip("-Wl,--version-script,"@.len() as int));
        (concat("-Wl,--version-script=", t.as_str()), 1)
    } else if str_eq(a, "-Wl,-version-script") && next_is_wl {
        let next = args[i + 1].as_str();
        match strip_prefix(next, "-Wl,") {
            Some(t) => {
                assert(t@ =~= next@.skip("-Wl,"@.len() as int));
                (concat("-Wl,--version-script=", t.as_str()), 2)
            },
            None => (owned(a), 1),
        }
    } else if str_eq(a, "-Wl,-soname") && next_is_wl {
        let next = args[i + 1].as_str();
        match strip_prefix(next, "-Wl,") {
            Some(t) => {
                assert(t@ =~= next@.skip("-Wl,"@.len() as int));
                (concat("-Wl,-soname,", t.as_str()), 2)
            },
            None => (owned(a), 1),
        }
    } else {
        (owned(a), 1)
    }
}

/// Reads a link command: output file, inputs by kind, libraries and their directories, the
/// flags meant for the linker, and the version script and library version that these flags
/// name. `None` exactly when a `-Wl,-soname,` flag holds no name that can be cut out of it
/// (fewer than one character after its separator, or a non-ASCII character at the cut).
pub fn parse_link_args(args: &Vec<String>) -> (r: Option<LinkArgs>)
    ensures
        match r {
            Some(la) => link_spec(args.deep_view()) == Some(la.view()),
            None => link_spec(args.deep_view()) is None,
        },
{
    let ghost av = args.deep_view();
    let mut st = LinkArgs {
        object_files: Vec::new(),
        source_files: Vec::new(),
        library_files: Vec::new(),
        output_file: None,
        other_args: Vec::new(),
        link_flags: Vec::new(),
        library_dirs: Vec::new(),
        libraries: Vec::new(),
        is_shared: false,
        version_script: None,
        soversion: None,
    };
    proof {
        let e = Seq::<Seq<char>>::empty();
        assert(st.object_files.deep_view() =~= e);
        assert(st.source_files.deep_view() =~= e);
        assert(st.library_files.deep_view() =~= e);
        assert(st.other_args.deep_view() =~= e);
        assert(st.link_flags.deep_view() =~= e);
        assert(st.library_dirs.deep_view() =~= e);
        assert(st.libraries.deep_view() =~= e);
        assert(st.view() == empty_link_view());
    }
    let n = args.len();
    let mut i: usize = 0;
    while i < n
        invariant
            n == args.len(),
            av == args.deep_view(),
            i <= n,
            link_from(av, i as int, st.view()) == link_spec(av),
        decreases n - i,
    {
        let a = args[i].as_str();
        assert(a@ == av[i as int]);
        let has_next = i + 1 < n;
        if str_eq(a, "-o") {
            if has_next {
                st.output_file = Some(args[i + 1].clone());
                i += 2;
            } else {
                i += 1;
            }
            continue;
        }
        if let Some(t) = strip_prefix(a, "-o") {
            if t.as_str().unicode_len() > 0 {
                proof { reveal_strlit("-o"); }
                assert(t@ =~= a@.skip(2));
                st.output_file = Some(t);
                i += 1;
                continue;
            }
        }
        if str_eq(a, "-shared") {
            st.is_shared = true;
            push_string(&mut st.link_flags, owned(a));
            i += 1;
            continue;
        }
        if str_eq(a, "-L") {
            if has_next {
                push_string(&mut st.library_dirs, args[i + 1].clone());
                push_string(&mut st.link_flags, owned(a));
                push_string(&mut st.link_flags, args[i + 1].clone());
                i += 2;
            } else {
                i += 1;
            }
            continue;
        }
        if let Some(t) = strip_prefix(a, "-L") {
            if t.as_str().unicode_len() > 0 {
                proof { reveal_strlit("-L"); }
                assert(t@ =~= a@.skip(2));
                push_string(&mut st.library_dirs, t);
                push_string(&mut st.link_flags, owned(a));
                i += 1;
                continue;
            }
        }
        if str_eq(a, "-l") {
            if has_next {
                push_string(&mut st.libraries, args[i + 1].clone());
                push_string(&mut st.link_flags, owned(a));
                push_string(&mut st.link_flags, args[i + 1].clone());
                i += 2;
            } else {
                i += 1;
            }
            continue;
        }
        if let Some(t) = strip_prefix(a, "-l") {
            if t.as_str().unicode_len() > 0 {
                proof { reveal_strlit("-l"); }
                assert(t@ =~= a@.skip(2));
                push_string(&mut st.libraries, t);
                push_string(&mut st.link_flags, owned(a));
                i += 1;
                continue;
            }
        }
        let operand = !starts_with(a, "-");
        if ends_with(a, ".o") && operand {
            push_string(&mut st.object_files, owned(a));
            i += 1;
            continue;
        }
        if operand && source_extension(a) {
            push_string(&mut st.source_files, owned(a));
            i += 1;
            continue;
        }
        if operand && (ends_with(a, ".so") || contains_str(a, ".so.") || ends_with(a, ".a")) {
            push_string(&mut st.library_files, owned(a));
            i += 1;
            continue;
        }
        if starts_with(a, "-Wl,") || starts_with(a, "-framework") {
            let (flag, taken) = normalize_linker_flag(args, i);
            if !record_linker_flag(&mut st, flag) {
                return None;
            }
            i += taken;
            continue;
        }
        push_string(&mut st.other_args, owned(a));
        i += 1;
    }
    Some(st)
}

/// The output of a link: the `-o` path, else `a.out`.
pub open spec fn link_output(la: LinkArgsView) -> Seq<char> {
    match la.output_file {
        Some(o) => o,
        None => "a.out"@,
    }
}

/// The output path of the link `link`.
pub fn link_output_path(link: &LinkArgs) -> (r: String)
    ensures
        r@ == link_output(link.view()),
{
    match &link.output_file {
        Some(o) => o.clone(),
        None => owned("a.out"),
    }
}

/// An IR file that may take part in the merge of a link, and the static library it stands
/// for, if it stands for one.
pub struct IrCandidate {
    pub ir_path: String,
    pub static_lib: Option<String>,
}

/// A library file that is a static archive: its extension is `a`.
pub open spec fn is_static_archive(f: Seq<char>) -> bool {
    path_extension(f) == Some("a"@)
}

/// The IR candidates for the first `n` object files: their mirrors.
pub open spec fn object_candidates(
    objs: Seq<Seq<char>>,
    cwd: Seq<char>,
    llvm_ir_dir: Seq<char>,
    n: int,
) -> Seq<(Seq<char>, Option<Seq<char>>)>
    decreases n,
{
    if n <= 0 {
        Seq::empty()
    } else {
        object_candidates(objs, cwd, llvm_ir_dir, n - 1).push(
            (llvmir_location(objs[n - 1], cwd, llvm_ir_dir), None),
        )
    }
}

/// The IR candidates for the static archives among the first `n` library files: their
/// mirrors, with the archive.
pub open spec fn archive_candidates(
    files: Seq<Seq<char>>,
    cwd: Seq<char>,
    llvm_ir_dir: Seq<char>,
    n: int,
) -> Seq<(Seq<char>, Option<Seq<char>>)>
    decreases n,
{
    if n <= 0 {
        Seq::empty()
    } else {
        let before = archive_candidates(files, cwd, llvm_ir_dir, n - 1);
        let f = files[n - 1];
        if is_static_archive(f) {
            before.push((llvmir_location(f, cwd, llvm_ir_dir), Some(f)))
        } else {
            before
        }
    }
}

/// The IR files that may take part in the merge of a link: the mirror of each object file,
/// then the mirror of each static archive among the library files, with that archive.
pub open spec fn ir_candidates(la: LinkArgsView, cwd: Seq<char>, llvm_ir_dir: Seq<char>) -> Seq<
    (Seq<char>, Option<Seq<char>>),
> {
    object_candidates(la.object_files, cwd, llvm_ir_dir, la.object_files.len() as int)
        + archive_candidates(la.library_files, cwd, llvm_ir_dir, la.library_files.len() as int)
}

/// The view of an IR candidate.
pub open spec fn candidate_view(c: IrCandidate) -> (Seq<char>, Option<Seq<char>>) {
    (c.ir_path@, c.static_lib.deep_view())
}

/// The views of IR candidates.
pub open spec fn candidates_view(v: Seq<IrCandidate>) -> Seq<(Seq<char>, Option<Seq<char>>)> {
    v.map_values(|c: IrCandidate| candidate_view(c))
}

/// Appends `c` to `v`.
fn push_candidate(v: &mut Vec<IrCandidate>, c: IrCandidate)
    ensures
        candidates_view(final(v)@) == candidates_view(old(v)@).push(candidate_view(c)),
{
    let ghost before = v@;
    let ghost cv = candidate_view(c);
    v.push(c);
    assert(candidates_view(v@) =~= candidates_view(before).push(cv));
}

/// The IR files that may take part in the merge of the link `link`.
pub fn link_ir_candidates(link: &LinkArgs, cwd: &str, llvm_ir_dir: &str) -> (r: Vec<IrCandidate>)
    ensures
        candidates_view(r@) == ir_candidates(link.view(), cwd@, llvm_ir_dir@),
{
    let ghost la = link.view();
    let mut r: Vec<IrCandidate> = Vec::new();
    assert(candidates_view(r@) =~= Seq::empty());
    let mut i: usize = 0;
    while i < link.object_files.len()
        invariant
            la == link.view(),
            i <= link.object_files.len(),
            candidates_view(r@) == object_candidates(la.object_files, cwd@, llvm_ir_dir@, i as int),
        decreases link.object_files.len() - i,
    {
        let ir = compute_llvmir_path(link.object_files[i].as_str(), cwd, llvm_ir_dir);
        push_candidate(&mut r, IrCandidate { ir_path: ir, static_lib: None });
        i += 1;
    }
    let ghost head = candidates_view(r@);
    let mut j: usize = 0;
    assert(head + archive_candidates(la.library_files, cwd@, llvm_ir_dir@, 0) =~= head);
    while j < link.library_files.len()
        invariant
            la == link.view(),
            j <= link.library_files.len(),
            candidates_view(r@) == head + archive_candidates(
                la.library_files,
                cwd@,
                llvm_ir_dir@,
                j as int,
            ),
        decreases link.library_files.len() - j,
    {
        let f = link.library_files[j].as_str();
        assert(la.library_files[j as int] == f@);
        let is_a = match extension(f) {
            Some(e) => str_eq(e.as_str(), "a"),
            None => false,
        };
        if is_a {
            let ir = compute_llvmir_path(f, cwd, llvm_ir_dir);
            push_candidate(&mut r, IrCandidate { ir_path: ir, static_lib: Some(owned(f)) });
            assert(candidates_view(r@) =~= head + archive_candidates(
                la.library_files,
                cwd@,
                llvm_ir_dir@,
                j + 1,
            ));
        }
        j += 1;
    }
    r
}

/// The IR files of a link that exist, and the static archives whose IR is among them.
pub struct LinkIrInputs {
    pub ir_files: Vec<String>,
    pub merged_static_libs: Vec<String>,
}

/// The IR files among the first `n` candidates `cands` that are present, `present[i]` telling
/// whether the IR file of `cands[i]` exists.
pub open spec fn present_ir_files(
    cands: Seq<(Seq<char>, Option<Seq<char>>)>,
    present: Seq<bool>,
    n: int,
) -> Seq<Seq<char>>
    decreases n,
{
    if n <= 0 {
        Seq::empty()
    } else if present[n - 1] {
        present_ir_files(cands, present, n - 1).push(cands[n - 1].0)
    } else {
        present_ir_files(cands, present, n - 1)
    }
}

/// The static archives among the first `n` candidates whose IR file is present.
pub open spec fn merged_archives(
    cands: Seq<(Seq<char>, Option<Seq<char>>)>,
    present: Seq<bool>,
    n: int,
) -> Seq<Seq<char>>
    decreases n,
{
    if n <= 0 {
        Seq::empty()
    } else if present[n - 1] && cands[n - 1].1 is Some {
        merged_archives(cands, present, n - 1).push(cands[n - 1].1->0)
    } else {
        merged_archives(cands, present, n - 1)
    }
}

/// The IR inputs of a link, given which of its candidates are present.
pub fn select_ir_inputs(cands: &Vec<IrCandidate>, present: &Vec<bool>) -> (r: LinkIrInputs)
    requires
        present.len() == cands.len(),
    ensures
        r.ir_files.deep_view() == present_ir_files(
            candidates_view(cands@),
            present@,
            cands.len() as int,
        ),
        r.merged_static_libs.deep_view() == merged_archives(
            candidates_view(cands@),
            present@,
            cands.len() as int,
        ),
{
    let ghost cv = candidates_view(cands@);
    let mut ir_files: Vec<String> = Vec::new();
    let mut merged: Vec<String> = Vec::new();
    let mut i: usize = 0;
    assert(ir_files.deep_view() =~= Seq::<Seq<char>>::empty());
    assert(merged.deep_view() =~= Seq::<Seq<char>>::empty());
    while i < cands.len()
        invariant
            present.len() == cands.len(),
            cv == candidates_view(cands@),
            i <= cands.len(),
            ir_files.deep_view() == present_ir_files(cv, present@, i as int),
            merged.deep_view() == merged_archives(cv, present@, i as int),
        decreases cands.len() - i,
    {
        assert(cv[i as int] == candidate_view(cands@[i as int]));
        if present[i] {
            push_string(&mut ir_files, cands[i].ir_path.clone());
            match &cands[i].static_lib {
                Some(l) => push_string(&mut merged, l.clone()),
                None => {},
            }
        }
        i += 1;
    }
    LinkIrInputs { ir_files, merged_static_libs: merged }
}

/// `ir_files` and `merged` are the IR inputs that the candidates `cv` give where `present`
/// tells which of their IR files exist.
pub open spec fn is_ir_selection(
    cv: Seq<(Seq<char>, Option<Seq<char>>)>,
    present: Seq<bool>,
    ir_files: Seq<Seq<char>>,
    merged: Seq<Seq<char>>,
) -> bool {
    &&& present.len() == cv.len()
    &&& ir_files == present_ir_files(cv, present, cv.len() as int)
    &&& merged == merged_archives(cv, present, cv.len() as int)
}

/// `present` holds, candidate by candidate, what the file system answered when asked whether
/// the candidate's IR file exists.
pub open spec fn ir_answers(cv: Seq<(Seq<char>, Option<Seq<char>>)>, present: Seq<bool>) -> bool {
    present.len() == cv.len() && forall|k: int|
        0 <= k < cv.len() ==> exists_answer(cv[k].0, #[trigger] present[k])
}

/// The IR files merged by a link are exactly its candidates that the file system said exist,
/// in the candidates' order: every IR file taken was said to exist, and every candidate said
/// to exist is taken.
pub proof fn lemma_link_ir_was_said_to_exist(
    cv: Seq<(Seq<char>, Option<Seq<char>>)>,
    present: Seq<bool>,
    n: int,
)
    requires
        ir_answers(cv, present),
        0 <= n <= cv.len(),
    ensures
        forall|k: int|
            0 <= k < present_ir_files(cv, present, n).len() ==> exists_answer(
                #[trigger] present_ir_files(cv, present, n)[k],
                true,
            ),
        forall|i: int|
            0 <= i < n && #[trigger] present[i] ==> present_ir_files(cv, present, n).contains(cv[i].0),
        present_ir_files(cv, present, n).len() <= n,
    decreases n,
{
    if n > 0 {
        lemma_link_ir_was_said_to_exist(cv, present, n - 1);
        let prev = present_ir_files(cv, present, n - 1);
        let cur = present_ir_files(cv, present, n);
        if present[n - 1] {
            assert(cur == prev.push(cv[n - 1].0));
            assert forall|k: int| 0 <= k < cur.len() implies exists_answer(#[trigger] cur[k], true) by {
                if k < prev.len() {
                    assert(cur[k] == prev[k]);
                } else {
                    assert(exists_answer(cv[n - 1].0, present[n - 1]));
                }
            }
            assert forall|i: int| 0 <= i < n && #[trigger] present[i] implies cur.contains(cv[i].0) by {
                if i < n - 1 {
                    let k = choose|k: int| 0 <= k < prev.len() && prev[k] == cv[i].0;
                    assert(cur[k] == prev[k]);
                } else {
                    assert(cur[cur.len() - 1] == cv[i].0);
                }
            }
        }
    }
}

/// The IR inputs of the link `link`: of the IR candidates, those whose file exists (a probe of
/// the file system, whose answers are not stated), and the static archives among them.
pub fn find_link_ir_inputs(link: &LinkArgs, cwd: &str, llvm_ir_dir: &str) -> (r: LinkIrInputs)
    ensures
        exists|present: Seq<bool>|
            #[trigger] is_ir_selection(
                ir_candidates(link.view(), cwd@, llvm_ir_dir@),
                present,
                r.ir_files.deep_view(),
                r.merged_static_libs.deep_view(),
            ),
        exists|present: Seq<bool>|
            #[trigger] is_ir_selection(
                ir_candidates(link.view(), cwd@, llvm_ir_dir@),
                present,
                r.ir_files.deep_view(),
                r.merged_static_libs.deep_view(),
            ) && ir_answers(ir_candidates(link.view(), cwd@, llvm_ir_dir@), present),
{
    let cands = link_ir_candidates(link, cwd, llvm_ir_dir);
    let ghost cv = candidates_view(cands@);
    let mut present: Vec<bool> = Vec::new();
    let mut i: usize = 0;
    while i < cands.len()
        invariant
            i <= cands.len(),
            present.len() == i,
            cv == candidates_view(cands@),
            forall|k: int| 0 <= k < i ==> exists_answer(cv[k].0, #[trigger] present@[k]),
        decreases cands.len() - i,
    {
        let e = ask_exists(cands[i].ir_path.as_str());
        assert(cv[i as int].0 == cands[i as int].ir_path@);
        present.push(e);
        i += 1;
    }
    let r = select_ir_inputs(&cands, &present);
    assert(candidates_view(cands@).len() == cands.len());
    assert(ir_answers(cv, present@));
    assert(is_ir_selection(
        ir_candidates(link.view(), cwd@, llvm_ir_dir@),
        present@,
        r.ir_files.deep_view(),
        r.merged_static_libs.deep_view(),
    ));
    r
}

/// The path of the IR file generated for the source file `source`: its mirror under
/// `llvm_ir_dir`, with extension `bc`.
pub open spec fn source_ir_location(source: Seq<char>, cwd: Seq<char>, llvm_ir_dir: Seq<char>) -> Seq<
    char,
> {
    path_with_extension(llvmir_location(source, cwd, llvm_ir_dir), "bc"@)
}

/// The path of the IR file generated for the source file `source`.
pub fn source_ir_path(source: &str, cwd: &str, llvm_ir_dir: &str) -> (r: String)
    ensures
        r@ == source_ir_location(source@, cwd@, llvm_ir_dir@),
{
    let ir = compute_llvmir_path(source, cwd, llvm_ir_dir);
    proof {
        reveal_strlit("bc");
    }
    with_extension(ir.as_str(), "bc")
}

/// The arguments after the program that generate the IR of the source file `source` into
/// `out`: the other options of the link, the target option, then `-emit-llvm -c`, the source
/// and `-o out`.
pub open spec fn source_ir_args(
    other_args: Seq<Seq<char>>,
    march: Option<Seq<char>>,
    source: Seq<char>,
    out: Seq<char>,
) -> Seq<Seq<char>> {
    other_args + (match march {
        Some(m) => seq![m],
        None => Seq::empty(),
    }) + seq!["-emit-llvm"@, "-c"@, source, "-o"@, out]
}

/// The IR compile of a link's source file keeps all that it is given: the link's other
/// options first, in order; a target option `m` right after them and right before
/// `-emit-llvm`, being the only difference from the IR compile without it; then `-c`, the
/// source and `-o out`.
pub proof fn lemma_source_ir_keeps_options(
    other_args: Seq<Seq<char>>,
    m: Seq<char>,
    source: Seq<char>,
    out: Seq<char>,
)
    ensures
        source_ir_args(other_args, Some(m), source, out) == source_ir_args(
            other_args,
            None,
            source,
            out,
        ).insert(other_args.len() as int, m),
        source_ir_args(other_args, Some(m), source, out).subrange(0, other_args.len() as int)
            == other_args,
        source_ir_args(other_args, Some(m), source, out)[other_args.len() as int] == m,
        source_ir_args(other_args, Some(m), source, out)[(other_args.len() + 1) as int] == "-emit-llvm"@,
        source_ir_args(other_args, None, source, out).len() == other_args.len() + 5,
        source_ir_args(other_args, None, source, out)[(other_args.len() + 2) as int] == source,
        source_ir_args(other_args, None, source, out).last() == out,
{
    let with = source_ir_args(other_args, Some(m), source, out);
    let without = source_ir_args(other_args, None, source, out);
    assert(with =~= without.insert(other_args.len() as int, m));
    assert(with.subrange(0, other_args.len() as int) =~= other_args);
}

/// The arguments that generate the IR of the source file `source` into `out`.
pub fn source_ir_command_args(
    other_args: &Vec<String>,
    march: Option<&str>,
    source: &str,
    out: &str,
) -> (r: Vec<String>)
    ensures
        r.deep_view() == source_ir_args(
            other_args.deep_view(),
            match march {
                Some(m) => Some(m@),
                None => None,
            },
            source@,
            out@,
        ),
{
    let mut r = other_args.clone();
    proof {
        assert(r.deep_view() =~= other_args.deep_view()) by {
            assert(r@ == other_args@);
        }
    }
    let ghost head = r.deep_view();
    match march {
        Some(m) => push_string(&mut r, owned(m)),
        None => {},
    }
    push_string(&mut r, owned("-emit-llvm"));
    push_string(&mut r, owned("-c"));
    push_string(&mut r, owned(source));
    push_string(&mut r, owned("-o"));
    push_string(&mut r, owned(out));
    assert(r.deep_view() =~= source_ir_args(
        other_args.deep_view(),
        match march {
            Some(m) => Some(m@),
            None => None,
        },
        source@,
        out@,
    ));
    r
}

/// The arguments of `llvm-link` that merge `inputs` into `out`.
pub fn llvm_link_args(out: &str, inputs: &Vec<String>) -> (r: Vec<String>)
    ensures
        r.deep_view() == seq!["-o"@, out@] + inputs.deep_view(),
{
    let mut r: Vec<String> = Vec::new();
    push_string(&mut r, owned("-o"));
    push_string(&mut r, owned(out));
    let ghost head = r.deep_view();
    let mut i: usize = 0;
    while i < inputs.len()
        invariant
            i <= inputs.len(),
            r.deep_view() == head + inputs.deep_view().take(i as int),
        decreases inputs.len() - i,
    {
        push_string(&mut r, inputs[i].clone());
        assert(r.deep_view() =~= head + inputs.deep_view().take(i + 1));
        i += 1;
    }
    assert(inputs.deep_view().take(i as int) =~= inputs.deep_view());
    assert(head =~= seq!["-o"@, out@]);
    r
}

/// A command as one line: the program and its arguments separated by spaces.
pub fn command_line(program: &str, args: &Vec<String>) -> (r: String)
    ensures
        r@ == joined(seq![program@] + args.deep_view(), " "@),
{
    let mut parts: Vec<String> = Vec::new();
    push_string(&mut parts, owned(program));
    let ghost head = parts.deep_view();
    let mut i: usize = 0;
    while i < args.len()
        invariant
            i <= args.len(),
            parts.deep_view() == head + args.deep_view().take(i as int),
        decreases args.len() - i,
    {
        push_string(&mut parts, args[i].clone());
        assert(parts.deep_view() =~= head + args.deep_view().take(i + 1));
        i += 1;
    }
    assert(args.deep_view().take(i as int) =~= args.deep_view());
    assert(head =~= seq![program@]);
    join(&parts, " ")
}

/// Where the version script of a link is kept: `<output name>_verscript` beside the merged
/// bitcode, the output name being the file name of the output path (else `output`).
pub open spec fn version_script_location(output_path: Seq<char>, llvm_link_output: Seq<char>) -> Seq<
    char,
> {
    let name = match path_file_name(output_path) {
        Some(n) => n,
        None => "output"@,
    };
    let file = name + "_verscript"@;
    match path_parent(llvm_link_output) {
        Some(p) => path_join(p, file),
        None => file,
    }
}

/// Where the version script of a link is kept beside its merged bitcode.
pub fn version_script_destination(output_path: &str, llvm_link_output: &str) -> (r: String)
    ensures
        r@ == version_script_location(output_path@, llvm_link_output@),
{
    let name = match file_name(output_path) {
        Some(n) => n,
        None => owned("output"),
    };
    let file = concat(name.as_str(), "_verscript");
    match parent(llvm_link_output) {
        Some(p) => join_path(p.as_str(), file.as_str()),
        None => file,
    }
}

} // verus!
