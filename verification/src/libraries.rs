//! Libraries named on a link command line: the files that `-l` looks for, and the GNU ld
//! scripts (`INPUT(...)`, `GROUP(...)`) that stand in for a library.
use vstd::prelude::*;
use crate::paths::{file_name, is_absolute, is_absolute_path, join_path, path_file_name, path_join};
use crate::text::{chars_of, concat3, is_whitespace, is_ws, owned, push_string, str_eq,
    string_of, string_of_range, strip_prefix};

verus! {

broadcast use vstd::string::group_string_axioms;

/// The file names that `-l<name>` stands for: `<rest>` itself for `-l:<rest>`, else
/// `lib<name>.so` and then `lib<name>.a`.
pub open spec fn library_file_names(name: Seq<char>) -> Seq<Seq<char>> {
    if name.len() > 0 && name[0] == ':' {
        seq![name.skip(1)]
    } else {
        seq!["lib"@ + name + ".so"@, "lib"@ + name + ".a"@]
    }
}

/// The places where `-l<name>` is looked for, in order: each of its file names in each of
/// the library directories `dirs`, directory by directory.
pub open spec fn library_candidates(name: Seq<char>, dirs: Seq<Seq<char>>) -> Seq<Seq<char>>
    decreases dirs.len(),
{
    if dirs.len() == 0 {
        Seq::empty()
    } else {
        let names = library_file_names(name);
        library_candidates(name, dirs.drop_last()) + Seq::new(
            names.len(),
            |i: int| path_join(dirs.last(), names[i]),
        )
    }
}

/// The file names that `-l<name>` stands for.
fn library_names(name: &str) -> (r: Vec<String>)
    ensures
        r.deep_view() == library_file_names(name@),
{
    let v = chars_of(name);
    let mut r: Vec<String> = Vec::new();
    if v.len() > 0 && v[0] == ':' {
        let rest = string_of_range(&v, 1, v.len());
        assert(rest@ =~= name@.skip(1));
        push_string(&mut r, rest);
    } else {
        proof {
            reveal_strlit("lib");
            reveal_strlit(".so");
            reveal_strlit(".a");
        }
        push_string(&mut r, concat3("lib", name, ".so"));
        push_string(&mut r, concat3("lib", name, ".a"));
    }
    assert(r.deep_view() =~= library_file_names(name@));
    r
}

/// The places where `-l<name>` is looked for in the library directories `dirs`, in order.
pub fn library_search_candidates(name: &str, dirs: &Vec<String>) -> (r: Vec<String>)
    ensures
        r.deep_view() == library_candidates(name@, dirs.deep_view()),
{
    let names = library_names(name);
    let ghost nv = names.deep_view();
    let ghost dv = dirs.deep_view();
    let mut out: Vec<String> = Vec::new();
    let mut i: usize = 0;
    assert(dv.take(0) =~= Seq::<Seq<char>>::empty());
    assert(out.deep_view() =~= library_candidates(name@, dv.take(0)));
    while i < dirs.len()
        invariant
            nv == names.deep_view(),
            nv == library_file_names(name@),
            dv == dirs.deep_view(),
            i <= dirs.len(),
            out.deep_view() == library_candidates(name@, dv.take(i as int)),
        decreases dirs.len() - i,
    {
        let d = dirs[i].as_str();
        assert(d@ == dv[i as int]);
        let ghost base = out.deep_view();
        let mut k: usize = 0;
        while k < names.len()
            invariant
                nv == names.deep_view(),
                k <= names.len(),
                out.deep_view() == base + Seq::new(k as nat, |j: int| path_join(d@, nv[j])),
            decreases names.len() - k,
        {
            let c = join_path(d, names[k].as_str());
            assert(names[k as int]@ == nv[k as int]);
            let ghost before = out.deep_view();
            push_string(&mut out, c);
            assert(out.deep_view() =~= base + Seq::new((k + 1) as nat, |j: int| path_join(d@, nv[j])));
            k += 1;
        }
        assert(dv.take(i + 1).drop_last() =~= dv.take(i as int));
        assert(dv.take(i + 1).last() == d@);
        assert(out.deep_view() =~= library_candidates(name@, dv.take(i + 1)));
        i += 1;
    }
    assert(dv.take(i as int) =~= dv);
    out
}

/// `s` with its `/* ... */` comments taken out, each closed comment leaving a space; `inside`
/// tells whether `s` begins inside a comment.
pub open spec fn uncommented(s: Seq<char>, inside: bool) -> Seq<char>
    decreases s.len(),
{
    if s.len() == 0 {
        Seq::empty()
    } else if inside {
        if s.len() >= 2 && s[0] == '*' && s[1] == '/' {
            seq![' '] + uncommented(s.skip(2), false)
        } else {
            uncommented(s.skip(1), true)
        }
    } else if s.len() >= 2 && s[0] == '/' && s[1] == '*' {
        uncommented(s.skip(2), true)
    } else {
        seq![s[0]] + uncommented(s.skip(1), false)
    }
}

/// The piece `cur` as a token, where it is not empty.
pub open spec fn flushed(cur: Seq<char>) -> Seq<Seq<char>> {
    if cur.len() > 0 {
        seq![cur]
    } else {
        Seq::empty()
    }
}

/// The tokens of a linker script `s`, the first continuing `cur`: runs of characters
/// separated by white space and commas, each parenthesis a token of its own.
pub open spec fn tokens_from(s: Seq<char>, cur: Seq<char>) -> Seq<Seq<char>>
    decreases s.len(),
{
    if s.len() == 0 {
        flushed(cur)
    } else if s[0] == '(' || s[0] == ')' {
        flushed(cur) + seq![seq![s[0]]] + tokens_from(s.skip(1), Seq::empty())
    } else if is_ws(s[0]) || s[0] == ',' {
        flushed(cur) + tokens_from(s.skip(1), Seq::empty())
    } else {
        tokens_from(s.skip(1), cur.push(s[0]))
    }
}

/// The files and libraries that the tokens `toks` name inside `INPUT(...)` and `GROUP(...)`
/// commands, `depth` being how many of their parentheses are open (0 outside them); the
/// parentheses and `AS_NEEDED` inside them name nothing.
pub open spec fn inputs_from(toks: Seq<Seq<char>>, depth: int) -> Seq<Seq<char>>
    decreases toks.len(),
{
    if toks.len() == 0 {
        Seq::empty()
    } else if depth <= 0 {
        if toks.len() >= 2 && (toks[0] == "INPUT"@ || toks[0] == "GROUP"@) && toks[1] == "("@ {
            inputs_from(toks.skip(2), 1)
        } else {
            inputs_from(toks.skip(1), 0)
        }
    } else if toks[0] == "("@ {
        inputs_from(toks.skip(1), depth + 1)
    } else if toks[0] == ")"@ {
        inputs_from(toks.skip(1), depth - 1)
    } else if toks[0] == "AS_NEEDED"@ {
        inputs_from(toks.skip(1), depth)
    } else {
        seq![toks[0]] + inputs_from(toks.skip(1), depth)
    }
}

/// The tokens `toks` hold an `INPUT(` or `GROUP(` command.
pub open spec fn has_input_command(toks: Seq<Seq<char>>) -> bool {
    exists|i: int|
        0 <= i && i + 1 < toks.len() && (#[trigger] toks[i] == "INPUT"@ || toks[i] == "GROUP"@)
            && toks[i + 1] == "("@
}

/// What the text `content` of a library file says where it is a linker script that stands in
/// for a library: the files and libraries of its `INPUT` and `GROUP` commands, in order;
/// `None` where it holds no such command.
pub open spec fn linker_script_entries(content: Seq<char>) -> Option<Seq<Seq<char>>> {
    let toks = tokens_from(uncommented(content, false), Seq::empty());
    if has_input_command(toks) {
        Some(inputs_from(toks, 0))
    } else {
        None
    }
}

/// The text `v` without its comments.
fn strip_comments(v: &Vec<char>) -> (r: Vec<char>)
    ensures
        r@ == uncommented(v@, false),
{
    let mut out: Vec<char> = Vec::new();
    let mut inside = false;
    let mut i: usize = 0;
    assert(v@.skip(0) =~= v@);
    while i < v.len()
        invariant
            i <= v.len(),
            uncommented(v@, false) == out@ + uncommented(v@.skip(i as int), inside),
        decreases v.len() - i,
    {
        let ghost rest = v@.skip(i as int);
        let two = i + 1 < v.len();
        if inside {
            if two && v[i] == '*' && v[i + 1] == '/' {
                assert(rest.skip(2) =~= v@.skip(i + 2));
                let ghost before = out@;
                out.push(' ');
                assert(before + (seq![' '] + uncommented(v@.skip(i + 2), false)) =~= out@
                    + uncommented(v@.skip(i + 2), false));
                inside = false;
                i += 2;
            } else {
                assert(rest.skip(1) =~= v@.skip(i + 1));
                i += 1;
            }
        } else if two && v[i] == '/' && v[i + 1] == '*' {
            assert(rest.skip(2) =~= v@.skip(i + 2));
            inside = true;
            i += 2;
        } else {
            assert(rest.skip(1) =~= v@.skip(i + 1));
            let ghost before = out@;
            out.push(v[i]);
            assert(before + (seq![v@[i as int]] + uncommented(v@.skip(i + 1), false)) =~= out@
                + uncommented(v@.skip(i + 1), false));
            i += 1;
        }
    }
    assert(out@ + uncommented(v@.skip(i as int), inside) =~= out@);
    out
}

/// Appends the piece `cur` to `out` as a token, where it is not empty, and empties it.
fn flush(out: &mut Vec<String>, cur: &mut Vec<char>)
    ensures
        final(out).deep_view() == old(out).deep_view() + flushed(old(cur)@),
        final(cur)@ == Seq::<char>::empty(),
{
    let ghost before = out.deep_view();
    if cur.len() > 0 {
        push_string(out, string_of(cur));
        assert(out.deep_view() =~= before + flushed(old(cur)@));
    } else {
        assert(out.deep_view() =~= before + flushed(old(cur)@));
    }
    *cur = Vec::new();
}

/// The tokens of the text `v`.
fn script_tokens(v: &Vec<char>) -> (r: Vec<String>)
    ensures
        r.deep_view() == tokens_from(v@, Seq::empty()),
{
    let mut out: Vec<String> = Vec::new();
    let mut cur: Vec<char> = Vec::new();
    let mut i: usize = 0;
    assert(v@.skip(0) =~= v@);
    assert(out.deep_view() + tokens_from(v@, cur@) =~= tokens_from(v@, Seq::empty()));
    while i < v.len()
        invariant
            i <= v.len(),
            out.deep_view() + tokens_from(v@.skip(i as int), cur@) == tokens_from(v@, Seq::empty()),
        decreases v.len() - i,
    {
        let ghost rest = v@.skip(i as int);
        let ghost old_out = out.deep_view();
        let ghost old_cur = cur@;
        assert(rest.skip(1) =~= v@.skip(i + 1));
        let c = v[i];
        if c == '(' || c == ')' {
            flush(&mut out, &mut cur);
            let mut t = String::new();
            crate::text::push_char(&mut t, c);
            assert(t@ =~= seq![c]);
            push_string(&mut out, t);
            assert(old_out + (flushed(old_cur) + seq![seq![c]] + tokens_from(v@.skip(i + 1), Seq::empty()))
                =~= out.deep_view() + tokens_from(v@.skip(i + 1), cur@));
        } else if is_whitespace(c) || c == ',' {
            flush(&mut out, &mut cur);
            assert(old_out + (flushed(old_cur) + tokens_from(v@.skip(i + 1), Seq::empty()))
                =~= out.deep_view() + tokens_from(v@.skip(i + 1), cur@));
        } else {
            cur.push(c);
            assert(cur@ == old_cur.push(c));
        }
        i += 1;
    }
    let ghost old_out = out.deep_view();
    let ghost old_cur = cur@;
    flush(&mut out, &mut cur);
    assert(v@.skip(i as int) =~= Seq::<char>::empty());
    assert(old_out + tokens_from(v@.skip(i as int), old_cur) =~= out.deep_view());
    out
}

/// Whether the tokens `toks` hold an `INPUT(` or `GROUP(` command.
fn holds_input_command(toks: &Vec<String>) -> (r: bool)
    ensures
        r == has_input_command(toks.deep_view()),
{
    let ghost tv = toks.deep_view();
    let mut i: usize = 0;
    while i < toks.len() && i + 1 < toks.len()
        invariant
            tv == toks.deep_view(),
            i <= toks.len(),
            forall|j: int|
                0 <= j < i && j + 1 < tv.len() ==> !((#[trigger] tv[j] == "INPUT"@ || tv[j]
                    == "GROUP"@) && tv[j + 1] == "("@),
        decreases toks.len() - i,
    {
        let t = toks[i].as_str();
        assert(t@ == tv[i as int]);
        assert(toks[i + 1]@ == tv[i + 1]);
        if (str_eq(t, "INPUT") || str_eq(t, "GROUP")) && str_eq(toks[i + 1].as_str(), "(") {
            return true;
        }
        i += 1;
    }
    false
}

/// The files and libraries that the linker script `content` names in its `INPUT` and `GROUP`
/// commands; `None` where it is no such script.
pub fn linker_script_inputs(content: &str) -> (r: Option<Vec<String>>)
    ensures
        match r {
            Some(v) => linker_script_entries(content@) == Some(v.deep_view()),
            None => linker_script_entries(content@) is None,
        },
{
    let v = chars_of(content);
    let plain = strip_comments(&v);
    let toks = script_tokens(&plain);
    if !holds_input_command(&toks) {
        return None;
    }
    let ghost tv = toks.deep_view();
    let mut out: Vec<String> = Vec::new();
    let mut depth: usize = 0;
    let mut i: usize = 0;
    assert(tv.skip(0) =~= tv);
    assert(out.deep_view() + inputs_from(tv, 0) =~= inputs_from(tv, 0));
    while i < toks.len()
        invariant
            tv == toks.deep_view(),
            i <= toks.len(),
            depth <= i,
            out.deep_view() + inputs_from(tv.skip(i as int), depth as int) == inputs_from(tv, 0),
        decreases toks.len() - i,
    {
        let ghost rest = tv.skip(i as int);
        let t = toks[i].as_str();
        assert(t@ == rest[0]);
        assert(rest.skip(1) =~= tv.skip(i + 1));
        if depth == 0 {
            if i + 1 < toks.len() && (str_eq(t, "INPUT") || str_eq(t, "GROUP")) && str_eq(
                toks[i + 1].as_str(),
                "(",
            ) {
                assert(toks[i + 1]@ == rest[1]);
                assert(rest.skip(2) =~= tv.skip(i + 2));
                depth = 1;
                i += 2;
            } else {
                proof {
                    if i + 1 < toks.len() {
                        assert(toks[i + 1]@ == rest[1]);
                    }
                }
                i += 1;
            }
        } else if str_eq(t, "(") {
            depth += 1;
            i += 1;
        } else if str_eq(t, ")") {
            depth -= 1;
            i += 1;
        } else if str_eq(t, "AS_NEEDED") {
            i += 1;
        } else {
            let ghost before = out.deep_view();
            push_string(&mut out, owned(t));
            assert(before + (seq![t@] + inputs_from(tv.skip(i + 1), depth as int)) =~= out.deep_view()
                + inputs_from(tv.skip(i + 1), depth as int));
            i += 1;
        }
    }
    assert(out.deep_view() + inputs_from(tv.skip(i as int), depth as int) =~= out.deep_view());
    Some(out)
}

/// What a script entry names: a library (`-l<name>`) or a file.
pub enum ScriptEntry {
    Library(String),
    File(String),
}

/// The mathematical form of [`ScriptEntry`].
pub enum ScriptEntryView {
    Library(Seq<char>),
    File(Seq<char>),
}

impl ScriptEntry {
    pub open spec fn view(&self) -> ScriptEntryView {
        match self {
            ScriptEntry::Library(n) => ScriptEntryView::Library(n@),
            ScriptEntry::File(f) => ScriptEntryView::File(f@),
        }
    }
}

/// What the script entry `t` names.
pub open spec fn entry_of(t: Seq<char>) -> ScriptEntryView {
    if "-l"@.is_prefix_of(t) {
        ScriptEntryView::Library(t.skip(2))
    } else {
        ScriptEntryView::File(t)
    }
}

/// What the script entry `t` names.
pub fn script_entry(t: &str) -> (r: ScriptEntry)
    ensures
        r.view() == entry_of(t@),
{
    proof {
        reveal_strlit("-l");
    }
    match strip_prefix(t, "-l") {
        Some(n) => {
            assert(n@ =~= t@.skip(2));
            ScriptEntry::Library(n)
        },
        None => ScriptEntry::File(owned(t)),
    }
}

/// The places where a file named by a script is looked for, in order: the name itself, and,
/// for a relative name, the name in each library directory of `dirs`.
pub open spec fn script_file_candidates(f: Seq<char>, dirs: Seq<Seq<char>>) -> Seq<Seq<char>> {
    seq![f] + if is_absolute_path(f) {
        Seq::empty()
    } else {
        Seq::new(dirs.len(), |i: int| path_join(dirs[i], f))
    }
}

/// The places where the file `f` named by a script is looked for.
pub fn script_file_search(f: &str, dirs: &Vec<String>) -> (r: Vec<String>)
    ensures
        r.deep_view() == script_file_candidates(f@, dirs.deep_view()),
{
    let ghost dv = dirs.deep_view();
    let mut out: Vec<String> = Vec::new();
    push_string(&mut out, owned(f));
    if is_absolute(f) {
        assert(out.deep_view() =~= script_file_candidates(f@, dv));
        return out;
    }
    let mut i: usize = 0;
    while i < dirs.len()
        invariant
            dv == dirs.deep_view(),
            !is_absolute_path(f@),
            i <= dirs.len(),
            out.deep_view() == seq![f@] + Seq::new(i as nat, |k: int| path_join(dv[k], f@)),
        decreases dirs.len() - i,
    {
        assert(dirs[i as int]@ == dv[i as int]);
        let ghost before = out.deep_view();
        push_string(&mut out, join_path(dirs[i].as_str(), f));
        assert(out.deep_view() =~= seq![f@] + Seq::new((i + 1) as nat, |k: int| path_join(dv[k], f@)));
        i += 1;
    }
    assert(out.deep_view() =~= script_file_candidates(f@, dv));
    out
}

/// How many linker scripts deep a library is followed through scripts that name others.
pub const SCRIPT_DEPTH_LIMIT: u32 = 8;

/// The size (in bytes) below which a library file is read to see whether it is a linker
/// script; shared objects and archives are larger than any script.
pub const SCRIPT_SIZE_LIMIT: u64 = 1048576;

/// The library file at `depth` scripts deep, of `size` bytes (`None` where the file system
/// did not tell), is read to see whether it is a linker script.
pub open spec fn reads_library_text(size: Option<u64>, depth: u32) -> bool {
    depth < SCRIPT_DEPTH_LIMIT && (size matches Some(n) && n < SCRIPT_SIZE_LIMIT)
}

/// Whether the library file at `depth` scripts deep, of `size` bytes, is read as text.
pub fn wants_library_text(size: Option<u64>, depth: u32) -> (r: bool)
    ensures
        r == reads_library_text(size, depth),
{
    depth < SCRIPT_DEPTH_LIMIT && match size {
        Some(n) => n < SCRIPT_SIZE_LIMIT,
        None => false,
    }
}

/// What a library file comes to on the re-link command line.
pub enum LibraryFile {
    /// The file itself, by its name.
    Named(String),
    /// A linker script, standing for what its entries name.
    Script(Vec<ScriptEntry>),
    /// A path without a file name, which names nothing.
    Unnamed,
}

/// The mathematical form of [`LibraryFile`].
pub enum LibraryFileView {
    Named(Seq<char>),
    Script(Seq<ScriptEntryView>),
    Unnamed,
}

/// The views of script entries.
pub open spec fn entries_view(v: Seq<ScriptEntry>) -> Seq<ScriptEntryView> {
    Seq::new(v.len(), |i: int| v[i].view())
}

impl LibraryFile {
    pub open spec fn view(&self) -> LibraryFileView {
        match self {
            LibraryFile::Named(n) => LibraryFileView::Named(n@),
            LibraryFile::Script(v) => LibraryFileView::Script(entries_view(v@)),
            LibraryFile::Unnamed => LibraryFileView::Unnamed,
        }
    }
}

/// What the library file whose canonical path is `canonical` comes to, at `depth` scripts
/// deep: a linker script where its text (`text`, read where [`reads_library_text`] holds for
/// its `size`) is one, with what its entries name; else the file by its name.
pub open spec fn library_file_reading(
    canonical: Seq<char>,
    size: Option<u64>,
    text: Option<Seq<char>>,
    depth: u32,
) -> LibraryFileView {
    if reads_library_text(size, depth) && (text matches Some(t) && linker_script_entries(t) is Some) {
        LibraryFileView::Script(
            linker_script_entries(text->0)->0.map_values(|e: Seq<char>| entry_of(e)),
        )
    } else {
        match path_file_name(canonical) {
            Some(n) => LibraryFileView::Named(n),
            None => LibraryFileView::Unnamed,
        }
    }
}

/// What the library file whose canonical path is `canonical` comes to, at `depth` scripts
/// deep, given its size and, where it was read, its text.
pub fn read_library_file(canonical: &str, size: Option<u64>, text: Option<&str>, depth: u32) -> (r:
    LibraryFile)
    ensures
        r.view() == library_file_reading(
            canonical@,
            size,
            match text {
                Some(t) => Some(t@),
                None => None,
            },
            depth,
        ),
{
    if wants_library_text(size, depth) {
        match text {
            Some(t) => match linker_script_inputs(t) {
                Some(tokens) => {
                    let ghost tv = tokens.deep_view();
                    let mut entries: Vec<ScriptEntry> = Vec::new();
                    let mut i: usize = 0;
                    while i < tokens.len()
                        invariant
                            tv == tokens.deep_view(),
                            i <= tokens.len(),
                            entries@.len() == i,
                            forall|k: int|
                                0 <= k < i ==> #[trigger] entries@[k].view() == entry_of(tv[k]),
                        decreases tokens.len() - i,
                    {
                        assert(tokens[i as int]@ == tv[i as int]);
                        entries.push(script_entry(tokens[i].as_str()));
                        i += 1;
                    }
                    assert(entries_view(entries@) =~= tv.map_values(|e: Seq<char>| entry_of(e)));
                    return LibraryFile::Script(entries);
                },
                None => {},
            },
            None => {},
        }
    }
    match file_name(canonical) {
        Some(n) => LibraryFile::Named(n),
        None => LibraryFile::Unnamed,
    }
}

/// A place still to be looked at while a library is resolved: the paths where its file may
/// lie, in order, and how many linker scripts deep it was named.
pub struct WalkTask {
    pub candidates: Vec<String>,
    pub depth: u32,
}

/// The mathematical form of [`WalkTask`].
pub struct WalkTaskView {
    pub candidates: Seq<Seq<char>>,
    pub depth: u32,
}

impl WalkTask {
    pub open spec fn view(&self) -> WalkTaskView {
        WalkTaskView { candidates: self.candidates.deep_view(), depth: self.depth }
    }
}

/// The resolution of a library, step by step: the places still to be looked at (the last one
/// next) and the names found so far, in order.
pub struct LibraryWalk {
    pub pending: Vec<WalkTask>,
    pub names: Vec<String>,
}

/// The mathematical form of [`LibraryWalk`].
pub struct LibraryWalkView {
    pub pending: Seq<WalkTaskView>,
    pub names: Seq<Seq<char>>,
}

/// The views of walk tasks.
pub open spec fn tasks_view(v: Seq<WalkTask>) -> Seq<WalkTaskView> {
    Seq::new(v.len(), |i: int| v[i].view())
}

impl LibraryWalk {
    pub open spec fn view(&self) -> LibraryWalkView {
        LibraryWalkView { pending: tasks_view(self.pending@), names: self.names.deep_view() }
    }
}

/// No place still to be looked at lies deeper than [`SCRIPT_DEPTH_LIMIT`] scripts, so the
/// resolution ends.
pub open spec fn walk_bounded(w: LibraryWalkView) -> bool {
    forall|i: int| 0 <= i < w.pending.len() ==> #[trigger] w.pending[i].depth <= SCRIPT_DEPTH_LIMIT
}

/// Where what the script entry `e`, read at `depth` scripts deep, names is looked for.
pub open spec fn entry_task(e: ScriptEntryView, depth: u32, dirs: Seq<Seq<char>>) -> WalkTaskView {
    WalkTaskView {
        candidates: match e {
            ScriptEntryView::Library(l) => library_candidates(l, dirs),
            ScriptEntryView::File(f) => script_file_candidates(f, dirs),
        },
        depth: (depth + 1) as u32,
    }
}

/// The places to look at for the entries `es` of a script read at `depth` scripts deep, the
/// last entry first, so that the first entry is looked at next.
pub open spec fn entry_tasks(es: Seq<ScriptEntryView>, depth: u32, dirs: Seq<Seq<char>>) -> Seq<
    WalkTaskView,
> {
    Seq::new(es.len(), |i: int| entry_task(es[es.len() - 1 - i], depth, dirs))
}

/// The resolution `w` after the file found for a place at `depth` scripts deep came to `f`:
/// a file by its name adds that name; a script adds a place for each of its entries; a path
/// without a file name changes nothing.
pub open spec fn walk_after(
    w: LibraryWalkView,
    f: LibraryFileView,
    depth: u32,
    dirs: Seq<Seq<char>>,
) -> LibraryWalkView {
    match f {
        LibraryFileView::Named(n) => LibraryWalkView { names: w.names.push(n), ..w },
        LibraryFileView::Script(es) => LibraryWalkView {
            pending: w.pending + entry_tasks(es, depth, dirs),
            ..w
        },
        LibraryFileView::Unnamed => w,
    }
}

impl LibraryWalk {
    /// The resolution of `-l<name>` in the library directories `dirs`, before any step.
    pub fn start(name: &str, dirs: &Vec<String>) -> (r: LibraryWalk)
        ensures
            r.view() == (LibraryWalkView {
                pending: seq![WalkTaskView { candidates: library_candidates(name@, dirs.deep_view()), depth: 0 }],
                names: Seq::empty(),
            }),
            walk_bounded(r.view()),
    {
        let first = WalkTask { candidates: library_search_candidates(name, dirs), depth: 0 };
        let mut pending: Vec<WalkTask> = Vec::new();
        pending.push(first);
        let r = LibraryWalk { pending, names: Vec::new() };
        assert(r.names.deep_view() =~= Seq::<Seq<char>>::empty());
        assert(r.view().pending =~= seq![WalkTaskView {
            candidates: library_candidates(name@, dirs.deep_view()),
            depth: 0,
        }]);
        r
    }

    /// The next place to look at, taken off the walk; `None` once the walk is done.
    pub fn next_task(&mut self) -> (r: Option<WalkTask>)
        ensures
            old(self).view().pending.len() == 0 ==> r is None && final(self).view() == old(self).view(),
            old(self).view().pending.len() > 0 ==> r is Some && r->0.view() == old(self).view().pending.last()
                && final(self).view() == (LibraryWalkView {
                pending: old(self).view().pending.drop_last(),
                names: old(self).view().names,
            }),
            walk_bounded(old(self).view()) ==> walk_bounded(final(self).view()),
    {
        let ghost before = self.view();
        let r = self.pending.pop();
        proof {
            if before.pending.len() > 0 {
                assert(self.view().pending =~= before.pending.drop_last());
            } else {
                assert(self.view().pending =~= before.pending);
            }
        }
        r
    }

    /// Takes in the file found for a place at `depth` scripts deep: its canonical path, its
    /// size, and its text where it was read (see [`wants_library_text`]), in the library
    /// directories `dirs`.
    pub fn take_file(
        &mut self,
        canonical: &str,
        size: Option<u64>,
        text: Option<&str>,
        depth: u32,
        dirs: &Vec<String>,
    )
        ensures
            final(self).view() == walk_after(
                old(self).view(),
                library_file_reading(
                    canonical@,
                    size,
                    match text {
                        Some(t) => Some(t@),
                        None => None,
                    },
                    depth,
                ),
                depth,
                dirs.deep_view(),
            ),
            walk_bounded(old(self).view()) ==> walk_bounded(final(self).view()),
    {
        let ghost before = self.view();
        let ghost dv = dirs.deep_view();
        let file = read_library_file(canonical, size, text, depth);
        match file {
            LibraryFile::Named(n) => {
                push_string(&mut self.names, n);
                assert(self.view().pending =~= before.pending);
            },
            LibraryFile::Unnamed => {
                assert(self.view() == before);
            },
            LibraryFile::Script(entries) => {
                let ghost ev = entries_view(entries@);
                assert(depth < SCRIPT_DEPTH_LIMIT);
                let mut k: usize = entries.len();
                while k > 0
                    invariant
                        k <= entries.len(),
                        ev == entries_view(entries@),
                        depth < SCRIPT_DEPTH_LIMIT,
                        dv == dirs.deep_view(),
                        self.view().names == before.names,
                        self.view().pending == before.pending + Seq::new(
                            (entries.len() - k) as nat,
                            |i: int| entry_task(ev[ev.len() - 1 - i], depth, dv),
                        ),
                    decreases k,
                {
                    k -= 1;
                    let candidates = match &entries[k] {
                        ScriptEntry::Library(l) => library_search_candidates(l.as_str(), dirs),
                        ScriptEntry::File(f) => script_file_search(f.as_str(), dirs),
                    };
                    let ghost pv = self.view().pending;
                    let task = WalkTask { candidates, depth: depth + 1 };
                    assert(task.view() == entry_task(ev[k as int], depth, dv));
                    let ghost tv = task.view();
                    self.pending.push(task);
                    assert(self.view().pending =~= pv.push(tv));
                    assert(self.view().pending =~= before.pending + Seq::new(
                        (entries.len() - k) as nat,
                        |i: int| entry_task(ev[ev.len() - 1 - i], depth, dv),
                    ));
                }
                assert(self.view().pending =~= before.pending + entry_tasks(ev, depth, dv));
            },
        }
    }
}

} // verus!
