//! Shell quoting of arguments and the reading of response (`@file`) files.
use vstd::prelude::*;
use crate::text::{
    chars_of, is_whitespace, is_ws, lines, push_char, replace_all, replaced, strip_prefix, text_lines,
    words, words_from,
};

verus! {

broadcast use vstd::string::group_string_axioms;

/// A character that makes the shell treat a word specially: white space and `#` among them.
pub open spec fn is_shell_special(c: char) -> bool {
    is_ws(c) || c == '#' || c == ' ' || c == '"' || c == '\'' || c == '\\' || c == '$' || c == '`' || c == '!' || c
        == '*' || c == '?' || c == '[' || c == ']' || c == '(' || c == ')' || c == '{' || c
        == '}' || c == '|' || c == '&' || c == ';' || c == '<' || c == '>' || c == '~'
}

/// `s` must be quoted to be read as one word: it is empty, or holds a character that the
/// shell treats specially.
pub open spec fn needs_quoting(s: Seq<char>) -> bool {
    s.len() == 0 || exists|i: int| 0 <= i < s.len() && is_shell_special(s[i])
}

/// The shell word for `s`: `s` itself where it is not empty and no character is special,
/// else `s` inside single quotes (`''` for the empty string), each single quote of `s` written
/// as `'\''`.
pub open spec fn shell_word(s: Seq<char>) -> Seq<char> {
    if needs_quoting(s) {
        seq!['\''] + replaced(s, seq!['\''], seq!['\'', '\\', '\'', '\'']) + seq!['\'']
    } else {
        s
    }
}

/// Whether the shell treats `c` specially.
pub fn shell_special(c: char) -> (r: bool)
    ensures
        r == is_shell_special(c),
{
    is_whitespace(c) || c == '#' || c == ' ' || c == '"' || c == '\'' || c == '\\' || c == '$' || c == '`' || c == '!' || c
        == '*' || c == '?' || c == '[' || c == ']' || c == '(' || c == ')' || c == '{' || c
        == '}' || c == '|' || c == '&' || c == ';' || c == '<' || c == '>' || c == '~'
}

/// `s` as one shell word: unchanged where it is not empty and holds no special character,
/// else single-quoted with its single quotes written as `'\''`.
pub fn shell_escape(s: &str) -> (r: String)
    ensures
        r@ == shell_word(s@),
{
    let v = chars_of(s);
    let mut i: usize = 0;
    let mut special = v.len() == 0;
    while i < v.len()
        invariant
            v@ == s@,
            i <= v.len(),
            special == (s@.len() == 0 || exists|j: int| 0 <= j < i && is_shell_special(s@[j])),
        decreases v.len() - i,
    {
        if shell_special(v[i]) {
            special = true;
        }
        i += 1;
    }
    if special {
        let q = "'";
        let qq = "'\\''";
        proof {
            reveal_strlit("'");
            reveal_strlit("'\\''");
            assert(q@ =~= seq!['\'']);
            assert(qq@ =~= seq!['\'', '\\', '\'', '\'']);
        }
        let body = replace_all(s, q, qq);
        let mut r = String::from_str(q);
        r.append(body.as_str());
        r.append(q);
        r
    } else {
        String::from_str(s)
    }
}

/// Reading a response file from the rest `s`, with the word `cur` begun, inside single quotes
/// where `sq` holds and inside double quotes where `dq` holds. A backslash takes the next
/// character literally; quotes of one kind are literal inside quotes of the other kind;
/// white space outside quotes ends a word; empty words are dropped.
pub open spec fn response_from(s: Seq<char>, cur: Seq<char>, sq: bool, dq: bool) -> Seq<
    Seq<char>,
>
    decreases s.len(),
{
    if s.len() == 0 {
        if cur.len() > 0 {
            seq![cur]
        } else {
            Seq::empty()
        }
    } else {
        let c = s[0];
        if c == '\\' {
            if s.len() >= 2 {
                response_from(s.skip(2), cur.push(s[1]), sq, dq)
            } else {
                response_from(s.skip(1), cur.push(c), sq, dq)
            }
        } else if c == '\'' && !dq {
            response_from(s.skip(1), cur, !sq, dq)
        } else if c == '"' && !sq {
            response_from(s.skip(1), cur, sq, !dq)
        } else if is_ws(c) && !sq && !dq {
            (if cur.len() > 0 {
                seq![cur]
            } else {
                Seq::empty()
            }) + response_from(s.skip(1), Seq::empty(), sq, dq)
        } else {
            response_from(s.skip(1), cur.push(c), sq, dq)
        }
    }
}

/// The arguments that the text `s` of a response file holds.
pub open spec fn response_args(s: Seq<char>) -> Seq<Seq<char>> {
    response_from(s, Seq::empty(), false, false)
}

/// The arguments that the text of a response file holds: words separated by white space,
/// with single and double quotes and backslash escapes.
pub fn split_response_args(content: &str) -> (r: Vec<String>)
    ensures
        r.deep_view() == response_args(content@),
{
    let v = chars_of(content);
    let mut args: Vec<String> = Vec::new();
    let mut current = String::new();
    let mut current_len: usize = 0;
    let mut in_single = false;
    let mut in_double = false;
    let mut i: usize = 0;
    assert(content@.skip(0) =~= content@);
    assert(args.deep_view() + response_args(content@) =~= response_args(content@));
    while i < v.len()
        invariant
            v@ == content@,
            i <= v.len(),
            current_len == current@.len() <= i,
            args.deep_view() + response_from(content@.skip(i as int), current@, in_single, in_double)
                == response_args(content@),
        decreases v.len() - i,
    {
        let ghost rest = content@.skip(i as int);
        let ch = v[i];
        if ch == '\\' {
            if i + 1 < v.len() {
                assert(rest.skip(2) =~= content@.skip(i + 2));
                push_char(&mut current, v[i + 1]);
                current_len += 1;
                i += 2;
            } else {
                assert(rest.skip(1) =~= content@.skip(i + 1));
                push_char(&mut current, ch);
                current_len += 1;
                i += 1;
            }
        } else if ch == '\'' && !in_double {
            assert(rest.skip(1) =~= content@.skip(i + 1));
            in_single = !in_single;
            i += 1;
        } else if ch == '"' && !in_single {
            assert(rest.skip(1) =~= content@.skip(i + 1));
            in_double = !in_double;
            i += 1;
        } else if is_whitespace(ch) && !in_single && !in_double {
            assert(rest.skip(1) =~= content@.skip(i + 1));
            let ghost old_args = args.deep_view();
            let ghost old_cur = current@;
            if current_len > 0 {
                args.push(current);
                current = String::new();
                current_len = 0;
                assert(args.deep_view() =~= old_args.push(old_cur));
                assert(old_args + (seq![old_cur] + response_from(
                    content@.skip(i + 1),
                    Seq::empty(),
                    in_single,
                    in_double,
                )) =~= args.deep_view() + response_from(
                    content@.skip(i + 1),
                    current@,
                    in_single,
                    in_double,
                ));
            } else {
                assert(current@ =~= Seq::<char>::empty());
                assert(Seq::<Seq<char>>::empty() + response_from(
                    content@.skip(i + 1),
                    Seq::empty(),
                    in_single,
                    in_double,
                ) =~= response_from(content@.skip(i + 1), Seq::empty(), in_single, in_double));
            }
            i += 1;
        } else {
            assert(rest.skip(1) =~= content@.skip(i + 1));
            push_char(&mut current, ch);
            current_len += 1;
            i += 1;
        }
    }
    assert(content@.skip(i as int) =~= Seq::<char>::empty());
    if current_len > 0 {
        let ghost old_args = args.deep_view();
        let ghost old_cur = current@;
        args.push(current);
        assert(args.deep_view() =~= old_args.push(old_cur));
        assert(old_args + response_from(content@.skip(i as int), old_cur, in_single, in_double)
            =~= args.deep_view());
    } else {
        assert(args.deep_view() + response_from(
            content@.skip(i as int),
            current@,
            in_single,
            in_double,
        ) =~= args.deep_view());
    }
    args
}

/// The file that a response-file argument `@path` names.
pub fn response_file_path(arg: &str) -> (r: Option<String>)
    ensures
        r is Some <==> "@"@.is_prefix_of(arg@),
        r matches Some(p) ==> arg@ == "@"@ + p@,
{
    strip_prefix(arg, "@")
}

/// The lines of `ls` that are not empty, in their order.
pub open spec fn nonempty_lines(ls: Seq<Seq<char>>) -> Seq<Seq<char>>
    decreases ls.len(),
{
    if ls.len() == 0 {
        Seq::empty()
    } else if ls.last().len() > 0 {
        nonempty_lines(ls.drop_last()).push(ls.last())
    } else {
        nonempty_lines(ls.drop_last())
    }
}

/// The arguments that the text `c` of a response file holds: one per line (as `str::lines`
/// splits it), empty lines holding none.
pub open spec fn argument_lines(c: Seq<char>) -> Seq<Seq<char>> {
    nonempty_lines(text_lines(c))
}

/// The arguments that the text of a response file holds, one per non-empty line.
pub fn response_file_arguments(content: &str) -> (r: Vec<String>)
    ensures
        r.deep_view() == argument_lines(content@),
{
    let ls = lines(content);
    let ghost lv = ls.deep_view();
    let mut out: Vec<String> = Vec::new();
    let mut i: usize = 0;
    assert(out.deep_view() =~= nonempty_lines(lv.take(0)));
    while i < ls.len()
        invariant
            lv == ls.deep_view(),
            lv == text_lines(content@),
            i <= ls.len(),
            out.deep_view() == nonempty_lines(lv.take(i as int)),
        decreases ls.len() - i,
    {
        let l = ls[i].as_str();
        assert(l@ == lv[i as int]);
        assert(lv.take(i + 1).drop_last() =~= lv.take(i as int));
        assert(lv.take(i + 1).last() == l@);
        if l.unicode_len() > 0 {
            let ghost before = out.deep_view();
            out.push(ls[i].clone());
            assert(out.deep_view() =~= before.push(l@));
        }
        i += 1;
    }
    assert(lv.take(i as int) =~= lv);
    out
}

/// What the argument `a` stands for, `c` being the text of the file it names where it is a
/// response-file argument whose file could be read: the file's arguments, one per line.
pub open spec fn expansion_of(a: Seq<char>, c: Option<Seq<char>>) -> Seq<Seq<char>> {
    if "@"@.is_prefix_of(a) && c is Some {
        argument_lines(c->0)
    } else {
        seq![a]
    }
}

/// The arguments `args` with each readable response-file argument replaced by the arguments
/// of its file.
pub open spec fn expanded(args: Seq<Seq<char>>, contents: Seq<Option<Seq<char>>>) -> Seq<
    Seq<char>,
>
    decreases args.len(),
{
    if args.len() == 0 {
        Seq::empty()
    } else {
        expanded(args.drop_last(), contents.drop_last()) + expansion_of(
            args.last(),
            contents.last(),
        )
    }
}

/// `args` with each `@file` argument replaced by the arguments that its file holds, one per
/// non-empty line.
/// `contents[i]` is the text of the file that `args[i]` names, or `None` where it is no
/// `@file` argument or its file could not be read; such an argument is kept as it is.
pub fn expand_at_file_args(args: &Vec<String>, contents: &Vec<Option<String>>) -> (r: Vec<String>)
    requires
        contents.len() == args.len(),
    ensures
        r.deep_view() == expanded(args.deep_view(), contents.deep_view()),
        (forall|i: int| 0 <= i < args.len() ==> !"@"@.is_prefix_of(#[trigger] args.deep_view()[i]))
            ==> r.deep_view() == args.deep_view(),
{
    let ghost av = args.deep_view();
    let ghost cv = contents.deep_view();
    let mut out: Vec<String> = Vec::new();
    let mut i: usize = 0;
    while i < args.len()
        invariant
            contents.len() == args.len(),
            av == args.deep_view(),
            cv == contents.deep_view(),
            i <= args.len(),
            out.deep_view() == expanded(av.take(i as int), cv.take(i as int)),
            (forall|j: int| 0 <= j < args.len() ==> !"@"@.is_prefix_of(#[trigger] av[j]))
                ==> out.deep_view() == av.take(i as int),
        decreases args.len() - i,
    {
        assert(av.take(i + 1).drop_last() =~= av.take(i as int));
        assert(cv.take(i + 1).drop_last() =~= cv.take(i as int));
        let a = args[i].as_str();
        let is_at = response_file_path(a).is_some();
        let ghost old_out = out.deep_view();
        match &contents[i] {
            Some(text) if is_at => {
                let words = response_file_arguments(text.as_str());
                let mut k: usize = 0;
                while k < words.len()
                    invariant
                        k <= words.len(),
                        out.deep_view() == old_out + words.deep_view().take(k as int),
                    decreases words.len() - k,
                {
                    let ghost before = out.deep_view();
                    out.push(words[k].clone());
                    assert(out.deep_view() =~= before.push(words.deep_view()[k as int]));
                    assert(words.deep_view().take(k + 1) =~= words.deep_view().take(k as int).push(
                        words.deep_view()[k as int],
                    ));
                    k += 1;
                }
                assert(words.deep_view().take(k as int) =~= words.deep_view());
            },
            _ => {
                out.push(args[i].clone());
                assert(out.deep_view() =~= old_out + seq![av[i as int]]);
            },
        }
        proof {
            assert(av.take(i + 1).last() == av[i as int]);
            assert(cv.take(i + 1).last() == cv[i as int]);
            if forall|j: int| 0 <= j < args.len() ==> !"@"@.is_prefix_of(#[trigger] av[j]) {
                assert(!"@"@.is_prefix_of(av[i as int]));
                assert(out.deep_view() =~= av.take(i + 1));
            }
        }
        i += 1;
    }
    assert(av.take(i as int) =~= av);
    assert(cv.take(i as int) =~= cv);
    out
}

/// A word that `shell_escape` writes in a form that `split_response_args` reads back: it is
/// not empty and holds no backslash (which that reader takes as an escape even inside single
/// quotes).
pub open spec fn reads_back(w: Seq<char>) -> bool {
    &&& w.len() > 0
    &&& !w.contains('\\')
}

proof fn lemma_plain_run(s: Seq<char>, rest: Seq<char>, cur: Seq<char>)
    requires
        forall|i: int| 0 <= i < s.len() ==> !is_shell_special(s[i]) && !is_ws(s[i]),
    ensures
        response_from(s + rest, cur, false, false) == response_from(rest, cur + s, false, false),
    decreases s.len(),
{
    if s.len() == 0 {
        assert(s + rest =~= rest);
        assert(cur + s =~= cur);
    } else {
        assert(!is_shell_special(s[0]));
        assert((s + rest).skip(1) =~= s.skip(1) + rest);
        assert(cur.push(s[0]) + s.skip(1) =~= cur + s);
        lemma_plain_run(s.skip(1), rest, cur.push(s[0]));
    }
}

proof fn lemma_quoted_body(s: Seq<char>, rest: Seq<char>, cur: Seq<char>)
    requires
        !s.contains('\\'),
    ensures
        response_from(
            replaced(s, seq!['\''], seq!['\'', '\\', '\'', '\'']) + seq!['\''] + rest,
            cur,
            true,
            false,
        ) == response_from(rest, cur + s, false, false),
    decreases s.len(),
{
    let q = seq!['\''];
    let qq = seq!['\'', '\\', '\'', '\''];
    if s.len() == 0 {
        assert(replaced(s, q, qq) == s);
        assert(replaced(s, q, qq) + q + rest =~= q + rest);
        assert((q + rest).skip(1) =~= rest);
        assert(cur + s =~= cur);
    } else {
        let t = s.skip(1);
        assert forall|i: int| 0 <= i < t.len() implies t[i] != '\\' by {
            assert(t[i] == s[i + 1]);
        }
        assert(!t.contains('\\'));
        lemma_quoted_body(t, rest, if s[0] == '\'' { cur.push('\'') } else { cur.push(s[0]) });
        assert(s[0] != '\\') by {
            if s[0] == '\\' {
                assert(s.contains('\\'));
            }
        }
        if q.is_prefix_of(s) {
            assert(s.subrange(0, 1)[0] == s[0]);
            assert(s[0] == '\'');
            assert(s.skip(q.len() as int) =~= t);
            let x = qq + replaced(t, q, qq) + q + rest;
            assert(replaced(s, q, qq) + q + rest =~= x);
            let x1 = x.skip(1);
            let x2 = x1.skip(2);
            let x3 = x2.skip(1);
            assert(x1 =~= seq!['\\', '\'', '\''] + replaced(t, q, qq) + q + rest);
            assert(x2 =~= seq!['\''] + replaced(t, q, qq) + q + rest);
            assert(x3 =~= replaced(t, q, qq) + q + rest);
            assert(x[0] == '\'');
            assert(response_from(x, cur, true, false) == response_from(x1, cur, false, false));
            assert(x1[0] == '\\' && x1[1] == '\'');
            assert(response_from(x1, cur, false, false) == response_from(
                x2,
                cur.push('\''),
                false,
                false,
            ));
            assert(x2[0] == '\'');
            assert(response_from(x2, cur.push('\''), false, false) == response_from(
                x3,
                cur.push('\''),
                true,
                false,
            ));
            assert(cur.push('\'') + t =~= cur + s);
        } else {
            assert(s[0] != '\'') by {
                if s[0] == '\'' {
                    assert(s.subrange(0, 1) =~= q);
                }
            }
            let x = seq![s[0]] + replaced(t, q, qq) + q + rest;
            assert(replaced(s, q, qq) + q + rest =~= x);
            assert(x.skip(1) =~= replaced(t, q, qq) + q + rest);
            assert(x[0] == s[0]);
            assert(response_from(x, cur, true, false) == response_from(
                x.skip(1),
                cur.push(s[0]),
                true,
                false,
            ));
            assert(cur.push(s[0]) + t =~= cur + s);
        }
    }
}

/// Reading the shell word of `w` followed by more text adds `w` to the word being read.
pub proof fn lemma_word_reads_back(w: Seq<char>, rest: Seq<char>, cur: Seq<char>)
    requires
        reads_back(w),
    ensures
        response_from(shell_word(w) + rest, cur, false, false) == response_from(
            rest,
            cur + w,
            false,
            false,
        ),
{
    let q = seq!['\''];
    let qq = seq!['\'', '\\', '\'', '\''];
    if needs_quoting(w) {
        let x = q + replaced(w, q, qq) + q + rest;
        assert(shell_word(w) + rest =~= x);
        assert(x.skip(1) =~= replaced(w, q, qq) + q + rest);
        lemma_quoted_body(w, rest, cur);
    } else {
        assert forall|i: int| 0 <= i < w.len() implies !is_shell_special(w[i]) && !is_ws(w[i]) by {
            if is_shell_special(w[i]) {
                assert(needs_quoting(w));
            }
        }
        lemma_plain_run(w, rest, cur);
    }
}

/// `parts` joined with `sep`, seen from the front.
proof fn lemma_joined_front(parts: Seq<Seq<char>>, sep: Seq<char>)
    requires
        parts.len() >= 2,
    ensures
        crate::text::joined(parts, sep) == parts[0] + sep + crate::text::joined(parts.skip(1), sep),
    decreases parts.len(),
{
    let dl = parts.drop_last();
    let tl = parts.skip(1);
    assert(crate::text::joined(parts, sep) == crate::text::joined(dl, sep) + sep + parts.last());
    if parts.len() == 2 {
        assert(dl.len() == 1);
        assert(crate::text::joined(dl, sep) == dl[0]);
        assert(tl.len() == 1);
        assert(crate::text::joined(tl, sep) == tl[0]);
    } else {
        lemma_joined_front(dl, sep);
        assert(dl.skip(1) =~= tl.drop_last());
        assert(crate::text::joined(tl, sep) == crate::text::joined(tl.drop_last(), sep) + sep
            + tl.last());
        assert(dl[0] == parts[0]);
        assert(tl.last() == parts.last());
        assert(crate::text::joined(dl, sep) + sep + parts.last() =~= parts[0] + sep + (
        crate::text::joined(tl.drop_last(), sep) + sep + tl.last()));
    }
}

/// The shell words of `ws`.
pub open spec fn shell_words(ws: Seq<Seq<char>>) -> Seq<Seq<char>> {
    ws.map_values(|w: Seq<char>| shell_word(w))
}

/// A command line written as the shell words of `ws`, separated by single spaces, reads back
/// through `split_response_args` as `ws`, where every word is one that reads back.
pub proof fn lemma_escaped_command_line_reads_back(ws: Seq<Seq<char>>)
    requires
        forall|i: int| 0 <= i < ws.len() ==> reads_back(#[trigger] ws[i]),
    ensures
        response_args(crate::text::joined(shell_words(ws), seq![' '])) == ws,
    decreases ws.len(),
{
    let e = shell_words(ws);
    let sp = seq![' '];
    if ws.len() == 0 {
        assert(crate::text::joined(e, sp) == Seq::<char>::empty());
        assert(response_args(Seq::<char>::empty()) =~= ws);
    } else if ws.len() == 1 {
        assert(crate::text::joined(e, sp) == e[0]);
        assert(e[0] + Seq::<char>::empty() =~= e[0]);
        lemma_word_reads_back(ws[0], Seq::empty(), Seq::empty());
        assert(Seq::<char>::empty() + ws[0] =~= ws[0]);
        assert(response_args(crate::text::joined(e, sp)) =~= ws);
    } else {
        lemma_joined_front(e, sp);
        let tail = ws.skip(1);
        assert forall|i: int| 0 <= i < tail.len() implies reads_back(#[trigger] tail[i]) by {
            assert(tail[i] == ws[i + 1]);
        }
        lemma_escaped_command_line_reads_back(tail);
        assert(e.skip(1) =~= shell_words(tail));
        let jt = crate::text::joined(e.skip(1), sp);
        assert(e[0] + sp + jt =~= e[0] + (sp + jt));
        lemma_word_reads_back(ws[0], sp + jt, Seq::empty());
        assert(Seq::<char>::empty() + ws[0] =~= ws[0]);
        assert((sp + jt).skip(1) =~= jt);
        assert(is_ws(' '));
        assert(response_from(sp + jt, ws[0], false, false) == seq![ws[0]] + response_from(
            jt,
            Seq::empty(),
            false,
            false,
        ));
        assert(seq![ws[0]] + tail =~= ws);
    }
}

/// Reading a response file from `s` with the word `cur` begun, outside quotes, is splitting
/// at white space, where `s` holds no quote and no backslash.
proof fn lemma_response_from_words(s: Seq<char>, cur: Seq<char>)
    requires
        forall|i: int| 0 <= i < s.len() ==> s[i] != '\'' && s[i] != '"' && s[i] != '\\',
    ensures
        response_from(s, cur, false, false) == words_from(s, cur),
    decreases s.len(),
{
    if s.len() > 0 {
        let t = s.skip(1);
        assert forall|i: int| 0 <= i < t.len() implies t[i] != '\'' && t[i] != '"' && t[i] != '\\' by {
            assert(t[i] == s[i + 1]);
        }
        assert(s[0] != '\'' && s[0] != '"' && s[0] != '\\');
        if is_ws(s[0]) {
            lemma_response_from_words(t, Seq::empty());
        } else {
            lemma_response_from_words(t, cur.push(s[0]));
        }
    }
}

/// Text without quotes or backslashes reads, as a response file, exactly as
/// `split_whitespace` splits it: no word is empty and none holds white space.
pub proof fn lemma_plain_response_is_words(s: Seq<char>)
    requires
        !s.contains('\''),
        !s.contains('"'),
        !s.contains('\\'),
    ensures
        response_args(s) == words(s),
{
    assert forall|i: int| 0 <= i < s.len() implies s[i] != '\'' && s[i] != '"' && s[i] != '\\' by {
        if s[i] == '\'' {
            assert(s.contains('\''));
        }
        if s[i] == '"' {
            assert(s.contains('"'));
        }
        if s[i] == '\\' {
            assert(s.contains('\\'));
        }
    }
    lemma_response_from_words(s, Seq::empty());
}

/// A character that separates words for a POSIX shell outside quotes: space, tab, newline.
pub open spec fn is_blank(c: char) -> bool {
    c == ' ' || c == '\t' || c == '\n'
}

/// How a POSIX shell reads the text `s` into words, the word `cur` begun (`started` telling
/// whether a word has begun, which a quote does even when nothing follows it), inside single
/// quotes where `sq` holds. Blanks outside quotes end a word; inside single quotes every
/// character is literal up to the closing quote; a backslash outside quotes takes the next
/// character literally. Where the shell would do more than that (an unterminated quote, a
/// line continuation, or an unquoted character that it expands, redirects on, treats as an
/// operator or a comment, or quotes otherwise), the reading is `None`: this model does not
/// follow it.
pub open spec fn posix_from(s: Seq<char>, cur: Seq<char>, started: bool, sq: bool) -> Option<
    Seq<Seq<char>>,
>
    decreases s.len(),
{
    if s.len() == 0 {
        if sq {
            None
        } else if started {
            Some(seq![cur])
        } else {
            Some(Seq::empty())
        }
    } else {
        let c = s[0];
        if sq {
            if c == '\'' {
                posix_from(s.skip(1), cur, true, false)
            } else {
                posix_from(s.skip(1), cur.push(c), true, true)
            }
        } else if c == '\'' {
            posix_from(s.skip(1), cur, true, true)
        } else if c == '\\' {
            if s.len() >= 2 && s[1] != '\n' {
                posix_from(s.skip(2), cur.push(s[1]), true, false)
            } else {
                None
            }
        } else if is_blank(c) {
            match posix_from(s.skip(1), Seq::empty(), false, false) {
                Some(r) => Some(
                    (if started {
                        seq![cur]
                    } else {
                        Seq::empty()
                    }) + r,
                ),
                None => None,
            }
        } else if is_shell_special(c) {
            None
        } else {
            posix_from(s.skip(1), cur.push(c), true, false)
        }
    }
}

/// The words that a POSIX shell reads from the text `s` (see [`posix_from`]).
pub open spec fn posix_words(s: Seq<char>) -> Option<Seq<Seq<char>>> {
    posix_from(s, Seq::empty(), false, false)
}

/// Reading a run of ordinary characters adds them to the word.
proof fn lemma_posix_plain(w: Seq<char>, rest: Seq<char>, cur: Seq<char>, started: bool)
    requires
        forall|i: int| 0 <= i < w.len() ==> !is_shell_special(w[i]),
    ensures
        posix_from(w + rest, cur, started, false) == posix_from(
            rest,
            cur + w,
            started || w.len() > 0,
            false,
        ),
    decreases w.len(),
{
    if w.len() == 0 {
        assert(w + rest =~= rest);
        assert(cur + w =~= cur);
    } else {
        let c = w[0];
        assert(!is_shell_special(c));
        assert(c != '\'' && c != '\\' && !is_blank(c));
        assert((w + rest)[0] == c);
        assert((w + rest).skip(1) =~= w.skip(1) + rest);
        assert(cur.push(c) + w.skip(1) =~= cur + w);
        lemma_posix_plain(w.skip(1), rest, cur.push(c), true);
    }
}

/// Reading the body of a single-quoted shell word, up to and with its closing quote, adds the
/// quoted text to the word.
proof fn lemma_posix_quoted_body(s: Seq<char>, rest: Seq<char>, cur: Seq<char>)
    ensures
        posix_from(
            replaced(s, seq!['\''], seq!['\'', '\\', '\'', '\'']) + seq!['\''] + rest,
            cur,
            true,
            true,
        ) == posix_from(rest, cur + s, true, false),
    decreases s.len(),
{
    let q = seq!['\''];
    let qq = seq!['\'', '\\', '\'', '\''];
    if s.len() == 0 {
        assert(replaced(s, q, qq) == s);
        assert(replaced(s, q, qq) + q + rest =~= q + rest);
        assert((q + rest).skip(1) =~= rest);
        assert(cur + s =~= cur);
    } else {
        let t = s.skip(1);
        if q.is_prefix_of(s) {
            assert(s.subrange(0, 1)[0] == s[0]);
            assert(s[0] == '\'');
            assert(s.skip(q.len() as int) =~= t);
            lemma_posix_quoted_body(t, rest, cur.push('\''));
            let x = qq + replaced(t, q, qq) + q + rest;
            assert(replaced(s, q, qq) + q + rest =~= x);
            let x1 = x.skip(1);
            let x2 = x1.skip(2);
            let x3 = x2.skip(1);
            assert(x1 =~= seq!['\\', '\'', '\''] + replaced(t, q, qq) + q + rest);
            assert(x2 =~= seq!['\''] + replaced(t, q, qq) + q + rest);
            assert(x3 =~= replaced(t, q, qq) + q + rest);
            assert(x[0] == '\'');
            assert(posix_from(x, cur, true, true) == posix_from(x1, cur, true, false));
            assert(x1[0] == '\\' && x1[1] == '\'');
            assert(posix_from(x1, cur, true, false) == posix_from(x2, cur.push('\''), true, false));
            assert(x2[0] == '\'');
            assert(posix_from(x2, cur.push('\''), true, false) == posix_from(
                x3,
                cur.push('\''),
                true,
                true,
            ));
            assert(cur.push('\'') + t =~= cur + s);
        } else {
            assert(s[0] != '\'') by {
                if s[0] == '\'' {
                    assert(s.subrange(0, 1) =~= q);
                }
            }
            lemma_posix_quoted_body(t, rest, cur.push(s[0]));
            let x = seq![s[0]] + replaced(t, q, qq) + q + rest;
            assert(replaced(s, q, qq) + q + rest =~= x);
            assert(x.skip(1) =~= replaced(t, q, qq) + q + rest);
            assert(x[0] == s[0]);
            assert(cur.push(s[0]) + t =~= cur + s);
        }
    }
}

/// Reading the shell word of `w`, followed by more text, adds `w` to the word and begins it.
pub proof fn lemma_posix_word(w: Seq<char>, rest: Seq<char>, cur: Seq<char>, started: bool)
    ensures
        posix_from(shell_word(w) + rest, cur, started, false) == posix_from(
            rest,
            cur + w,
            true,
            false,
        ),
{
    let q = seq!['\''];
    let qq = seq!['\'', '\\', '\'', '\''];
    if needs_quoting(w) {
        let x = q + replaced(w, q, qq) + q + rest;
        assert(shell_word(w) + rest =~= x);
        assert(x.skip(1) =~= replaced(w, q, qq) + q + rest);
        assert(x[0] == '\'');
        lemma_posix_quoted_body(w, rest, cur);
    } else {
        assert forall|i: int| 0 <= i < w.len() implies !is_shell_special(w[i]) by {
            if is_shell_special(w[i]) {
                assert(needs_quoting(w));
            }
        }
        lemma_posix_plain(w, rest, cur, started);
    }
}

/// A POSIX shell reads the output of `shell_escape` back as exactly one word, equal to the
/// input, for every input, the empty string included.
pub proof fn lemma_shell_word_reads_back(s: Seq<char>)
    ensures
        posix_words(shell_word(s)) == Some(seq![s]),
{
    lemma_posix_word(s, Seq::empty(), Seq::empty(), false);
    assert(shell_word(s) + Seq::<char>::empty() =~= shell_word(s));
    assert(Seq::<char>::empty() + s =~= s);
}

/// A POSIX shell reads a command line of shell words separated by single spaces back as the
/// words, for any words.
pub proof fn lemma_shell_command_line_reads_back(ws: Seq<Seq<char>>)
    ensures
        posix_words(crate::text::joined(shell_words(ws), seq![' '])) == Some(ws),
    decreases ws.len(),
{
    let e = shell_words(ws);
    let sp = seq![' '];
    if ws.len() == 0 {
        assert(crate::text::joined(e, sp) == Seq::<char>::empty());
        assert(Seq::<Seq<char>>::empty() =~= ws);
    } else if ws.len() == 1 {
        assert(crate::text::joined(e, sp) == e[0]);
        lemma_shell_word_reads_back(ws[0]);
        assert(seq![ws[0]] =~= ws);
    } else {
        lemma_joined_front(e, sp);
        let tail = ws.skip(1);
        lemma_shell_command_line_reads_back(tail);
        assert(e.skip(1) =~= shell_words(tail));
        let jt = crate::text::joined(e.skip(1), sp);
        assert(e[0] + sp + jt =~= e[0] + (sp + jt));
        lemma_posix_word(ws[0], sp + jt, Seq::empty(), false);
        assert(Seq::<char>::empty() + ws[0] =~= ws[0]);
        assert((sp + jt).skip(1) =~= jt);
        assert(is_blank(' '));
        assert(posix_from(sp + jt, ws[0], true, false) == Some(seq![ws[0]] + tail));
        assert(seq![ws[0]] + tail =~= ws);
    }
}

} // verus!
