//! Character-level helpers on strings, stated over `Seq<char>`.
use vstd::prelude::*;

verus! {

broadcast use vstd::string::group_string_axioms;

/// `c` has the Unicode `White_Space` property, as `char::is_whitespace` tests it.
pub open spec fn is_ws(c: char) -> bool {
    ||| ('\u{9}' <= c && c <= '\u{d}')
    ||| c == ' '
    ||| c == '\u{85}'
    ||| c == '\u{a0}'
    ||| c == '\u{1680}'
    ||| ('\u{2000}' <= c && c <= '\u{200a}')
    ||| c == '\u{2028}'
    ||| c == '\u{2029}'
    ||| c == '\u{202f}'
    ||| c == '\u{205f}'
    ||| c == '\u{3000}'
}

/// Whether `c` is a white-space character.
pub fn is_whitespace(c: char) -> (r: bool)
    ensures
        r == is_ws(c),
{
    ('\u{9}' <= c && c <= '\u{d}') || c == ' ' || c == '\u{85}' || c == '\u{a0}' || c == '\u{1680}'
        || ('\u{2000}' <= c && c <= '\u{200a}') || c == '\u{2028}' || c == '\u{2029}' || c
        == '\u{202f}' || c == '\u{205f}' || c == '\u{3000}'
}

/// Appends `c` to `s` with `String::push`, which appends the given character to the
/// end of the string.
#[verifier::external_body]
pub(crate) fn push_char(s: &mut String, c: char)
    ensures
        final(s)@ == old(s)@.push(c),
{
    s.push(c);
}

/// Appends `s` to `v`.
pub fn push_string(v: &mut Vec<String>, s: String)
    ensures
        final(v).deep_view() == old(v).deep_view().push(s@),
{
    let ghost old_v = v.deep_view();
    v.push(s);
    assert(v.deep_view() =~= old_v.push(s@));
}

/// The characters of `s`, in order.
pub fn chars_of(s: &str) -> (v: Vec<char>)
    ensures
        v@ == s@,
{
    let mut v: Vec<char> = Vec::new();
    for c in it: s.chars()
        invariant
            v@ == it.seq().take(it.index() as int),
            it.seq() == s@,
    {
        v.push(c);
    }
    v
}

/// The string made of the characters `v[from..to]`.
pub fn string_of_range(v: &Vec<char>, from: usize, to: usize) -> (s: String)
    requires
        from <= to <= v.len(),
    ensures
        s@ == v@.subrange(from as int, to as int),
{
    let mut s = String::new();
    let mut i = from;
    while i < to
        invariant
            from <= i <= to <= v.len(),
            s@ == v@.subrange(from as int, i as int),
        decreases to - i,
    {
        push_char(&mut s, v[i]);
        i += 1;
        assert(s@ =~= v@.subrange(from as int, i as int));
    }
    s
}

/// The string made of the characters of `v`.
pub fn string_of(v: &Vec<char>) -> (s: String)
    ensures
        s@ == v@,
{
    let s = string_of_range(v, 0, v.len());
    assert(v@.subrange(0, v@.len() as int) =~= v@);
    s
}

/// An owned copy of `s`.
pub fn owned(s: &str) -> (r: String)
    ensures
        r@ == s@,
{
    String::from_str(s)
}

/// `a` and `b` hold the same characters.
pub fn str_eq(a: &str, b: &str) -> (r: bool)
    ensures
        r == (a@ == b@),
{
    let va = chars_of(a);
    let vb = chars_of(b);
    if va.len() != vb.len() {
        return false;
    }
    let mut i: usize = 0;
    while i < va.len()
        invariant
            va@ == a@,
            vb@ == b@,
            va.len() == vb.len(),
            i <= va.len(),
            forall|j: int| 0 <= j < i ==> va@[j] == vb@[j],
        decreases va.len() - i,
    {
        if va[i] != vb[i] {
            return false;
        }
        i += 1;
    }
    assert(va@ =~= vb@);
    true
}

/// `p` occurs in `s` at position `i`.
pub open spec fn occurs_at(s: Seq<char>, p: Seq<char>, i: int) -> bool {
    0 <= i && i + p.len() <= s.len() && s.subrange(i, i + p.len()) == p
}

/// `p` occurs somewhere in `s`.
pub open spec fn contains_seq(s: Seq<char>, p: Seq<char>) -> bool {
    exists|i: int| occurs_at(s, p, i)
}

/// Whether `p` occurs in `s` at position `i`.
pub fn matches_at(s: &Vec<char>, p: &Vec<char>, i: usize) -> (r: bool)
    ensures
        r == occurs_at(s@, p@, i as int),
{
    if i > s.len() || p.len() > s.len() - i {
        return false;
    }
    let mut j: usize = 0;
    while j < p.len()
        invariant
            i + p.len() <= s.len(),
            j <= p.len(),
            forall|k: int| 0 <= k < j ==> s@[i + k] == p@[k],
        decreases p.len() - j,
    {
        if s[i + j] != p[j] {
            assert(s@.subrange(i as int, i + p.len())[j as int] != p@[j as int]);
            return false;
        }
        j += 1;
    }
    assert(s@.subrange(i as int, i + p.len()) =~= p@);
    true
}

/// Whether `s` begins with `p`.
pub fn starts_with(s: &str, p: &str) -> (r: bool)
    ensures
        r == p@.is_prefix_of(s@),
{
    let vs = chars_of(s);
    let vp = chars_of(p);
    let r = matches_at(&vs, &vp, 0);
    proof {
        if p@.is_prefix_of(s@) {
            assert(s@.subrange(0, p@.len() as int) =~= p@);
        }
    }
    r
}

/// Whether `s` ends with `p`.
pub fn ends_with(s: &str, p: &str) -> (r: bool)
    ensures
        r == p@.is_suffix_of(s@),
{
    let vs = chars_of(s);
    let vp = chars_of(p);
    if vp.len() > vs.len() {
        return false;
    }
    let r = matches_at(&vs, &vp, vs.len() - vp.len());
    proof {
        if p@.is_suffix_of(s@) {
            assert(s@.subrange(s@.len() - p@.len(), s@.len() as int) =~= p@);
        }
    }
    r
}

/// Whether the character `c` occurs in `s`.
pub fn contains_char(s: &str, c: char) -> (r: bool)
    ensures
        r == s@.contains(c),
{
    let v = chars_of(s);
    let mut i: usize = 0;
    while i < v.len()
        invariant
            v@ == s@,
            i <= v.len(),
            forall|j: int| 0 <= j < i ==> v@[j] != c,
        decreases v.len() - i,
    {
        if v[i] == c {
            assert(s@[i as int] == c);
            return true;
        }
        i += 1;
    }
    false
}

/// The first position at which `p` occurs in `v`, if any.
pub fn find_in(v: &Vec<char>, p: &Vec<char>) -> (r: Option<usize>)
    ensures
        r is None <==> !contains_seq(v@, p@),
        r matches Some(i) ==> occurs_at(v@, p@, i as int) && forall|j: int|
            0 <= j < i ==> !occurs_at(v@, p@, j),
{
    if p.len() > v.len() {
        return None;
    }
    let top = v.len() - p.len();
    let mut i: usize = 0;
    loop
        invariant
            top == v.len() - p.len(),
            i <= top,
            forall|j: int| 0 <= j < i ==> !occurs_at(v@, p@, j),
        decreases top - i,
    {
        if matches_at(v, p, i) {
            return Some(i);
        }
        if i == top {
            return None;
        }
        i += 1;
    }
}

/// The first position at which `p` occurs in `s`, if any.
pub fn find_str(s: &str, p: &str) -> (r: Option<usize>)
    ensures
        r is None <==> !contains_seq(s@, p@),
        r matches Some(i) ==> occurs_at(s@, p@, i as int) && forall|j: int|
            0 <= j < i ==> !occurs_at(s@, p@, j),
{
    let vs = chars_of(s);
    let vp = chars_of(p);
    find_in(&vs, &vp)
}

/// Whether `p` occurs in `s`.
pub fn contains_str(s: &str, p: &str) -> (r: bool)
    ensures
        r == contains_seq(s@, p@),
{
    find_str(s, p).is_some()
}

/// The last position at which `p` occurs in `s`, if any.
pub fn rfind_str(s: &str, p: &str) -> (r: Option<usize>)
    ensures
        r is None <==> !contains_seq(s@, p@),
        r matches Some(i) ==> occurs_at(s@, p@, i as int) && forall|j: int|
            i < j ==> !occurs_at(s@, p@, j),
{
    let vs = chars_of(s);
    let vp = chars_of(p);
    if vp.len() > vs.len() {
        return None;
    }
    let top = vs.len() - vp.len();
    let mut i: usize = top;
    loop
        invariant
            top == vs.len() - vp.len(),
            i <= top,
            vs@ == s@,
            vp@ == p@,
            forall|j: int| i < j ==> !occurs_at(s@, p@, j),
        decreases i,
    {
        if matches_at(&vs, &vp, i) {
            return Some(i);
        }
        if i == 0 {
            return None;
        }
        i -= 1;
    }
}

/// The characters of `s` from position `from` (inclusive) to `to` (exclusive).
pub fn substring(s: &str, from: usize, to: usize) -> (r: String)
    requires
        from <= to <= s@.len(),
    ensures
        r@ == s@.subrange(from as int, to as int),
{
    let v = chars_of(s);
    string_of_range(&v, from, to)
}

/// `s` without the leading `p`, if `s` begins with `p`.
pub fn strip_prefix(s: &str, p: &str) -> (r: Option<String>)
    ensures
        r is Some <==> p@.is_prefix_of(s@),
        r matches Some(t) ==> s@ == p@ + t@,
{
    if starts_with(s, p) {
        let v = chars_of(s);
        let plen = chars_of(p).len();
        let t = string_of_range(&v, plen, v.len());
        assert(s@ =~= p@ + t@);
        Some(t)
    } else {
        None
    }
}

/// `s` without the trailing `p`, if `s` ends with `p`.
pub fn strip_suffix(s: &str, p: &str) -> (r: Option<String>)
    ensures
        r is Some <==> p@.is_suffix_of(s@),
        r matches Some(t) ==> s@ == t@ + p@,
{
    if ends_with(s, p) {
        let v = chars_of(s);
        let plen = chars_of(p).len();
        let t = string_of_range(&v, 0, v.len() - plen);
        assert(s@ =~= t@ + p@);
        Some(t)
    } else {
        None
    }
}

/// `a` followed by `b`.
pub fn concat(a: &str, b: &str) -> (r: String)
    ensures
        r@ == a@ + b@,
{
    let mut r = String::from_str(a);
    r.append(b);
    r
}

/// `a` followed by `b` and `c`.
pub fn concat3(a: &str, b: &str, c: &str) -> (r: String)
    ensures
        r@ == a@ + b@ + c@,
{
    let mut r = String::from_str(a);
    r.append(b);
    r.append(c);
    r
}

/// `s` with every non-overlapping occurrence of `p`, taken from the left, replaced by `t`.
pub open spec fn replaced(s: Seq<char>, p: Seq<char>, t: Seq<char>) -> Seq<char>
    decreases s.len(),
{
    if s.len() == 0 || p.len() == 0 {
        s
    } else if p.is_prefix_of(s) {
        t + replaced(s.skip(p.len() as int), p, t)
    } else {
        seq![s[0]] + replaced(s.skip(1), p, t)
    }
}

/// `s` with every occurrence of the non-empty pattern `p` replaced by `t`, as `str::replace`
/// does it.
pub fn replace_all(s: &str, p: &str, t: &str) -> (r: String)
    requires
        p@.len() > 0,
    ensures
        r@ == replaced(s@, p@, t@),
{
    let vs = chars_of(s);
    let vp = chars_of(p);
    let mut r = String::new();
    let mut i: usize = 0;
    assert(s@.skip(0) =~= s@);
    assert(r@ + replaced(s@, p@, t@) =~= replaced(s@, p@, t@));
    while i < vs.len()
        invariant
            vs@ == s@,
            vp@ == p@,
            p@.len() > 0,
            i <= vs.len(),
            replaced(s@, p@, t@) == r@ + replaced(s@.skip(i as int), p@, t@),
        decreases vs.len() - i,
    {
        let ghost rest = s@.skip(i as int);
        if matches_at(&vs, &vp, i) {
            proof {
                assert(rest.subrange(0, p@.len() as int) =~= s@.subrange(i as int, i + p@.len()));
                assert(p@.is_prefix_of(rest));
                assert(rest.skip(p@.len() as int) =~= s@.skip(i + p@.len()));
            }
            let ghost old_r = r@;
            r.append(t);
            assert(old_r + (t@ + replaced(s@.skip(i + p@.len()), p@, t@)) =~= r@ + replaced(
                s@.skip(i + p@.len()),
                p@,
                t@,
            ));
            i += vp.len();
        } else {
            proof {
                if p@.is_prefix_of(rest) {
                    assert(s@.subrange(i as int, i + p@.len()) =~= rest.subrange(
                        0,
                        p@.len() as int,
                    ));
                }
                assert(rest.skip(1) =~= s@.skip(i + 1));
            }
            let ghost old_r = r@;
            push_char(&mut r, vs[i]);
            assert(old_r + (seq![rest[0]] + replaced(s@.skip(i + 1), p@, t@)) =~= r@ + replaced(
                s@.skip(i + 1),
                p@,
                t@,
            ));
            i += 1;
        }
    }
    assert(r@ + replaced(s@.skip(i as int), p@, t@) =~= r@);
    r
}

/// `s` without its leading white space.
pub open spec fn trim_start(s: Seq<char>) -> Seq<char>
    decreases s.len(),
{
    if s.len() > 0 && is_ws(s[0]) {
        trim_start(s.skip(1))
    } else {
        s
    }
}

/// `s` without its trailing white space.
pub open spec fn trim_end(s: Seq<char>) -> Seq<char>
    decreases s.len(),
{
    if s.len() > 0 && is_ws(s.last()) {
        trim_end(s.drop_last())
    } else {
        s
    }
}

/// `s` without leading and trailing white space.
pub open spec fn trimmed(s: Seq<char>) -> Seq<char> {
    trim_end(trim_start(s))
}

/// `s` without leading and trailing white space, as `str::trim` gives it.
pub fn trim(s: &str) -> (r: String)
    ensures
        r@ == trimmed(s@),
{
    let v = chars_of(s);
    let mut a: usize = 0;
    assert(s@.skip(0) =~= s@);
    while a < v.len() && is_whitespace(v[a])
        invariant
            v@ == s@,
            a <= v.len(),
            trim_start(s@) == trim_start(s@.skip(a as int)),
        decreases v.len() - a,
    {
        assert(s@.skip(a as int).skip(1) =~= s@.skip(a + 1));
        a += 1;
    }
    let ghost front = s@.skip(a as int);
    assert(trim_start(front) == front);
    let mut b: usize = v.len();
    while b > a && is_whitespace(v[b - 1])
        invariant
            v@ == s@,
            a <= b <= v.len(),
            front == s@.skip(a as int),
            trim_end(front) == trim_end(s@.subrange(a as int, b as int)),
        decreases b - a,
    {
        assert(s@.subrange(a as int, b as int).drop_last() =~= s@.subrange(a as int, b - 1));
        b -= 1;
    }
    assert(front =~= s@.subrange(a as int, v.len() as int));
    string_of_range(&v, a, b)
}

/// The pieces of `s` between occurrences of `sep`, the first of them continuing `cur`.
pub open spec fn split_from(s: Seq<char>, sep: char, cur: Seq<char>) -> Seq<Seq<char>>
    decreases s.len(),
{
    if s.len() == 0 {
        seq![cur]
    } else if s[0] == sep {
        seq![cur] + split_from(s.skip(1), sep, Seq::empty())
    } else {
        split_from(s.skip(1), sep, cur.push(s[0]))
    }
}

/// The pieces of `s` between occurrences of `sep`, as `str::split` with a character gives them.
pub open spec fn split_on_char(s: Seq<char>, sep: char) -> Seq<Seq<char>> {
    split_from(s, sep, Seq::empty())
}

/// Splitting yields at least one piece.
pub proof fn lemma_split_from_nonempty(s: Seq<char>, sep: char, cur: Seq<char>)
    ensures
        split_from(s, sep, cur).len() >= 1,
    decreases s.len(),
{
    if s.len() > 0 {
        if s[0] == sep {
            lemma_split_from_nonempty(s.skip(1), sep, Seq::empty());
        } else {
            lemma_split_from_nonempty(s.skip(1), sep, cur.push(s[0]));
        }
    }
}

/// The pieces of `s` between occurrences of `sep`.
pub fn split_on(s: &str, sep: char) -> (r: Vec<String>)
    ensures
        r.deep_view() == split_on_char(s@, sep),
{
    let v = chars_of(s);
    let mut out: Vec<String> = Vec::new();
    let mut cur = String::new();
    let mut i: usize = 0;
    assert(s@.skip(0) =~= s@);
    assert(out.deep_view() + split_on_char(s@, sep) =~= split_on_char(s@, sep));
    while i < v.len()
        invariant
            v@ == s@,
            i <= v.len(),
            out.deep_view() + split_from(s@.skip(i as int), sep, cur@) == split_on_char(s@, sep),
        decreases v.len() - i,
    {
        assert(s@.skip(i as int).skip(1) =~= s@.skip(i + 1));
        if v[i] == sep {
            let ghost old_out = out.deep_view();
            let ghost old_cur = cur@;
            out.push(cur);
            cur = String::new();
            assert(out.deep_view() =~= old_out.push(old_cur));
            assert(old_out + (seq![old_cur] + split_from(s@.skip(i + 1), sep, Seq::empty()))
                =~= out.deep_view() + split_from(s@.skip(i + 1), sep, cur@));
        } else {
            push_char(&mut cur, v[i]);
        }
        i += 1;
    }
    let ghost old_out = out.deep_view();
    let ghost old_cur = cur@;
    out.push(cur);
    assert(out.deep_view() =~= old_out.push(old_cur));
    assert(s@.skip(i as int) =~= Seq::<char>::empty());
    assert(old_out + split_from(s@.skip(i as int), sep, old_cur) =~= out.deep_view());
    out
}

/// The words of `s`: its maximal runs of non-white-space characters, the first of them
/// continuing `cur`.
pub open spec fn words_from(s: Seq<char>, cur: Seq<char>) -> Seq<Seq<char>>
    decreases s.len(),
{
    if s.len() == 0 {
        if cur.len() > 0 {
            seq![cur]
        } else {
            Seq::empty()
        }
    } else if is_ws(s[0]) {
        (if cur.len() > 0 {
            seq![cur]
        } else {
            Seq::empty()
        }) + words_from(s.skip(1), Seq::empty())
    } else {
        words_from(s.skip(1), cur.push(s[0]))
    }
}

/// The white-space separated words of `s`, as `str::split_whitespace` gives them.
pub open spec fn words(s: Seq<char>) -> Seq<Seq<char>> {
    words_from(s, Seq::empty())
}

/// The white-space separated words of `s`.
pub fn split_whitespace(s: &str) -> (r: Vec<String>)
    ensures
        r.deep_view() == words(s@),
{
    let v = chars_of(s);
    let mut out: Vec<String> = Vec::new();
    let mut cur = String::new();
    let mut cur_len: usize = 0;
    let mut i: usize = 0;
    assert(s@.skip(0) =~= s@);
    assert(out.deep_view() + words(s@) =~= words(s@));
    while i < v.len()
        invariant
            v@ == s@,
            i <= v.len(),
            cur_len == cur@.len() <= i,
            out.deep_view() + words_from(s@.skip(i as int), cur@) == words(s@),
        decreases v.len() - i,
    {
        assert(s@.skip(i as int).skip(1) =~= s@.skip(i + 1));
        if is_whitespace(v[i]) {
            if cur_len > 0 {
                let ghost old_out = out.deep_view();
                let ghost old_cur = cur@;
                out.push(cur);
                cur = String::new();
                cur_len = 0;
                assert(out.deep_view() =~= old_out.push(old_cur));
                assert(old_out + (seq![old_cur] + words_from(s@.skip(i + 1), Seq::empty()))
                    =~= out.deep_view() + words_from(s@.skip(i + 1), cur@));
            } else {
                assert(cur@.len() == 0);
                assert(cur@ =~= Seq::<char>::empty());
                assert(Seq::<Seq<char>>::empty() + words_from(s@.skip(i + 1), Seq::empty())
                    =~= words_from(s@.skip(i + 1), Seq::empty()));
            }
        } else {
            push_char(&mut cur, v[i]);
            cur_len += 1;
        }
        i += 1;
    }
    assert(s@.skip(i as int) =~= Seq::<char>::empty());
    if cur_len > 0 {
        let ghost old_out = out.deep_view();
        let ghost old_cur = cur@;
        out.push(cur);
        assert(out.deep_view() =~= old_out.push(old_cur));
        assert(old_out + words_from(s@.skip(i as int), old_cur) =~= out.deep_view());
    } else {
        assert(out.deep_view() + words_from(s@.skip(i as int), cur@) =~= out.deep_view());
    }
    out
}

/// `parts` joined with `sep` between consecutive parts.
pub open spec fn joined(parts: Seq<Seq<char>>, sep: Seq<char>) -> Seq<char>
    decreases parts.len(),
{
    if parts.len() == 0 {
        Seq::empty()
    } else if parts.len() == 1 {
        parts[0]
    } else {
        joined(parts.drop_last(), sep) + sep + parts.last()
    }
}

/// `parts` joined with `sep` between consecutive parts, as `[String]::join` gives them.
pub fn join(parts: &Vec<String>, sep: &str) -> (r: String)
    ensures
        r@ == joined(parts.deep_view(), sep@),
{
    let mut r = String::new();
    let mut i: usize = 0;
    while i < parts.len()
        invariant
            i <= parts.len(),
            r@ == joined(parts.deep_view().take(i as int), sep@),
        decreases parts.len() - i,
    {
        assert(parts.deep_view().take(i + 1).drop_last() =~= parts.deep_view().take(i as int));
        if i > 0 {
            r.append(sep);
        }
        r.append(parts[i].as_str());
        i += 1;
    }
    assert(parts.deep_view().take(i as int) =~= parts.deep_view());
    r
}

/// A piece of text between line feeds as a line: without the carriage return before its line
/// feed, where it ended with one.
pub open spec fn line_of(piece: Seq<char>, ended: bool) -> Seq<char> {
    if ended && piece.len() > 0 && piece.last() == '\r' {
        piece.drop_last()
    } else {
        piece
    }
}

/// The lines of `s`, as `str::lines` gives them: split at `\n` (a `\r` before it dropped),
/// without an empty piece after a final line feed.
pub open spec fn text_lines(s: Seq<char>) -> Seq<Seq<char>> {
    let ps = split_on_char(s, '\n');
    let n = ps.len() as int;
    Seq::new((n - 1) as nat, |i: int| line_of(ps[i], true)) + (if ps[n - 1].len() > 0 {
        seq![ps[n - 1]]
    } else {
        Seq::empty()
    })
}

/// The lines of `s`.
pub fn lines(s: &str) -> (r: Vec<String>)
    ensures
        r.deep_view() == text_lines(s@),
{
    let pieces = split_on(s, '\n');
    proof {
        lemma_split_from_nonempty(s@, '\n', Seq::empty());
    }
    let ghost ps = pieces.deep_view();
    let n = pieces.len();
    let mut out: Vec<String> = Vec::new();
    let mut i: usize = 0;
    while i + 1 < n
        invariant
            ps == pieces.deep_view(),
            n == pieces.len() >= 1,
            i <= n - 1,
            out.deep_view() == Seq::new(i as nat, |k: int| line_of(ps[k], true)),
        decreases n - i,
    {
        let p = pieces[i].as_str();
        let v = chars_of(p);
        assert(p@ == ps[i as int]);
        let line = if v.len() > 0 && v[v.len() - 1] == '\r' {
            assert(v@.subrange(0, v.len() - 1) =~= v@.drop_last());
            string_of_range(&v, 0, v.len() - 1)
        } else {
            owned(p)
        };
        assert(line@ == line_of(ps[i as int], true));
        push_string(&mut out, line);
        assert(out.deep_view() =~= Seq::new((i + 1) as nat, |k: int| line_of(ps[k], true)));
        i += 1;
    }
    let last = pieces[n - 1].as_str();
    if last.unicode_len() > 0 {
        let ghost before = out.deep_view();
        out.push(owned(last));
        assert(out.deep_view() =~= before + seq![ps[n - 1]]);
    } else {
        assert(out.deep_view() + Seq::<Seq<char>>::empty() =~= out.deep_view());
    }
    out
}

} // verus!
