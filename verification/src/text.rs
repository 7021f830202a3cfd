//! Character-level text utilities: whitespace, trimming, joining, splitting
//! on `::`, decimal rendering, case folding and substring search.

use vstd::prelude::*;
use vstd::string::*;

verus! {

/// The Unicode `White_Space` property, which `char::is_whitespace` tests.
pub open spec fn is_white_space(c: char) -> bool {
    let u = c as u32;
    ||| 0x09 <= u <= 0x0d
    ||| u == 0x20
    ||| u == 0x85
    ||| u == 0xa0
    ||| u == 0x1680
    ||| 0x2000 <= u <= 0x200a
    ||| u == 0x2028
    ||| u == 0x2029
    ||| u == 0x202f
    ||| u == 0x205f
    ||| u == 0x3000
}

/// Whether `c` is a whitespace character.
pub fn is_whitespace_char(c: char) -> (b: bool)
    ensures
        b == is_white_space(c),
{
    let u = c as u32;
    (0x09 <= u && u <= 0x0d) || u == 0x20 || u == 0x85 || u == 0xa0 || u == 0x1680
        || (0x2000 <= u && u <= 0x200a) || u == 0x2028 || u == 0x2029 || u == 0x202f
        || u == 0x205f || u == 0x3000
}

/// Appends one character to a string (`String::push`).
#[verifier::external_body]
pub(crate) fn push_char(s: &mut String, c: char)
    ensures
        final(s)@ == old(s)@.push(c),
{
    s.push(c)
}

/// The characters of `s`, in order.
pub fn chars_of(s: &str) -> (v: Vec<char>)
    ensures
        v@ == s@,
{
    let mut v: Vec<char> = Vec::new();
    for c in it: s.chars()
        invariant
            it.seq() == s@,
            v@ == s@.take(it.index() as int),
    {
        assert(s@.take(it.index() + 1) == s@.take(it.index() as int).push(c));
        v.push(c);
    }
    assert(s@.take(s@.len() as int) == s@);
    v
}

/// The string made of the characters of `v`, in order.
pub fn string_of(v: &[char]) -> (s: String)
    ensures
        s@ == v@,
{
    let s = string_of_prefix(v, v.len());
    assert(v@.take(v@.len() as int) == v@);
    s
}

/// The string made of the first `n` characters of `v`.
pub fn string_of_prefix(v: &[char], n: usize) -> (s: String)
    requires
        n <= v@.len(),
    ensures
        s@ == v@.take(n as int),
{
    let mut s = String::new();
    let mut i: usize = 0;
    while i < n
        invariant
            n <= v@.len(),
            i <= n,
            s@ == v@.take(i as int),
        decreases n - i,
    {
        assert(v@.take(i + 1) == v@.take(i as int).push(v@[i as int]));
        push_char(&mut s, v[i]);
        i += 1;
    }
    s
}


/// `s` without its leading whitespace.
pub open spec fn trim_start(s: Seq<char>) -> Seq<char>
    decreases s.len(),
{
    if s.len() > 0 && is_white_space(s[0]) {
        trim_start(s.skip(1))
    } else {
        s
    }
}

/// `s` without its trailing whitespace.
pub open spec fn trim_end(s: Seq<char>) -> Seq<char>
    decreases s.len(),
{
    if s.len() > 0 && is_white_space(s.last()) {
        trim_end(s.drop_last())
    } else {
        s
    }
}

/// `s` without leading and trailing whitespace (`str::trim`).
pub open spec fn trim(s: Seq<char>) -> Seq<char> {
    trim_end(trim_start(s))
}

/// Removes leading and trailing whitespace.
pub fn trim_text(s: &str) -> (r: Vec<char>)
    ensures
        r@ == trim(s@),
{
    let v = chars_of(s);
    let mut lo: usize = 0;
    assert(v@.skip(0) == v@);
    while lo < v.len() && is_whitespace_char(v[lo])
        invariant
            lo <= v@.len(),
            trim_start(v@) == trim_start(v@.skip(lo as int)),
        decreases v@.len() - lo,
    {
        assert(v@.skip(lo as int).skip(1) == v@.skip(lo + 1));
        lo += 1;
    }
    let mut hi: usize = v.len();
    while hi > lo && is_whitespace_char(v[hi - 1])
        invariant
            lo <= hi <= v@.len(),
            trim_start(v@) == trim_start(v@.skip(lo as int)),
            trim_end(v@.skip(lo as int)) == trim_end(v@.subrange(lo as int, hi as int)),
        decreases hi,
    {
        assert(v@.subrange(lo as int, hi as int).drop_last() == v@.subrange(lo as int, hi - 1));
        hi -= 1;
    }
    assert(v@.skip(lo as int) == v@.subrange(lo as int, v@.len() as int));
    let mut out: Vec<char> = Vec::new();
    let mut i = lo;
    while i < hi
        invariant
            lo <= i <= hi <= v@.len(),
            out@ == v@.subrange(lo as int, i as int),
        decreases hi - i,
    {
        assert(v@.subrange(lo as int, i + 1) == v@.subrange(lo as int, i as int).push(v@[i as int]));
        out.push(v[i]);
        i += 1;
    }
    proof {
        let t = v@.subrange(lo as int, hi as int);
        if lo < v@.len() {
            assert(!is_white_space(v@.skip(lo as int)[0]));
        }
        assert(trim_start(v@.skip(lo as int)) == v@.skip(lo as int));
        if hi > lo {
            assert(t.last() == v@[hi - 1]);
        }
        assert(trim_end(t) == t);
    }
    out
}

/// `parts` joined with `sep` between consecutive parts (`[..].join(sep)`).
pub open spec fn join(parts: Seq<Seq<char>>, sep: Seq<char>) -> Seq<char>
    decreases parts.len(),
{
    if parts.len() == 0 {
        Seq::empty()
    } else if parts.len() == 1 {
        parts[0]
    } else {
        join(parts.drop_last(), sep) + sep + parts.last()
    }
}

/// The views of a sequence of strings.
pub open spec fn views(parts: Seq<String>) -> Seq<Seq<char>> {
    parts.map_values(|p: String| p@)
}

/// Joins `parts` with `sep` between consecutive parts.
pub fn join_strings(parts: &Vec<String>, sep: &str) -> (s: String)
    ensures
        s@ == join(views(parts@), sep@),
{
    let mut s = String::new();
    let mut i: usize = 0;
    while i < parts.len()
        invariant
            i <= parts@.len(),
            s@ == join(views(parts@).take(i as int), sep@),
        decreases parts@.len() - i,
    {
        assert(views(parts@).take(i + 1).drop_last() == views(parts@).take(i as int));
        if i > 0 {
            s.append(sep);
        }
        s.append(parts[i].as_str());
        i += 1;
    }
    assert(views(parts@).take(parts@.len() as int) == views(parts@));
    s
}

/// The words of `s` (maximal runs of non-whitespace characters), where
/// `cur` is the word under construction.
pub open spec fn words_from(s: Seq<char>, cur: Seq<char>) -> Seq<Seq<char>>
    decreases s.len(),
{
    if s.len() == 0 {
        if cur.len() == 0 { Seq::empty() } else { seq![cur] }
    } else if is_white_space(s[0]) {
        (if cur.len() == 0 { Seq::empty() } else { seq![cur] }) + words_from(s.skip(1), Seq::empty())
    } else {
        words_from(s.skip(1), cur.push(s[0]))
    }
}

/// The whitespace-separated words of `s` (`str::split_whitespace`).
pub open spec fn words(s: Seq<char>) -> Seq<Seq<char>> {
    words_from(s, Seq::empty())
}

/// The words of `s` joined by single spaces: `s` on one line, with runs of
/// whitespace collapsed and no whitespace at either end.
pub open spec fn one_line(s: Seq<char>) -> Seq<char> {
    join(words(s), seq![' '])
}

/// The first `max` characters of the one-line form of `docs`, followed by
/// `...` when it is longer than `max`.
pub open spec fn snippet_text(docs: Seq<char>, max: nat) -> Seq<char> {
    let joined = one_line(docs);
    if joined.len() > max {
        joined.take(max as int) + "..."@
    } else {
        joined
    }
}

proof fn lemma_join_push(parts: Seq<Seq<char>>, w: Seq<char>, sep: Seq<char>)
    ensures
        join(parts.push(w), sep) == if parts.len() == 0 { w } else { join(parts, sep) + sep + w },
{
    assert(parts.push(w).drop_last() == parts);
}

/// Appends the characters of `w` to `out`.
pub fn extend_chars(out: &mut Vec<char>, w: &Vec<char>)
    ensures
        final(out)@ == old(out)@ + w@,
{
    let mut j: usize = 0;
    while j < w.len()
        invariant
            j <= w@.len(),
            out@ == old(out)@ + w@.take(j as int),
        decreases w@.len() - j,
    {
        assert(w@.take(j + 1) == w@.take(j as int).push(w@[j as int]));
        out.push(w[j]);
        j += 1;
    }
    assert(w@.take(w@.len() as int) == w@);
}

/// The one-line form of `docs`: words joined by single spaces.
pub fn collapse_whitespace(docs: &str) -> (out: Vec<char>)
    ensures
        out@ == one_line(docs@),
{
    let v = chars_of(docs);
    let mut out: Vec<char> = Vec::new();
    let mut cur: Vec<char> = Vec::new();
    let ghost mut done: Seq<Seq<char>> = Seq::empty();
    let mut i: usize = 0;
    assert(v@.skip(0) == v@);
    while i < v.len()
        invariant
            i <= v@.len(),
            v@ == docs@,
            words(v@) == done + words_from(v@.skip(i as int), cur@),
            out@ == join(done, seq![' ']),
            out@.len() == 0 <==> done.len() == 0,
        decreases v@.len() - i,
    {
        let c = v[i];
        let ghost rest = v@.skip(i as int);
        assert(rest[0] == c);
        assert(rest.skip(1) == v@.skip(i + 1));
        let ghost old_cur = cur@;
        assert(words(v@) == done + words_from(rest, old_cur));
        assert(words_from(rest, old_cur) == if is_white_space(c) {
            (if old_cur.len() == 0 { Seq::empty() } else { seq![old_cur] }) + words_from(v@.skip(i + 1), Seq::empty())
        } else {
            words_from(v@.skip(i + 1), old_cur.push(c))
        });
        if is_whitespace_char(c) {
            if cur.len() > 0 {
                proof { lemma_join_push(done, cur@, seq![' ']); }
                if out.len() > 0 {
                    out.push(' ');
                }
                extend_chars(&mut out, &cur);
                proof {
                    let w = words_from(v@.skip(i + 1), Seq::empty());
                    assert(done + (seq![old_cur] + w) == done.push(old_cur) + w);
                    done = done.push(old_cur);
                }
                cur = Vec::new();
            } else {
                assert(cur@ =~= Seq::<char>::empty());
                assert(Seq::<Seq<char>>::empty() + words_from(v@.skip(i + 1), Seq::empty())
                    == words_from(v@.skip(i + 1), Seq::empty()));
            }
        } else {
            cur.push(c);
        }
        assert(words(v@) == done + words_from(v@.skip(i + 1), cur@));
        i += 1;
    }
    assert(v@.skip(i as int).len() == 0);
    if cur.len() > 0 {
        proof { lemma_join_push(done, cur@, seq![' ']); }
        if out.len() > 0 {
            out.push(' ');
        }
        extend_chars(&mut out, &cur);
        proof {
            assert(done + seq![cur@] == done.push(cur@));
        }
    } else {
        assert(done + Seq::<Seq<char>>::empty() == done);
    }
    out
}

/// First `max` chars of a doc string, normalized to one line: whitespace
/// runs become single spaces, and `...` marks a cut.
pub fn snippet(docs: &str, max: usize) -> (s: String)
    ensures
        s@ == snippet_text(docs@, max as nat),
{
    let joined = collapse_whitespace(docs);
    if joined.len() > max {
        let mut s = string_of_prefix(joined.as_slice(), max);
        s.append("...");
        s
    } else {
        string_of(joined.as_slice())
    }
}

/// `t` is in one-line form: its only whitespace characters are single
/// spaces, each between two non-whitespace characters.
pub open spec fn is_one_line(t: Seq<char>) -> bool {
    forall|i: int| 0 <= i < t.len() && is_white_space(#[trigger] t[i])
        ==> t[i] == ' ' && 0 < i && i + 1 < t.len() && !is_white_space(t[i + 1])
}

proof fn lemma_join_prepend(a: Seq<char>, ws: Seq<Seq<char>>, sep: Seq<char>)
    requires
        ws.len() > 0,
    ensures
        join(seq![a] + ws, sep) == a + sep + join(ws, sep),
    decreases ws.len(),
{
    let all = seq![a] + ws;
    assert(all.last() == ws.last());
    if ws.len() == 1 {
        assert(all.drop_last() =~= seq![a]);
        assert(join(seq![a], sep) == a);
    } else {
        assert(all.drop_last() =~= seq![a] + ws.drop_last());
        lemma_join_prepend(a, ws.drop_last(), sep);
        assert(a + sep + join(ws.drop_last(), sep) + sep + ws.last() =~= a + sep + (join(ws.drop_last(), sep) + sep + ws.last()));
    }
}

proof fn lemma_words_of_one_line(s: Seq<char>, cur: Seq<char>)
    requires
        forall|j: int| 0 <= j < cur.len() ==> !is_white_space(#[trigger] cur[j]),
        forall|i: int| 0 <= i < s.len() && is_white_space(#[trigger] s[i])
            ==> s[i] == ' ' && i + 1 < s.len() && !is_white_space(s[i + 1]),
        s.len() > 0 && is_white_space(s[0]) ==> cur.len() > 0,
    ensures
        join(words_from(s, cur), seq![' ']) == cur + s,
    decreases s.len(),
{
    let sp = seq![' '];
    if s.len() == 0 {
        assert(cur + s =~= cur);
        if cur.len() > 0 {
            assert(join(seq![cur], sp) == cur);
        }
    } else if is_white_space(s[0]) {
        let t = s.skip(1);
        assert forall|i: int| 0 <= i < t.len() && is_white_space(#[trigger] t[i])
            implies t[i] == ' ' && i + 1 < t.len() && !is_white_space(t[i + 1]) by {
            assert(t[i] == s[i + 1]);
            assert(i + 2 < s.len() ==> t[i + 1] == s[i + 2]);
        }
        assert(t[0] == s[1]);
        lemma_words_of_one_line(t, Seq::empty());
        let w = words_from(t, Seq::empty());
        assert(Seq::<char>::empty() + t =~= t);
        if w.len() == 0 {
            assert(join(w, sp).len() == 0);
        }
        lemma_join_prepend(cur, w, sp);
        assert(seq![cur] + w == words_from(s, cur));
        assert(cur + sp + t =~= cur + s);
    } else {
        let t = s.skip(1);
        let c2 = cur.push(s[0]);
        assert forall|j: int| 0 <= j < c2.len() implies !is_white_space(#[trigger] c2[j]) by {
            if j < cur.len() {
                assert(c2[j] == cur[j]);
            }
        }
        assert forall|i: int| 0 <= i < t.len() && is_white_space(#[trigger] t[i])
            implies t[i] == ' ' && i + 1 < t.len() && !is_white_space(t[i + 1]) by {
            assert(t[i] == s[i + 1]);
            assert(i + 2 < s.len() ==> t[i + 1] == s[i + 2]);
        }
        lemma_words_of_one_line(t, c2);
        assert(c2 + t =~= cur + s);
    }
}

/// Text already in one-line form is its own one-line form.
proof fn lemma_one_line_fixed(t: Seq<char>)
    requires
        is_one_line(t),
    ensures
        one_line(t) == t,
{
    assert forall|i: int| 0 <= i < t.len() && is_white_space(#[trigger] t[i])
        implies t[i] == ' ' && i + 1 < t.len() && !is_white_space(t[i + 1]) by {}
    if t.len() > 0 {
        assert(!is_white_space(t[0]));
    }
    lemma_words_of_one_line(t, Seq::empty());
    assert(Seq::<char>::empty() + t =~= t);
}

proof fn lemma_words_nonempty(s: Seq<char>, cur: Seq<char>)
    ensures
        forall|i: int| 0 <= i < words_from(s, cur).len() ==> (#[trigger] words_from(s, cur)[i]).len() > 0,
    decreases s.len(),
{
    let w = words_from(s, cur);
    if s.len() == 0 {
        if cur.len() > 0 {
            assert(w == seq![cur]);
        }
    } else if is_white_space(s[0]) {
        lemma_words_nonempty(s.skip(1), Seq::empty());
        let front = if cur.len() == 0 { Seq::<Seq<char>>::empty() } else { seq![cur] };
        let rest = words_from(s.skip(1), Seq::empty());
        assert forall|i: int| 0 <= i < w.len() implies (#[trigger] w[i]).len() > 0 by {
            if i < front.len() {
                assert(w[i] == cur);
            } else {
                assert(w[i] == rest[i - front.len()]);
            }
        }
    } else {
        lemma_words_nonempty(s.skip(1), cur.push(s[0]));
        assert(w == words_from(s.skip(1), cur.push(s[0])));
    }
}

proof fn lemma_join_is_one_line(ws: Seq<Seq<char>>)
    requires
        forall|i: int| 0 <= i < ws.len() ==> (#[trigger] ws[i]).len() > 0,
        forall|i: int, j: int| 0 <= i < ws.len() && 0 <= j < ws[i].len() ==> !is_white_space(#[trigger] ws[i][j]),
    ensures
        is_one_line(join(ws, seq![' '])),
        ws.len() > 0 ==> join(ws, seq![' ']).len() > 0,
    decreases ws.len(),
{
    let sp = seq![' '];
    if ws.len() == 1 {
        let t = join(ws, sp);
        assert(t == ws[0]);
        assert forall|i: int| 0 <= i < t.len() && is_white_space(#[trigger] t[i])
            implies t[i] == ' ' && 0 < i && i + 1 < t.len() && !is_white_space(t[i + 1]) by {
            assert(!is_white_space(ws[0][i]));
        }
    } else if ws.len() > 1 {
        let d = ws.drop_last();
        assert forall|i: int| 0 <= i < d.len() implies (#[trigger] d[i]).len() > 0 by {
            assert(d[i] == ws[i]);
        }
        assert forall|i: int, j: int| 0 <= i < d.len() && 0 <= j < d[i].len() implies !is_white_space(#[trigger] d[i][j]) by {
            assert(d[i] == ws[i]);
        }
        lemma_join_is_one_line(d);
        let a = join(d, sp);
        let l = ws.last();
        assert(l == ws[ws.len() - 1]);
        let t = join(ws, sp);
        assert(t == a + sp + l);
        assert forall|i: int| 0 <= i < t.len() && is_white_space(#[trigger] t[i])
            implies t[i] == ' ' && 0 < i && i + 1 < t.len() && !is_white_space(t[i + 1]) by {
            if i < a.len() {
                assert(t[i] == a[i]);
                assert(is_white_space(a[i]));
                if i + 1 < a.len() {
                    assert(t[i + 1] == a[i + 1]);
                }
            } else if i == a.len() {
                assert(t[i + 1] == l[0]);
                assert(!is_white_space(ws[ws.len() - 1][0]));
            } else {
                assert(t[i] == l[i - a.len() - 1]);
                assert(!is_white_space(ws[ws.len() - 1][i - a.len() - 1]));
            }
        }
    }
}

/// The one-line form of any text is in one-line form.
proof fn lemma_one_line_is_one_line(d: Seq<char>)
    ensures
        is_one_line(one_line(d)),
{
    lemma_words_nonempty(d, Seq::empty());
    lemma_words_have_no_whitespace(d, Seq::empty());
    lemma_join_is_one_line(words(d));
}

/// A snippet of a snippet is the same snippet: a snippet is already on one
/// line, and a cut one keeps its cut.
pub proof fn lemma_snippet_idempotent(docs: Seq<char>, max: nat)
    ensures
        snippet_text(snippet_text(docs, max), max) == snippet_text(docs, max),
{
    let j = one_line(docs);
    lemma_one_line_is_one_line(docs);
    reveal_strlit("...");
    if j.len() > max {
        let t = j.take(max as int) + "..."@;
        assert forall|i: int| 0 <= i < t.len() && is_white_space(#[trigger] t[i])
            implies t[i] == ' ' && 0 < i && i + 1 < t.len() && !is_white_space(t[i + 1]) by {
            if i < max {
                assert(t[i] == j[i]);
                assert(is_white_space(j[i]));
                if i + 1 < max {
                    assert(t[i + 1] == j[i + 1]);
                } else {
                    assert(t[i + 1] == '.');
                }
            } else {
                assert(t[i] == '.');
            }
        }
        lemma_one_line_fixed(t);
        assert(t.take(max as int) =~= j.take(max as int));
    } else {
        lemma_one_line_fixed(j);
    }
}

/// `seq![cur]` when `cur` is not empty, else nothing.
pub open spec fn nonempty_piece(cur: Seq<char>) -> Seq<Seq<char>> {
    if cur.len() == 0 { Seq::empty() } else { seq![cur] }
}

/// Whether `s` starts with `::`.
pub open spec fn starts_with_colons(s: Seq<char>) -> bool {
    s.len() >= 2 && s[0] == ':' && s[1] == ':'
}

/// The non-empty pieces of `s` split on `::` from left to right, where
/// `cur` is the piece under construction.
pub open spec fn segments_from(s: Seq<char>, cur: Seq<char>) -> Seq<Seq<char>>
    decreases s.len(),
{
    if s.len() == 0 {
        nonempty_piece(cur)
    } else if starts_with_colons(s) {
        nonempty_piece(cur) + segments_from(s.skip(2), Seq::empty())
    } else {
        segments_from(s.skip(1), cur.push(s[0]))
    }
}

/// The non-empty `::`-separated segments of a path
/// (`path.split("::").filter(|s| !s.is_empty())`).
pub open spec fn path_segments(s: Seq<char>) -> Seq<Seq<char>> {
    segments_from(s, Seq::empty())
}

/// The non-empty `::`-separated segments of `path`.
pub fn split_path(path: &str) -> (segs: Vec<String>)
    ensures
        views(segs@) == path_segments(path@),
{
    let v = chars_of(path);
    let mut segs: Vec<String> = Vec::new();
    let mut cur: Vec<char> = Vec::new();
    let mut i: usize = 0;
    assert(v@.skip(0) == v@);
    while i < v.len()
        invariant
            i <= v@.len(),
            v@ == path@,
            path_segments(v@) == views(segs@) + segments_from(v@.skip(i as int), cur@),
        decreases v@.len() - i,
    {
        let ghost rest = v@.skip(i as int);
        let ghost old_cur = cur@;
        assert(rest[0] == v@[i as int]);
        if i + 1 < v.len() && v[i] == ':' && v[i + 1] == ':' {
            assert(rest[1] == v@[i + 1]);
            assert(rest.skip(2) == v@.skip(i + 2));
            if cur.len() > 0 {
                let ghost before = views(segs@);
                let piece = string_of(cur.as_slice());
                segs.push(piece);
                assert(views(segs@) =~= before.push(old_cur));
                assert(before + (seq![old_cur] + segments_from(v@.skip(i + 2), Seq::empty()))
                    == before.push(old_cur) + segments_from(v@.skip(i + 2), Seq::empty()));
            } else {
                assert(cur@ =~= Seq::<char>::empty());
                assert(Seq::<Seq<char>>::empty() + segments_from(v@.skip(i + 2), Seq::empty())
                    == segments_from(v@.skip(i + 2), Seq::empty()));
            }
            cur = Vec::new();
            i += 2;
        } else {
            assert(!starts_with_colons(rest));
            assert(rest.skip(1) == v@.skip(i + 1));
            cur.push(v[i]);
            i += 1;
        }
    }
    assert(v@.skip(i as int).len() == 0);
    if cur.len() > 0 {
        let ghost before = views(segs@);
        let piece = string_of(cur.as_slice());
        segs.push(piece);
        assert(views(segs@) =~= before.push(cur@));
        assert(before + seq![cur@] == before.push(cur@));
    } else {
        assert(cur@ =~= Seq::<char>::empty());
        assert(views(segs@) + Seq::<Seq<char>>::empty() == views(segs@));
    }
    segs
}

/// The part of `s` after its last `::` (`s.rsplit("::").next()`), or all
/// of `s` when it holds no `::`.
pub open spec fn last_segment(s: Seq<char>) -> Seq<char>
    decreases s.len(),
{
    if s.len() < 2 {
        s
    } else if s[s.len() - 2] == ':' && s[s.len() - 1] == ':' {
        Seq::empty()
    } else {
        last_segment(s.drop_last()).push(s.last())
    }
}

/// The part of `path` after its last `::`.
pub fn last_path_segment(path: &str) -> (r: String)
    ensures
        r@ == last_segment(path@),
{
    let v = chars_of(path);
    let mut k: usize = v.len();
    assert(v@.take(k as int) == v@);
    assert(v@ + v@.skip(k as int) == v@);
    // the suffix after index k has no `::`, and the answer is that suffix
    // once a `::` ends at k or k is 1 or 0
    while k >= 2 && !(v[k - 2] == ':' && v[k - 1] == ':')
        invariant
            k <= v@.len(),
            v@ == path@,
            last_segment(v@) == last_segment(v@.take(k as int)) + v@.skip(k as int),
        decreases k,
    {
        let ghost t = v@.take(k as int);
        assert(t.drop_last() == v@.take(k - 1));
        assert(t.last() == v@[k - 1]);
        assert(seq![v@[k - 1]] + v@.skip(k as int) == v@.skip(k - 1));
        assert(last_segment(t) == last_segment(v@.take(k - 1)).push(v@[k - 1]));
        assert(last_segment(v@.take(k - 1)).push(v@[k - 1]) + v@.skip(k as int)
            == last_segment(v@.take(k - 1)) + v@.skip(k - 1));
        k -= 1;
    }
    let start: usize = if k >= 2 { k } else { 0 };
    proof {
        let t = v@.take(k as int);
        if k >= 2 {
            assert(t[t.len() - 2] == v@[k - 2]);
            assert(t[t.len() - 1] == v@[k - 1]);
            assert(last_segment(t) == Seq::<char>::empty());
            assert(Seq::<char>::empty() + v@.skip(k as int) == v@.skip(k as int));
        } else {
            assert(last_segment(t) == t);
            assert(t + v@.skip(k as int) == v@);
            assert(v@.skip(0) == v@);
        }
    }
    let mut out: Vec<char> = Vec::new();
    let mut i = start;
    while i < v.len()
        invariant
            start <= i <= v@.len(),
            out@ == v@.subrange(start as int, i as int),
        decreases v@.len() - i,
    {
        assert(v@.subrange(start as int, i + 1) == v@.subrange(start as int, i as int).push(v@[i as int]));
        out.push(v[i]);
        i += 1;
    }
    assert(v@.subrange(start as int, v@.len() as int) == v@.skip(start as int));
    string_of(out.as_slice())
}

/// The decimal digit for `d < 10`.
pub open spec fn digit_char(d: nat) -> char {
    ((48 + d) as u32) as char
}

/// The decimal representation of `n`, without leading zeros.
pub open spec fn decimal(n: nat) -> Seq<char>
    decreases n,
{
    if n < 10 {
        seq![digit_char(n)]
    } else {
        decimal(n / 10).push(digit_char(n % 10))
    }
}

/// The decimal representation of `n` (`n.to_string()`).
pub fn decimal_string(n: u64) -> (s: String)
    ensures
        s@ == decimal(n as nat),
    decreases n,
{
    let d = (n % 10) as u8;
    let c = (48u8 + d) as char;
    assert(c == digit_char((n % 10) as nat)) by {
        assert((48u8 + d) as u32 == (48 + (n % 10)) as u32);
    };
    if n < 10 {
        let mut s = String::new();
        push_char(&mut s, c);
        s
    } else {
        let mut s = decimal_string(n / 10);
        push_char(&mut s, c);
        s
    }
}

/// The lowercase form of a string, as `str::to_lowercase` computes it from
/// the Unicode case tables.
pub uninterp spec fn lowercase(s: Seq<char>) -> Seq<char>;

/// `str::to_lowercase`: the lowercase mapping of each character under the
/// Unicode tables of the standard library. The contract claims only that the
/// result depends on the characters of `s` alone; the mapping itself is left
/// unstated.
#[verifier::external_body]
pub(crate) fn to_lowercase(s: &str) -> (r: String)
    ensures
        r@ == lowercase(s@),
{
    s.to_lowercase()
}

/// Whether `needle` occurs in `hay` as a contiguous run of characters.
pub open spec fn has_substring(hay: Seq<char>, needle: Seq<char>) -> bool {
    exists|i: int| 0 <= i && i + needle.len() <= hay.len() && #[trigger] hay.subrange(i, i + needle.len()) == needle
}

/// Whether `needle` occurs at position `i` of `hay`.
fn occurs_at(hay: &Vec<char>, needle: &Vec<char>, i: usize) -> (b: bool)
    requires
        i + needle@.len() <= hay@.len(),
    ensures
        b == (hay@.subrange(i as int, i + needle@.len()) == needle@),
{
    let mut j: usize = 0;
    let hl = hay.len();
    while j < needle.len()
        invariant
            hl == hay@.len(),
            i + needle@.len() <= hay@.len(),
            j <= needle@.len(),
            hay@.subrange(i as int, i + j) == needle@.take(j as int),
        decreases needle@.len() - j,
    {
        assert(i + j < hay@.len());
        if hay[i + j] != needle[j] {
            assert(hay@.subrange(i as int, i + needle@.len())[j as int] != needle@[j as int]);
            return false;
        }
        assert(hay@.subrange(i as int, i + j + 1) == needle@.take(j + 1));
        j += 1;
    }
    assert(needle@.take(needle@.len() as int) == needle@);
    true
}

/// Whether `needle` occurs in `hay` (`str::contains`).
pub fn contains_chars(hay: &Vec<char>, needle: &Vec<char>) -> (b: bool)
    ensures
        b == has_substring(hay@, needle@),
{
    if needle.len() > hay.len() {
        return false;
    }
    if needle.len() == 0 {
        assert(hay@.subrange(0int, 0int + needle@.len()) =~= needle@);
        return true;
    }
    let mut i: usize = 0;
    let last = hay.len() - needle.len();
    let hl = hay.len();
    while i <= last
        invariant
            hl == hay@.len(),
            needle@.len() <= hay@.len(),
            last == hay@.len() - needle@.len(),
            needle@.len() > 0,
            i <= last + 1,
            forall|k: int| 0 <= k < i ==> #[trigger] hay@.subrange(k, k + needle@.len()) != needle@,
        decreases last + 1 - i,
    {
        if occurs_at(hay, needle, i) {
            assert(hay@.subrange(i as int, i + needle@.len()) == needle@);
            return true;
        }
        i += 1;
    }
    false
}

proof fn lemma_trim_start_front(s: Seq<char>)
    ensures
        trim_start(s).len() > 0 ==> !is_white_space(trim_start(s)[0]),
        trim_start(s).len() <= s.len(),
    decreases s.len(),
{
    if s.len() > 0 && is_white_space(s[0]) {
        lemma_trim_start_front(s.skip(1));
    }
}

proof fn lemma_trim_end_prefix(t: Seq<char>)
    ensures
        trim_end(t) == t.take(trim_end(t).len() as int),
        trim_end(t).len() <= t.len(),
        t.len() > 0 && !is_white_space(t[0]) ==> trim_end(t).len() > 0,
        trim_end(t).len() > 0 ==> !is_white_space(trim_end(t).last()),
    decreases t.len(),
{
    if t.len() > 0 && is_white_space(t.last()) {
        let d = t.drop_last();
        lemma_trim_end_prefix(d);
        assert(d.take(trim_end(d).len() as int) == t.take(trim_end(d).len() as int));
        if t.len() > 0 && !is_white_space(t[0]) {
            assert(d.len() > 0);
            assert(d[0] == t[0]);
        }
    } else {
        assert(t.take(t.len() as int) == t);
    }
}

/// Trimming twice is trimming once: a trimmed string has no whitespace at
/// either end.
pub proof fn lemma_trim_idempotent(s: Seq<char>)
    ensures
        trim(trim(s)) == trim(s),
        trim(s).len() > 0 ==> !is_white_space(trim(s)[0]) && !is_white_space(trim(s).last()),
{
    let a = trim_start(s);
    let u = trim_end(a);
    lemma_trim_start_front(s);
    lemma_trim_end_prefix(a);
    if u.len() > 0 {
        assert(u[0] == a[0]);
        assert(trim_start(u) == u);
        assert(trim_end(u) == u);
    } else {
        assert(trim_start(u) == u);
        assert(trim_end(u) == u);
    }
}

proof fn lemma_join_chars(parts: Seq<Seq<char>>, sep: Seq<char>, p: spec_fn(char) -> bool)
    requires
        forall|i: int, j: int| 0 <= i < parts.len() && 0 <= j < parts[i].len() ==> p(#[trigger] parts[i][j]),
        forall|j: int| 0 <= j < sep.len() ==> p(#[trigger] sep[j]),
    ensures
        forall|k: int| 0 <= k < join(parts, sep).len() ==> p(#[trigger] join(parts, sep)[k]),
    decreases parts.len(),
{
    if parts.len() == 1 {
        assert forall|k: int| 0 <= k < join(parts, sep).len() implies p(#[trigger] join(parts, sep)[k]) by {
            assert(join(parts, sep)[k] == parts[0][k]);
        }
    } else if parts.len() > 1 {
        let d = parts.drop_last();
        assert forall|i: int, j: int| 0 <= i < d.len() && 0 <= j < d[i].len() implies p(#[trigger] d[i][j]) by {
            assert(d[i] == parts[i]);
        }
        lemma_join_chars(d, sep, p);
        let a = join(d, sep);
        let l = parts.last();
        assert forall|k: int| 0 <= k < join(parts, sep).len() implies p(#[trigger] join(parts, sep)[k]) by {
            if k < a.len() {
                assert(join(parts, sep)[k] == a[k]);
            } else if k < a.len() + sep.len() {
                assert(join(parts, sep)[k] == sep[k - a.len()]);
            } else {
                assert(join(parts, sep)[k] == l[k - a.len() - sep.len()]);
                assert(l == parts[parts.len() - 1]);
            }
        }
    }
}

proof fn lemma_words_have_no_whitespace(s: Seq<char>, cur: Seq<char>)
    requires
        forall|j: int| 0 <= j < cur.len() ==> !is_white_space(#[trigger] cur[j]),
    ensures
        forall|i: int, j: int| 0 <= i < words_from(s, cur).len() && 0 <= j < words_from(s, cur)[i].len()
            ==> !is_white_space(#[trigger] words_from(s, cur)[i][j]),
    decreases s.len(),
{
    let w = words_from(s, cur);
    if s.len() == 0 {
        assert forall|i: int, j: int| 0 <= i < w.len() && 0 <= j < w[i].len() implies !is_white_space(#[trigger] w[i][j]) by {
            assert(w[i] == cur);
        }
    } else if is_white_space(s[0]) {
        lemma_words_have_no_whitespace(s.skip(1), Seq::empty());
        let front = if cur.len() == 0 { Seq::<Seq<char>>::empty() } else { seq![cur] };
        let rest = words_from(s.skip(1), Seq::empty());
        assert forall|i: int, j: int| 0 <= i < w.len() && 0 <= j < w[i].len() implies !is_white_space(#[trigger] w[i][j]) by {
            if i < front.len() {
                assert(w[i] == cur);
            } else {
                assert(w[i] == rest[i - front.len()]);
            }
        }
    } else {
        let c2 = cur.push(s[0]);
        assert forall|j: int| 0 <= j < c2.len() implies !is_white_space(#[trigger] c2[j]) by {
            if j < cur.len() {
                assert(c2[j] == cur[j]);
            }
        }
        lemma_words_have_no_whitespace(s.skip(1), c2);
        assert(w == words_from(s.skip(1), c2));
    }
}

/// A doc snippet is one line: its only whitespace characters are single
/// spaces, so it holds no newline, carriage return or tab; and it is at
/// most `max` characters plus the three dots of a cut.
pub proof fn lemma_snippet_one_line(docs: Seq<char>, max: nat)
    ensures
        forall|k: int| 0 <= k < snippet_text(docs, max).len() ==>
            (#[trigger] snippet_text(docs, max)[k] == ' ' || !is_white_space(snippet_text(docs, max)[k])),
        snippet_text(docs, max).len() <= max + 3,
{
    let p = |c: char| c == ' ' || !is_white_space(c);
    lemma_words_have_no_whitespace(docs, Seq::empty());
    let ws = words(docs);
    assert forall|i: int, j: int| 0 <= i < ws.len() && 0 <= j < ws[i].len() implies p(#[trigger] ws[i][j]) by {
        assert(!is_white_space(ws[i][j]));
    }
    assert forall|j: int| 0 <= j < seq![' '].len() implies p(#[trigger] seq![' '][j]) by {
        assert(seq![' '][j] == ' ');
    }
    lemma_join_chars(ws, seq![' '], p);
    let joined = one_line(docs);
    reveal_strlit("...");
    assert("..."@.len() == 3);
    if joined.len() > max {
        let r = joined.take(max as int) + "..."@;
        assert forall|k: int| 0 <= k < r.len() implies (#[trigger] r[k] == ' ' || !is_white_space(r[k])) by {
            if k < max {
                assert(r[k] == joined[k]);
                assert(p(joined[k]));
            } else {
                assert(r[k] == "..."@[k - max]);
                assert("..."@[k - max] == '.');
            }
        }
    } else {
        assert forall|k: int| 0 <= k < joined.len() implies (#[trigger] joined[k] == ' ' || !is_white_space(joined[k])) by {
            assert(p(joined[k]));
        }
    }
}

} // verus!
