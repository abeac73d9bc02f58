//! Character-level text operations on which the shell grammar is built.
//!
//! Text is handled as `Vec<char>` inside the library; `chars_of` and
//! `string_of` convert at the edges.
use vstd::prelude::*;

verus! {

broadcast use vstd::string::group_string_axioms;

/// The Unicode `White_Space` property, the notion of whitespace that
/// `str::trim` and `str::split_whitespace` use.
pub open spec fn is_ws(c: char) -> bool {
    let u = c as u32;
    ||| 0x09 <= u <= 0x0d
    ||| u == 0x20
    ||| u == 0x85
    ||| u == 0xa0
    ||| u == 0x1680
    ||| 0x2000 <= u <= 0x200a
    ||| u == 0x2028
    ||| u == 0x2029
    ||| u == 0x202f
    ||| u == 0x205f
    ||| u == 0x3000
}

/// Whether `c` has the Unicode `White_Space` property (see `is_ws`), as
/// `char::is_whitespace` tells.
pub(crate) fn is_whitespace(c: char) -> (b: bool)
    ensures
        b == is_ws(c),
{
    let u = c as u32;
    (0x09 <= u && u <= 0x0d) || u == 0x20 || u == 0x85 || u == 0xa0 || u == 0x1680 || (0x2000
        <= u && u <= 0x200a) || u == 0x2028 || u == 0x2029 || u == 0x202f || u == 0x205f || u
        == 0x3000
}

/// `String::push`: appends one character.
#[verifier::external_body]
pub(crate) fn push_char(s: &mut String, c: char)
    ensures
        final(s)@ == old(s)@.push(c),
{
    s.push(c)
}

/// The characters of `s`, in order.
pub fn chars_of(s: &str) -> (v: Vec<char>)
    ensures
        v@ == s@,
{
    let mut v: Vec<char> = Vec::new();
    for c in it: s.chars()
        invariant
            v@ == it.seq().take(it.index() as int),
            it.seq() == s@,
    {
        v.push(c);
    }
    v
}

/// The string made of the characters of `v`.
pub fn string_of(v: &Vec<char>) -> (s: String)
    ensures
        s@ == v@,
{
    let mut s = String::new();
    let mut i: usize = 0;
    while i < v.len()
        invariant
            i <= v.len(),
            s@ == v@.take(i as int),
        decreases v.len() - i,
    {
        push_char(&mut s, v[i]);
        assert(v@.take(i + 1) =~= v@.take(i as int).push(v@[i as int]));
        i = i + 1;
    }
    assert(v@.take(v.len() as int) =~= v@);
    s
}

/// The characters of `v` from index `a` up to, not including, `b`.
pub fn slice_chars(v: &Vec<char>, a: usize, b: usize) -> (r: Vec<char>)
    requires
        a <= b <= v.len(),
    ensures
        r@ == v@.subrange(a as int, b as int),
{
    let mut r: Vec<char> = Vec::new();
    let mut i: usize = a;
    while i < b
        invariant
            a <= i <= b <= v.len(),
            r@ == v@.subrange(a as int, i as int),
        decreases b - i,
    {
        r.push(v[i]);
        assert(v@.subrange(a as int, i + 1) =~= v@.subrange(a as int, i as int).push(v@[i as int]));
        i = i + 1;
    }
    r
}

/// Appends the characters of `w` to `out`.
pub fn append_chars(out: &mut Vec<char>, w: &Vec<char>)
    ensures
        final(out)@ == old(out)@ + w@,
{
    let mut i: usize = 0;
    while i < w.len()
        invariant
            i <= w.len(),
            out@ == old(out)@ + w@.take(i as int),
        decreases w.len() - i,
    {
        out.push(w[i]);
        assert(w@.take(i + 1) =~= w@.take(i as int).push(w@[i as int]));
        i = i + 1;
    }
    assert(w@.take(w.len() as int) =~= w@);
}

/// `s` without its leading whitespace.
pub open spec fn trim_start(s: Seq<char>) -> Seq<char>
    decreases s.len(),
{
    if s.len() > 0 && is_ws(s[0]) {
        trim_start(s.drop_first())
    } else {
        s
    }
}

/// `s` without its trailing whitespace.
pub open spec fn trim_end(s: Seq<char>) -> Seq<char>
    decreases s.len(),
{
    if s.len() > 0 && is_ws(s.last()) {
        trim_end(s.drop_last())
    } else {
        s
    }
}

/// `s` without leading and trailing whitespace, as `str::trim` gives it.
pub open spec fn trim(s: Seq<char>) -> Seq<char> {
    trim_end(trim_start(s))
}

proof fn lemma_trim_start_skip(s: Seq<char>, i: int)
    requires
        0 <= i <= s.len(),
        forall|j: int| 0 <= j < i ==> is_ws(#[trigger] s[j]),
    ensures
        trim_start(s) == trim_start(s.skip(i)),
    decreases i,
{
    if i > 0 {
        assert(is_ws(s[0]));
        assert(s.drop_first().skip(i - 1) =~= s.skip(i));
        lemma_trim_start_skip(s.drop_first(), i - 1);
    } else {
        assert(s.skip(0) =~= s);
    }
}

proof fn lemma_trim_end_take(s: Seq<char>, i: int)
    requires
        0 <= i <= s.len(),
        forall|j: int| i <= j < s.len() ==> is_ws(#[trigger] s[j]),
    ensures
        trim_end(s) == trim_end(s.take(i)),
    decreases s.len() - i,
{
    if i < s.len() {
        assert(is_ws(s[s.len() - 1]));
        assert(s.drop_last().take(i) =~= s.take(i));
        lemma_trim_end_take(s.drop_last(), i);
    } else {
        assert(s.take(i) =~= s);
    }
}

/// `v` with leading and trailing whitespace removed.
pub fn trim_chars(v: &Vec<char>) -> (r: Vec<char>)
    ensures
        r@ == trim(v@),
{
    let mut a: usize = 0;
    while a < v.len() && is_whitespace(v[a])
        invariant
            a <= v.len(),
            forall|j: int| 0 <= j < a ==> is_ws(#[trigger] v@[j]),
        decreases v.len() - a,
    {
        a = a + 1;
    }
    proof {
        lemma_trim_start_skip(v@, a as int);
    }
    let ghost t = v@.skip(a as int);
    let mut b: usize = v.len();
    while b > a && is_whitespace(v[b - 1])
        invariant
            a <= b <= v.len(),
            t == v@.skip(a as int),
            forall|j: int| b <= j < v.len() ==> is_ws(#[trigger] v@[j]),
        decreases b - a,
    {
        b = b - 1;
    }
    proof {
        assert forall|j: int| b - a <= j < t.len() implies is_ws(#[trigger] t[j]) by {
            assert(t[j] == v@[j + a]);
        }
        lemma_trim_end_take(t, b - a);
        assert(t.take(b - a) =~= v@.subrange(a as int, b as int));
        if a < b {
            assert(!is_ws(v@[a as int]));
        }
    }
    slice_chars(v, a, b)
}


/// The whitespace-separated words of `s`, as `str::split_whitespace` yields
/// them: the maximal runs of non-whitespace characters, left to right.
pub open spec fn words(s: Seq<char>) -> Seq<Seq<char>>
    decreases s.len(),
{
    if s.len() == 0 {
        seq![]
    } else {
        let p = words(s.drop_last());
        let c = s.last();
        if is_ws(c) {
            p
        } else if s.len() > 1 && !is_ws(s[s.len() - 2]) {
            p.drop_last().push(p.last().push(c))
        } else {
            p.push(seq![c])
        }
    }
}

proof fn lemma_words_nonempty(s: Seq<char>)
    requires
        s.len() > 0,
        !is_ws(s.last()),
    ensures
        words(s).len() > 0,
    decreases s.len(),
{
    if s.len() > 1 && !is_ws(s[s.len() - 2]) {
        lemma_words_nonempty(s.drop_last());
    }
}

/// The character sequences held by `ws`.
pub open spec fn views(ws: Seq<Vec<char>>) -> Seq<Seq<char>> {
    ws.map_values(|w: Vec<char>| w@)
}

/// The words of `v` (see `words`).
pub fn split_words(v: &Vec<char>) -> (r: Vec<Vec<char>>)
    ensures
        views(r@) == words(v@),
{
    let mut out: Vec<Vec<char>> = Vec::new();
    let mut cur: Vec<char> = Vec::new();
    let mut in_word = false;
    let mut i: usize = 0;
    while i < v.len()
        invariant
            i <= v.len(),
            in_word == (i > 0 && !is_ws(v@[i - 1])),
            in_word ==> words(v@.take(i as int)) == views(out@).push(cur@),
            !in_word ==> words(v@.take(i as int)) == views(out@),
        decreases v.len() - i,
    {
        let c = v[i];
        let ghost s = v@.take(i + 1);
        assert(s.drop_last() =~= v@.take(i as int));
        assert(s.last() == c);
        if is_whitespace(c) {
            if in_word {
                let ghost before = views(out@);
                let ghost wv = cur@;
                out.push(cur);
                cur = Vec::new();
                assert(views(out@) =~= before.push(wv));
            }
            in_word = false;
        } else {
            if in_word {
                assert(s[s.len() - 2] == v@[i - 1]);
                cur.push(c);
            } else {
                if i > 0 {
                    assert(s[s.len() - 2] == v@[i - 1]);
                }
                cur = Vec::new();
                cur.push(c);
                in_word = true;
            }
        }
        i = i + 1;
    }
    assert(v@.take(v.len() as int) =~= v@);
    if in_word {
        let ghost before = views(out@);
        let ghost wv = cur@;
        out.push(cur);
        assert(views(out@) =~= before.push(wv));
    }
    out
}

/// The words of `ws` joined with `sep` between them, as `[..].join(sep)`
/// gives them.
pub open spec fn join(ws: Seq<Seq<char>>, sep: Seq<char>) -> Seq<char>
    decreases ws.len(),
{
    if ws.len() == 0 {
        seq![]
    } else if ws.len() == 1 {
        ws[0]
    } else {
        join(ws.drop_last(), sep) + sep + ws.last()
    }
}

/// The elements of `ws` from index `from` on, joined with `sep`.
pub fn join_from(ws: &Vec<Vec<char>>, from: usize, sep: &Vec<char>) -> (r: Vec<char>)
    requires
        from <= ws.len(),
    ensures
        r@ == join(views(ws@).skip(from as int), sep@),
{
    let ghost d = views(ws@);
    let mut r: Vec<char> = Vec::new();
    if from == ws.len() {
        assert(d.skip(from as int) =~= Seq::<Seq<char>>::empty());
        return r;
    }
    let mut i: usize = from;
    while i < ws.len()
        invariant
            from < ws.len(),
            from <= i <= ws.len(),
            d == views(ws@),
            r@ == join(d.subrange(from as int, i as int), sep@),
        decreases ws.len() - i,
    {
        let ghost part = d.subrange(from as int, i + 1);
        assert(part.drop_last() =~= d.subrange(from as int, i as int));
        if i > from {
            append_chars(&mut r, sep);
        } else {
            assert(part =~= seq![d[i as int]]);
        }
        append_chars(&mut r, &ws[i]);
        i = i + 1;
    }
    assert(d.subrange(from as int, ws.len() as int) =~= d.skip(from as int));
    r
}

/// `p` occurs in `s` at index `i`.
pub open spec fn is_at(s: Seq<char>, p: Seq<char>, i: int) -> bool {
    0 <= i && i + p.len() <= s.len() && s.subrange(i, i + p.len()) =~= p
}

/// The first index, from `i` on, at which `p` occurs in `s`.
pub open spec fn find_from(s: Seq<char>, p: Seq<char>, i: int) -> Option<int>
    decreases s.len() + 1 - i,
{
    if i < 0 || i + p.len() > s.len() {
        None
    } else if is_at(s, p, i) {
        Some(i)
    } else {
        find_from(s, p, i + 1)
    }
}

/// The first index at which `p` occurs in `s`.
pub open spec fn find(s: Seq<char>, p: Seq<char>) -> Option<int> {
    find_from(s, p, 0)
}

/// `p` occurs somewhere in `s`, as `str::contains` tells.
pub open spec fn contains(s: Seq<char>, p: Seq<char>) -> bool {
    exists|i: int| is_at(s, p, i)
}

pub proof fn lemma_find_from(s: Seq<char>, p: Seq<char>, i: int)
    requires
        0 <= i,
    ensures
        find_from(s, p, i) matches Some(k) ==> i <= k && is_at(s, p, k) && forall|j: int|
            i <= j < k ==> !is_at(s, p, j),
        find_from(s, p, i) is None ==> forall|j: int| i <= j ==> !is_at(s, p, j),
    decreases s.len() + 1 - i,
{
    if i + p.len() > s.len() {
    } else if !is_at(s, p, i) {
        lemma_find_from(s, p, i + 1);
    }
}

/// Whether `p` occurs in `v` at index `i`.
pub fn matches_at(v: &Vec<char>, p: &Vec<char>, i: usize) -> (b: bool)
    ensures
        b == is_at(v@, p@, i as int),
{
    if i > v.len() || p.len() > v.len() - i {
        return false;
    }
    let mut k: usize = 0;
    while k < p.len()
        invariant
            i + p.len() <= v.len(),
            k <= p.len(),
            forall|j: int| 0 <= j < k ==> v@[i + j] == p@[j],
        decreases p.len() - k,
    {
        if v[i + k] != p[k] {
            assert(v@.subrange(i as int, i + p.len())[k as int] != p@[k as int]);
            return false;
        }
        k = k + 1;
    }
    assert(v@.subrange(i as int, i + p.len()) =~= p@);
    true
}

/// The first index, from `from` on, at which `p` occurs in `v`.
pub fn find_chars(v: &Vec<char>, p: &Vec<char>, from: usize) -> (r: Option<usize>)
    ensures
        r matches Some(k) ==> find_from(v@, p@, from as int) == Some(k as int),
        r is None ==> find_from(v@, p@, from as int) is None,
{
    let mut i: usize = from;
    if i > v.len() || p.len() > v.len() - i {
        return None;
    }
    let last = v.len() - p.len();
    while i <= last
        invariant
            from <= i,
            last == v.len() - p.len(),
            find_from(v@, p@, from as int) == find_from(v@, p@, i as int),
        decreases v.len() - i,
    {
        if matches_at(v, p, i) {
            return Some(i);
        }
        i = i + 1;
    }
    None
}

/// Whether `p` occurs in `v`.
pub fn contains_chars(v: &Vec<char>, p: &Vec<char>) -> (b: bool)
    ensures
        b == contains(v@, p@),
{
    proof {
        lemma_find_from(v@, p@, 0);
    }
    match find_chars(v, p, 0) {
        Some(_) => true,
        None => false,
    }
}

/// `s` with every occurrence of `p` replaced by `r`, the occurrences taken
/// left to right without overlap, as `str::replace` does it. An empty `p`
/// occurs before every character and at the end.
pub open spec fn replace_all(s: Seq<char>, p: Seq<char>, r: Seq<char>) -> Seq<char>
    decreases s.len(),
{
    if p.len() == 0 {
        if s.len() == 0 {
            r
        } else {
            r + seq![s[0]] + replace_all(s.drop_first(), p, r)
        }
    } else if s.len() < p.len() {
        s
    } else if s.take(p.len() as int) == p {
        r + replace_all(s.skip(p.len() as int), p, r)
    } else {
        seq![s[0]] + replace_all(s.drop_first(), p, r)
    }
}

/// `v` with every occurrence of `p` replaced by `r` (see `replace_all`).
pub fn replace_chars(v: &Vec<char>, p: &Vec<char>, r: &Vec<char>) -> (out: Vec<char>)
    ensures
        out@ == replace_all(v@, p@, r@),
{
    let mut out: Vec<char> = Vec::new();
    let mut i: usize = 0;
    assert(v@.skip(0) =~= v@);
    while i < v.len()
        invariant
            i <= v.len(),
            replace_all(v@, p@, r@) == out@ + replace_all(v@.skip(i as int), p@, r@),
        decreases v.len() - i,
    {
        let ghost s = v@.skip(i as int);
        assert(s.drop_first() =~= v@.skip(i + 1));
        let ghost before = out@;
        if p.len() == 0 {
            append_chars(&mut out, r);
            out.push(v[i]);
            assert(out@ =~= before + r@ + seq![s[0]]);
            i = i + 1;
        } else if p.len() > v.len() - i {
            append_chars(&mut out, &slice_chars(v, i, v.len()));
            assert(v@.subrange(i as int, v.len() as int) =~= s);
            assert(v@.skip(v.len() as int) =~= Seq::<char>::empty());
            i = v.len();
        } else if matches_at(v, p, i) {
            assert(s.take(p.len() as int) =~= v@.subrange(i as int, i + p.len()));
            assert(s.skip(p.len() as int) =~= v@.skip(i + p.len()));
            append_chars(&mut out, r);
            i = i + p.len();
        } else {
            assert(s.take(p.len() as int) =~= v@.subrange(i as int, i + p.len()));
            out.push(v[i]);
            assert(out@ =~= before + seq![s[0]]);
            i = i + 1;
        }
    }
    if p.len() == 0 {
        append_chars(&mut out, r);
    }
    assert(out@ =~= replace_all(v@, p@, r@)) by {
        assert(v@.skip(v.len() as int) =~= Seq::<char>::empty());
    }
    out
}


/// The pieces of `s` between the occurrences of the nonempty separator `p`,
/// the occurrences taken left to right without overlap, as `str::split`
/// yields them.
pub open spec fn split_on(s: Seq<char>, p: Seq<char>) -> Seq<Seq<char>>
    decreases s.len(),
{
    if p.len() == 0 {
        seq![s]
    } else {
        match find(s, p) {
            None => seq![s],
            Some(i) => {
                proof {
                    lemma_find_from(s, p, 0);
                }
                seq![s.take(i)] + split_on(s.skip(i + p.len()), p)
            },
        }
    }
}

/// Splitting always gives at least one piece.
pub proof fn lemma_split_on_nonempty(s: Seq<char>, p: Seq<char>)
    ensures
        split_on(s, p).len() > 0,
    decreases s.len(),
{
    if p.len() > 0 {
        match find(s, p) {
            None => {},
            Some(i) => {
                lemma_find_from(s, p, 0);
                lemma_split_on_nonempty(s.skip(i + p.len()), p);
            },
        }
    }
}

/// The pieces of `v` between the occurrences of the nonempty separator `p`.
pub fn split_on_chars(v: &Vec<char>, p: &Vec<char>) -> (r: Vec<Vec<char>>)
    requires
        p.len() > 0,
    ensures
        views(r@) == split_on(v@, p@),
{
    let mut out: Vec<Vec<char>> = Vec::new();
    let mut rest: Vec<char> = slice_chars(v, 0, v.len());
    assert(v@.subrange(0, v.len() as int) =~= v@);
    loop
        invariant
            p.len() > 0,
            split_on(v@, p@) == views(out@) + split_on(rest@, p@),
        decreases rest.len(),
    {
        proof {
            lemma_find_from(rest@, p@, 0);
        }
        match find_chars(&rest, p, 0) {
            None => {
                let ghost before = views(out@);
                let ghost rv = rest@;
                out.push(rest);
                assert(views(out@) =~= before.push(rv));
                assert(views(out@) =~= before + seq![rv]);
                return out;
            },
            Some(i) => {
                let ghost before = views(out@);
                let piece = slice_chars(&rest, 0, i);
                let next = slice_chars(&rest, i + p.len(), rest.len());
                assert(piece@ =~= rest@.take(i as int));
                assert(next@ =~= rest@.skip(i + p.len()));
                out.push(piece);
                assert(views(out@) =~= before + seq![piece@]);
                assert(before + seq![piece@] + split_on(next@, p@) =~= before + (seq![piece@]
                    + split_on(next@, p@)));
                rest = next;
            },
        }
    }
}

/// The text before and after the first occurrence of `p` in `s`, as
/// `str::split_once` gives them.
pub open spec fn split_once(s: Seq<char>, p: Seq<char>) -> Option<(Seq<char>, Seq<char>)> {
    match find(s, p) {
        Some(i) => Some((s.take(i), s.skip(i + p.len()))),
        None => None,
    }
}

/// The text before and after the first occurrence of `p` in `v`.
pub fn split_once_chars(v: &Vec<char>, p: &Vec<char>) -> (r: Option<(Vec<char>, Vec<char>)>)
    ensures
        r matches Some((a, b)) ==> split_once(v@, p@) == Some((a@, b@)),
        r is None ==> split_once(v@, p@) is None,
{
    proof {
        lemma_find_from(v@, p@, 0);
    }
    match find_chars(v, p, 0) {
        None => None,
        Some(i) => {
            let n = v.len();
            assert(is_at(v@, p@, i as int));
            let a = slice_chars(v, 0, i);
            let e: usize = i + p.len();
            let b = slice_chars(v, e, v.len());
            assert(a@ =~= v@.take(i as int));
            assert(b@ =~= v@.skip(i + p.len()));
            Some((a, b))
        },
    }
}

/// `l` without one trailing carriage return.
pub open spec fn strip_cr(l: Seq<char>) -> Seq<char> {
    if l.len() > 0 && l.last() == '\r' {
        l.drop_last()
    } else {
        l
    }
}

/// The lines of `s`, as `str::lines` yields them: the pieces between line
/// feeds, each without a carriage return just before its line feed, and no
/// empty piece after a final line feed.
pub open spec fn lines(s: Seq<char>) -> Seq<Seq<char>>
    decreases s.len(),
{
    if s.len() == 0 {
        seq![]
    } else {
        match find(s, seq!['\n']) {
            None => seq![s],
            Some(i) => {
                proof {
                    lemma_find_from(s, seq!['\n'], 0);
                }
                seq![strip_cr(s.take(i))] + lines(s.skip(i + 1))
            },
        }
    }
}

/// Each of `ls` after one space, all run together.
pub open spec fn spaced(ls: Seq<Seq<char>>) -> Seq<char>
    decreases ls.len(),
{
    if ls.len() == 0 {
        seq![]
    } else {
        seq![' '] + ls[0] + spaced(ls.drop_first())
    }
}


/// The lines of `v`, each after one space, all run together.
pub fn spaced_lines(v: &Vec<char>) -> (r: Vec<char>)
    ensures
        r@ == spaced(lines(v@)),
{
    let mut out: Vec<char> = Vec::new();
    let mut rest: Vec<char> = slice_chars(v, 0, v.len());
    assert(v@.subrange(0, v.len() as int) =~= v@);
    let nl: Vec<char> = vec!['\n'];
    assert(nl@ =~= seq!['\n']);
    loop
        invariant
            nl@ == seq!['\n'],
            spaced(lines(v@)) == out@ + spaced(lines(rest@)),
        decreases rest.len(),
    {
        let n = rest.len();
        if n == 0 {
            assert(out@ + spaced(lines(rest@)) =~= out@);
            return out;
        }
        proof {
            lemma_find_from(rest@, nl@, 0);
        }
        let ghost before = out@;
        match find_chars(&rest, &nl, 0) {
            None => {
                out.push(' ');
                append_chars(&mut out, &rest);
                let ghost ls = lines(rest@);
                assert(ls =~= seq![rest@]);
                assert(ls.drop_first() =~= Seq::<Seq<char>>::empty());
                assert(spaced(ls.drop_first()) =~= Seq::<char>::empty());
                assert(spaced(ls) =~= seq![' '] + rest@);
                assert(out@ =~= before + spaced(ls));
                return out;
            },
            Some(i) => {
                assert(is_at(rest@, nl@, i as int));
                let mut line = slice_chars(&rest, 0, i);
                let k = line.len();
                if k > 0 && line[k - 1] == '\r' {
                    line = slice_chars(&line, 0, k - 1);
                    assert(line@ =~= rest@.take(i as int).drop_last());
                }
                let next = slice_chars(&rest, i + 1, n);
                assert(next@ =~= rest@.skip(i + 1));
                let ghost ls = lines(rest@);
                assert(ls[0] == line@);
                assert(ls.drop_first() =~= lines(next@));
                out.push(' ');
                append_chars(&mut out, &line);
                assert(out@ + spaced(lines(next@)) =~= before + spaced(ls));
                rest = next;
            },
        }
    }
}


/// Replacing a pattern that does not occur changes nothing.
pub proof fn law_replace_absent(s: Seq<char>, p: Seq<char>, r: Seq<char>)
    requires
        p.len() > 0,
        !contains(s, p),
    ensures
        replace_all(s, p, r) == s,
    decreases s.len(),
{
    if s.len() >= p.len() {
        assert(!is_at(s, p, 0));
        assert(s.subrange(0, p.len() as int) =~= s.take(p.len() as int));
        assert forall|i: int| !is_at(s.drop_first(), p, i) by {
            if is_at(s.drop_first(), p, i) {
                assert(s.subrange(i + 1, i + 1 + p.len()) =~= s.drop_first().subrange(i, i + p.len()));
                assert(is_at(s, p, i + 1));
            }
        }
        law_replace_absent(s.drop_first(), p, r);
        assert(s =~= seq![s[0]] + s.drop_first());
    }
}

/// Each word is a nonempty run of non-whitespace characters.
pub proof fn lemma_words_shape(s: Seq<char>)
    ensures
        forall|k: int|
            0 <= k < words(s).len() ==> #[trigger] words(s)[k].len() > 0 && forall|j: int|
                0 <= j < words(s)[k].len() ==> !is_ws(words(s)[k][j]),
    decreases s.len(),
{
    if s.len() > 0 {
        lemma_words_shape(s.drop_last());
        let p = words(s.drop_last());
        let c = s.last();
        if !is_ws(c) && s.len() > 1 && !is_ws(s[s.len() - 2]) {
            lemma_words_nonempty(s.drop_last());
            let w = p.last().push(c);
            assert forall|k: int| 0 <= k < words(s).len() implies #[trigger] words(s)[k].len() > 0
                && forall|j: int| 0 <= j < words(s)[k].len() ==> !is_ws(words(s)[k][j]) by {
                if k < p.len() - 1 {
                    assert(words(s)[k] == p[k]);
                } else {
                    assert(words(s)[k] == w);
                    assert forall|j: int| 0 <= j < w.len() implies !is_ws(w[j]) by {
                        if j < p.last().len() {
                            assert(p[p.len() - 1][j] == w[j]);
                        }
                    }
                }
            }
        } else if !is_ws(c) {
            assert forall|k: int| 0 <= k < words(s).len() implies #[trigger] words(s)[k].len() > 0
                && forall|j: int| 0 <= j < words(s)[k].len() ==> !is_ws(words(s)[k][j]) by {
                if k < p.len() {
                    assert(words(s)[k] == p[k]);
                }
            }
        }
    }
}

proof fn lemma_words_append_word(y: Seq<char>, w: Seq<char>)
    requires
        y.len() == 0 || is_ws(y.last()),
        w.len() > 0,
        forall|j: int| 0 <= j < w.len() ==> !is_ws(w[j]),
    ensures
        words(y + w) == words(y).push(w),
    decreases w.len(),
{
    let t = y + w;
    assert(t.drop_last() =~= y + w.drop_last());
    assert(t.last() == w.last());
    if w.len() == 1 {
        assert(y + w.drop_last() =~= y);
        if t.len() > 1 {
            assert(t[t.len() - 2] == y.last());
        }
        assert(w =~= seq![w.last()]);
    } else {
        lemma_words_append_word(y, w.drop_last());
        assert(t[t.len() - 2] == w[w.len() - 2]);
        assert(w.drop_last().push(w.last()) =~= w);
        assert(words(y).push(w.drop_last()).drop_last() =~= words(y));
    }
}

pub proof fn lemma_words_join(ws: Seq<Seq<char>>)
    requires
        forall|k: int|
            0 <= k < ws.len() ==> #[trigger] ws[k].len() > 0 && forall|j: int|
                0 <= j < ws[k].len() ==> !is_ws(ws[k][j]),
    ensures
        words(join(ws, seq![' '])) == ws,
    decreases ws.len(),
{
    if ws.len() == 0 {
        assert(words(Seq::<char>::empty()) =~= Seq::<Seq<char>>::empty());
    } else if ws.len() == 1 {
        lemma_words_append_word(seq![], ws[0]);
        assert(Seq::<char>::empty() + ws[0] =~= ws[0]);
        assert(words(Seq::<char>::empty()) =~= Seq::<Seq<char>>::empty());
        assert(ws =~= seq![ws[0]]);
    } else {
        let front = join(ws.drop_last(), seq![' ']);
        lemma_words_join(ws.drop_last());
        let y = front + seq![' '];
        assert(y.drop_last() =~= front);
        assert(is_ws(y.last()));
        lemma_words_append_word(y, ws.last());
        assert(words(y) == words(front));
        assert(ws.drop_last().push(ws.last()) =~= ws);
    }
}

/// Splitting the words of `s`, joined by single spaces, gives back the same
/// words.
pub proof fn law_words_join_words(s: Seq<char>)
    ensures
        words(join(words(s), seq![' '])) == words(s),
{
    lemma_words_shape(s);
    lemma_words_join(words(s));
}

/// The words of two texts with a space between them are the words of the
/// first followed by those of the second.
pub proof fn lemma_words_space_concat(x: Seq<char>, y: Seq<char>)
    ensures
        words(x + seq![' '] + y) == words(x) + words(y),
    decreases y.len(),
{
    let t = x + seq![' '] + y;
    assert(is_ws(' '));
    if y.len() == 0 {
        assert(t =~= x + seq![' ']);
        assert(t.drop_last() =~= x);
        assert(words(y) =~= Seq::<Seq<char>>::empty());
        assert(words(x) + words(y) =~= words(x));
    } else {
        let yd = y.drop_last();
        lemma_words_space_concat(x, yd);
        assert(t.drop_last() =~= x + seq![' '] + yd);
        assert(t.last() == y.last());
        let c = y.last();
        if is_ws(c) {
        } else if y.len() > 1 && !is_ws(y[y.len() - 2]) {
            assert(t[t.len() - 2] == y[y.len() - 2]);
            assert(yd.last() == y[y.len() - 2]);
            lemma_words_nonempty(yd);
            let p = words(x) + words(yd);
            assert(p.drop_last() =~= words(x) + words(yd).drop_last());
            assert(p.last() == words(yd).last());
            assert(words(t) =~= words(x) + words(y));
        } else {
            if y.len() > 1 {
                assert(t[t.len() - 2] == y[y.len() - 2]);
            } else {
                assert(t[t.len() - 2] == ' ');
            }
            assert(words(t) =~= words(x) + words(y));
        }
    }
}

proof fn lemma_join_cons(a: Seq<char>, rest: Seq<Seq<char>>, sep: Seq<char>)
    requires
        rest.len() > 0,
    ensures
        join(seq![a] + rest, sep) == a + sep + join(rest, sep),
    decreases rest.len(),
{
    let all = seq![a] + rest;
    assert(all.last() == rest.last());
    assert(all.len() == rest.len() + 1);
    assert(join(all, sep) == join(all.drop_last(), sep) + sep + all.last());
    if rest.len() == 1 {
        assert(all.drop_last() =~= seq![a]);
        assert(join(seq![a], sep) == a);
        assert(join(rest, sep) == rest[0]);
        assert(rest.last() == rest[0]);
    } else {
        assert(all.drop_last() =~= seq![a] + rest.drop_last());
        assert(join(rest, sep) == join(rest.drop_last(), sep) + sep + rest.last());
        lemma_join_cons(a, rest.drop_last(), sep);
        assert(a + sep + join(rest.drop_last(), sep) + sep + rest.last() =~= a + sep + (join(
            rest.drop_last(),
            sep,
        ) + sep + rest.last()));
    }
}

/// Joining the pieces of `s` between the occurrences of a nonempty `p`
/// with `p` gives back `s`.
pub proof fn law_split_then_join(s: Seq<char>, p: Seq<char>)
    requires
        p.len() > 0,
    ensures
        join(split_on(s, p), p) == s,
    decreases s.len(),
{
    lemma_find_from(s, p, 0);
    match find(s, p) {
        None => {
            assert(split_on(s, p) == seq![s]);
            assert(seq![s][0] == s);
        },
        Some(i) => {
            let tail = s.skip(i + p.len());
            assert(split_on(s, p) == seq![s.take(i)] + split_on(tail, p));
            law_split_then_join(tail, p);
            lemma_split_on_nonempty(tail, p);
            lemma_join_cons(s.take(i), split_on(tail, p), p);
            assert(s.subrange(i, i + p.len()) =~= p);
            assert(s.take(i) + p + tail =~= s);
        },
    }
}

proof fn lemma_trim_start_shape(s: Seq<char>) -> (i: int)
    ensures
        0 <= i <= s.len(),
        trim_start(s) == s.skip(i),
        forall|k: int| 0 <= k < i ==> is_ws(#[trigger] s[k]),
        i < s.len() ==> !is_ws(s[i]),
    decreases s.len(),
{
    if s.len() > 0 && is_ws(s[0]) {
        let i0 = lemma_trim_start_shape(s.drop_first());
        assert(s.drop_first().skip(i0) =~= s.skip(i0 + 1));
        assert forall|k: int| 0 <= k < i0 + 1 implies is_ws(#[trigger] s[k]) by {
            if k > 0 {
                assert(s[k] == s.drop_first()[k - 1]);
            }
        }
        if i0 + 1 < s.len() {
            assert(s[i0 + 1] == s.drop_first()[i0]);
        }
        i0 + 1
    } else {
        assert(s.skip(0) =~= s);
        0
    }
}

proof fn lemma_trim_end_shape(s: Seq<char>) -> (j: int)
    ensures
        0 <= j <= s.len(),
        trim_end(s) == s.take(j),
        forall|k: int| j <= k < s.len() ==> is_ws(#[trigger] s[k]),
        j > 0 ==> !is_ws(s[j - 1]),
    decreases s.len(),
{
    if s.len() > 0 && is_ws(s.last()) {
        let j0 = lemma_trim_end_shape(s.drop_last());
        assert(s.drop_last().take(j0) =~= s.take(j0));
        assert forall|k: int| j0 <= k < s.len() implies is_ws(#[trigger] s[k]) by {
            if k < s.len() - 1 {
                assert(s[k] == s.drop_last()[k]);
            }
        }
        if j0 > 0 {
            assert(s[j0 - 1] == s.drop_last()[j0 - 1]);
        }
        j0
    } else {
        assert(s.take(s.len() as int) =~= s);
        s.len() as int
    }
}

/// Trimming removes exactly the whitespace at both ends: what is left is a
/// run of `s` that is empty or starts and ends with a non-whitespace
/// character, with only whitespace before and after it.
pub proof fn law_trim_removes_outer_whitespace(s: Seq<char>)
    ensures
        exists|i: int, j: int|
            {
                &&& 0 <= i <= j <= s.len()
                &&& trim(s) == s.subrange(i, j)
                &&& forall|k: int| 0 <= k < i ==> is_ws(#[trigger] s[k])
                &&& forall|k: int| j <= k < s.len() ==> is_ws(#[trigger] s[k])
                &&& i < j ==> !is_ws(s[i]) && !is_ws(s[j - 1])
            },
{
    let i = lemma_trim_start_shape(s);
    let t = s.skip(i);
    let j = lemma_trim_end_shape(t);
    assert(trim(s) =~= s.subrange(i, i + j));
    assert forall|k: int| i + j <= k < s.len() implies is_ws(#[trigger] s[k]) by {
        assert(s[k] == t[k - i]);
    }
    if j > 0 {
        assert(s[i] == t[0]);
        assert(s[i + j - 1] == t[j - 1]);
        if j == 1 {
        }
    }
    assert(i < i + j ==> !is_ws(s[i]) && !is_ws(s[i + j - 1]));
}

/// A text has no words exactly when it is all whitespace.
pub proof fn law_words_empty_iff_blank(s: Seq<char>)
    ensures
        words(s).len() == 0 <==> forall|k: int| 0 <= k < s.len() ==> is_ws(#[trigger] s[k]),
    decreases s.len(),
{
    if s.len() > 0 {
        law_words_empty_iff_blank(s.drop_last());
        if !is_ws(s.last()) {
            lemma_words_nonempty(s);
        } else {
            assert forall|k: int| 0 <= k < s.len() - 1 implies (is_ws(#[trigger] s[k]) <==> is_ws(
                s.drop_last()[k],
            )) by {}
        }
    }
}

/// Replacing a single character `x` by a text without `x` leaves no `x`.
pub proof fn law_replace_leaves_no_occurrence(s: Seq<char>, x: char, r: Seq<char>)
    requires
        forall|k: int| 0 <= k < r.len() ==> r[k] != x,
    ensures
        forall|k: int|
            0 <= k < replace_all(s, seq![x], r).len() ==> #[trigger] replace_all(s, seq![x], r)[k]
                != x,
    decreases s.len(),
{
    let p = seq![x];
    if s.len() >= 1 {
        law_replace_leaves_no_occurrence(s.drop_first(), x, r);
        assert(s.skip(1) =~= s.drop_first());
        let t = replace_all(s.drop_first(), p, r);
        if s.take(1) == p {
            assert forall|k: int| 0 <= k < (r + t).len() implies #[trigger] (r + t)[k] != x by {
                if k >= r.len() {
                    assert((r + t)[k] == t[k - r.len()]);
                }
            }
        } else {
            assert(s[0] != x) by {
                if s[0] == x {
                    assert(s.take(1) =~= p);
                }
            }
            assert forall|k: int| 0 <= k < (seq![s[0]] + t).len() implies #[trigger] (seq![s[0]]
                + t)[k] != x by {
                if k >= 1 {
                    assert((seq![s[0]] + t)[k] == t[k - 1]);
                }
            }
        }
    }
}

/// Each line after a space: the lines of two lists give the two results
/// run together, and one line gives a space followed by it.
pub proof fn law_spaced_lines_concat(ls: Seq<Seq<char>>, ms: Seq<Seq<char>>, l: Seq<char>)
    ensures
        spaced(ls + ms) == spaced(ls) + spaced(ms),
        spaced(seq![l]) == seq![' '] + l,
    decreases ls.len(),
{
    assert(seq![l].drop_first() =~= Seq::<Seq<char>>::empty());
    assert(spaced(seq![l]) == seq![' '] + seq![l][0] + spaced(seq![l].drop_first()));
    assert(seq![' '] + l + Seq::<char>::empty() =~= seq![' '] + l);
    let lm = ls + ms;
    if ls.len() == 0 {
        assert(lm =~= ms);
        assert(spaced(ls) + spaced(ms) =~= spaced(ms));
    } else {
        law_spaced_lines_concat(ls.drop_first(), ms, l);
        assert(lm.drop_first() =~= ls.drop_first() + ms);
        assert(lm[0] == ls[0]);
        assert(spaced(lm) == seq![' '] + lm[0] + spaced(lm.drop_first()));
        assert(spaced(ls) == seq![' '] + ls[0] + spaced(ls.drop_first()));
        assert(seq![' '] + ls[0] + (spaced(ls.drop_first()) + spaced(ms)) =~= seq![' '] + ls[0]
            + spaced(ls.drop_first()) + spaced(ms));
    }
}

proof fn lemma_no_line_feed(a: Seq<char>)
    requires
        forall|j: int| 0 <= j < a.len() ==> #[trigger] a[j] != '\n',
    ensures
        forall|i: int| #![trigger is_at(a, seq!['\n'], i)] !is_at(a, seq!['\n'], i),
{
    assert forall|i: int| #![trigger is_at(a, seq!['\n'], i)] !is_at(a, seq!['\n'], i) by {
        if is_at(a, seq!['\n'], i) {
            assert(a.subrange(i, i + 1)[0] == a[i]);
        }
    }
}

proof fn lemma_lines_single(a: Seq<char>)
    requires
        a.len() > 0,
        forall|j: int| 0 <= j < a.len() ==> #[trigger] a[j] != '\n',
    ensures
        lines(a) == seq![a],
{
    lemma_no_line_feed(a);
    lemma_find_from(a, seq!['\n'], 0);
    if find(a, seq!['\n']) is Some {
        let k = find(a, seq!['\n'])->Some_0;
        assert(is_at(a, seq!['\n'], k));
    }
}

proof fn lemma_lines_cons(a: Seq<char>, t: Seq<char>)
    requires
        forall|j: int| 0 <= j < a.len() ==> #[trigger] a[j] != '\n',
        a.len() == 0 || a.last() != '\r',
    ensures
        lines(a + seq!['\n'] + t) == seq![a] + lines(t),
{
    let nl = seq!['\n'];
    let s = a + nl + t;
    lemma_find_from(s, nl, 0);
    assert(is_at(s, nl, a.len() as int)) by {
        assert(s.subrange(a.len() as int, a.len() as int + 1) =~= nl);
    }
    assert forall|i: int| 0 <= i < a.len() implies !is_at(s, nl, i) by {
        if is_at(s, nl, i) {
            assert(s.subrange(i, i + 1)[0] == s[i]);
            assert(s[i] == a[i]);
        }
    }
    let k = find(s, nl)->Some_0;
    assert(k == a.len());
    assert(s.take(a.len() as int) =~= a);
    assert(s.skip(a.len() as int + 1) =~= t);
    assert(strip_cr(a) == a);
}

/// Lines that hold no line feed and do not end with a carriage return,
/// joined by line feeds, are read back as the same lines, provided the last
/// one is not empty.
pub proof fn law_lines_of_joined(ls: Seq<Seq<char>>)
    requires
        forall|k: int, j: int|
            0 <= k < ls.len() && 0 <= j < ls[k].len() ==> #[trigger] ls[k][j] != '\n',
        forall|k: int| 0 <= k < ls.len() ==> #[trigger] ls[k].len() == 0 || ls[k].last() != '\r',
        ls.len() > 0 ==> ls.last().len() > 0,
    ensures
        lines(join(ls, seq!['\n'])) == ls,
    decreases ls.len(),
{
    let nl = seq!['\n'];
    if ls.len() == 0 {
        assert(lines(Seq::<char>::empty()) =~= Seq::<Seq<char>>::empty());
    } else {
        let a = ls[0];
        assert(forall|j: int| 0 <= j < a.len() ==> #[trigger] a[j] != '\n');
        if ls.len() == 1 {
            assert(ls =~= seq![a]);
            assert(join(ls, nl) == a);
            lemma_lines_single(a);
        } else {
            let rest = ls.drop_first();
            assert forall|k: int, j: int|
                0 <= k < rest.len() && 0 <= j < rest[k].len() implies #[trigger] rest[k][j]
                != '\n' by {
                assert(rest[k] == ls[k + 1]);
            }
            assert forall|k: int| 0 <= k < rest.len() implies #[trigger] rest[k].len() == 0
                || rest[k].last() != '\r' by {
                assert(rest[k] == ls[k + 1]);
            }
            assert(rest.last() == ls.last());
            law_lines_of_joined(rest);
            assert(ls =~= seq![a] + rest);
            lemma_join_cons(a, rest, nl);
            lemma_lines_cons(a, join(rest, nl));
        }
    }
}

} // verus!
