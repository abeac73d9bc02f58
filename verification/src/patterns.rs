//! Regular expressions in the shell: substitution of the matches of a
//! pattern (command substitution, variable references), alias definitions
//! (`name="value"`) and variable assignments (`name=value`).
//!
//! Matching is done by the `regex` crate. A match is described by the byte
//! spans of its capture groups in the text searched; the text of a span is
//! the decoding of those bytes of the text's UTF-8 encoding.
use crate::input::blen;
use crate::text::{append_chars, chars_of, string_of};
use vstd::prelude::*;
use vstd::utf8::*;

verus! {

broadcast use vstd::string::group_string_axioms;

/// The pattern of an alias definition: a word, `=`, and a double-quoted
/// non-empty value.
pub const ALIAS_REGEX: &'static str = r#"(\w+)="([^"]+)""#;

/// The pattern of a variable assignment at the start of a command: a word,
/// `=`, and the rest of the line.
pub const ASSIGNMENT_REGEX: &'static str = r"^(\w+)=(.+)";

/// The pattern of a command substitution: a command between backquotes, or
/// between `$(` and `)`.
pub const SUBSTITUTION_REGEX: &'static str = r"(?:`([^`]+)`|\$\((.+)\))";

/// The pattern of a variable reference: `$` and a word.
pub const VARIABLE_REGEX: &'static str = r"\$(\w+)";

/// Whether `regex::Regex::new` accepts `pattern`.
pub uninterp spec fn regex_valid(pattern: Seq<char>) -> bool;

/// What `regex::Regex::captures_iter` yields for `pattern` on `haystack`:
/// for each successive match, the byte span of each capture group (group 0
/// first, the whole match), or `None` for a group that took no part.
pub uninterp spec fn regex_captures(pattern: Seq<char>, haystack: Seq<char>) -> Seq<
    Seq<Option<(usize, usize)>>,
>;

/// Whether byte offset `i` of the encoding of `h` starts a character, or is
/// its end.
pub open spec fn boundary(h: Seq<char>, i: int) -> bool {
    0 <= i <= blen(h) && is_char_boundary(encode_utf8(h), i)
}

/// The text of `h` between byte offsets `a` and `b`.
pub open spec fn text_of(h: Seq<char>, a: int, b: int) -> Seq<char> {
    decode_utf8(encode_utf8(h).subrange(a, b))
}

/// A group's span, where it took part, lies in `h` between boundaries.
pub open spec fn group_ok(h: Seq<char>, g: Option<(usize, usize)>) -> bool {
    g matches Some((a, b)) ==> a <= b && boundary(h, a as int) && boundary(h, b as int)
}

/// The span of a match as a whole (its group 0).
pub open spec fn whole(c: Seq<Option<(usize, usize)>>) -> (usize, usize) {
    match c[0] {
        Some(sp) => sp,
        None => (0, 0),
    }
}

/// What the `regex` crate promises of the captures it yields on `h`: each
/// match has its group 0, every span lies in `h` between character
/// boundaries, and successive matches do not overlap.
pub open spec fn captures_sane(h: Seq<char>, caps: Seq<Seq<Option<(usize, usize)>>>) -> bool {
    &&& forall|i: int| 0 <= i < caps.len() ==> #[trigger] caps[i].len() > 0 && caps[i][0] is Some
    &&& forall|i: int, k: int|
        0 <= i < caps.len() && 0 <= k < caps[i].len() ==> group_ok(h, #[trigger] caps[i][k])
    &&& forall|i: int| 0 <= i < caps.len() - 1 ==> #[trigger] whole(caps[i]).1 <= whole(caps[i + 1]).0
}

/// The captures as plain sequences.
pub open spec fn caps_view(v: Seq<Vec<Option<(usize, usize)>>>) -> Seq<Seq<Option<(usize, usize)>>> {
    v.map_values(|c: Vec<Option<(usize, usize)>>| c@)
}

/// `regex::Regex::new(pattern).is_ok()`: whether the pattern compiles. The
/// result is named `regex_valid`; the syntax and the size limits that
/// decide it are not restated here.
#[verifier::external_body]
pub(crate) fn regex_compiles(pattern: &str) -> (ok: bool)
    ensures
        ok == regex_valid(pattern@),
{
    regex::Regex::new(pattern).is_ok()
}

/// `regex::Regex::captures_iter` for `pattern`, compiled by
/// `regex::Regex::new`, on `haystack`, each match as
/// the spans (`Match::start`, `Match::end`) of its groups in the order of
/// `Captures::iter`. The result is named `regex_captures`; of it the crate
/// documents that group 0 is always present, that each offset falls on a
/// character boundary with start before end, and that the matches are
/// successive and do not overlap. Which matches the regex finds is not
/// restated here.
#[verifier::external_body]
pub(crate) fn captures_all(pattern: &str, haystack: &str) -> (r: Vec<Vec<Option<(usize, usize)>>>)
    requires
        regex_valid(pattern@),
    ensures
        caps_view(r@) == regex_captures(pattern@, haystack@),
        captures_sane(haystack@, caps_view(r@)),
{
    let re = regex::Regex::new(pattern).unwrap();
    re.captures_iter(haystack).map(
        |c| c.iter().map(|m| m.map(|m| (m.start(), m.end()))).collect(),
    ).collect()
}

/// Where `i` starts a character of `bytes` and `a` is a boundary at or
/// before it, `i - a` starts a character of the bytes from `a` on.
proof fn lemma_boundary_suffix(bytes: Seq<u8>, a: int, i: int)
    requires
        valid_utf8(bytes),
        is_char_boundary(bytes, a),
        is_char_boundary(bytes, i),
        0 <= a <= i <= bytes.len(),
    ensures
        valid_utf8(bytes.subrange(a, bytes.len() as int)),
        is_char_boundary(bytes.subrange(a, bytes.len() as int), i - a),
{
    valid_utf8_split(bytes, a);
    let t = bytes.subrange(a, bytes.len() as int);
    is_char_boundary_start_end_of_seq(t);
    if a < i < bytes.len() {
        is_char_boundary_iff_not_is_continuation_byte(bytes, i);
        is_char_boundary_iff_not_is_continuation_byte(t, i - a);
        assert(t[i - a] == bytes[i]);
    }
}

/// Where `c` and `i <= c` start characters of `bytes`, `i` starts a
/// character of the bytes before `c`.
proof fn lemma_boundary_prefix(bytes: Seq<u8>, c: int, i: int)
    requires
        valid_utf8(bytes),
        is_char_boundary(bytes, c),
        is_char_boundary(bytes, i),
        0 <= i <= c <= bytes.len(),
    ensures
        valid_utf8(bytes.subrange(0, c)),
        is_char_boundary(bytes.subrange(0, c), i),
{
    valid_utf8_split(bytes, c);
    let t = bytes.subrange(0, c);
    is_char_boundary_start_end_of_seq(t);
    if 0 < i < c {
        is_char_boundary_iff_not_is_continuation_byte(bytes, i);
        is_char_boundary_iff_not_is_continuation_byte(t, i);
        assert(t[i] == bytes[i]);
    }
}

/// The texts of two adjacent spans make the text of the span that covers
/// both.
pub proof fn lemma_text_concat(h: Seq<char>, a: int, b: int, c: int)
    requires
        a <= b <= c,
        boundary(h, a),
        boundary(h, b),
        boundary(h, c),
    ensures
        text_of(h, a, b) + text_of(h, b, c) == text_of(h, a, c),
{
    let bytes = encode_utf8(h);
    encode_utf8_valid_utf8(h);
    lemma_boundary_suffix(bytes, a, c);
    lemma_boundary_suffix(bytes, a, b);
    let t = bytes.subrange(a, bytes.len() as int);
    lemma_boundary_prefix(t, c - a, b - a);
    let u = t.subrange(0, c - a);
    assert(u =~= bytes.subrange(a, c));
    decode_utf8_split(u, b - a);
    assert(u.subrange(0, b - a) =~= bytes.subrange(a, b));
    assert(u.subrange(b - a, u.len() as int) =~= bytes.subrange(b, c));
}

/// The text of the whole encoding is the text itself.
pub proof fn lemma_text_all(h: Seq<char>)
    ensures
        text_of(h, 0, blen(h)) == h,
        boundary(h, 0),
        boundary(h, blen(h)),
{
    let bytes = encode_utf8(h);
    encode_utf8_valid_utf8(h);
    is_char_boundary_start_end_of_seq(bytes);
    assert(bytes.subrange(0, blen(h)) =~= bytes);
    encode_utf8_decode_utf8(h);
}

/// The text of `s` between byte offsets `a` and `b`, which are boundaries.
pub fn byte_slice(s: &str, a: usize, b: usize) -> (r: String)
    requires
        a <= b,
        boundary(s@, a as int),
        boundary(s@, b as int),
    ensures
        r@ == text_of(s@, a as int, b as int),
{
    let ghost bytes = encode_utf8(s@);
    proof {
        encode_utf8_valid_utf8(s@);
        lemma_boundary_suffix(bytes, a as int, b as int);
    }
    let (_, tail) = s.split_at(a);
    let (mid, _) = tail.split_at(b - a);
    proof {
        assert(encode_utf8(mid@) =~= bytes.subrange(a as int, b as int));
        encode_utf8_decode_utf8(mid@);
    }
    mid.to_owned()
}

/// The text of `s` from byte offset `a`, a boundary, to its end.
pub fn byte_suffix(s: &str, a: usize) -> (r: String)
    requires
        boundary(s@, a as int),
    ensures
        r@ == text_of(s@, a as int, blen(s@)),
{
    let (_, tail) = s.split_at(a);
    proof {
        encode_utf8_decode_utf8(tail@);
    }
    tail.to_owned()
}

/// The index of the first group of `c` at or after `k` that took part in
/// the match.
pub open spec fn first_some_from(c: Seq<Option<(usize, usize)>>, k: int) -> Option<int>
    decreases c.len() - k,
{
    if k < 0 || k >= c.len() {
        None
    } else if c[k] is Some {
        Some(k)
    } else {
        first_some_from(c, k + 1)
    }
}

/// Whether a match has a group after group 0 that took part in it.
pub open spec fn has_inner(c: Seq<Option<(usize, usize)>>) -> bool {
    first_some_from(c, 1) is Some
}

/// The span of the first group after group 0 that took part in the match.
pub open spec fn inner(c: Seq<Option<(usize, usize)>>) -> (usize, usize) {
    match first_some_from(c, 1) {
        Some(k) => match c[k] {
            Some(sp) => sp,
            None => (0, 0),
        },
        None => (0, 0),
    }
}

/// The text of that group in `h`.
pub open spec fn inner_text(h: Seq<char>, c: Seq<Option<(usize, usize)>>) -> Seq<char> {
    text_of(h, inner(c).0 as int, inner(c).1 as int)
}

/// Where the match before the `n`-th ends (0 for the first).
pub open spec fn end_before(caps: Seq<Seq<Option<(usize, usize)>>>, n: int) -> int {
    if n <= 0 {
        0
    } else {
        whole(caps[n - 1]).1 as int
    }
}

/// The text of `h` up to the end of its `n`-th match, each of the first
/// `n` matches replaced by the corresponding element of `outs`.
pub open spec fn replaced_upto(
    h: Seq<char>,
    caps: Seq<Seq<Option<(usize, usize)>>>,
    outs: Seq<Seq<char>>,
    n: int,
) -> Seq<char>
    decreases n,
{
    if n <= 0 {
        seq![]
    } else {
        replaced_upto(h, caps, outs, n - 1) + text_of(h, end_before(caps, n - 1), whole(
            caps[n - 1],
        ).0 as int) + outs[n - 1]
    }
}

/// `h` with each match of `caps` replaced by the corresponding element of
/// `outs`: `h[..s1] + outs[0] + h[e1..s2] + ... + outs[k-1] + h[ek..]`.
pub open spec fn replaced(
    h: Seq<char>,
    caps: Seq<Seq<Option<(usize, usize)>>>,
    outs: Seq<Seq<char>>,
) -> Seq<char> {
    replaced_upto(h, caps, outs, caps.len() as int) + text_of(
        h,
        end_before(caps, caps.len() as int),
        blen(h),
    )
}

/// `r` is `h` with each match of `caps` replaced by what `f` gives for the
/// text of the match's first group after group 0.
pub open spec fn replaced_by<F: Fn(&str) -> String>(
    h: Seq<char>,
    caps: Seq<Seq<Option<(usize, usize)>>>,
    f: F,
    r: Seq<char>,
) -> bool {
    exists|outs: Seq<Seq<char>>|
        {
            &&& r == #[trigger] replaced(h, caps, outs)
            &&& outs.len() == caps.len()
            &&& forall|k: int|
                0 <= k < outs.len() ==> exists|a: &str, o: String|
                    a@ == inner_text(h, #[trigger] caps[k]) && o@ == outs[k] && call_ensures(
                        f,
                        (a,),
                        o,
                    )
        }
}

/// The index of the first group of `c` at or after `k` that took part.
pub fn first_group_from(c: &Vec<Option<(usize, usize)>>, k: usize) -> (r: Option<usize>)
    ensures
        r matches Some(j) ==> first_some_from(c@, k as int) == Some(j as int) && j < c@.len(),
        r is None ==> first_some_from(c@, k as int) is None,
{
    let mut i: usize = k;
    while i < c.len()
        invariant
            k <= i,
            first_some_from(c@, k as int) == first_some_from(c@, i as int),
        decreases c.len() - i,
    {
        if c[i].is_some() {
            return Some(i);
        }
        i = i + 1;
    }
    None
}

/// Replaces each match of `caps` in `input`, left to right, by what `f`
/// gives for the text of the match's first group after group 0 that took
/// part; the text between matches is kept as it is.
pub fn replace_captures<F: Fn(&str) -> String>(
    input: &str,
    caps: &Vec<Vec<Option<(usize, usize)>>>,
    f: F,
) -> (r: String)
    requires
        captures_sane(input@, caps_view(caps@)),
        forall|i: int| 0 <= i < caps@.len() ==> has_inner(#[trigger] caps@[i]@),
        forall|a: &str| call_requires(f, (a,)),
    ensures
        replaced_by(input@, caps_view(caps@), f, r@),
{
    let ghost h = input@;
    let ghost cv = caps_view(caps@);
    let mut out: Vec<char> = Vec::new();
    let mut pos: usize = 0;
    let mut i: usize = 0;
    let ghost mut outs: Seq<Seq<char>> = seq![];
    proof {
        lemma_text_all(h);
    }
    while i < caps.len()
        invariant
            h == input@,
            cv == caps_view(caps@),
            captures_sane(h, cv),
            forall|j: int| 0 <= j < caps@.len() ==> has_inner(#[trigger] caps@[j]@),
            forall|a: &str| call_requires(f, (a,)),
            i <= caps.len(),
            outs.len() == i,
            pos == end_before(cv, i as int),
            boundary(h, pos as int),
            out@ == replaced_upto(h, cv, outs, i as int),
            forall|k: int|
                0 <= k < outs.len() ==> exists|a: &str, o: String|
                    a@ == inner_text(h, #[trigger] cv[k]) && o@ == outs[k] && call_ensures(
                        f,
                        (a,),
                        o,
                    ),
        decreases caps.len() - i,
    {
        let c = &caps[i];
        assert(cv[i as int] == c@);
        assert(c@.len() > 0 && c@[0] is Some);
        let (s, e) = match c[0] {
            Some(sp) => sp,
            None => (0, 0),
        };
        assert(group_ok(h, cv[i as int][0]));
        if i > 0 {
            assert(whole(cv[i - 1]).1 <= whole(cv[i as int]).0);
        }
        let k = first_group_from(c, 1);
        let (a, b) = match k {
            Some(j) => match c[j] {
                Some(sp) => sp,
                None => (0, 0),
            },
            None => (0, 0),
        };
        proof {
            assert(has_inner(c@));
            let j = first_some_from(c@, 1)->Some_0;
            lemma_first_some_from(c@, 1);
            assert(group_ok(h, cv[i as int][j]));
        }
        let before = byte_slice(input, pos, s);
        let arg_owned = byte_slice(input, a, b);
        let arg: &str = arg_owned.as_str();
        let rep = f(arg);
        append_chars(&mut out, &chars_of(before.as_str()));
        append_chars(&mut out, &chars_of(rep.as_str()));
        proof {
            let old_outs = outs;
            outs = outs.push(rep@);
            assert(replaced_upto(h, cv, outs, i + 1) == replaced_upto(h, cv, outs, i as int)
                + text_of(h, end_before(cv, i as int), whole(cv[i as int]).0 as int) + outs[i as int]);
            lemma_replaced_upto_prefix(h, cv, old_outs, outs, i as int);
            assert(out@ =~= replaced_upto(h, cv, outs, i + 1));
            assert forall|k: int| 0 <= k < outs.len() implies exists|a: &str, o: String|
                a@ == inner_text(h, #[trigger] cv[k]) && o@ == outs[k] && call_ensures(
                    f,
                    (a,),
                    o,
                ) by {
                if k < old_outs.len() {
                    assert(outs[k] == old_outs[k]);
                } else {
                    assert(arg@ == inner_text(h, cv[k]));
                    assert(call_ensures(f, (arg,), rep));
                }
            }
        }
        pos = e;
        i = i + 1;
    }
    let rest = byte_suffix(input, pos);
    append_chars(&mut out, &chars_of(rest.as_str()));
    let r = string_of(&out);
    assert(r@ == replaced(h, cv, outs));
    r
}

proof fn lemma_first_some_from(c: Seq<Option<(usize, usize)>>, k: int)
    ensures
        first_some_from(c, k) matches Some(j) ==> k <= j < c.len() && c[j] is Some,
    decreases c.len() - k,
{
    if 0 <= k < c.len() && c[k] is None {
        lemma_first_some_from(c, k + 1);
    }
}

proof fn lemma_replaced_upto_prefix(
    h: Seq<char>,
    caps: Seq<Seq<Option<(usize, usize)>>>,
    outs: Seq<Seq<char>>,
    more: Seq<Seq<char>>,
    n: int,
)
    requires
        0 <= n <= outs.len(),
        outs.len() <= more.len(),
        forall|k: int| 0 <= k < outs.len() ==> more[k] == outs[k],
    ensures
        replaced_upto(h, caps, more, n) == replaced_upto(h, caps, outs, n),
    decreases n,
{
    if n > 0 {
        lemma_replaced_upto_prefix(h, caps, outs, more, n - 1);
    }
}

/// Whether substitution by the regular expression `regex` can be done on
/// `h`: the pattern compiles, and each match has a capture group after
/// group 0 that took part.
pub open spec fn substitution_ok(regex: Seq<char>, h: Seq<char>) -> bool {
    &&& regex_valid(regex)
    &&& forall|i: int|
        0 <= i < regex_captures(regex, h).len() ==> has_inner(
            #[trigger] regex_captures(regex, h)[i],
        )
}

/// Replaces each match of the regular expression `regex` in `input`, left
/// to right, by what `f` gives for the text of the match's first capture
/// group that took part; the text between matches is kept as it is.
pub fn find_and_replace<F: Fn(&str) -> String>(input: &str, regex: &str, f: F) -> (r: String)
    requires
        substitution_ok(regex@, input@),
        forall|a: &str| call_requires(f, (a,)),
    ensures
        replaced_by(input@, regex_captures(regex@, input@), f, r@),
{
    let caps = captures_all(regex, input);
    assert forall|i: int| 0 <= i < caps@.len() implies has_inner(#[trigger] caps@[i]@) by {
        assert(caps_view(caps@)[i] == caps@[i]@);
    }
    replace_captures(input, &caps, f)
}

/// `find_and_replace`, where the regular expression may be refused or a
/// match may have no capture group that took part: then there is no
/// result.
pub fn find_and_replace_checked<F: Fn(&str) -> String>(input: &str, regex: &str, f: F) -> (r:
    Option<String>)
    requires
        forall|a: &str| call_requires(f, (a,)),
    ensures
        r is None <==> !substitution_ok(regex@, input@),
        r matches Some(s) ==> replaced_by(input@, regex_captures(regex@, input@), f, s@),
{
    if !regex_compiles(regex) {
        return None;
    }
    let caps = captures_all(regex, input);
    let ghost cv = caps_view(caps@);
    let mut i: usize = 0;
    while i < caps.len()
        invariant
            i <= caps.len(),
            cv == caps_view(caps@),
            cv == regex_captures(regex@, input@),
            forall|j: int| 0 <= j < i ==> has_inner(#[trigger] caps@[j]@),
        decreases caps.len() - i,
    {
        if first_group_from(&caps[i], 1).is_none() {
            assert(cv[i as int] == caps@[i as int]@);
            assert(!has_inner(cv[i as int]));
            return None;
        }
        i = i + 1;
    }
    assert forall|j: int| 0 <= j < cv.len() implies has_inner(#[trigger] cv[j]) by {
        assert(cv[j] == caps@[j]@);
    }
    Some(find_and_replace(input, regex, f))
}

/// Substitutes a command line: first each command substitution, by what
/// `run` gives for the command, then each variable reference in the result,
/// by what `lookup` gives for the name. There is no result where either
/// substitution cannot be done (see `substitution_ok`).
pub fn substitute<F: Fn(&str) -> String, G: Fn(&str) -> String>(
    input: &str,
    run: F,
    lookup: G,
) -> (r: Option<String>)
    requires
        forall|a: &str| call_requires(run, (a,)),
        forall|a: &str| call_requires(lookup, (a,)),
    ensures
        r matches Some(out) ==> exists|mid: Seq<char>|
            {
                &&& substitution_ok(SUBSTITUTION_REGEX@, input@)
                &&& #[trigger] replaced_by(
                    input@,
                    regex_captures(SUBSTITUTION_REGEX@, input@),
                    run,
                    mid,
                )
                &&& substitution_ok(VARIABLE_REGEX@, mid)
                &&& replaced_by(mid, regex_captures(VARIABLE_REGEX@, mid), lookup, out@)
            },
        r is None ==> !substitution_ok(SUBSTITUTION_REGEX@, input@) || exists|mid: Seq<char>|
            #[trigger] replaced_by(input@, regex_captures(SUBSTITUTION_REGEX@, input@), run, mid)
                && !substitution_ok(VARIABLE_REGEX@, mid),
{
    match find_and_replace_checked(input, SUBSTITUTION_REGEX, run) {
        None => None,
        Some(mid) => find_and_replace_checked(mid.as_str(), VARIABLE_REGEX, lookup),
    }
}

/// With one match, spanning `s..e`, substitution gives the text before it,
/// then what `f` gives for the text of the match's first capture group that
/// took part, then the text after it.
pub proof fn law_one_match_replaced<F: Fn(&str) -> String>(
    h: Seq<char>,
    c: Seq<Option<(usize, usize)>>,
    k: int,
    f: F,
    r: Seq<char>,
)
    requires
        captures_sane(h, seq![c]),
        1 <= k < c.len(),
        c[k] is Some,
        forall|j: int| 1 <= j < k ==> c[j] is None,
        replaced_by(h, seq![c], f, r),
    ensures
        ({
            let (s, e) = c[0]->Some_0;
            let (a, b) = c[k]->Some_0;
            exists|arg: &str, o: String|
                arg@ == text_of(h, a as int, b as int) && call_ensures(f, (arg,), o) && r == text_of(
                    h,
                    0,
                    s as int,
                ) + o@ + text_of(h, e as int, blen(h))
        }),
{
    let caps = seq![c];
    let outs = choose|outs: Seq<Seq<char>>|
        {
            &&& r == #[trigger] replaced(h, caps, outs)
            &&& outs.len() == caps.len()
            &&& forall|i: int|
                0 <= i < outs.len() ==> exists|a: &str, o: String|
                    a@ == inner_text(h, #[trigger] caps[i]) && o@ == outs[i] && call_ensures(
                        f,
                        (a,),
                        o,
                    )
        };
    assert(caps[0] == c);
    lemma_first_some_at(c, 1, k);
    let (arg, o) = choose|a: &str, o: String|
        a@ == inner_text(h, #[trigger] caps[0]) && o@ == outs[0] && call_ensures(f, (a,), o);
    assert(replaced_upto(h, caps, outs, 0) =~= Seq::<char>::empty());
    assert(replaced_upto(h, caps, outs, 1) =~= text_of(h, 0, whole(c).0 as int) + outs[0]);
}

proof fn lemma_first_some_at(c: Seq<Option<(usize, usize)>>, from: int, k: int)
    requires
        1 <= from <= k < c.len(),
        c[k] is Some,
        forall|j: int| from <= j < k ==> c[j] is None,
    ensures
        first_some_from(c, from) == Some(k),
    decreases k - from,
{
    if from < k {
        lemma_first_some_at(c, from + 1, k);
    }
}

/// Where a regular expression has no match, substitution leaves the text as
/// it is.
pub proof fn law_no_match_unchanged(h: Seq<char>, outs: Seq<Seq<char>>)
    ensures
        replaced(h, seq![], outs) == h,
{
    lemma_text_all(h);
    assert(replaced_upto(h, seq![], outs, 0) =~= Seq::<char>::empty());
}

/// Where every match is exactly its first capture group that took part, and
/// `f` gives back the text it is handed, substitution gives back the text
/// unchanged.
pub proof fn law_identity_replacement<F: Fn(&str) -> String>(
    h: Seq<char>,
    caps: Seq<Seq<Option<(usize, usize)>>>,
    f: F,
    r: Seq<char>,
)
    requires
        captures_sane(h, caps),
        forall|i: int| 0 <= i < caps.len() ==> has_inner(#[trigger] caps[i]),
        forall|i: int| 0 <= i < caps.len() ==> #[trigger] inner(caps[i]) == whole(caps[i]),
        forall|a: &str, o: String| call_ensures(f, (a,), o) ==> o@ == a@,
        replaced_by(h, caps, f, r),
    ensures
        r == h,
{
    let outs = choose|outs: Seq<Seq<char>>|
        {
            &&& r == #[trigger] replaced(h, caps, outs)
            &&& outs.len() == caps.len()
            &&& forall|k: int|
                0 <= k < outs.len() ==> exists|a: &str, o: String|
                    a@ == inner_text(h, #[trigger] caps[k]) && o@ == outs[k] && call_ensures(
                        f,
                        (a,),
                        o,
                    )
        };
    assert forall|i: int| 0 <= i < caps.len() implies #[trigger] outs[i] == inner_text(h, caps[i]) by {
        let (a, o) = choose|a: &str, o: String|
            a@ == inner_text(h, #[trigger] caps[i]) && o@ == outs[i] && call_ensures(f, (a,), o);
    }
    lemma_text_all(h);
    lemma_identity_upto(h, caps, outs, caps.len() as int);
    let n = caps.len() as int;
    if n > 0 {
        assert(group_ok(h, caps[n - 1][0]));
    }
    lemma_text_concat(h, 0, end_before(caps, n), blen(h));
}

proof fn lemma_identity_upto(
    h: Seq<char>,
    caps: Seq<Seq<Option<(usize, usize)>>>,
    outs: Seq<Seq<char>>,
    n: int,
)
    requires
        captures_sane(h, caps),
        forall|i: int| 0 <= i < caps.len() ==> #[trigger] inner(caps[i]) == whole(caps[i]),
        outs.len() == caps.len(),
        forall|i: int| 0 <= i < caps.len() ==> #[trigger] outs[i] == inner_text(h, caps[i]),
        0 <= n <= caps.len(),
    ensures
        replaced_upto(h, caps, outs, n) == text_of(h, 0, end_before(caps, n)),
        boundary(h, end_before(caps, n)),
    decreases n,
{
    lemma_text_all(h);
    if n == 0 {
        assert(text_of(h, 0, 0) =~= Seq::<char>::empty());
    } else {
        lemma_identity_upto(h, caps, outs, n - 1);
        let p = end_before(caps, n - 1);
        let c = caps[n - 1];
        assert(c.len() > 0 && c[0] is Some);
        assert(group_ok(h, c[0]));
        if n > 1 {
            assert(whole(caps[n - 2]).1 <= whole(caps[n - 1]).0);
        }
        lemma_text_concat(h, 0, p, whole(c).0 as int);
        lemma_text_concat(h, 0, whole(c).0 as int, whole(c).1 as int);
    }
}

/// The text of group `k` of a match in `h`; empty where it took no part.
pub open spec fn group_text(h: Seq<char>, c: Seq<Option<(usize, usize)>>, k: int) -> Seq<char> {
    if 0 <= k < c.len() {
        match c[k] {
            Some((a, b)) => text_of(h, a as int, b as int),
            None => seq![],
        }
    } else {
        seq![]
    }
}

/// Whether groups 1 and 2 of a match took part in it.
pub open spec fn has_pair(c: Seq<Option<(usize, usize)>>) -> bool {
    c.len() > 2 && c[1] is Some && c[2] is Some
}

/// The alias definitions `name="value"` in `s`, in order, as
/// `(name, value)`.
pub open spec fn alias_defs(s: Seq<char>) -> Seq<(Seq<char>, Seq<char>)> {
    let caps = regex_captures(ALIAS_REGEX@, s);
    Seq::new(caps.len(), |i: int| (group_text(s, caps[i], 1), group_text(s, caps[i], 2)))
}

/// Whether the alias pattern compiles and each of its matches in `s` has
/// its name and value groups.
pub open spec fn alias_defs_ok(s: Seq<char>) -> bool {
    &&& regex_valid(ALIAS_REGEX@)
    &&& forall|i: int|
        0 <= i < regex_captures(ALIAS_REGEX@, s).len() ==> has_pair(
            #[trigger] regex_captures(ALIAS_REGEX@, s)[i],
        )
}

/// Whether groups 1 and 2 of a match took part in it.
pub fn pair_complete(c: &Vec<Option<(usize, usize)>>) -> (b: bool)
    ensures
        b == has_pair(c@),
{
    c.len() > 2 && c[1].is_some() && c[2].is_some()
}

/// Whether every match has its groups 1 and 2.
pub fn pairs_complete(caps: &Vec<Vec<Option<(usize, usize)>>>) -> (b: bool)
    ensures
        b == forall|i: int| 0 <= i < caps@.len() ==> has_pair(#[trigger] caps@[i]@),
{
    let mut i: usize = 0;
    while i < caps.len()
        invariant
            i <= caps.len(),
            forall|j: int| 0 <= j < i ==> has_pair(#[trigger] caps@[j]@),
        decreases caps.len() - i,
    {
        if !pair_complete(&caps[i]) {
            return false;
        }
        i = i + 1;
    }
    true
}

/// The texts of groups 1 and 2 of a match of `s`.
pub fn pair_of(s: &str, c: &Vec<Option<(usize, usize)>>) -> (r: (String, String))
    requires
        has_pair(c@),
        forall|k: int| 0 <= k < c@.len() ==> group_ok(s@, #[trigger] c@[k]),
    ensures
        r.0@ == group_text(s@, c@, 1),
        r.1@ == group_text(s@, c@, 2),
{
    assert(group_ok(s@, c@[1]) && group_ok(s@, c@[2]));
    let (a, b) = match c[1] {
        Some(sp) => sp,
        None => (0, 0),
    };
    let (x, y) = match c[2] {
        Some(sp) => sp,
        None => (0, 0),
    };
    (byte_slice(s, a, b), byte_slice(s, x, y))
}

/// The texts of groups 1 and 2 of each match of `s`, in order.
pub fn pairs_of(s: &str, caps: &Vec<Vec<Option<(usize, usize)>>>) -> (r: Vec<(String, String)>)
    requires
        captures_sane(s@, caps_view(caps@)),
        forall|i: int| 0 <= i < caps@.len() ==> has_pair(#[trigger] caps@[i]@),
    ensures
        r@.len() == caps@.len(),
        forall|i: int|
            0 <= i < r@.len() ==> (#[trigger] r@[i]).0@ == group_text(s@, caps@[i]@, 1) && r@[i].1@
                == group_text(s@, caps@[i]@, 2),
{
    let ghost cv = caps_view(caps@);
    let mut r: Vec<(String, String)> = Vec::new();
    let mut i: usize = 0;
    while i < caps.len()
        invariant
            i <= caps.len(),
            cv == caps_view(caps@),
            captures_sane(s@, cv),
            forall|j: int| 0 <= j < caps@.len() ==> has_pair(#[trigger] caps@[j]@),
            r@.len() == i,
            forall|j: int|
                0 <= j < i ==> (#[trigger] r@[j]).0@ == group_text(s@, caps@[j]@, 1) && r@[j].1@
                    == group_text(s@, caps@[j]@, 2),
        decreases caps.len() - i,
    {
        let c = &caps[i];
        assert(cv[i as int] == c@);
        assert forall|k: int| 0 <= k < c@.len() implies group_ok(s@, #[trigger] c@[k]) by {
            assert(group_ok(s@, cv[i as int][k]));
        }
        let p = pair_of(s, c);
        r.push(p);
        i = i + 1;
    }
    r
}

/// Whether `alias_definitions` can read `s` (see `alias_defs_ok`).
pub fn alias_defs_readable(s: &str) -> (b: bool)
    ensures
        b == alias_defs_ok(s@),
{
    if !regex_compiles(ALIAS_REGEX) {
        return false;
    }
    let caps = captures_all(ALIAS_REGEX, s);
    let b = pairs_complete(&caps);
    proof {
        let cv = caps_view(caps@);
        if b {
            assert forall|i: int| 0 <= i < cv.len() implies has_pair(#[trigger] cv[i]) by {
                assert(cv[i] == caps@[i]@);
            }
        } else {
            let i = choose|i: int| 0 <= i < caps@.len() && !has_pair(#[trigger] caps@[i]@);
            assert(cv[i] == caps@[i]@);
        }
    }
    b
}

/// The alias definitions `name="value"` in `s`, in order.
pub fn alias_definitions(s: &str) -> (r: Vec<(String, String)>)
    requires
        alias_defs_ok(s@),
    ensures
        r@.len() == alias_defs(s@).len(),
        forall|i: int|
            0 <= i < r@.len() ==> (#[trigger] r@[i]).0@ == alias_defs(s@)[i].0 && r@[i].1@
                == alias_defs(s@)[i].1,
{
    let caps = captures_all(ALIAS_REGEX, s);
    let ghost cv = caps_view(caps@);
    assert forall|i: int| 0 <= i < caps@.len() implies has_pair(#[trigger] caps@[i]@) by {
        assert(cv[i] == caps@[i]@);
    }
    let r = pairs_of(s, &caps);
    assert forall|i: int| 0 <= i < r@.len() implies (#[trigger] r@[i]).0@ == alias_defs(s@)[i].0
        && r@[i].1@ == alias_defs(s@)[i].1 by {
        assert(cv[i] == caps@[i]@);
    }
    r
}

/// The texts of groups 1 and 2 of the first match of `s`, if there is one.
pub fn first_pair(s: &str, caps: &Vec<Vec<Option<(usize, usize)>>>) -> (r: Option<(String, String)>)
    requires
        captures_sane(s@, caps_view(caps@)),
        caps@.len() > 0 ==> has_pair(caps@[0]@),
    ensures
        r is None <==> caps@.len() == 0,
        r matches Some((n, v)) ==> n@ == group_text(s@, caps@[0]@, 1) && v@ == group_text(
            s@,
            caps@[0]@,
            2,
        ),
{
    if caps.len() == 0 {
        return None;
    }
    let c = &caps[0];
    assert(caps_view(caps@)[0] == c@);
    assert forall|k: int| 0 <= k < c@.len() implies group_ok(s@, #[trigger] c@[k]) by {
        assert(group_ok(s@, caps_view(caps@)[0][k]));
    }
    Some(pair_of(s, c))
}

/// The assignment `name=value` that `s` starts with, if any.
pub open spec fn assignment(s: Seq<char>) -> Option<(Seq<char>, Seq<char>)> {
    let caps = regex_captures(ASSIGNMENT_REGEX@, s);
    if caps.len() > 0 {
        Some((group_text(s, caps[0], 1), group_text(s, caps[0], 2)))
    } else {
        None
    }
}

/// Whether the assignment pattern compiles and its first match in `s`, if
/// any, has its name and value groups.
pub open spec fn assignment_ok(s: Seq<char>) -> bool {
    &&& regex_valid(ASSIGNMENT_REGEX@)
    &&& regex_captures(ASSIGNMENT_REGEX@, s).len() > 0 ==> has_pair(
        regex_captures(ASSIGNMENT_REGEX@, s)[0],
    )
}

/// Whether `parse_assignment` can read `s` (see `assignment_ok`).
pub fn assignment_readable(s: &str) -> (b: bool)
    ensures
        b == assignment_ok(s@),
{
    if !regex_compiles(ASSIGNMENT_REGEX) {
        return false;
    }
    let caps = captures_all(ASSIGNMENT_REGEX, s);
    if caps.len() == 0 {
        return true;
    }
    assert(caps_view(caps@)[0] == caps@[0]@);
    pair_complete(&caps[0])
}

/// The assignment `name=value` that `s` starts with, if any.
pub fn parse_assignment(s: &str) -> (r: Option<(String, String)>)
    requires
        assignment_ok(s@),
    ensures
        r is None <==> assignment(s@) is None,
        r matches Some((n, v)) ==> assignment(s@) == Some((n@, v@)),
{
    let caps = captures_all(ASSIGNMENT_REGEX, s);
    if caps.len() > 0 {
        assert(caps_view(caps@)[0] == caps@[0]@);
    }
    first_pair(s, &caps)
}

} // verus!
