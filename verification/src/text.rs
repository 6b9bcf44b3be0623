//! Character-level text utilities shared by the parsers and renderers.
//!
//! Text is modelled as `Seq<char>`. Whitespace is Unicode `White_Space`, the
//! property that `char::is_whitespace` and the `\s` class of regular
//! expressions both use.

use vstd::prelude::*;
use vstd::slice::slice_subrange;
use vstd::slice::slice_to_vec;

verus! {

broadcast use vstd::slice::group_slice_axioms;

/// The views of a sequence of character vectors.
pub open spec fn views(v: Seq<Vec<char>>) -> Seq<Seq<char>> {
    v.map_values(|x: Vec<char>| x@)
}

/// Unicode `White_Space`: U+0009..U+000D, U+0020, U+0085, U+00A0, U+1680,
/// U+2000..U+200A, U+2028, U+2029, U+202F, U+205F, U+3000.
pub open spec fn is_ws(c: char) -> bool {
    let u = c as u32;
    ||| 0x09 <= u <= 0x0d
    ||| u == 0x20
    ||| u == 0x85
    ||| u == 0xa0
    ||| u == 0x1680
    ||| 0x2000 <= u <= 0x200a
    ||| u == 0x2028
    ||| u == 0x2029
    ||| u == 0x202f
    ||| u == 0x205f
    ||| u == 0x3000
}

/// Whether `c` is Unicode whitespace (same answer as `char::is_whitespace`).
pub fn is_whitespace(c: char) -> (b: bool)
    ensures
        b == is_ws(c),
{
    let u = c as u32;
    (0x09 <= u && u <= 0x0d) || u == 0x20 || u == 0x85 || u == 0xa0 || u == 0x1680 || (0x2000
        <= u && u <= 0x200a) || u == 0x2028 || u == 0x2029 || u == 0x202f || u == 0x205f || u
        == 0x3000
}

/// Every character of `s` is whitespace.
pub open spec fn all_ws(s: Seq<char>) -> bool {
    forall|i: int| 0 <= i < s.len() ==> is_ws(#[trigger] s[i])
}

/// Number of consecutive whitespace characters of `s` starting at `i`.
pub open spec fn ws_run(s: Seq<char>, i: int) -> nat
    decreases s.len() - i,
{
    if i < 0 || i >= s.len() || !is_ws(s[i]) {
        0
    } else {
        1 + ws_run(s, i + 1)
    }
}

/// Number of consecutive non-whitespace characters of `s` starting at `i`.
pub open spec fn word_run(s: Seq<char>, i: int) -> nat
    decreases s.len() - i,
{
    if i < 0 || i >= s.len() || is_ws(s[i]) {
        0
    } else {
        1 + word_run(s, i + 1)
    }
}

/// Number of consecutive whitespace characters of `s` ending just before `e`.
pub open spec fn ws_run_back(s: Seq<char>, e: int) -> nat
    decreases e,
{
    if e <= 0 || e > s.len() || !is_ws(s[e - 1]) {
        0
    } else {
        1 + ws_run_back(s, e - 1)
    }
}

/// `s` without leading whitespace (`str::trim_start`).
pub open spec fn trim_start(s: Seq<char>) -> Seq<char> {
    s.skip(ws_run(s, 0) as int)
}

/// `s` without trailing whitespace (`str::trim_end`).
pub open spec fn trim_end(s: Seq<char>) -> Seq<char> {
    s.take(s.len() - ws_run_back(s, s.len() as int))
}

/// `s` without leading and trailing whitespace (`str::trim`).
pub open spec fn trim(s: Seq<char>) -> Seq<char> {
    trim_end(trim_start(s))
}

pub proof fn lemma_ws_run_bound(s: Seq<char>, i: int)
    requires
        0 <= i <= s.len(),
    ensures
        i + ws_run(s, i) <= s.len(),
        forall|j: int| i <= j < i + ws_run(s, i) ==> is_ws(#[trigger] s[j]),
        i + ws_run(s, i) < s.len() ==> !is_ws(s[i + ws_run(s, i)]),
    decreases s.len() - i,
{
    if i < s.len() && is_ws(s[i]) {
        lemma_ws_run_bound(s, i + 1);
    }
}

pub proof fn lemma_word_run_bound(s: Seq<char>, i: int)
    requires
        0 <= i <= s.len(),
    ensures
        i + word_run(s, i) <= s.len(),
        forall|j: int| i <= j < i + word_run(s, i) ==> !is_ws(#[trigger] s[j]),
        i + word_run(s, i) < s.len() ==> is_ws(s[i + word_run(s, i)]),
    decreases s.len() - i,
{
    if i < s.len() && !is_ws(s[i]) {
        lemma_word_run_bound(s, i + 1);
    }
}

pub proof fn lemma_ws_run_back_bound(s: Seq<char>, e: int)
    requires
        0 <= e <= s.len(),
    ensures
        ws_run_back(s, e) <= e,
        forall|j: int| e - ws_run_back(s, e) <= j < e ==> is_ws(#[trigger] s[j]),
        e - ws_run_back(s, e) > 0 ==> !is_ws(s[e - ws_run_back(s, e) - 1]),
    decreases e,
{
    if e > 0 && is_ws(s[e - 1]) {
        lemma_ws_run_back_bound(s, e - 1);
    }
}

/// Index of the first character past the line that starts at `i`: one past
/// the next `'\n'`, or the end of `s`.
pub open spec fn line_end(s: Seq<char>, i: int) -> int
    decreases s.len() - i,
{
    if i >= s.len() {
        s.len() as int
    } else if s[i] == '\n' {
        i + 1
    } else {
        line_end(s, i + 1)
    }
}

pub proof fn lemma_line_end(s: Seq<char>, i: int)
    requires
        0 <= i < s.len(),
    ensures
        i < line_end(s, i) <= s.len(),
        forall|j: int| i <= j < line_end(s, i) - 1 ==> #[trigger] s[j] != '\n',
        line_end(s, i) < s.len() ==> s[line_end(s, i) - 1] == '\n',
    decreases s.len() - i,
{
    if s[i] == '\n' {
        assert(line_end(s, i) == i + 1);
    } else if i + 1 < s.len() {
        lemma_line_end(s, i + 1);
        assert(line_end(s, i) == line_end(s, i + 1));
    } else {
        assert(line_end(s, i + 1) == s.len());
        assert(line_end(s, i) == line_end(s, i + 1));
    }
}

/// The lines of `s` from index `i` on, each keeping its `'\n'`
/// (`str::split_inclusive('\n')`).
pub open spec fn lines_from(s: Seq<char>, i: int) -> Seq<Seq<char>>
    decreases s.len() - i,
{
    if i < 0 || i >= s.len() {
        Seq::empty()
    } else {
        let e = line_end(s, i);
        if e <= i || e > s.len() {
            Seq::empty()
        } else {
            seq![s.subrange(i, e)] + lines_from(s, e)
        }
    }
}

/// `str::split_inclusive('\n')`.
pub open spec fn lines(s: Seq<char>) -> Seq<Seq<char>> {
    lines_from(s, 0)
}

/// The whitespace-separated words of `s` from index `i` on.
pub open spec fn words_from(s: Seq<char>, i: int) -> Seq<Seq<char>>
    decreases s.len() - i,
{
    if i < 0 || i >= s.len() {
        Seq::empty()
    } else {
        let a = i + ws_run(s, i);
        let e = a + word_run(s, a);
        if a >= s.len() || e <= i || e > s.len() {
            Seq::empty()
        } else {
            seq![s.subrange(a, e)] + words_from(s, e)
        }
    }
}

/// `str::split_whitespace`.
pub open spec fn words(s: Seq<char>) -> Seq<Seq<char>> {
    words_from(s, 0)
}

/// The concatenation of a sequence of texts.
pub open spec fn concat(ls: Seq<Seq<char>>) -> Seq<char>
    decreases ls.len(),
{
    if ls.len() == 0 {
        Seq::empty()
    } else {
        concat(ls.drop_last()) + ls.last()
    }
}

pub proof fn lemma_concat_push(ls: Seq<Seq<char>>, x: Seq<char>)
    ensures
        concat(ls.push(x)) == concat(ls) + x,
{
    assert(ls.push(x).drop_last() == ls);
}

pub proof fn lemma_concat_single(x: Seq<char>)
    ensures
        concat(seq![x]) == x,
{
    assert(seq![x].drop_last() =~= Seq::<Seq<char>>::empty());
    assert(concat(Seq::<Seq<char>>::empty()) == Seq::<char>::empty());
    assert(Seq::<char>::empty() + x =~= x);
}

pub proof fn lemma_concat_append(a: Seq<Seq<char>>, b: Seq<Seq<char>>)
    ensures
        concat(a + b) == concat(a) + concat(b),
    decreases b.len(),
{
    if b.len() == 0 {
        assert(a + b == a);
        assert(concat(b) == Seq::<char>::empty());
        assert(concat(a) + concat(b) == concat(a));
    } else {
        lemma_concat_append(a, b.drop_last());
        assert((a + b).drop_last() == a + b.drop_last());
        assert((a + b).last() == b.last());
        assert(concat(a) + concat(b.drop_last()) + b.last() == concat(a) + (concat(
            b.drop_last(),
        ) + b.last()));
    }
}

pub proof fn lemma_lines_from_concat(s: Seq<char>, i: int)
    requires
        0 <= i <= s.len(),
    ensures
        concat(lines_from(s, i)) == s.skip(i),
    decreases s.len() - i,
{
    if i < s.len() {
        lemma_line_end(s, i);
        let e = line_end(s, i);
        lemma_lines_from_concat(s, e);
        lemma_concat_append(seq![s.subrange(i, e)], lines_from(s, e));
        lemma_concat_single(s.subrange(i, e));
        assert(s.skip(i) == s.subrange(i, e) + s.skip(e));
    } else {
        assert(s.skip(i) == Seq::<char>::empty());
    }
}

/// Joining the lines of a text gives the text back.
pub proof fn lemma_lines_concat(s: Seq<char>)
    ensures
        concat(lines(s)) == s,
{
    lemma_lines_from_concat(s, 0);
    assert(s.skip(0) == s);
}

/// Appends one character to a `String` (`String::push`).
/// Contract: the string afterwards is the old string followed by `c`.
#[verifier::external_body]
pub(crate) fn push_char(s: &mut String, c: char)
    ensures
        final(s)@ == old(s)@.push(c),
{
    s.push(c);
}

/// The characters of `s`, in order.
pub fn str_to_chars(s: &str) -> (v: Vec<char>)
    ensures
        v@ == s@,
{
    let mut v: Vec<char> = Vec::new();
    for c in it: s.chars()
        invariant
            v@ == it.seq().take(it.index() as int),
            it.seq() == s@,
    {
        v.push(c);
    }
    v
}

/// A `String` holding exactly the characters of `v`.
pub fn chars_to_string(v: &[char]) -> (s: String)
    ensures
        s@ == v@,
{
    let mut s = String::new();
    let mut i: usize = 0;
    while i < v.len()
        invariant
            i <= v@.len(),
            s@ == v@.take(i as int),
        decreases v@.len() - i,
    {
        push_char(&mut s, v[i]);
        assert(v@.take(i + 1) == v@.take(i as int).push(v@[i as int]));
        i = i + 1;
    }
    assert(v@.take(v@.len() as int) == v@);
    s
}

/// Appends all of `s` to `out`.
pub fn push_all(out: &mut Vec<char>, s: &[char])
    ensures
        final(out)@ == old(out)@ + s@,
{
    let ghost start = out@;
    let mut i: usize = 0;
    while i < s.len()
        invariant
            i <= s@.len(),
            out@ == start + s@.take(i as int),
        decreases s@.len() - i,
    {
        out.push(s[i]);
        assert(s@.take(i + 1) == s@.take(i as int).push(s@[i as int]));
        i = i + 1;
    }
    assert(s@.take(s@.len() as int) == s@);
}

/// Appends the characters of `s` to `out`.
pub fn push_str(out: &mut Vec<char>, s: &str)
    ensures
        final(out)@ == old(out)@ + s@,
{
    let v = str_to_chars(s);
    push_all(out, v.as_slice());
}

/// The characters of `v` between `a` and `b`.
pub fn sub_chars(v: &[char], a: usize, b: usize) -> (r: Vec<char>)
    requires
        a <= b <= v@.len(),
    ensures
        r@ == v@.subrange(a as int, b as int),
{
    slice_to_vec(slice_subrange(v, a, b))
}

/// Whether two texts are equal.
pub fn chars_eq(a: &[char], b: &[char]) -> (r: bool)
    ensures
        r == (a@ == b@),
{
    if a.len() != b.len() {
        return false;
    }
    let mut i: usize = 0;
    while i < a.len()
        invariant
            a@.len() == b@.len(),
            i <= a@.len(),
            forall|j: int| 0 <= j < i ==> a@[j] == b@[j],
        decreases a@.len() - i,
    {
        if a[i] != b[i] {
            return false;
        }
        i = i + 1;
    }
    assert(a@ =~= b@);
    true
}

/// Whether `p` occurs in `s` at index `i`.
pub open spec fn occurs_at(s: Seq<char>, p: Seq<char>, i: int) -> bool {
    0 <= i && i + p.len() <= s.len() && s.subrange(i, i + p.len()) == p
}

/// Whether `p` occurs in `s` at index `i`.
pub fn chars_occur_at(s: &[char], p: &[char], i: usize) -> (r: bool)
    ensures
        r == occurs_at(s@, p@, i as int),
{
    if i > s.len() || p.len() > s.len() - i {
        return false;
    }
    let mut j: usize = 0;
    while j < p.len()
        invariant
            i + p@.len() <= s@.len(),
            i + p.len() <= s.len(),
            j <= p@.len(),
            forall|k: int| 0 <= k < j ==> s@[i + k] == p@[k],
        decreases p@.len() - j,
    {
        if s[i + j] != p[j] {
            assert(s@.subrange(i as int, i + p@.len())[j as int] != p@[j as int]);
            return false;
        }
        j = j + 1;
    }
    assert(s@.subrange(i as int, i + p@.len()) =~= p@);
    true
}

/// Whether `s` starts with `p`.
pub fn chars_starts_with(s: &[char], p: &[char]) -> (r: bool)
    ensures
        r == (p@.len() <= s@.len() && s@.take(p@.len() as int) == p@),
{
    let r = chars_occur_at(s, p, 0);
    assert(p@.len() <= s@.len() ==> s@.subrange(0, p@.len() as int) == s@.take(p@.len() as int));
    r
}

/// Whether `s` ends with `p`.
pub fn chars_ends_with(s: &[char], p: &[char]) -> (r: bool)
    ensures
        r == (p@.len() <= s@.len() && s@.skip(s@.len() - p@.len()) == p@),
{
    if p.len() > s.len() {
        return false;
    }
    let r = chars_occur_at(s, p, s.len() - p.len());
    assert(s@.subrange(s@.len() - p@.len(), s@.len() as int) == s@.skip(s@.len() - p@.len()));
    r
}

/// Length of the run of whitespace in `s` starting at `i`.
pub fn ws_run_exec(s: &[char], i: usize) -> (n: usize)
    requires
        i <= s@.len(),
    ensures
        n == ws_run(s@, i as int),
{
    let mut j = i;
    proof {
        lemma_ws_run_bound(s@, i as int);
    }
    while j < s.len() && is_whitespace(s[j])
        invariant
            i <= j <= s@.len(),
            ws_run(s@, i as int) == (j - i) + ws_run(s@, j as int),
        decreases s@.len() - j,
    {
        j = j + 1;
    }
    j - i
}

/// Length of the run of non-whitespace in `s` starting at `i`.
pub fn word_run_exec(s: &[char], i: usize) -> (n: usize)
    requires
        i <= s@.len(),
    ensures
        n == word_run(s@, i as int),
{
    let mut j = i;
    while j < s.len() && !is_whitespace(s[j])
        invariant
            i <= j <= s@.len(),
            word_run(s@, i as int) == (j - i) + word_run(s@, j as int),
        decreases s@.len() - j,
    {
        j = j + 1;
    }
    j - i
}

/// `s` without leading and trailing whitespace.
pub fn trim_chars(s: &[char]) -> (r: Vec<char>)
    ensures
        r@ == trim(s@),
{
    let a = ws_run_exec(s, 0);
    proof {
        lemma_ws_run_bound(s@, 0);
    }
    let ghost t = s@.skip(a as int);
    let mut e = s.len();
    proof {
        lemma_ws_run_back_bound(t, t.len() as int);
    }
    while e > a && is_whitespace(s[e - 1])
        invariant
            a <= e <= s@.len(),
            t == s@.skip(a as int),
            ws_run_back(t, t.len() as int) == (s@.len() - e) + ws_run_back(t, e - a),
        decreases e,
    {
        assert(t[e - a - 1] == s@[e - 1]);
        e = e - 1;
    }
    proof {
        if e > a {
            assert(t[e - a - 1] == s@[e - 1]);
        }
        assert(t.take(t.len() - ws_run_back(t, t.len() as int)) =~= s@.subrange(
            a as int,
            e as int,
        ));
    }
    sub_chars(s, a, e)
}

/// The lines of `s`, each keeping its terminating `'\n'`.
pub fn split_lines(s: &[char]) -> (r: Vec<Vec<char>>)
    ensures
        views(r@) == lines(s@),
{
    let mut r: Vec<Vec<char>> = Vec::new();
    let mut i: usize = 0;
    while i < s.len()
        invariant
            i <= s@.len(),
            views(r@) + lines_from(s@, i as int) == lines(s@),
        decreases s@.len() - i,
    {
        let mut e = i;
        proof {
            lemma_line_end(s@, i as int);
        }
        while e < s.len() && s[e] != '\n'
            invariant
                i <= e <= s@.len(),
                line_end(s@, i as int) == line_end(s@, e as int),
            decreases s@.len() - e,
        {
            e = e + 1;
        }
        if e < s.len() {
            e = e + 1;
        }
        let line = sub_chars(s, i, e);
        let ghost old_r = views(r@);
        r.push(line);
        proof {
            assert(views(r@) =~= old_r.push(s@.subrange(i as int, e as int)));
            assert(lines_from(s@, i as int) == seq![s@.subrange(i as int, e as int)] + lines_from(
                s@,
                e as int,
            ));
            assert(old_r + (seq![s@.subrange(i as int, e as int)] + lines_from(s@, e as int))
                =~= old_r.push(s@.subrange(i as int, e as int)) + lines_from(s@, e as int));
        }
        i = e;
    }
    assert(lines_from(s@, i as int) == Seq::<Seq<char>>::empty());
    assert(views(r@) + Seq::<Seq<char>>::empty() =~= views(r@));
    r
}

/// The whitespace-separated words of `s` (`str::split_whitespace`).
pub fn split_words(s: &[char]) -> (r: Vec<Vec<char>>)
    ensures
        views(r@) == words(s@),
{
    let mut r: Vec<Vec<char>> = Vec::new();
    let mut i: usize = 0;
    while i < s.len()
        invariant
            i <= s@.len(),
            views(r@) + words_from(s@, i as int) == words(s@),
        decreases s@.len() - i,
    {
        proof {
            lemma_ws_run_bound(s@, i as int);
        }
        let a = i + ws_run_exec(s, i);
        if a >= s.len() {
            assert(words_from(s@, i as int) == Seq::<Seq<char>>::empty());
            i = s.len();
        } else {
            proof {
                lemma_word_run_bound(s@, a as int);
            }
            let e = a + word_run_exec(s, a);
            let w = sub_chars(s, a, e);
            let ghost old_r = views(r@);
            r.push(w);
            proof {
                assert(views(r@) =~= old_r.push(s@.subrange(a as int, e as int)));
                assert(words_from(s@, i as int) == seq![s@.subrange(a as int, e as int)]
                    + words_from(s@, e as int));
                assert(old_r + (seq![s@.subrange(a as int, e as int)] + words_from(
                    s@,
                    e as int,
                ))
                    =~= old_r.push(s@.subrange(a as int, e as int)) + words_from(
                    s@,
                    e as int,
                ));
            }
            i = e;
        }
    }
    assert(words_from(s@, i as int) == Seq::<Seq<char>>::empty());
    assert(views(r@) + Seq::<Seq<char>>::empty() =~= views(r@));
    r
}

} // verus!
