//! Paths as sequences of components, and the order in which paths are
//! compared (`std::path::Path`'s `Ord` on Unix): component by component,
//! root before `.` before `..` before named components, and named components
//! by their characters.
//!
//! Paths are Unix paths throughout: `/` is the only separator and a path is
//! absolute when it starts with `/`. The component model, the order and the
//! contracts of the `std::path` calls below hold on Unix only; on Windows,
//! prefixes and `\` separators make `components` and `join` behave
//! differently.

use vstd::prelude::*;
use crate::text::{chars_eq, str_to_chars, sub_chars};

verus! {

broadcast use vstd::slice::group_slice_axioms;

/// One component of a path.
pub enum Component {
    RootDir,
    CurDir,
    ParentDir,
    Normal(Seq<char>),
}

/// Index of the first `/` of `p` at or after `i`, or the length of `p`.
pub open spec fn segment_end(p: Seq<char>, i: int) -> int
    decreases p.len() - i,
{
    if i < 0 || i >= p.len() {
        p.len() as int
    } else if p[i] == '/' {
        i
    } else {
        segment_end(p, i + 1)
    }
}

pub proof fn lemma_segment_end(p: Seq<char>, i: int)
    requires
        0 <= i <= p.len(),
    ensures
        i <= segment_end(p, i) <= p.len(),
        segment_end(p, i) < p.len() ==> p[segment_end(p, i)] == '/',
    decreases p.len() - i,
{
    if i < p.len() && p[i] != '/' {
        lemma_segment_end(p, i + 1);
    }
}

/// The component that a segment between separators stands for: none for an
/// empty segment or `.`, `ParentDir` for `..`, a named component otherwise.
pub open spec fn segment_component(s: Seq<char>) -> Seq<Component> {
    if s.len() == 0 || s == seq!['.'] {
        Seq::empty()
    } else if s == seq!['.', '.'] {
        seq![Component::ParentDir]
    } else {
        seq![Component::Normal(s)]
    }
}

/// The components of the segments of `p` from index `i` on.
pub open spec fn body_components(p: Seq<char>, i: int) -> Seq<Component>
    decreases p.len() - i,
{
    if i < 0 || i >= p.len() {
        Seq::empty()
    } else {
        let e = segment_end(p, i);
        if e < i || e >= p.len() {
            segment_component(p.subrange(i, p.len() as int))
        } else {
            segment_component(p.subrange(i, e)) + body_components(p, e + 1)
        }
    }
}

/// Whether `p` starts at the root.
pub open spec fn has_root(p: Seq<char>) -> bool {
    p.len() > 0 && p[0] == '/'
}

/// Whether `p` starts with a `.` component (`.` alone or `./...`).
pub open spec fn starts_cur_dir(p: Seq<char>) -> bool {
    !has_root(p) && p.len() > 0 && p[0] == '.' && (p.len() == 1 || p[1] == '/')
}

/// The components of the path `p` (`Path::components` on Unix): repeated
/// separators and `.` are ignored, except for a leading `.`, and a leading
/// `/` is the root.
pub open spec fn components(p: Seq<char>) -> Seq<Component> {
    if has_root(p) {
        seq![Component::RootDir] + body_components(p, 1)
    } else if starts_cur_dir(p) {
        seq![Component::CurDir] + body_components(p, 1)
    } else {
        body_components(p, 0)
    }
}

/// Sign of the lexicographic comparison of two texts by code point.
pub open spec fn order_chars(a: Seq<char>, b: Seq<char>) -> int
    decreases a.len(),
{
    if a.len() == 0 && b.len() == 0 {
        0
    } else if a.len() == 0 {
        -1
    } else if b.len() == 0 {
        1
    } else if a[0] < b[0] {
        -1
    } else if a[0] > b[0] {
        1
    } else {
        order_chars(a.drop_first(), b.drop_first())
    }
}

/// The rank of a component's kind.
pub open spec fn rank(c: Component) -> int {
    match c {
        Component::RootDir => 0,
        Component::CurDir => 1,
        Component::ParentDir => 2,
        Component::Normal(_) => 3,
    }
}

/// Sign of the comparison of two components.
pub open spec fn order_component(x: Component, y: Component) -> int {
    if rank(x) < rank(y) {
        -1
    } else if rank(x) > rank(y) {
        1
    } else {
        match (x, y) {
            (Component::Normal(a), Component::Normal(b)) => order_chars(a, b),
            _ => 0,
        }
    }
}

/// Sign of the lexicographic comparison of two component sequences.
pub open spec fn order_components(a: Seq<Component>, b: Seq<Component>) -> int
    decreases a.len(),
{
    if a.len() == 0 && b.len() == 0 {
        0
    } else if a.len() == 0 {
        -1
    } else if b.len() == 0 {
        1
    } else if order_component(a[0], b[0]) != 0 {
        order_component(a[0], b[0])
    } else {
        order_components(a.drop_first(), b.drop_first())
    }
}

/// Sign of the comparison of two paths (`Ord for Path`).
pub open spec fn order_paths(a: Seq<char>, b: Seq<char>) -> int {
    order_components(components(a), components(b))
}

// ---------------------------------------------------------------------------
// The comparisons are total orders
// ---------------------------------------------------------------------------

pub proof fn lemma_order_chars_antisym(a: Seq<char>, b: Seq<char>)
    ensures
        order_chars(a, b) == -order_chars(b, a),
        -1 <= order_chars(a, b) <= 1,
        order_chars(a, b) == 0 <==> a == b,
    decreases a.len(),
{
    if a.len() > 0 && b.len() > 0 && a[0] == b[0] {
        lemma_order_chars_antisym(a.drop_first(), b.drop_first());
        if a.drop_first() == b.drop_first() {
            assert(a =~= seq![a[0]] + a.drop_first());
            assert(b =~= seq![b[0]] + b.drop_first());
        }
    }
    if a == b && a.len() > 0 {
        lemma_order_chars_antisym(a.drop_first(), b.drop_first());
    }
    if a.len() == 0 && b.len() == 0 {
        assert(a =~= b);
    }
}

pub proof fn lemma_order_chars_trans(a: Seq<char>, b: Seq<char>, c: Seq<char>)
    requires
        order_chars(a, b) < 0,
        order_chars(b, c) < 0,
    ensures
        order_chars(a, c) < 0,
    decreases a.len(),
{
    if a.len() > 0 && b.len() > 0 && c.len() > 0 && a[0] == b[0] && b[0] == c[0] {
        lemma_order_chars_trans(a.drop_first(), b.drop_first(), c.drop_first());
    }
}

pub proof fn lemma_order_component_props(x: Component, y: Component)
    ensures
        order_component(x, y) == -order_component(y, x),
        -1 <= order_component(x, y) <= 1,
        order_component(x, y) == 0 <==> x == y,
{
    match (x, y) {
        (Component::Normal(a), Component::Normal(b)) => {
            lemma_order_chars_antisym(a, b);
        },
        _ => {},
    }
}

pub proof fn lemma_order_component_trans(x: Component, y: Component, z: Component)
    requires
        order_component(x, y) < 0,
        order_component(y, z) < 0,
    ensures
        order_component(x, z) < 0,
{
    match (x, y, z) {
        (Component::Normal(a), Component::Normal(b), Component::Normal(c)) => {
            lemma_order_chars_trans(a, b, c);
        },
        _ => {},
    }
}

pub proof fn lemma_order_components_antisym(a: Seq<Component>, b: Seq<Component>)
    ensures
        order_components(a, b) == -order_components(b, a),
        -1 <= order_components(a, b) <= 1,
        order_components(a, b) == 0 <==> a == b,
    decreases a.len(),
{
    if a.len() > 0 && b.len() > 0 {
        lemma_order_component_props(a[0], b[0]);
        if order_component(a[0], b[0]) == 0 {
            lemma_order_components_antisym(a.drop_first(), b.drop_first());
            if a.drop_first() == b.drop_first() {
                assert(a =~= seq![a[0]] + a.drop_first());
                assert(b =~= seq![b[0]] + b.drop_first());
            }
        }
    }
    if a == b && a.len() > 0 {
        lemma_order_component_props(a[0], b[0]);
        lemma_order_components_antisym(a.drop_first(), b.drop_first());
    }
    if a.len() == 0 && b.len() == 0 {
        assert(a =~= b);
    }
}

pub proof fn lemma_order_components_trans(a: Seq<Component>, b: Seq<Component>, c: Seq<Component>)
    requires
        order_components(a, b) < 0,
        order_components(b, c) < 0,
    ensures
        order_components(a, c) < 0,
    decreases a.len(),
{
    if a.len() > 0 && b.len() > 0 && c.len() > 0 {
        lemma_order_component_props(a[0], b[0]);
        lemma_order_component_props(b[0], c[0]);
        lemma_order_component_props(a[0], c[0]);
        if order_component(a[0], b[0]) == 0 && order_component(b[0], c[0]) == 0 {
            lemma_order_components_trans(a.drop_first(), b.drop_first(), c.drop_first());
        } else if order_component(a[0], b[0]) == 0 {
            assert(a[0] == b[0]);
        } else if order_component(b[0], c[0]) == 0 {
            assert(b[0] == c[0]);
        } else {
            lemma_order_component_trans(a[0], b[0], c[0]);
        }
    }
}

/// Path comparison is antisymmetric, and two paths compare equal exactly
/// when they have the same components.
pub proof fn lemma_order_paths_antisym(a: Seq<char>, b: Seq<char>)
    ensures
        order_paths(a, b) == -order_paths(b, a),
        -1 <= order_paths(a, b) <= 1,
        order_paths(a, b) == 0 <==> components(a) == components(b),
{
    lemma_order_components_antisym(components(a), components(b));
}

/// Path comparison is transitive.
pub proof fn lemma_order_paths_trans(a: Seq<char>, b: Seq<char>, c: Seq<char>)
    requires
        order_paths(a, b) < 0,
        order_paths(b, c) < 0,
    ensures
        order_paths(a, c) < 0,
{
    lemma_order_components_trans(components(a), components(b), components(c));
}

// ---------------------------------------------------------------------------
// Executable components and comparison
// ---------------------------------------------------------------------------

/// One component of a path.
#[derive(Debug)]
pub enum PathComponent {
    RootDir,
    CurDir,
    ParentDir,
    Normal(Vec<char>),
}

impl View for PathComponent {
    type V = Component;

    open spec fn view(&self) -> Component {
        match self {
            PathComponent::RootDir => Component::RootDir,
            PathComponent::CurDir => Component::CurDir,
            PathComponent::ParentDir => Component::ParentDir,
            PathComponent::Normal(s) => Component::Normal(s@),
        }
    }
}

/// The views of a sequence of components.
pub open spec fn component_views(v: Seq<PathComponent>) -> Seq<Component> {
    v.map_values(|c: PathComponent| c@)
}

pub proof fn lemma_component_views_push(v: Seq<PathComponent>, c: PathComponent)
    ensures
        component_views(v.push(c)) == component_views(v).push(c@),
{
    assert(component_views(v.push(c)) =~= component_views(v).push(c@));
}

fn push_segment(out: &mut Vec<PathComponent>, seg: Vec<char>)
    ensures
        component_views(final(out)@) == component_views(old(out)@) + segment_component(seg@),
{
    let ghost before = component_views(out@);
    if seg.len() == 0 {
        assert(before + Seq::<Component>::empty() =~= before);
        return;
    }
    if seg.len() == 1 && seg[0] == '.' {
        assert(seg@ =~= seq!['.']);
        assert(before + Seq::<Component>::empty() =~= before);
        return;
    }
    if seg.len() == 2 && seg[0] == '.' && seg[1] == '.' {
        assert(seg@ =~= seq!['.', '.']);
        proof {
            lemma_component_views_push(out@, PathComponent::ParentDir);
        }
        out.push(PathComponent::ParentDir);
        return;
    }
    assert(seg@ != seq!['.']) by {
        if seg@ == seq!['.'] {
            assert(seg@.len() == 1);
        }
    }
    assert(seg@ != seq!['.', '.']) by {
        if seg@ == seq!['.', '.'] {
            assert(seg@.len() == 2);
            assert(seg@[0] == '.' && seg@[1] == '.');
        }
    }
    let ghost sv = seg@;
    proof {
        lemma_component_views_push(out@, PathComponent::Normal(seg));
    }
    out.push(PathComponent::Normal(seg));
}

/// The components of the path `p`.
pub fn path_components(p: &[char]) -> (r: Vec<PathComponent>)
    ensures
        component_views(r@) == components(p@),
{
    let mut out: Vec<PathComponent> = Vec::new();
    let mut i: usize = 0;
    if p.len() > 0 && p[0] == '/' {
        proof {
            lemma_component_views_push(out@, PathComponent::RootDir);
        }
        out.push(PathComponent::RootDir);
        i = 1;
    } else if p.len() > 0 && p[0] == '.' && (p.len() == 1 || p[1] == '/') {
        proof {
            lemma_component_views_push(out@, PathComponent::CurDir);
        }
        out.push(PathComponent::CurDir);
        i = 1;
    }
    assert(component_views(out@) + body_components(p@, i as int) == components(p@));
    while i < p.len()
        invariant
            i <= p@.len(),
            component_views(out@) + body_components(p@, i as int) == components(p@),
        decreases p@.len() - i,
    {
        let mut e = i;
        proof {
            lemma_segment_end(p@, i as int);
        }
        while e < p.len() && p[e] != '/'
            invariant
                i <= e <= p@.len(),
                segment_end(p@, i as int) == segment_end(p@, e as int),
            decreases p@.len() - e,
        {
            e = e + 1;
        }
        let seg = sub_chars(p, i, e);
        let ghost before = component_views(out@);
        push_segment(&mut out, seg);
        proof {
            if e < p@.len() {
                assert(before + (segment_component(p@.subrange(i as int, e as int))
                    + body_components(p@, e + 1)) =~= component_views(out@) + body_components(
                    p@,
                    e + 1,
                ));
            } else {
                assert(body_components(p@, p@.len() as int) == Seq::<Component>::empty());
                assert(component_views(out@) + Seq::<Component>::empty() =~= component_views(
                    out@,
                ));
            }
        }
        if e < p.len() {
            i = e + 1;
        } else {
            i = e;
        }
    }
    assert(body_components(p@, i as int) == Seq::<Component>::empty());
    assert(component_views(out@) + Seq::<Component>::empty() =~= component_views(out@));
    out
}

fn order_chars_exec(a: &[char], b: &[char]) -> (r: i8)
    ensures
        r as int == order_chars(a@, b@),
{
    let mut i: usize = 0;
    assert(a@.skip(0) =~= a@);
    assert(b@.skip(0) =~= b@);
    while i < a.len() && i < b.len() && a[i] == b[i]
        invariant
            i <= a@.len(),
            i <= b@.len(),
            order_chars(a@, b@) == order_chars(a@.skip(i as int), b@.skip(i as int)),
        decreases a@.len() - i,
    {
        assert(a@.skip(i as int).drop_first() =~= a@.skip(i + 1));
        assert(b@.skip(i as int).drop_first() =~= b@.skip(i + 1));
        i = i + 1;
    }
    if i == a.len() && i == b.len() {
        0
    } else if i == a.len() {
        -1
    } else if i == b.len() {
        1
    } else if a[i] < b[i] {
        -1
    } else {
        1
    }
}

fn order_component_exec(x: &PathComponent, y: &PathComponent) -> (r: i8)
    ensures
        r as int == order_component(x@, y@),
{
    let rx: u8 = match x {
        PathComponent::RootDir => 0,
        PathComponent::CurDir => 1,
        PathComponent::ParentDir => 2,
        PathComponent::Normal(_) => 3,
    };
    let ry: u8 = match y {
        PathComponent::RootDir => 0,
        PathComponent::CurDir => 1,
        PathComponent::ParentDir => 2,
        PathComponent::Normal(_) => 3,
    };
    if rx < ry {
        -1
    } else if rx > ry {
        1
    } else {
        match (x, y) {
            (PathComponent::Normal(a), PathComponent::Normal(b)) => order_chars_exec(
                a.as_slice(),
                b.as_slice(),
            ),
            _ => 0,
        }
    }
}

/// Sign of the comparison of two component sequences.
pub fn order_component_seqs(a: &Vec<PathComponent>, b: &Vec<PathComponent>) -> (r: i8)
    ensures
        r as int == order_components(component_views(a@), component_views(b@)),
{
    let ghost av = component_views(a@);
    let ghost bv = component_views(b@);
    let mut i: usize = 0;
    assert(av.skip(0) =~= av);
    assert(bv.skip(0) =~= bv);
    while i < a.len() && i < b.len()
        invariant
            i <= a@.len(),
            i <= b@.len(),
            av == component_views(a@),
            bv == component_views(b@),
            order_components(av, bv) == order_components(av.skip(i as int), bv.skip(i as int)),
        decreases a@.len() - i,
    {
        let c = order_component_exec(&a[i], &b[i]);
        assert(av.skip(i as int)[0] == a@[i as int]@);
        assert(bv.skip(i as int)[0] == b@[i as int]@);
        if c != 0 {
            return c;
        }
        assert(av.skip(i as int).drop_first() =~= av.skip(i + 1));
        assert(bv.skip(i as int).drop_first() =~= bv.skip(i + 1));
        i = i + 1;
    }
    if i == a.len() && i == b.len() {
        0
    } else if i == a.len() {
        -1
    } else {
        1
    }
}

/// Sign of the comparison of two paths (`Ord for Path`).
pub fn compare_paths(a: &str, b: &str) -> (r: i8)
    ensures
        r as int == order_paths(a@, b@),
{
    let ac = str_to_chars(a);
    let bc = str_to_chars(b);
    let x = path_components(ac.as_slice());
    let y = path_components(bc.as_slice());
    order_component_seqs(&x, &y)
}

// ---------------------------------------------------------------------------
// Operations of `std::path` that the preprocessor uses
// ---------------------------------------------------------------------------

/// `Path::join` of `base` and `path` on Unix, as text (`PathBuf::push`): an
/// absolute `path` replaces `base`; otherwise `path` is appended, after a
/// `/` unless `base` is empty or already ends with one.
pub open spec fn std_path_join(base: Seq<char>, path: Seq<char>) -> Seq<char> {
    if has_root(path) {
        path
    } else if base.len() == 0 || base.last() == '/' {
        base + path
    } else {
        base + seq!['/'] + path
    }
}

/// `Path::strip_prefix` of `path` by `base`, as text.
pub uninterp spec fn std_path_strip_prefix(path: Seq<char>, base: Seq<char>) -> Option<Seq<char>>;

/// `Path::with_extension` of `path` with `ext`, as text.
pub uninterp spec fn std_path_with_extension(path: Seq<char>, ext: Seq<char>) -> Seq<char>;

/// Index just past the last `/` of `p`, or 0 when it has none.
pub open spec fn last_segment_start(p: Seq<char>) -> int
    decreases p.len(),
{
    if p.len() == 0 {
        0
    } else if p.last() == '/' {
        p.len() as int
    } else {
        last_segment_start(p.drop_last())
    }
}

/// Whether `p` ends in a file name whose extension `with_extension` can
/// replace: the text after its last `/` is not empty, is neither `.` nor
/// `..`, and is not `..` followed by an extension (for such a name the path
/// up to its extension ends in `..`, which has no file name, so the call
/// leaves that part alone).
pub open spec fn ends_in_file_name(p: Seq<char>) -> bool {
    let name = p.skip(last_segment_start(p));
    &&& name.len() > 0
    &&& name != "."@
    &&& name != ".."@
    &&& !(last_dot(name) == 1 && name[0] == '.')
}

/// Index of the last `.` of `s`, or -1 when it has none.
pub open spec fn last_dot(s: Seq<char>) -> int
    decreases s.len(),
{
    if s.len() == 0 {
        -1
    } else if s.last() == '.' {
        s.len() - 1
    } else {
        last_dot(s.drop_last())
    }
}

/// A path that ends in a file name with that name's extension set to `ext`,
/// or removed when `ext` is empty. The file stem ends at the last `.` of the
/// name, unless that `.` is the name's first character (then the whole name
/// is the stem).
pub open spec fn replaced_extension(p: Seq<char>, ext: Seq<char>) -> Seq<char> {
    let a = last_segment_start(p);
    let d = last_dot(p.skip(a));
    let stem_end = if d > 0 {
        a + d
    } else {
        p.len() as int
    };
    p.take(stem_end) + if ext.len() == 0 {
        Seq::empty()
    } else {
        seq!['.'] + ext
    }
}

/// `Path::with_extension` of `p` with `ext`: stated for a path that ends in
/// a file name, named otherwise.
pub open spec fn with_extension(p: Seq<char>, ext: Seq<char>) -> Seq<char> {
    if ends_in_file_name(p) {
        replaced_extension(p, ext)
    } else {
        std_path_with_extension(p, ext)
    }
}

/// Whether the component sequence `a` is a prefix of `b`.
pub open spec fn components_prefix(a: Seq<Component>, b: Seq<Component>) -> bool {
    a.len() <= b.len() && b.take(a.len() as int) == a
}

/// `std::path::Path::join` on Unix. The contract states what `PathBuf::push`
/// does there: an absolute `path` replaces `base`, any other is appended
/// after a separator when `base` is non-empty and does not end with one.
#[verifier::external_body]
fn path_join(base: &str, path: &str) -> (r: String)
    ensures
        r@ == std_path_join(base@, path@),
{
    std::path::Path::new(base).join(path).to_string_lossy().into_owned()
}

/// `std::path::Path::strip_prefix`. The result is named; the contract also
/// states what the documentation gives: it succeeds exactly when `base` is
/// a prefix of `path` by whole components (`Path::starts_with`), and then
/// the rest is the path that, joined onto `base`, gives `path` back: its
/// components are those of `path` after the components of `base`.
#[verifier::external_body]
fn path_strip_prefix(path: &str, base: &str) -> (r: Option<String>)
    ensures
        r matches Some(s) ==> std_path_strip_prefix(path@, base@) == Some(s@),
        r is None ==> std_path_strip_prefix(path@, base@) is None,
        r is Some <==> components_prefix(components(base@), components(path@)),
        r matches Some(s) ==> components(s@) == components(path@).skip(
            components(base@).len() as int,
        ),
{
    std::path::Path::new(path).strip_prefix(base).ok().map(|p| p.to_string_lossy().into_owned())
}

/// `std::path::Path::with_extension`. The result is named; for a path that
/// ends in a file name, the contract also states what the documentation of
/// `file_stem`, `extension` and `set_extension` gives: the path up to the
/// end of the file stem, then `.` and the extension unless it is empty.
/// What it gives for other paths (a trailing `/`, `.` or `..`) is left to
/// the name. The call panics when the extension holds a path separator, so
/// such an extension is excluded.
#[verifier::external_body]
fn path_with_extension(path: &str, ext: &str) -> (r: String)
    requires
        !ext@.contains('/'),
    ensures
        r@ == std_path_with_extension(path@, ext@),
        ends_in_file_name(path@) ==> r@ == replaced_extension(path@, ext@),
{
    std::path::Path::new(path).with_extension(ext).to_string_lossy().into_owned()
}

/// `path` itself when it is absolute, otherwise `path` joined onto `root`.
pub open spec fn resolved(root: Seq<char>, path: Seq<char>) -> Seq<char> {
    if has_root(path) {
        path
    } else {
        std_path_join(root, path)
    }
}

/// Resolves a configured path against the book root: an absolute path is
/// kept, a relative one is joined onto `root`.
pub fn resolve_path(root: &str, path: &str) -> (r: String)
    ensures
        r@ == resolved(root@, path@),
{
    let p = str_to_chars(path);
    if p.len() > 0 && p[0] == '/' {
        crate::artifact::string_of(path)
    } else {
        path_join(root, path)
    }
}

/// Where the recorded outputs of the example at `rel_path` are kept: the
/// path below the examples directory (when the examples directory is a
/// prefix of `rel_path` by whole components), or else the whole path, placed in the output directory, with the extension `samples.json`.
pub open spec fn artifact_path(
    examples_dir: Seq<char>,
    output_dir: Seq<char>,
    rel_path: Seq<char>,
) -> Seq<char> {
    let relative = if components_prefix(components(examples_dir), components(rel_path)) {
        std_path_strip_prefix(rel_path, examples_dir)->Some_0
    } else {
        rel_path
    };
    with_extension(std_path_join(output_dir, relative), "samples.json"@)
}

/// Where the recorded outputs of the example at `rel_path` are kept,
/// relative to the book root unless the output directory is absolute.
pub fn artifact_output_path_for(settings: &crate::artifact::Settings, rel_path: &str) -> (r:
    String)
    ensures
        r@ == artifact_path(settings.examples_dir@, settings.output_dir@, rel_path@),
{
    let relative = match path_strip_prefix(rel_path, settings.examples_dir.as_str()) {
        Some(r) => r,
        None => crate::artifact::string_of(rel_path),
    };
    let joined = path_join(settings.output_dir.as_str(), relative.as_str());
    proof {
        reveal_strlit("samples.json");
        assert(!"samples.json"@.contains('/'));
    }
    path_with_extension(joined.as_str(), "samples.json")
}

/// The path of `rel_path` without its extension.
pub fn path_without_extension(rel_path: &str) -> (r: String)
    ensures
        r@ == with_extension(rel_path@, Seq::empty()),
{
    proof {
        reveal_strlit("");
    }
    assert(""@ =~= Seq::<char>::empty());
    let r = path_with_extension(rel_path, "");
    r
}

} // verus!
