//! Collecting the runnable examples that a book references: each example
//! once, with the modes of all its references combined, in path order.

use vstd::prelude::*;
use crate::directive::{DirectiveView, RunnableDirective};
use crate::error::{Failure, PreprocessError};
use crate::expand::{directive_views, find_runnable_directives, find_spec};
use crate::mode::{ExampleMode, merge_example_modes, merge_modes_spec};
use crate::path::{
    PathComponent, component_views, components, lemma_order_paths_antisym,
    lemma_order_paths_trans, order_component_seqs, order_components, order_paths,
    path_components,
};
use crate::text::str_to_chars;

verus! {

/// An example and the mode recorded for it so far.
pub type EntryView = (Seq<char>, ExampleMode);

/// Index of the first entry at or after `i` whose path does not come before
/// `p`, or the number of entries.
pub open spec fn insert_pos(es: Seq<EntryView>, p: Seq<char>, i: int) -> int
    decreases es.len() - i,
{
    if i < 0 || i >= es.len() {
        es.len() as int
    } else if order_paths(es[i].0, p) >= 0 {
        i
    } else {
        insert_pos(es, p, i + 1)
    }
}

pub proof fn lemma_insert_pos(es: Seq<EntryView>, p: Seq<char>, i: int)
    requires
        0 <= i <= es.len(),
    ensures
        i <= insert_pos(es, p, i) <= es.len(),
        forall|k: int| i <= k < insert_pos(es, p, i) ==> order_paths(#[trigger] es[k].0, p) < 0,
        insert_pos(es, p, i) < es.len() ==> order_paths(es[insert_pos(es, p, i)].0, p) >= 0,
    decreases es.len() - i,
{
    if i < es.len() && order_paths(es[i].0, p) < 0 {
        lemma_insert_pos(es, p, i + 1);
    }
}

/// The entries after recording the directive `d`: an example with the same
/// path (same components) gets the combined mode, and a conflict is
/// `ConflictingReferences(d.rel_path)`; a new example is inserted before the
/// first entry that does not come before it.
pub open spec fn insert_directive(es: Seq<EntryView>, d: DirectiveView) -> Result<
    Seq<EntryView>,
    Failure,
> {
    let k = insert_pos(es, d.rel_path, 0);
    if 0 <= k < es.len() && order_paths(es[k].0, d.rel_path) == 0 {
        match merge_modes_spec(es[k].1, d.mode) {
            None => Err(Failure::ConflictingReferences(d.rel_path)),
            Some(m) => Ok(es.update(k, (es[k].0, m))),
        }
    } else {
        Ok(es.insert(k, (d.rel_path, d.mode)))
    }
}

/// The entries after recording the directives `ds[i..]` in order.
pub open spec fn insert_all(es: Seq<EntryView>, ds: Seq<DirectiveView>, i: int) -> Result<
    Seq<EntryView>,
    Failure,
>
    decreases ds.len() - i,
{
    if i < 0 || i >= ds.len() {
        Ok(es)
    } else {
        match insert_directive(es, ds[i]) {
            Err(e) => Err(e),
            Ok(es2) => insert_all(es2, ds, i + 1),
        }
    }
}

/// The entries after recording the directives of the chapters `cs[c..]`.
pub open spec fn collect_from(cs: Seq<Seq<char>>, c: int, es: Seq<EntryView>) -> Result<
    Seq<EntryView>,
    Failure,
>
    decreases cs.len() - c,
{
    if c < 0 || c >= cs.len() {
        Ok(es)
    } else {
        match find_spec(cs[c]) {
            Err(e) => Err(e),
            Ok(ds) => match insert_all(es, ds, 0) {
                Err(e) => Err(e),
                Ok(es2) => collect_from(cs, c + 1, es2),
            },
        }
    }
}

/// The directive that an entry stands for.
pub open spec fn entry_directive(e: EntryView) -> DirectiveView {
    DirectiveView { rel_path: e.0, mode: e.1 }
}

/// The examples referenced by the chapters `cs`, or the first error.
pub open spec fn collect_spec(cs: Seq<Seq<char>>) -> Result<Seq<DirectiveView>, Failure> {
    match collect_from(cs, 0, Seq::empty()) {
        Err(e) => Err(e),
        Ok(es) => Ok(es.map_values(|e: EntryView| entry_directive(e))),
    }
}

/// Whether the entries come in strictly increasing path order.
pub open spec fn sorted_entries(es: Seq<EntryView>) -> bool {
    forall|i: int, j: int| 0 <= i < j < es.len() ==> order_paths(#[trigger] es[i].0, #[trigger] es[j].0) < 0
}

/// Recording a directive keeps the entries in strictly increasing path
/// order.
pub proof fn lemma_insert_keeps_sorted(es: Seq<EntryView>, d: DirectiveView)
    requires
        sorted_entries(es),
    ensures
        insert_directive(es, d) matches Ok(es2) ==> sorted_entries(es2),
{
    lemma_insert_pos(es, d.rel_path, 0);
    let k = insert_pos(es, d.rel_path, 0);
    let p = d.rel_path;
    if 0 <= k < es.len() && order_paths(es[k].0, p) == 0 {
        match merge_modes_spec(es[k].1, d.mode) {
            None => {},
            Some(m) => {
                let es2 = es.update(k, (es[k].0, m));
                assert forall|i: int, j: int| 0 <= i < j < es2.len() implies order_paths(
                    #[trigger] es2[i].0,
                    #[trigger] es2[j].0,
                ) < 0 by {
                    assert(es2[i].0 == es[i].0);
                    assert(es2[j].0 == es[j].0);
                }
            },
        }
    } else {
        let es2 = es.insert(k, (p, d.mode));
        if k < es.len() {
            lemma_order_paths_antisym(es[k].0, p);
            assert(order_paths(p, es[k].0) < 0);
        }
        assert forall|i: int, j: int| 0 <= i < j < es2.len() implies order_paths(
            #[trigger] es2[i].0,
            #[trigger] es2[j].0,
        ) < 0 by {
            if j < k {
                assert(es2[i] == es[i] && es2[j] == es[j]);
            } else if j == k {
                assert(es2[j].0 == p);
                assert(es2[i] == es[i]);
            } else if i == k {
                assert(es2[i].0 == p);
                assert(es2[j] == es[j - 1]);
                if j - 1 > k {
                    lemma_order_paths_trans(p, es[k].0, es[j - 1].0);
                }
            } else if i < k {
                assert(es2[i] == es[i]);
                assert(es2[j] == es[j - 1]);
            } else {
                assert(es2[i] == es[i - 1]);
                assert(es2[j] == es[j - 1]);
            }
        }
    }
}

pub proof fn lemma_insert_all_keeps_sorted(es: Seq<EntryView>, ds: Seq<DirectiveView>, i: int)
    requires
        sorted_entries(es),
    ensures
        insert_all(es, ds, i) matches Ok(es2) ==> sorted_entries(es2),
    decreases ds.len() - i,
{
    if 0 <= i < ds.len() {
        lemma_insert_keeps_sorted(es, ds[i]);
        match insert_directive(es, ds[i]) {
            Err(_) => {},
            Ok(es2) => {
                lemma_insert_all_keeps_sorted(es2, ds, i + 1);
            },
        }
    }
}

pub proof fn lemma_collect_from_sorted(cs: Seq<Seq<char>>, c: int, es: Seq<EntryView>)
    requires
        sorted_entries(es),
    ensures
        collect_from(cs, c, es) matches Ok(es2) ==> sorted_entries(es2),
    decreases cs.len() - c,
{
    if 0 <= c < cs.len() {
        match find_spec(cs[c]) {
            Err(_) => {},
            Ok(ds) => {
                lemma_insert_all_keeps_sorted(es, ds, 0);
                match insert_all(es, ds, 0) {
                    Err(_) => {},
                    Ok(es2) => {
                        lemma_collect_from_sorted(cs, c + 1, es2);
                    },
                }
            },
        }
    }
}

/// The collected examples come in strictly increasing path order; in
/// particular no example appears twice, even under differently written
/// paths with the same components.
pub proof fn lemma_collected_sorted_unique(cs: Seq<Seq<char>>)
    ensures
        collect_spec(cs) matches Ok(ds) ==> (forall|i: int, j: int|
            0 <= i < j < ds.len() ==> order_paths(#[trigger] ds[i].rel_path, #[trigger] ds[j].rel_path)
                < 0 && components(ds[i].rel_path) != components(ds[j].rel_path)),
{
    lemma_collect_from_sorted(cs, 0, Seq::empty());
    match collect_from(cs, 0, Seq::empty()) {
        Err(_) => {},
        Ok(es) => {
            let ds = es.map_values(|e: EntryView| entry_directive(e));
            assert forall|i: int, j: int| 0 <= i < j < ds.len() implies order_paths(
                #[trigger] ds[i].rel_path,
                #[trigger] ds[j].rel_path,
            ) < 0 && components(ds[i].rel_path) != components(ds[j].rel_path) by {
                assert(ds[i].rel_path == es[i].0);
                assert(ds[j].rel_path == es[j].0);
                lemma_order_paths_antisym(es[i].0, es[j].0);
            }
        }
    }
}

/// Whether an entry records the example of `d` (same path components) with
/// a mode that serves `d`'s request.
pub open spec fn covers(es: Seq<EntryView>, d: DirectiveView) -> bool {
    exists|k: int|
        0 <= k < es.len() && components(#[trigger] es[k].0) == components(d.rel_path)
            && merge_modes_spec(es[k].1, d.mode) == Some(es[k].1)
}

pub proof fn lemma_merge_absorbs(old: ExampleMode, m: ExampleMode, prev: ExampleMode, new: ExampleMode)
    requires
        merge_modes_spec(old, prev) == Some(old),
        merge_modes_spec(old, new) == Some(m),
    ensures
        merge_modes_spec(m, prev) == Some(m),
        merge_modes_spec(m, new) == Some(m),
{
}

/// Recording a directive covers it, and keeps every directive covered that
/// was covered before.
pub proof fn lemma_insert_covers(es: Seq<EntryView>, d: DirectiveView, other: DirectiveView)
    ensures
        insert_directive(es, d) matches Ok(es2) ==> covers(es2, d) && (covers(es, other)
            ==> covers(es2, other)),
{
    lemma_insert_pos(es, d.rel_path, 0);
    let k = insert_pos(es, d.rel_path, 0);
    let p = d.rel_path;
    if 0 <= k < es.len() && order_paths(es[k].0, p) == 0 {
        lemma_order_paths_antisym(es[k].0, p);
        match merge_modes_spec(es[k].1, d.mode) {
            None => {},
            Some(m) => {
                let es2 = es.update(k, (es[k].0, m));
                assert(es2[k].0 == es[k].0);
                assert(components(es2[k].0) == components(p));
                assert(merge_modes_spec(m, d.mode) == Some(m));
                assert(covers(es2, d));
                if covers(es, other) {
                    let w = choose|w: int|
                        0 <= w < es.len() && components(#[trigger] es[w].0) == components(
                            other.rel_path,
                        ) && merge_modes_spec(es[w].1, other.mode) == Some(es[w].1);
                    if w == k {
                        lemma_merge_absorbs(es[k].1, m, other.mode, d.mode);
                        assert(es2[w].0 == es[w].0);
                    } else {
                        assert(es2[w] == es[w]);
                    }
                    assert(covers(es2, other));
                }
            },
        }
    } else {
        let es2 = es.insert(k, (p, d.mode));
        assert(es2[k] == (p, d.mode));
        assert(es2[k].0 == p);
        assert(es2[k].1 == d.mode);
        assert(merge_modes_spec(d.mode, d.mode) == Some(d.mode));
        assert(covers(es2, d));
        if covers(es, other) {
            let w = choose|w: int|
                0 <= w < es.len() && components(#[trigger] es[w].0) == components(
                    other.rel_path,
                ) && merge_modes_spec(es[w].1, other.mode) == Some(es[w].1);
            if w < k {
                assert(es2[w] == es[w]);
            } else {
                assert(es2[w + 1] == es[w]);
            }
            assert(covers(es2, other));
        }
    }
}

pub proof fn lemma_insert_all_covers(es: Seq<EntryView>, ds: Seq<DirectiveView>, i: int, other: DirectiveView)
    requires
        0 <= i,
    ensures
        insert_all(es, ds, i) matches Ok(es2) ==> (forall|j: int|
            i <= j < ds.len() ==> covers(es2, #[trigger] ds[j])) && (covers(es, other) ==> covers(
            es2,
            other,
        )),
    decreases ds.len() - i,
{
    if i < ds.len() {
        lemma_insert_covers(es, ds[i], other);
        match insert_directive(es, ds[i]) {
            Err(_) => {},
            Ok(es2) => {
                lemma_insert_all_covers(es2, ds, i + 1, other);
                lemma_insert_all_covers(es2, ds, i + 1, ds[i]);
                match insert_all(es2, ds, i + 1) {
                    Err(_) => {},
                    Ok(es3) => {
                        assert forall|j: int| i <= j < ds.len() implies covers(
                            es3,
                            #[trigger] ds[j],
                        ) by {
                            if j > i {
                            } else {
                                lemma_insert_covers(es, ds[i], ds[i]);
                            }
                        }
                    },
                }
            },
        }
    }
}

/// Whether chapter `c` of `cs` yields directives and has a `j`-th one.
pub open spec fn has_directive(cs: Seq<Seq<char>>, c: int, j: int) -> bool {
    0 <= c < cs.len() && find_spec(cs[c]) is Ok && 0 <= j < find_spec(cs[c])->Ok_0.len()
}

/// The `j`-th runnable directive of chapter `c` of `cs`.
pub open spec fn chapter_directive(cs: Seq<Seq<char>>, c: int, j: int) -> DirectiveView {
    find_spec(cs[c])->Ok_0[j]
}

pub proof fn lemma_collect_from_covers(
    cs: Seq<Seq<char>>,
    c: int,
    es: Seq<EntryView>,
    other: DirectiveView,
)
    requires
        0 <= c,
    ensures
        collect_from(cs, c, es) matches Ok(es2) ==> (covers(es, other) ==> covers(es2, other))
            && (forall|c2: int, j: int|
            c <= c2 && has_directive(cs, c2, j) ==> covers(
                es2,
                #[trigger] chapter_directive(cs, c2, j),
            )),
    decreases cs.len() - c,
{
    if c < cs.len() {
        match find_spec(cs[c]) {
            Err(_) => {},
            Ok(ds) => {
                lemma_insert_all_covers(es, ds, 0, other);
                match insert_all(es, ds, 0) {
                    Err(_) => {},
                    Ok(es2) => {
                        lemma_collect_from_covers(cs, c + 1, es2, other);
                        match collect_from(cs, c + 1, es2) {
                            Err(_) => {},
                            Ok(es3) => {
                                assert forall|c2: int, j: int|
                                    c <= c2 && has_directive(cs, c2, j) implies covers(
                                    es3,
                                    #[trigger] chapter_directive(cs, c2, j),
                                ) by {
                                    if c2 == c {
                                        lemma_collect_from_covers(cs, c + 1, es2, ds[j]);
                                    }
                                }
                            },
                        }
                    },
                }
            },
        }
    }
}

/// Every runnable directive of every chapter is covered by the collected
/// examples: some collected example has the same path components and a mode
/// that serves the directive's request.
pub proof fn lemma_collected_covers_all(cs: Seq<Seq<char>>, c: int, j: int)
    requires
        has_directive(cs, c, j),
    ensures
        collect_spec(cs) is Ok ==> exists|k: int|
            0 <= k < collect_spec(cs)->Ok_0.len() && components(
                #[trigger] collect_spec(cs)->Ok_0[k].rel_path,
            ) == components(chapter_directive(cs, c, j).rel_path) && merge_modes_spec(
                collect_spec(cs)->Ok_0[k].mode,
                chapter_directive(cs, c, j).mode,
            ) == Some(collect_spec(cs)->Ok_0[k].mode),
{
    let d = chapter_directive(cs, c, j);
    lemma_collect_from_covers(cs, 0, Seq::empty(), d);
    match collect_from(cs, 0, Seq::empty()) {
        Err(_) => {
            assert(collect_spec(cs) is Err);
        },
        Ok(es) => {
            assert(covers(es, d));
            let w = choose|w: int|
                0 <= w < es.len() && components(#[trigger] es[w].0) == components(d.rel_path)
                    && merge_modes_spec(es[w].1, d.mode) == Some(es[w].1);
            let out = es.map_values(|e: EntryView| entry_directive(e));
            assert(collect_spec(cs) == Ok::<Seq<DirectiveView>, Failure>(out));
            assert(out[w].rel_path == es[w].0);
            assert(out[w].mode == es[w].1);
            assert(0 <= w < out.len() && components(out[w].rel_path) == components(d.rel_path)
                && merge_modes_spec(out[w].mode, d.mode) == Some(out[w].mode));
            assert(collect_spec(cs)->Ok_0[w].rel_path == out[w].rel_path);
        },
    }
}

/// Whether two paths name the same example: they have the same components.
pub open spec fn same_example(p: Seq<char>, q: Seq<char>) -> bool {
    components(p) == components(q)
}

/// The runnable references of the chapters `cs[c..]`, in order; a chapter
/// whose directives cannot be read contributes none.
pub open spec fn references_from(cs: Seq<Seq<char>>, c: int) -> Seq<DirectiveView>
    decreases cs.len() - c,
{
    if c < 0 || c >= cs.len() {
        Seq::empty()
    } else {
        (match find_spec(cs[c]) {
            Ok(ds) => ds,
            Err(_) => Seq::empty(),
        }) + references_from(cs, c + 1)
    }
}

/// The runnable references of all chapters, in order.
pub open spec fn references(cs: Seq<Seq<char>>) -> Seq<DirectiveView> {
    references_from(cs, 0)
}

/// Whether the directives of every chapter from `c` on can be read.
pub open spec fn chapters_readable_from(cs: Seq<Seq<char>>, c: int) -> bool {
    forall|c2: int| c <= c2 < cs.len() ==> #[trigger] find_spec(cs[c2]) is Ok
}

/// Whether one example is referenced both as deterministic and as
/// nondeterministic.
pub open spec fn conflicting(rs: Seq<DirectiveView>) -> bool {
    exists|i: int, j: int|
        0 <= i < rs.len() && 0 <= j < rs.len() && same_example(
            #[trigger] rs[i].rel_path,
            #[trigger] rs[j].rel_path,
        ) && rs[i].mode == ExampleMode::Deterministic && rs[j].mode
            == ExampleMode::Nondeterministic
}

/// Whether some reference is written exactly as `p`.
#[verifier::opaque]
pub open spec fn written_in(rs: Seq<DirectiveView>, p: Seq<char>) -> bool {
    exists|i: int| 0 <= i < rs.len() && #[trigger] rs[i].rel_path == p
}

/// Whether some entry names the same example as `p`.
#[verifier::opaque]
pub open spec fn has_entry(es: Seq<EntryView>, p: Seq<char>) -> bool {
    exists|k: int| 0 <= k < es.len() && same_example(#[trigger] es[k].0, p)
}

/// Whether some reference to the example `p` requests the mode `m`.
#[verifier::opaque]
pub open spec fn requested(rs: Seq<DirectiveView>, p: Seq<char>, m: ExampleMode) -> bool {
    exists|i: int| 0 <= i < rs.len() && same_example(#[trigger] rs[i].rel_path, p) && rs[i].mode == m
}

/// Whether the entries are exactly what the references `rs` call for: one
/// entry per example, in path order, written as one of its references,
/// whose mode is `Auto` when all its references are, and otherwise the
/// explicit mode they request; and no example is requested in two
/// explicit modes.
pub open spec fn entries_match(es: Seq<EntryView>, rs: Seq<DirectiveView>) -> bool {
    &&& sorted_entries(es)
    &&& forall|k: int| 0 <= k < es.len() ==> written_in(rs, #[trigger] es[k].0)
    &&& forall|i: int| 0 <= i < rs.len() ==> has_entry(es, #[trigger] rs[i].rel_path)
    &&& forall|k: int, i: int|
        0 <= k < es.len() && 0 <= i < rs.len() && same_example(#[trigger] es[k].0, #[trigger] rs[i].rel_path)
            ==> rs[i].mode == ExampleMode::Auto || rs[i].mode == es[k].1
    &&& forall|k: int|
        0 <= k < es.len() && es[k].1 != ExampleMode::Auto ==> requested(rs, #[trigger] es[k].0, es[k].1)
    &&& !conflicting(rs)
}

pub proof fn lemma_entries_distinct(es: Seq<EntryView>, a: int, b: int)
    requires
        sorted_entries(es),
        0 <= a < es.len(),
        0 <= b < es.len(),
        a != b,
    ensures
        !same_example(es[a].0, es[b].0),
{
    if a < b {
        assert(order_paths(es[a].0, es[b].0) < 0);
    } else {
        assert(order_paths(es[b].0, es[a].0) < 0);
    }
    lemma_order_paths_antisym(es[a].0, es[b].0);
}

/// An existing entry for the example of `d` absorbs `d`'s request.
proof fn lemma_update_matches(es: Seq<EntryView>, rs: Seq<DirectiveView>, d: DirectiveView, k: int, m: ExampleMode)
    requires
        entries_match(es, rs),
        0 <= k < es.len(),
        same_example(es[k].0, d.rel_path),
        merge_modes_spec(es[k].1, d.mode) == Some(m),
        sorted_entries(es.update(k, (es[k].0, m))),
    ensures
        entries_match(es.update(k, (es[k].0, m)), rs.push(d)),
{
    let rs2 = rs.push(d);
    let n = rs.len() as int;
    let es2 = es.update(k, (es[k].0, m));
    assert(rs2[n] == d);
    assert forall|j: int| 0 <= j < es2.len() implies written_in(rs2, #[trigger] es2[j].0) by {
        assert(es2[j].0 == es[j].0);
        reveal(written_in);
        assert(written_in(rs, es[j].0));
        let i = choose|i: int| 0 <= i < rs.len() && #[trigger] rs[i].rel_path == es[j].0;
        assert(rs2[i] == rs[i]);
    }
    assert forall|i: int| 0 <= i < rs2.len() implies has_entry(es2, #[trigger] rs2[i].rel_path) by {
        if i == n {
            reveal(has_entry);
            assert(same_example(es2[k].0, rs2[i].rel_path));
        } else {
            reveal(has_entry);
            assert(rs2[i] == rs[i]);
            assert(has_entry(es, rs[i].rel_path));
            let w = choose|w: int| 0 <= w < es.len() && same_example(#[trigger] es[w].0, rs[i].rel_path);
            assert(es2[w].0 == es[w].0);
        }
    }
    assert forall|j: int, i: int|
        0 <= j < es2.len() && 0 <= i < rs2.len() && same_example(#[trigger] es2[j].0, #[trigger] rs2[i].rel_path)
        implies rs2[i].mode == ExampleMode::Auto || rs2[i].mode == es2[j].1 by {
        assert(es2[j].0 == es[j].0);
        if j != k {
            lemma_entries_distinct(es, j, k);
            assert(es2[j] == es[j]);
            if i < n {
                assert(rs2[i] == rs[i]);
                assert(same_example(es[j].0, rs[i].rel_path));
            }
        } else if i < n {
            assert(rs2[i] == rs[i]);
            assert(same_example(es[k].0, rs[i].rel_path));
        }
    }
    assert forall|j: int| 0 <= j < es2.len() && es2[j].1 != ExampleMode::Auto implies requested(
        rs2,
        #[trigger] es2[j].0,
        es2[j].1,
    ) by {
        if j == k && es[k].1 == ExampleMode::Auto {
            reveal(requested);
            assert(same_example(rs2[n].rel_path, es2[j].0));
        } else {
            assert(es2[j].0 == es[j].0);
            assert(es2[j].1 == es[j].1);
            reveal(requested);
            assert(requested(rs, es[j].0, es[j].1));
            let i = choose|i: int| 0 <= i < rs.len() && same_example(#[trigger] rs[i].rel_path, es[j].0) && rs[i].mode == es[j].1;
            assert(rs2[i] == rs[i]);
            assert(same_example(rs2[i].rel_path, es2[j].0));
        }
    }
    assert(!conflicting(rs2)) by {
        if conflicting(rs2) {
            let (i, j) = choose|i: int, j: int|
                0 <= i < rs2.len() && 0 <= j < rs2.len() && same_example(
                    #[trigger] rs2[i].rel_path,
                    #[trigger] rs2[j].rel_path,
                ) && rs2[i].mode == ExampleMode::Deterministic && rs2[j].mode
                    == ExampleMode::Nondeterministic;
            if i < n && j < n {
                assert(rs2[i] == rs[i] && rs2[j] == rs[j]);
                assert(same_example(rs[i].rel_path, rs[j].rel_path));
            } else if i == n {
                assert(rs2[j] == rs[j]);
                assert(same_example(es[k].0, rs[j].rel_path));
            } else {
                assert(rs2[i] == rs[i]);
                assert(same_example(es[k].0, rs[i].rel_path));
            }
        }
    }
}

/// A reference to an example without an entry gets an entry of its own.
proof fn lemma_new_entry_matches(es: Seq<EntryView>, rs: Seq<DirectiveView>, d: DirectiveView, k: int)
    requires
        entries_match(es, rs),
        0 <= k <= es.len(),
        forall|j: int| 0 <= j < es.len() ==> !same_example(#[trigger] es[j].0, d.rel_path),
        sorted_entries(es.insert(k, (d.rel_path, d.mode))),
    ensures
        entries_match(es.insert(k, (d.rel_path, d.mode)), rs.push(d)),
{
    let p = d.rel_path;
    let rs2 = rs.push(d);
    let n = rs.len() as int;
    let es2 = es.insert(k, (p, d.mode));
    assert(rs2[n] == d);
    assert forall|i: int| 0 <= i < n implies !same_example(#[trigger] rs[i].rel_path, p) by {
        reveal(has_entry);
        assert(has_entry(es, rs[i].rel_path));
        let w = choose|w: int| 0 <= w < es.len() && same_example(#[trigger] es[w].0, rs[i].rel_path);
        assert(!same_example(es[w].0, p));
    }
    assert(es2[k] == (p, d.mode));
    assert forall|j: int| 0 <= j < es2.len() implies written_in(rs2, #[trigger] es2[j].0) by {
        if j == k {
            reveal(written_in);
            assert(rs2[n].rel_path == es2[j].0);
        } else {
            let j0 = if j < k { j } else { j - 1 };
            assert(es2[j] == es[j0]);
            reveal(written_in);
            assert(written_in(rs, es[j0].0));
            let i = choose|i: int| 0 <= i < rs.len() && #[trigger] rs[i].rel_path == es[j0].0;
            assert(rs2[i] == rs[i]);
        }
    }
    assert forall|i: int| 0 <= i < rs2.len() implies has_entry(es2, #[trigger] rs2[i].rel_path) by {
        if i == n {
            reveal(has_entry);
            assert(same_example(es2[k].0, rs2[i].rel_path));
        } else {
            reveal(has_entry);
            assert(rs2[i] == rs[i]);
            assert(has_entry(es, rs[i].rel_path));
            let w = choose|w: int| 0 <= w < es.len() && same_example(#[trigger] es[w].0, rs[i].rel_path);
            if w < k {
                assert(es2[w] == es[w]);
            } else {
                assert(es2[w + 1] == es[w]);
            }
        }
    }
    assert forall|j: int, i: int|
        0 <= j < es2.len() && 0 <= i < rs2.len() && same_example(#[trigger] es2[j].0, #[trigger] rs2[i].rel_path)
        implies rs2[i].mode == ExampleMode::Auto || rs2[i].mode == es2[j].1 by {
        if j == k {
            if i < n {
                assert(rs2[i] == rs[i]);
                assert(!same_example(rs[i].rel_path, p));
            }
        } else {
            let j0 = if j < k { j } else { j - 1 };
            assert(es2[j] == es[j0]);
            if i == n {
                assert(!same_example(es[j0].0, p));
            } else {
                assert(rs2[i] == rs[i]);
                assert(same_example(es[j0].0, rs[i].rel_path));
            }
        }
    }
    assert forall|j: int| 0 <= j < es2.len() && es2[j].1 != ExampleMode::Auto implies requested(
        rs2,
        #[trigger] es2[j].0,
        es2[j].1,
    ) by {
        if j == k {
            reveal(requested);
            assert(same_example(rs2[n].rel_path, es2[j].0));
        } else {
            let j0 = if j < k { j } else { j - 1 };
            assert(es2[j] == es[j0]);
            reveal(requested);
            assert(requested(rs, es[j0].0, es[j0].1));
            let i = choose|i: int| 0 <= i < rs.len() && same_example(#[trigger] rs[i].rel_path, es[j0].0) && rs[i].mode == es[j0].1;
            assert(rs2[i] == rs[i]);
            assert(same_example(rs2[i].rel_path, es2[j].0));
        }
    }
    assert(!conflicting(rs2)) by {
        if conflicting(rs2) {
            let (i, j) = choose|i: int, j: int|
                0 <= i < rs2.len() && 0 <= j < rs2.len() && same_example(
                    #[trigger] rs2[i].rel_path,
                    #[trigger] rs2[j].rel_path,
                ) && rs2[i].mode == ExampleMode::Deterministic && rs2[j].mode
                    == ExampleMode::Nondeterministic;
            if i < n && j < n {
                assert(rs2[i] == rs[i] && rs2[j] == rs[j]);
                assert(same_example(rs[i].rel_path, rs[j].rel_path));
            } else if i == n && j == n {
            } else if i == n {
                assert(rs2[j] == rs[j]);
                assert(!same_example(rs[j].rel_path, p));
            } else {
                assert(rs2[i] == rs[i]);
                assert(!same_example(rs[i].rel_path, p));
            }
        }
    }
}

/// Recording one more reference keeps the entries matching the references,
/// or fails with `ConflictingReferences` exactly when the references then
/// conflict.
pub proof fn lemma_insert_matches(es: Seq<EntryView>, rs: Seq<DirectiveView>, d: DirectiveView)
    requires
        entries_match(es, rs),
    ensures
        match insert_directive(es, d) {
            Ok(es2) => entries_match(es2, rs.push(d)),
            Err(e) => conflicting(rs.push(d)) && e == Failure::ConflictingReferences(d.rel_path),
        },
{
    let p = d.rel_path;
    let rs2 = rs.push(d);
    let n = rs.len() as int;
    assert(rs2[n] == d);
    lemma_insert_pos(es, p, 0);
    lemma_insert_keeps_sorted(es, d);
    let k = insert_pos(es, p, 0);
    if 0 <= k < es.len() && order_paths(es[k].0, p) == 0 {
        lemma_order_paths_antisym(es[k].0, p);
        assert(same_example(es[k].0, p));
        match merge_modes_spec(es[k].1, d.mode) {
            None => {
                assert(es[k].1 != ExampleMode::Auto);
                assert(requested(rs, es[k].0, es[k].1));
                reveal(requested);
                let i = choose|i: int|
                    0 <= i < rs.len() && same_example(#[trigger] rs[i].rel_path, es[k].0)
                        && rs[i].mode == es[k].1;
                assert(rs2[i] == rs[i]);
                if es[k].1 == ExampleMode::Deterministic {
                    assert(same_example(rs2[i].rel_path, rs2[n].rel_path));
                } else {
                    assert(same_example(rs2[n].rel_path, rs2[i].rel_path));
                }
            },
            Some(m) => {
                lemma_update_matches(es, rs, d, k, m);
            },
        }
    } else {
        assert forall|j: int| 0 <= j < es.len() implies !same_example(#[trigger] es[j].0, p) by {
            if j <= k {
                lemma_order_paths_antisym(es[j].0, p);
            } else {
                assert(order_paths(es[k].0, es[j].0) < 0);
                lemma_order_paths_antisym(es[k].0, p);
            }
        }
        lemma_new_entry_matches(es, rs, d, k);
    }
}

pub proof fn lemma_conflicting_extends(a: Seq<DirectiveView>, b: Seq<DirectiveView>)
    requires
        conflicting(a),
    ensures
        conflicting(a + b),
{
    let (i, j) = choose|i: int, j: int|
        0 <= i < a.len() && 0 <= j < a.len() && same_example(
            #[trigger] a[i].rel_path,
            #[trigger] a[j].rel_path,
        ) && a[i].mode == ExampleMode::Deterministic && a[j].mode == ExampleMode::Nondeterministic;
    assert((a + b)[i] == a[i] && (a + b)[j] == a[j]);
    assert(same_example((a + b)[i].rel_path, (a + b)[j].rel_path));
}

pub proof fn lemma_insert_all_matches(
    es: Seq<EntryView>,
    rs: Seq<DirectiveView>,
    ds: Seq<DirectiveView>,
    i: int,
)
    requires
        0 <= i <= ds.len(),
        entries_match(es, rs + ds.take(i)),
    ensures
        match insert_all(es, ds, i) {
            Ok(es2) => entries_match(es2, rs + ds),
            Err(_) => conflicting(rs + ds),
        },
    decreases ds.len() - i,
{
    if i == ds.len() {
        assert(ds.take(i) =~= ds);
    } else {
        let pre = rs + ds.take(i);
        lemma_insert_matches(es, pre, ds[i]);
        assert(pre.push(ds[i]) =~= rs + ds.take(i + 1));
        match insert_directive(es, ds[i]) {
            Err(_) => {
                lemma_conflicting_extends(rs + ds.take(i + 1), ds.skip(i + 1));
                assert(rs + ds.take(i + 1) + ds.skip(i + 1) =~= rs + ds);
            },
            Ok(es2) => {
                lemma_insert_all_matches(es2, rs, ds, i + 1);
            },
        }
    }
}

pub proof fn lemma_collect_from_matches(
    cs: Seq<Seq<char>>,
    c: int,
    es: Seq<EntryView>,
    rs: Seq<DirectiveView>,
)
    requires
        0 <= c <= cs.len(),
        entries_match(es, rs),
    ensures
        match collect_from(cs, c, es) {
            Ok(es2) => chapters_readable_from(cs, c) && entries_match(
                es2,
                rs + references_from(cs, c),
            ),
            Err(_) => !chapters_readable_from(cs, c) || conflicting(rs + references_from(cs, c)),
        },
    decreases cs.len() - c,
{
    if c == cs.len() {
        assert(rs + references_from(cs, c) =~= rs);
    } else {
        match find_spec(cs[c]) {
            Err(_) => {},
            Ok(ds) => {
                assert(rs + ds.take(0) =~= rs);
                lemma_insert_all_matches(es, rs, ds, 0);
                assert(rs + ds + references_from(cs, c + 1) =~= rs + references_from(cs, c));
                match insert_all(es, ds, 0) {
                    Err(_) => {
                        lemma_conflicting_extends(rs + ds, references_from(cs, c + 1));
                    },
                    Ok(es2) => {
                        lemma_collect_from_matches(cs, c + 1, es2, rs + ds);
                        match collect_from(cs, c + 1, es2) {
                            Ok(_) => {
                                assert forall|c2: int| c <= c2 < cs.len() implies #[trigger] find_spec(
                                    cs[c2],
                                ) is Ok by {
                                    if c2 > c {
                                        assert(chapters_readable_from(cs, c + 1));
                                    }
                                }
                            },
                            Err(_) => {
                                if !chapters_readable_from(cs, c + 1) {
                                    let c2 = choose|c2: int| c + 1 <= c2 < cs.len() && !(#[trigger] find_spec(cs[c2]) is Ok);
                                    assert(!(find_spec(cs[c2]) is Ok));
                                }
                            },
                        }
                    },
                }
            },
        }
    }
}

proof fn lemma_collected_match(cs: Seq<Seq<char>>)
    ensures
        match collect_from(cs, 0, Seq::empty()) {
            Ok(es) => chapters_readable_from(cs, 0) && entries_match(es, references(cs)),
            Err(_) => !chapters_readable_from(cs, 0) || conflicting(references(cs)),
        },
{
    let e = Seq::<EntryView>::empty();
    let r = Seq::<DirectiveView>::empty();
    assert(entries_match(e, r)) by {
        reveal(written_in);
        reveal(has_entry);
        reveal(requested);
    }
    lemma_collect_from_matches(cs, 0, e, r);
    assert(r + references_from(cs, 0) =~= references(cs));
}

/// Collecting the examples of a book fails exactly when the directives of
/// some chapter cannot be read, or when one example is referenced both as
/// deterministic and as nondeterministic.
pub proof fn lemma_collect_fails_exactly(cs: Seq<Seq<char>>)
    ensures
        collect_spec(cs) is Err <==> (exists|c: int|
            0 <= c < cs.len() && #[trigger] find_spec(cs[c]) is Err) || conflicting(references(cs)),
{
    lemma_collected_match(cs);
    if !chapters_readable_from(cs, 0) {
        let c = choose|c: int| 0 <= c < cs.len() && !(#[trigger] find_spec(cs[c]) is Ok);
        assert(find_spec(cs[c]) is Err);
    }
    if exists|c: int| 0 <= c < cs.len() && #[trigger] find_spec(cs[c]) is Err {
        assert(!chapters_readable_from(cs, 0));
    }
}

/// The directives that a list of entries stands for.
pub open spec fn entry_directives(es: Seq<EntryView>) -> Seq<DirectiveView> {
    es.map_values(|e: EntryView| entry_directive(e))
}

proof fn lemma_entries_written(es: Seq<EntryView>, rs: Seq<DirectiveView>)
    requires
        entries_match(es, rs),
    ensures
        forall|k: int|
            #![trigger entry_directives(es)[k]]
            0 <= k < entry_directives(es).len() ==> exists|i: int|
                #![trigger rs[i]]
                0 <= i < rs.len() && rs[i].rel_path == entry_directives(es)[k].rel_path,
{
    let v = entry_directives(es);
    assert forall|k: int| #![trigger v[k]] 0 <= k < v.len() implies exists|i: int|
        #![trigger rs[i]]
        0 <= i < rs.len() && rs[i].rel_path == v[k].rel_path by {
        assert(v[k].rel_path == es[k].0);
        assert(written_in(rs, es[k].0));
        reveal(written_in);
    }
}

proof fn lemma_references_entered(es: Seq<EntryView>, rs: Seq<DirectiveView>)
    requires
        entries_match(es, rs),
    ensures
        forall|i: int|
            #![trigger rs[i]]
            0 <= i < rs.len() ==> exists|k: int|
                #![trigger entry_directives(es)[k]]
                0 <= k < entry_directives(es).len() && same_example(
                    entry_directives(es)[k].rel_path,
                    rs[i].rel_path,
                ),
{
    let v = entry_directives(es);
    assert forall|i: int| #![trigger rs[i]] 0 <= i < rs.len() implies exists|k: int|
        #![trigger v[k]]
        0 <= k < v.len() && same_example(v[k].rel_path, rs[i].rel_path) by {
        assert(has_entry(es, rs[i].rel_path));
        reveal(has_entry);
        let k = choose|k: int| 0 <= k < es.len() && same_example(#[trigger] es[k].0, rs[i].rel_path);
        assert(v[k].rel_path == es[k].0);
    }
}

proof fn lemma_entry_modes(es: Seq<EntryView>, rs: Seq<DirectiveView>)
    requires
        entries_match(es, rs),
    ensures
        forall|k: int, i: int|
            0 <= k < entry_directives(es).len() && 0 <= i < rs.len() && same_example(
                #[trigger] entry_directives(es)[k].rel_path,
                #[trigger] rs[i].rel_path,
            ) ==> rs[i].mode == ExampleMode::Auto || rs[i].mode == entry_directives(es)[k].mode,
        forall|k: int|
            0 <= k < entry_directives(es).len() ==> ((#[trigger] entry_directives(es)[k].mode
                == ExampleMode::Auto) <==> (forall|i: int|
                0 <= i < rs.len() && same_example(entry_directives(es)[k].rel_path, #[trigger] rs[i].rel_path)
                    ==> rs[i].mode == ExampleMode::Auto)),
{
    let v = entry_directives(es);
    assert forall|k: int, i: int|
        0 <= k < v.len() && 0 <= i < rs.len() && same_example(
            #[trigger] v[k].rel_path,
            #[trigger] rs[i].rel_path,
        ) implies rs[i].mode == ExampleMode::Auto || rs[i].mode == v[k].mode by {
        assert(v[k].rel_path == es[k].0 && v[k].mode == es[k].1);
        assert(same_example(es[k].0, rs[i].rel_path));
    }
    assert forall|k: int| 0 <= k < v.len() implies ((#[trigger] v[k].mode == ExampleMode::Auto) <==> (
    forall|i: int|
        0 <= i < rs.len() && same_example(v[k].rel_path, #[trigger] rs[i].rel_path)
            ==> rs[i].mode == ExampleMode::Auto)) by {
        assert(v[k].rel_path == es[k].0 && v[k].mode == es[k].1);
        if v[k].mode == ExampleMode::Auto {
            assert forall|i: int|
                0 <= i < rs.len() && same_example(v[k].rel_path, #[trigger] rs[i].rel_path)
                implies rs[i].mode == ExampleMode::Auto by {
                assert(same_example(es[k].0, rs[i].rel_path));
            }
        } else {
            assert(requested(rs, es[k].0, es[k].1));
            reveal(requested);
            let i = choose|i: int|
                0 <= i < rs.len() && same_example(#[trigger] rs[i].rel_path, es[k].0)
                    && rs[i].mode == es[k].1;
            assert(same_example(v[k].rel_path, rs[i].rel_path));
        }
    }
}

/// Each collected example is written as one of its references, and its mode
/// is the one its references ask for: `Auto` when all of them ask for
/// `Auto`, otherwise the single explicit mode among them. Every reference
/// has a collected example.
pub proof fn lemma_collected_from_references(cs: Seq<Seq<char>>)
    ensures
        collect_spec(cs) matches Ok(v) ==> {
            let rs = references(cs);
            &&& forall|k: int|
                #![trigger v[k]]
                0 <= k < v.len() ==> exists|i: int|
                    #![trigger rs[i]]
                    0 <= i < rs.len() && rs[i].rel_path == v[k].rel_path
            &&& forall|i: int|
                #![trigger rs[i]]
                0 <= i < rs.len() ==> exists|k: int|
                    #![trigger v[k]]
                    0 <= k < v.len() && same_example(v[k].rel_path, rs[i].rel_path)
            &&& forall|k: int, i: int|
                0 <= k < v.len() && 0 <= i < rs.len() && same_example(
                    #[trigger] v[k].rel_path,
                    #[trigger] rs[i].rel_path,
                ) ==> rs[i].mode == ExampleMode::Auto || rs[i].mode == v[k].mode
            &&& forall|k: int|
                0 <= k < v.len() ==> ((#[trigger] v[k].mode == ExampleMode::Auto) <==> (forall|i: int|
                    0 <= i < rs.len() && same_example(v[k].rel_path, #[trigger] rs[i].rel_path)
                        ==> rs[i].mode == ExampleMode::Auto))
        },
{
    lemma_collected_match(cs);
    match collect_from(cs, 0, Seq::empty()) {
        Err(_) => {},
        Ok(es) => {
            let rs = references(cs);
            assert(collect_spec(cs) == Ok::<Seq<DirectiveView>, Failure>(entry_directives(es)));
            lemma_entries_written(es, rs);
            lemma_references_entered(es, rs);
            lemma_entry_modes(es, rs);
        },
    }
}

/// The entry views of the collected examples so far.
spec fn entries_of(v: Seq<RunnableDirective>) -> Seq<EntryView> {
    v.map_values(|d: RunnableDirective| (d.rel_path@, d.mode))
}

/// Records one directive in the collected examples, keeping the cached
/// components of each entry's path alongside.
fn insert_directive_exec(
    entries: &mut Vec<RunnableDirective>,
    comps: &mut Vec<Vec<PathComponent>>,
    d: RunnableDirective,
) -> (r: Result<(), PreprocessError>)
    requires
        old(comps)@.len() == old(entries)@.len(),
        forall|k: int|
            0 <= k < old(entries)@.len() ==> component_views(#[trigger] old(comps)@[k]@)
                == components(old(entries)@[k].rel_path@),
    ensures
        final(comps)@.len() == final(entries)@.len(),
        forall|k: int|
            0 <= k < final(entries)@.len() ==> component_views(#[trigger] final(comps)@[k]@)
                == components(final(entries)@[k].rel_path@),
        match r {
            Ok(_) => insert_directive(entries_of(old(entries)@), d@) == Ok::<
                Seq<EntryView>,
                Failure,
            >(entries_of(final(entries)@)),
            Err(e) => insert_directive(entries_of(old(entries)@), d@) == Err::<
                Seq<EntryView>,
                Failure,
            >(e@),
        },
{
    let ghost es = entries_of(entries@);
    let ghost p = d.rel_path@;
    let pc = str_to_chars(d.rel_path.as_str());
    let dc = path_components(pc.as_slice());
    let mut k: usize = 0;
    let n = entries.len();
    proof {
        crate::collect::lemma_insert_pos(es, p, 0);
    }
    loop
        invariant
            n == entries@.len(),
            comps@.len() == n,
            k <= n,
            es == entries_of(entries@),
            p == d.rel_path@,
            component_views(dc@) == components(p),
            forall|j: int|
                0 <= j < n ==> component_views(#[trigger] comps@[j]@) == components(
                    entries@[j].rel_path@,
                ),
            insert_pos(es, p, 0) == insert_pos(es, p, k as int),
        ensures
            k <= n,
            insert_pos(es, p, 0) == k as int,
        decreases n - k,
    {
        if k >= n {
            break;
        }
        let c = order_component_seqs(&comps[k], &dc);
        assert(es[k as int].0 == entries@[k as int].rel_path@);
        if c >= 0 {
            break;
        }
        k = k + 1;
    }
    let ghost pos = insert_pos(es, p, 0);
    assert(pos == k);
    if k < n {
        let c = order_component_seqs(&comps[k], &dc);
        assert(es[k as int].0 == entries@[k as int].rel_path@);
        if c == 0 {
            let existing = entries[k].mode;
            let m = match merge_example_modes(existing, d.mode) {
                Ok(m) => m,
                Err(_) => {
                    return Err(PreprocessError::ConflictingReferences(d.rel_path));
                },
            };
            let path = entries[k].rel_path.clone();
            let ghost old_entries = entries@;
            entries.set(k, RunnableDirective { rel_path: path, mode: m });
            proof {
                assert(entries_of(entries@) =~= es.update(k as int, (es[k as int].0, m)));
            }
            return Ok(());
        }
    }
    let ghost old_entries = entries@;
    let ghost old_comps = comps@;
    entries.insert(k, d);
    comps.insert(k, dc);
    proof {
        assert(entries_of(entries@) =~= es.insert(k as int, (p, entries@[k as int].mode)));
        assert forall|j: int| 0 <= j < entries@.len() implies component_views(
            #[trigger] comps@[j]@,
        ) == components(entries@[j].rel_path@) by {
            if j < k {
                assert(comps@[j] == old_comps[j]);
                assert(entries@[j] == old_entries[j]);
            } else if j > k {
                assert(comps@[j] == old_comps[j - 1]);
                assert(entries@[j] == old_entries[j - 1]);
            }
        }
    }
    Ok(())
}

/// The runnable examples referenced by the chapters `chapters`, each once,
/// in path order, with the modes of its references combined; the first
/// error of reading a chapter or of combining modes is returned instead.
pub fn collect_referenced_examples(chapters: &Vec<String>) -> (r: Result<
    Vec<RunnableDirective>,
    PreprocessError,
>)
    ensures
        match r {
            Ok(v) => collect_spec(chapters@.map_values(|s: String| s@)) == Ok::<
                Seq<DirectiveView>,
                Failure,
            >(directive_views(v@)),
            Err(e) => collect_spec(chapters@.map_values(|s: String| s@)) == Err::<
                Seq<DirectiveView>,
                Failure,
            >(e@),
        },
{
    let ghost cs = chapters@.map_values(|s: String| s@);
    let ghost total = collect_from(cs, 0, Seq::empty());
    let mut entries: Vec<RunnableDirective> = Vec::new();
    let mut comps: Vec<Vec<PathComponent>> = Vec::new();
    let mut c: usize = 0;
    assert(entries_of(entries@) =~= Seq::<EntryView>::empty());
    while c < chapters.len()
        invariant
            c <= chapters@.len(),
            cs == chapters@.map_values(|s: String| s@),
            total == collect_from(cs, 0, Seq::empty()),
            comps@.len() == entries@.len(),
            forall|k: int|
                0 <= k < entries@.len() ==> component_views(#[trigger] comps@[k]@) == components(
                    entries@[k].rel_path@,
                ),
            total == collect_from(cs, c as int, entries_of(entries@)),
        decreases chapters@.len() - c,
    {
        assert(cs[c as int] == chapters@[c as int]@);
        let ds = match find_runnable_directives(chapters[c].as_str()) {
            Ok(ds) => ds,
            Err(e) => {
                return Err(e);
            },
        };
        let ghost dv = directive_views(ds@);
        let ghost start = entries_of(entries@);
        let mut i: usize = 0;
        let mut ds = ds;
        let ghost ds0 = ds@;
        let n0 = ds.len();
        // Record the directives in order; `ds` is consumed from the front.
        while ds.len() > 0
            invariant
                i <= ds0.len(),
                n0 == ds0.len(),
                ds@ =~= ds0.skip(i as int),
                c < chapters@.len(),
                cs == chapters@.map_values(|s: String| s@),
                total == collect_from(cs, c as int, start),
                total == collect_from(cs, 0, Seq::empty()),
                find_spec(cs[c as int]) == Ok::<Seq<DirectiveView>, Failure>(dv),
                dv == directive_views(ds0),
                comps@.len() == entries@.len(),
                forall|k: int|
                    0 <= k < entries@.len() ==> component_views(#[trigger] comps@[k]@)
                        == components(entries@[k].rel_path@),
                insert_all(start, dv, 0) == insert_all(entries_of(entries@), dv, i as int),
            decreases ds@.len(),
        {
            assert(ds@.len() == ds0.len() - i);
            let d = ds.remove(0);
            assert(dv[i as int] == d@);
            let ghost before = entries_of(entries@);
            match insert_directive_exec(&mut entries, &mut comps, d) {
                Ok(_) => {},
                Err(e) => {
                    return Err(e);
                },
            }
            i = i + 1;
        }
        assert(i == ds0.len());
        c = c + 1;
    }
    let ghost es = entries_of(entries@);
    assert(es.map_values(|e: EntryView| entry_directive(e)) =~= directive_views(entries@));
    Ok(entries)
}

} // verus!
