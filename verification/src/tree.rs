//! Whole-tree expansion: what a full run of the machine over a directory
//! tree yields.
//!
//! A [`DirTreeView`] is a snapshot of an acyclic directory tree, every node
//! carrying its absolute path. [`run_forest_spec`] replays the machine over
//! such a snapshot — the tree answers each metadata query and enumeration —
//! and [`lemma_tree_expansion`] states the outcome: exactly the leaf files
//! reachable at any depth, in depth-first enumeration order, none omitted
//! and none added.

use vstd::prelude::*;
use crate::errors::Error;
use crate::machine::{
    init_spec, on_entries_spec, on_meta_spec, poll_spec, queued_entries, ExpanderView,
    PendingView,
};
use crate::paths::is_playlist_spec;
use crate::resolve::{resolve_spec, RootContextView};

verus! {

/// A snapshot of a directory tree: a plain file, or a directory with its
/// immediate entries in enumeration order. Every node carries its absolute
/// path.
pub enum DirTreeView {
    Leaf(Seq<char>),
    Dir(Seq<char>, Seq<DirTreeView>),
}

impl DirTreeView {
    /// The absolute path of this node.
    pub open spec fn path(self) -> Seq<char> {
        match self {
            DirTreeView::Leaf(p) => p,
            DirTreeView::Dir(p, _) => p,
        }
    }
}

/// No leaf of the tree is named like a playlist, so each is a plain track.
pub open spec fn tree_ok(t: DirTreeView) -> bool
    decreases t,
{
    match t {
        DirTreeView::Leaf(p) => !is_playlist_spec(p),
        DirTreeView::Dir(_, cs) => forall|i: int| 0 <= i < cs.len() ==> tree_ok(#[trigger] cs[i]),
    }
}

/// The number of nodes of the forest `ts[i..]`.
pub open spec fn forest_size_from(ts: Seq<DirTreeView>, i: int) -> nat
    decreases ts, ts.len() - i,
{
    if i < 0 || i >= ts.len() {
        0
    } else {
        tree_size(ts[i]) + forest_size_from(ts, i + 1)
    }
}

/// The number of nodes of the tree.
pub open spec fn tree_size(t: DirTreeView) -> nat
    decreases t,
{
    match t {
        DirTreeView::Leaf(_) => 1,
        DirTreeView::Dir(_, cs) => 1 + forest_size_from(cs, 0),
    }
}

/// The leaf paths of the forest `ts[i..]`, in depth-first order.
pub open spec fn forest_leaves_from(ts: Seq<DirTreeView>, i: int) -> Seq<Seq<char>>
    decreases ts, ts.len() - i,
{
    if i < 0 || i >= ts.len() {
        Seq::empty()
    } else {
        tree_leaves(ts[i]) + forest_leaves_from(ts, i + 1)
    }
}

/// The leaf paths reachable in the tree, in depth-first enumeration order.
pub open spec fn tree_leaves(t: DirTreeView) -> Seq<Seq<char>>
    decreases t,
{
    match t {
        DirTreeView::Leaf(p) => seq![p],
        DirTreeView::Dir(_, cs) => forest_leaves_from(cs, 0),
    }
}

/// The leaf paths of a work stack of trees, in the order the machine emits
/// them: the top of the stack — the last element — first.
pub open spec fn stacked_leaves(ts: Seq<DirTreeView>) -> Seq<Seq<char>>
    decreases ts.len(),
{
    if ts.len() == 0 {
        Seq::empty()
    } else {
        tree_leaves(ts.last()) + stacked_leaves(ts.drop_last())
    }
}

/// A pending item stands for a tree node when taking it yields the node's
/// absolute path: an absolute item is the path itself, a raw item resolves
/// to it.
pub open spec fn stands_for(ctx: RootContextView, it: PendingView, p: Seq<char>) -> bool {
    match it {
        PendingView::Raw(r) => resolve_spec(ctx, r) == Ok::<Seq<char>, Error>(p),
        PendingView::Abs(a) => a == p,
    }
}

/// The machine's work stack mirrors the stack of trees, item by item.
pub open spec fn stack_matches(
    ctx: RootContextView,
    items: Seq<PendingView>,
    ts: Seq<DirTreeView>,
) -> bool {
    items.len() == ts.len() && forall|i: int|
        0 <= i < ts.len() ==> stands_for(ctx, #[trigger] items[i], ts[i].path())
}

proof fn lemma_tree_size_pos(t: DirTreeView)
    ensures
        tree_size(t) >= 1,
{
    match t {
        DirTreeView::Leaf(_) => {},
        DirTreeView::Dir(_, _) => {},
    }
}

proof fn lemma_size_tail(a: Seq<DirTreeView>, b: Seq<DirTreeView>, j: int)
    requires
        0 <= j <= b.len(),
    ensures
        forest_size_from(a + b, a.len() + j) == forest_size_from(b, j),
    decreases b.len() - j,
{
    if j < b.len() {
        assert((a + b)[a.len() + j] == b[j]);
        lemma_size_tail(a, b, j + 1);
    }
}

proof fn lemma_size_concat(a: Seq<DirTreeView>, b: Seq<DirTreeView>, i: int)
    requires
        0 <= i <= a.len(),
    ensures
        forest_size_from(a + b, i) == forest_size_from(a, i) + forest_size_from(b, 0),
    decreases a.len() - i,
{
    if i == a.len() {
        lemma_size_tail(a, b, 0);
    } else {
        assert((a + b)[i] == a[i]);
        lemma_size_concat(a, b, i + 1);
    }
}

proof fn lemma_size_last(ts: Seq<DirTreeView>)
    requires
        ts.len() > 0,
    ensures
        forest_size_from(ts, 0) == forest_size_from(ts.drop_last(), 0) + tree_size(ts.last()),
    decreases ts.len(),
{
    let a = ts.drop_last();
    let b = seq![ts.last()];
    assert(ts =~= a + b);
    lemma_size_concat(a, b, 0);
    assert(forest_size_from(b, 1) == 0);
    assert(forest_size_from(b, 0) == tree_size(ts.last()));
}

proof fn lemma_size_reverse(cs: Seq<DirTreeView>)
    ensures
        forest_size_from(cs.reverse(), 0) == forest_size_from(cs, 0),
    decreases cs.len(),
{
    if cs.len() > 0 {
        let a = seq![cs.last()];
        let b = cs.drop_last().reverse();
        assert(cs.reverse() =~= a + b);
        lemma_size_concat(a, b, 0);
        assert(forest_size_from(a, 1) == 0);
        lemma_size_reverse(cs.drop_last());
        lemma_size_last(cs);
    }
}

proof fn lemma_leaves_shift(cs: Seq<DirTreeView>, j: int)
    requires
        0 <= j,
        cs.len() > 0,
    ensures
        forest_leaves_from(cs.drop_first(), j) == forest_leaves_from(cs, j + 1),
    decreases cs.len() - j,
{
    if j < cs.drop_first().len() {
        assert(cs.drop_first()[j] == cs[j + 1]);
        lemma_leaves_shift(cs, j + 1);
    }
}

proof fn lemma_stacked_leaves_concat(a: Seq<DirTreeView>, b: Seq<DirTreeView>)
    ensures
        stacked_leaves(a + b) == stacked_leaves(b) + stacked_leaves(a),
    decreases b.len(),
{
    if b.len() == 0 {
        assert(a + b =~= a);
        assert(stacked_leaves(b) + stacked_leaves(a) =~= stacked_leaves(a));
    } else {
        assert((a + b).last() == b.last());
        assert((a + b).drop_last() =~= a + b.drop_last());
        lemma_stacked_leaves_concat(a, b.drop_last());
        assert(tree_leaves(b.last()) + (stacked_leaves(b.drop_last()) + stacked_leaves(a))
            =~= (tree_leaves(b.last()) + stacked_leaves(b.drop_last())) + stacked_leaves(a));
    }
}

proof fn lemma_stacked_leaves_reverse(cs: Seq<DirTreeView>)
    ensures
        stacked_leaves(cs.reverse()) == forest_leaves_from(cs, 0),
    decreases cs.len(),
{
    if cs.len() > 0 {
        assert(cs.reverse().last() == cs[0]);
        assert(cs.reverse().drop_last() =~= cs.drop_first().reverse());
        lemma_stacked_leaves_reverse(cs.drop_first());
        lemma_leaves_shift(cs, 0);
    }
}

/// The machine replayed over a stack of trees: the tree on top answers the
/// metadata query, a directory answers the enumeration with its entries,
/// and the run ends when the stack is empty.
pub open spec fn run_forest_spec(m: ExpanderView, ts: Seq<DirTreeView>) -> ExpanderView
    decreases forest_size_from(ts, 0),
    via run_forest_spec_dec
{
    if ts.len() == 0 {
        poll_spec(m).0
    } else {
        let m1 = poll_spec(m).0;
        match ts.last() {
            DirTreeView::Leaf(_) => run_forest_spec(on_meta_spec(m1, false).0, ts.drop_last()),
            DirTreeView::Dir(_, cs) => run_forest_spec(
                on_entries_spec(
                    on_meta_spec(m1, true).0,
                    cs.map_values(|c: DirTreeView| c.path()),
                ),
                ts.drop_last() + cs.reverse(),
            ),
        }
    }
}

#[via_fn]
proof fn run_forest_spec_dec(m: ExpanderView, ts: Seq<DirTreeView>) {
    if ts.len() > 0 {
        lemma_size_last(ts);
        lemma_tree_size_pos(ts.last());
        match ts.last() {
            DirTreeView::Leaf(_) => {},
            DirTreeView::Dir(_, cs) => {
                lemma_size_concat(ts.drop_last(), cs.reverse(), 0);
                lemma_size_reverse(cs);
            },
        }
    }
}

/// Running the machine over a stack of well-formed trees it mirrors
/// completes the run and emits exactly the trees' leaf paths, top of stack
/// first, each tree's leaves in depth-first enumeration order.
pub proof fn lemma_run_forest(m: ExpanderView, ts: Seq<DirTreeView>)
    requires
        m.phase is Idle,
        stack_matches(m.ctx, m.pending, ts),
        forall|i: int| 0 <= i < ts.len() ==> tree_ok(#[trigger] ts[i]),
    ensures
        run_forest_spec(m, ts).phase is Done,
        run_forest_spec(m, ts).tracks == m.tracks + stacked_leaves(ts),
        run_forest_spec(m, ts).ctx == m.ctx,
    decreases forest_size_from(ts, 0),
{
    if ts.len() == 0 {
        assert(m.tracks + stacked_leaves(ts) =~= m.tracks);
    } else {
        let t = ts.last();
        let p = t.path();
        let m1 = poll_spec(m).0;
        assert(stands_for(m.ctx, m.pending.last(), p));
        assert(m1.phase == crate::machine::PhaseView::AwaitMeta(p));
        assert(m1.pending == m.pending.drop_last());
        lemma_size_last(ts);
        lemma_tree_size_pos(t);
        match t {
            DirTreeView::Leaf(_) => {
                assert(tree_ok(t));
                let m2 = on_meta_spec(m1, false).0;
                assert(m2.phase is Idle);
                assert(m2.tracks == m.tracks.push(p));
                assert(stack_matches(m.ctx, m2.pending, ts.drop_last())) by {
                    assert(forall|i: int|
                        0 <= i < ts.drop_last().len() ==> stands_for(
                            m.ctx,
                            #[trigger] m2.pending[i],
                            ts.drop_last()[i].path(),
                        ));
                }
                lemma_run_forest(m2, ts.drop_last());
                assert(m.tracks.push(p) + stacked_leaves(ts.drop_last()) =~= m.tracks + (seq![p]
                    + stacked_leaves(ts.drop_last())));
                assert(tree_leaves(t) == seq![p]);
            },
            DirTreeView::Dir(_, cs) => {
                let paths = cs.map_values(|c: DirTreeView| c.path());
                let m2 = on_meta_spec(m1, true).0;
                let m3 = on_entries_spec(m2, paths);
                assert(m3.phase is Idle);
                assert(m3.tracks == m.tracks);
                let ts2 = ts.drop_last() + cs.reverse();
                assert(m3.pending =~= m.pending.drop_last() + queued_entries(paths));
                assert(stack_matches(m.ctx, m3.pending, ts2)) by {
                    assert(queued_entries(paths).len() == cs.len());
                    assert(forall|i: int|
                        0 <= i < cs.len() ==> #[trigger] queued_entries(paths)[i]
                            == PendingView::Abs(cs[cs.len() - 1 - i].path()));
                    assert(forall|i: int|
                        0 <= i < ts2.len() ==> stands_for(
                            m.ctx,
                            #[trigger] m3.pending[i],
                            ts2[i].path(),
                        ));
                }
                assert(forall|i: int| 0 <= i < ts2.len() ==> tree_ok(#[trigger] ts2[i])) by {
                    assert(tree_ok(t));
                    assert(forall|i: int|
                        0 <= i < cs.len() ==> tree_ok(#[trigger] cs.reverse()[i]));
                }
                lemma_size_concat(ts.drop_last(), cs.reverse(), 0);
                lemma_size_reverse(cs);
                lemma_run_forest(m3, ts2);
                lemma_stacked_leaves_concat(ts.drop_last(), cs.reverse());
                lemma_stacked_leaves_reverse(cs);
                assert(stacked_leaves(ts2) == forest_leaves_from(cs, 0) + stacked_leaves(
                    ts.drop_last(),
                ));
                assert(tree_leaves(t) == forest_leaves_from(cs, 0));
                assert(m.tracks + (tree_leaves(t) + stacked_leaves(ts.drop_last())) =~= m.tracks
                    + stacked_leaves(ts2));
            },
        }
    }
}

/// Nested directories: expanding a directory tree yields exactly the leaf
/// files reachable at any depth — none omitted, none invented, each as
/// often as it occurs in the tree — in depth-first enumeration order.
pub proof fn lemma_tree_expansion(ctx: RootContextView, path: Seq<char>, t: DirTreeView)
    requires
        resolve_spec(ctx, path) == Ok::<Seq<char>, Error>(t.path()),
        tree_ok(t),
    ensures
        run_forest_spec(init_spec(ctx, path), seq![t]).phase is Done,
        run_forest_spec(init_spec(ctx, path), seq![t]).tracks == tree_leaves(t),
{
    let m0 = init_spec(ctx, path);
    assert(m0.pending[0] == PendingView::Raw(path));
    assert(stack_matches(ctx, m0.pending, seq![t]));
    lemma_run_forest(m0, seq![t]);
    assert(stacked_leaves(seq![t].drop_last()) =~= Seq::<Seq<char>>::empty());
    assert(m0.tracks + stacked_leaves(seq![t]) =~= tree_leaves(t));
}

} // verus!
