//! Walking a manifest's chunk identifiers, flat or through its tree, one step at a time: the
//! walk says which chunk comes next or which tree node it needs; the caller fetches nodes and
//! hands them back.

use vstd::prelude::*;

use crate::block::{copy_ids, ids_view};
use crate::content_id::ContentId;
use crate::manifest::{
    concat_links, group, group_end, law_level_covers_ids, lemma_group_count, lemma_group_start, level_blocks,
    level_ids, tree_levels, tree_of, BlockView, DocumentManifest, IdView,
};

verus! {

/// A pending list of identifiers and the position of the next one.
pub type FrameView = (Seq<IdView>, nat);

/// The walk's state: pending node lists (innermost last), the chunks of the current leaf
/// node, and the position of the next of them.
pub type WalkView = (Seq<FrameView>, Seq<IdView>, nat);

/// What the walk does next.
#[derive(Debug)]
pub enum WalkStep {
    /// The next chunk identifier.
    Chunk(ContentId),
    /// The tree node with this identifier is needed: fetch it and `visit` it.
    Fetch(ContentId),
    /// All chunks were given.
    Done,
}

/// The frames left once finished lists are dropped from the top.
pub open spec fn drop_finished(frames: Seq<FrameView>) -> Seq<FrameView>
    decreases frames.len(),
{
    if frames.len() == 0 {
        frames
    } else if frames.last().1 >= frames.last().0.len() {
        drop_finished(frames.drop_last())
    } else {
        frames
    }
}

/// Positions lie within their lists.
pub open spec fn walk_wf(v: WalkView) -> bool {
    &&& v.2 <= v.1.len()
    &&& forall|k: int| 0 <= k < v.0.len() ==> #[trigger] v.0[k].1 <= v.0[k].0.len()
}

/// What the next step does: 0 gives a chunk, 1 asks for a node, 2 ends.
pub open spec fn step_kind(v: WalkView) -> int {
    if v.2 < v.1.len() {
        0
    } else if drop_finished(v.0).len() > 0 {
        1
    } else {
        2
    }
}

/// The identifier the next step gives (a chunk) or asks for (a node).
pub open spec fn step_id(v: WalkView) -> IdView {
    if v.2 < v.1.len() {
        v.1[v.2 as int]
    } else {
        let rest = drop_finished(v.0);
        rest.last().0[rest.last().1 as int]
    }
}

/// The walk's state after its next step.
pub open spec fn after_step(v: WalkView) -> WalkView {
    if v.2 < v.1.len() {
        (v.0, v.1, v.2 + 1)
    } else {
        let rest = drop_finished(v.0);
        if rest.len() == 0 {
            (rest, v.1, v.2)
        } else {
            (rest.update(rest.len() - 1, (rest.last().0, rest.last().1 + 1)), v.1, v.2)
        }
    }
}

/// The walk's state after taking in a fetched node.
pub open spec fn after_visit(v: WalkView, children: Seq<IdView>, is_leaf_level: bool) -> WalkView {
    if is_leaf_level {
        (v.0, children, 0)
    } else {
        (v.0.push((children, 0)), v.1, v.2)
    }
}

/// Dropping finished lists keeps a prefix of the frames, whose top, if any, is unfinished.
pub proof fn lemma_drop_finished(fr: Seq<FrameView>)
    ensures
        drop_finished(fr).len() <= fr.len(),
        forall|k: int| 0 <= k < drop_finished(fr).len() ==> #[trigger] drop_finished(fr)[k] == fr[k],
        drop_finished(fr).len() > 0 ==> drop_finished(fr).last().1 < drop_finished(fr).last().0.len(),
    decreases fr.len(),
{
    if fr.len() > 0 && fr.last().1 >= fr.last().0.len() {
        lemma_drop_finished(fr.drop_last());
    }
}

/// Steps and visits keep positions within their lists.
pub proof fn lemma_wf_kept(v: WalkView, children: Seq<IdView>, is_leaf_level: bool)
    requires
        walk_wf(v),
    ensures
        walk_wf(after_step(v)),
        walk_wf(after_visit(v, children, is_leaf_level)),
{
    lemma_drop_finished(v.0);
    let rest = drop_finished(v.0);
    let w = after_step(v);
    assert forall|k: int| 0 <= k < w.0.len() implies #[trigger] w.0[k].1 <= w.0[k].0.len() by {
        if v.2 < v.1.len() {
            assert(w.0[k] == v.0[k]);
        } else if k < rest.len() - 1 {
            assert(w.0[k] == rest[k]);
            assert(rest[k] == v.0[k]);
        }
    }
    if !is_leaf_level {
        let u = after_visit(v, children, is_leaf_level);
        assert forall|k: int| 0 <= k < u.0.len() implies #[trigger] u.0[k].1 <= u.0[k].0.len() by {
            if k < v.0.len() {
                assert(u.0[k] == v.0[k]);
            }
        }
    }
}

/// The frame views of the walk's frames.
pub open spec fn frames_view(s: Seq<(Vec<ContentId>, usize)>) -> Seq<FrameView> {
    s.map_values(|f: (Vec<ContentId>, usize)| (ids_view(f.0@), f.1 as nat))
}

/// Walks the chunk identifiers of a manifest.
#[derive(Debug)]
pub struct TreeWalk {
    frames: Vec<(Vec<ContentId>, usize)>,
    current: Vec<ContentId>,
    next: usize,
}

impl View for TreeWalk {
    type V = WalkView;

    closed spec fn view(&self) -> WalkView {
        (frames_view(self.frames@), ids_view(self.current@), self.next as nat)
    }
}

impl TreeWalk {
    /// A walk over a flat list of chunk identifiers.
    pub fn flat(chunks: &[ContentId]) -> (r: Self)
        ensures
            r.wf(),
            r@ == (Seq::<FrameView>::empty(), ids_view(chunks@), 0nat),
    {
        let w = TreeWalk { frames: Vec::new(), current: copy_ids(chunks), next: 0 };
        assert(frames_view(w.frames@) =~= Seq::<FrameView>::empty());
        w
    }

    /// A walk down a tree from the identifiers of its top nodes.
    pub fn tree(top_nodes: &[ContentId]) -> (r: Self)
        ensures
            r.wf(),
            r@ == (seq![(ids_view(top_nodes@), 0nat)], Seq::<IdView>::empty(), 0nat),
    {
        let mut frames: Vec<(Vec<ContentId>, usize)> = Vec::new();
        frames.push((copy_ids(top_nodes), 0));
        let w = TreeWalk { frames, current: Vec::new(), next: 0 };
        assert(frames_view(w.frames@) =~= seq![(ids_view(top_nodes@), 0nat)]);
        assert(ids_view(w.current@) =~= Seq::<IdView>::empty());
        w
    }

    /// The walk over a manifest's chunks: flat, or down its tree.
    pub fn of_manifest(manifest: &DocumentManifest) -> (r: Self)
        ensures
            r.wf(),
            manifest.structure is Flat ==> r@ == (Seq::<FrameView>::empty(), ids_view(manifest.children@), 0nat),
            manifest.structure is Tree ==> r@ == (seq![(ids_view(manifest.children@), 0nat)], Seq::<IdView>::empty(), 0nat),
    {
        if manifest.is_flat() {
            Self::flat(manifest.children.as_slice())
        } else {
            Self::tree(manifest.children.as_slice())
        }
    }

    /// The walk's internal consistency: positions within their lists.
    pub closed spec fn wf(&self) -> bool {
        walk_wf(self@)
    }

    /// The next step: the next chunk of the current leaf node; else the next node to fetch,
    /// after dropping finished node lists; else the end.
    pub fn step(&mut self) -> (r: WalkStep)
        requires
            old(self).wf(),
        ensures
            final(self).wf(),
            final(self)@ == after_step(old(self)@),
            step_kind(old(self)@) == 0 ==> (r matches WalkStep::Chunk(c) && c@ == step_id(old(self)@)),
            step_kind(old(self)@) == 1 ==> (r matches WalkStep::Fetch(c) && c@ == step_id(old(self)@)),
            step_kind(old(self)@) == 2 ==> r is Done,
    {
        let ghost v0 = self@;
        proof {
            lemma_drop_finished(self@.0);
            lemma_wf_kept(self@, Seq::empty(), true);
        }
        if self.next < self.current.len() {
            let c = self.current[self.next].copy();
            self.next = self.next + 1;
            assert(self@ == after_step(v0));
            assert(walk_wf(self@));
            return WalkStep::Chunk(c);
        }
        let ghost start = frames_view(self.frames@);
        while self.frames.len() > 0
            invariant
                drop_finished(frames_view(self.frames@)) == drop_finished(start),
                self.current == old(self).current,
                self.next == old(self).next,
            ensures
                drop_finished(frames_view(self.frames@)) == drop_finished(start),
                self.current == old(self).current,
                self.next == old(self).next,
                self.frames@.len() > 0 ==> self.frames@.last().1 < self.frames@.last().0@.len(),
            decreases self.frames@.len(),
        {
            let k = self.frames.len() - 1;
            let finished = self.frames[k].1 >= self.frames[k].0.len();
            if !finished {
                break;
            }
            proof {
                assert(frames_view(self.frames@).drop_last() =~= frames_view(self.frames@.drop_last()));
            }
            self.frames.pop();
        }
        if self.frames.len() == 0 {
            proof {
                assert(frames_view(self.frames@) =~= Seq::<FrameView>::empty());
            }
            assert(self@ == after_step(v0));
            assert(walk_wf(self@));
            return WalkStep::Done;
        }
        proof {
            let fv = frames_view(self.frames@);
            assert(fv.last() == (ids_view(self.frames@.last().0@), self.frames@.last().1 as nat));
            assert(drop_finished(fv) == fv);
        }
        let ghost before = self.frames@;
        let (ids, i) = self.frames.pop().unwrap();
        assert((ids, i) == before.last());
        let n = ids.len();
        assert(i < n);
        let c = ids[i].copy();
        let ghost fv = frames_view(self.frames@.push((ids, i)));
        self.frames.push((ids, i + 1));
        proof {
            assert(frames_view(self.frames@) =~= fv.update(fv.len() - 1, (fv.last().0, fv.last().1 + 1)));
        }
        assert(self@ == after_step(v0));
        assert(walk_wf(self@));
        WalkStep::Fetch(c)
    }

    /// Takes in a fetched tree node: a leaf node's children become the current chunks; an
    /// inner node's children become a new node list to walk first.
    pub fn visit(&mut self, children: Vec<ContentId>, is_leaf_level: bool)
        requires
            old(self).wf(),
        ensures
            final(self).wf(),
            final(self)@ == after_visit(old(self)@, ids_view(children@), is_leaf_level),
    {
        proof {
            lemma_wf_kept(self@, ids_view(children@), is_leaf_level);
        }
        let ghost cv = ids_view(children@);
        if is_leaf_level {
            self.current = children;
            self.next = 0;
        } else {
            self.frames.push((children, 0));
        }
        assert(self@ == after_visit(old(self)@, cv, is_leaf_level));
        assert(walk_wf(self@));
    }
}

// ---------------------------------------------------------------------------------------------
// What the walk gives
// ---------------------------------------------------------------------------------------------

/// The chunks under a list of identifiers, given what each node holds (its children, and
/// whether they are chunks), going down at most `depth` node levels.
pub open spec fn expand(ids: Seq<IdView>, nodes: spec_fn(IdView) -> (Seq<IdView>, bool), depth: nat) -> Seq<IdView>
    decreases depth, ids.len(),
{
    if ids.len() == 0 {
        Seq::empty()
    } else {
        expand_one(ids[0], nodes, depth) + expand(ids.drop_first(), nodes, depth)
    }
}

/// The chunks under one node identifier.
pub open spec fn expand_one(id: IdView, nodes: spec_fn(IdView) -> (Seq<IdView>, bool), depth: nat) -> Seq<IdView>
    decreases depth, 0nat,
{
    if depth == 0 {
        Seq::empty()
    } else if nodes(id).1 {
        nodes(id).0
    } else {
        expand(nodes(id).0, nodes, (depth - 1) as nat)
    }
}

/// The chunks still to come from the pending node lists, innermost first; the list at
/// position `k` may go down `depth - k` levels.
pub open spec fn pending(frames: Seq<FrameView>, nodes: spec_fn(IdView) -> (Seq<IdView>, bool), depth: nat) -> Seq<IdView>
    decreases frames.len(),
{
    if frames.len() == 0 {
        Seq::empty()
    } else {
        let t = frames.len() - 1;
        let f = frames[t];
        expand(f.0.subrange(f.1 as int, f.0.len() as int), nodes, (depth - t) as nat) + pending(frames.drop_last(), nodes, depth)
    }
}

/// The chunks still to come from a walk: the rest of the current leaf, then the pending lists.
pub open spec fn remaining(v: WalkView, nodes: spec_fn(IdView) -> (Seq<IdView>, bool), depth: nat) -> Seq<IdView> {
    v.1.subrange(v.2 as int, v.1.len() as int) + pending(v.0, nodes, depth)
}

/// Expanding two lists one after the other.
pub proof fn lemma_expand_concat(a: Seq<IdView>, b: Seq<IdView>, nodes: spec_fn(IdView) -> (Seq<IdView>, bool), depth: nat)
    ensures
        expand(a + b, nodes, depth) == expand(a, nodes, depth) + expand(b, nodes, depth),
    decreases a.len(),
{
    if a.len() == 0 {
        assert(a + b =~= b);
    } else {
        assert((a + b)[0] == a[0]);
        assert((a + b).drop_first() =~= a.drop_first() + b);
        lemma_expand_concat(a.drop_first(), b, nodes, depth);
    }
}

proof fn lemma_pending_drop_finished(fr: Seq<FrameView>, nodes: spec_fn(IdView) -> (Seq<IdView>, bool), depth: nat)
    requires
        forall|k: int| 0 <= k < fr.len() ==> #[trigger] fr[k].1 <= fr[k].0.len(),
    ensures
        pending(drop_finished(fr), nodes, depth) == pending(fr, nodes, depth),
    decreases fr.len(),
{
    if fr.len() > 0 && fr.last().1 >= fr.last().0.len() {
        let t = fr.len() - 1;
        assert(fr[t].1 <= fr[t].0.len());
        assert(fr.last().0.subrange(fr.last().1 as int, fr.last().0.len() as int) =~= Seq::<IdView>::empty());
        assert forall|k: int| 0 <= k < fr.drop_last().len() implies #[trigger] fr.drop_last()[k].1 <= fr.drop_last()[k].0.len() by {
            assert(fr.drop_last()[k] == fr[k]);
        }
        lemma_pending_drop_finished(fr.drop_last(), nodes, depth);
    }
}

/// Whether a node identifier stands for a subtree of at most `h` node levels under what
/// `nodes` says of each node.
pub open spec fn node_fits(id: IdView, nodes: spec_fn(IdView) -> (Seq<IdView>, bool), h: nat) -> bool
    decreases h, 0nat, 0nat,
{
    h != 0 && (nodes(id).1 || all_fit(nodes(id).0, nodes, (h - 1) as nat))
}

/// Whether every identifier of a list stands for a subtree of at most `h` node levels.
pub open spec fn all_fit(s: Seq<IdView>, nodes: spec_fn(IdView) -> (Seq<IdView>, bool), h: nat) -> bool
    decreases h, 1nat, s.len(),
{
    s.len() == 0 || (node_fits(s[0], nodes, h) && all_fit(s.drop_first(), nodes, h))
}

/// Each identifier of a list that fits in `h` levels fits in `h` levels.
proof fn lemma_all_fit_get(s: Seq<IdView>, nodes: spec_fn(IdView) -> (Seq<IdView>, bool), h: nat, j: int)
    requires
        all_fit(s, nodes, h),
        0 <= j < s.len(),
    ensures
        node_fits(s[j], nodes, h),
    decreases j,
{
    if j > 0 {
        lemma_all_fit_get(s.drop_first(), nodes, h, j - 1);
        assert(s.drop_first()[j - 1] == s[j]);
    }
}

/// A list whose identifiers each fit in `h` levels fits in `h` levels.
pub proof fn lemma_all_fit_intro(s: Seq<IdView>, nodes: spec_fn(IdView) -> (Seq<IdView>, bool), h: nat)
    requires
        forall|j: int| 0 <= j < s.len() ==> #[trigger] node_fits(s[j], nodes, h),
    ensures
        all_fit(s, nodes, h),
    decreases s.len(),
{
    if s.len() > 0 {
        assert forall|j: int| 0 <= j < s.drop_first().len() implies #[trigger] node_fits(s.drop_first()[j], nodes, h) by {
            assert(s.drop_first()[j] == s[j + 1]);
        }
        lemma_all_fit_intro(s.drop_first(), nodes, h);
        assert(node_fits(s[0], nodes, h));
    }
}

/// The children of an inner node that fits in `h` levels fit in one level fewer.
proof fn lemma_children_fit(id: IdView, nodes: spec_fn(IdView) -> (Seq<IdView>, bool), h: nat)
    requires
        node_fits(id, nodes, h),
        !nodes(id).1,
    ensures
        h >= 1,
        forall|j: int| 0 <= j < nodes(id).0.len() ==> #[trigger] node_fits(nodes(id).0[j], nodes, (h - 1) as nat),
{
    assert forall|j: int| 0 <= j < nodes(id).0.len() implies #[trigger] node_fits(nodes(id).0[j], nodes, (h - 1) as nat) by {
        lemma_all_fit_get(nodes(id).0, nodes, (h - 1) as nat, j);
    }
}

/// The levels left below the list at position `k` of a walk down `depth` levels.
pub open spec fn room(depth: nat, k: int) -> nat {
    if k < depth { (depth - k) as nat } else { 0 }
}

/// Every node still pending in the list at position `k` fits in the levels left below it.
pub open spec fn walk_fits(v: WalkView, nodes: spec_fn(IdView) -> (Seq<IdView>, bool), depth: nat) -> bool {
    forall|k: int, j: int|
        #![trigger v.0[k].0[j]]
        0 <= k < v.0.len() && v.0[k].1 <= j < v.0[k].0.len() ==> node_fits(v.0[k].0[j], nodes, room(depth, k))
}

/// Dropping finished lists keeps every pending node where it was.
proof fn lemma_fits_drop_finished(v: WalkView, nodes: spec_fn(IdView) -> (Seq<IdView>, bool), depth: nat)
    requires
        walk_fits(v, nodes, depth),
    ensures
        walk_fits((drop_finished(v.0), v.1, v.2), nodes, depth),
{
    lemma_drop_finished(v.0);
    let w = (drop_finished(v.0), v.1, v.2);
    assert forall|k: int, j: int| 0 <= k < w.0.len() && w.0[k].1 <= j < w.0[k].0.len() implies node_fits(w.0[k].0[j], nodes, room(depth, k)) by {
        assert(w.0[k] == v.0[k]);
        assert(w.0[k].0[j] == v.0[k].0[j]);
    }
    assert(walk_fits(w, nodes, depth));
}

/// A step that gives a chunk gives the first of the chunks still to come, and keeps the
/// pending nodes.
pub proof fn law_walk_gives_next_chunk(v: WalkView, nodes: spec_fn(IdView) -> (Seq<IdView>, bool), depth: nat)
    requires
        walk_wf(v),
        step_kind(v) == 0,
    ensures
        remaining(v, nodes, depth) == seq![step_id(v)] + remaining(after_step(v), nodes, depth),
        walk_fits(v, nodes, depth) ==> walk_fits(after_step(v), nodes, depth),
{
    let w = after_step(v);
    assert(v.1.subrange(v.2 as int, v.1.len() as int) =~= seq![v.1[v.2 as int]] + w.1.subrange(w.2 as int, w.1.len() as int));
    if walk_fits(v, nodes, depth) {
        assert forall|k: int, j: int| 0 <= k < w.0.len() && w.0[k].1 <= j < w.0[k].0.len() implies node_fits(w.0[k].0[j], nodes, room(depth, k)) by {
            assert(w.0[k].0[j] == v.0[k].0[j]);
        }
    }
}

/// A walk that ends has no chunk still to come.
pub proof fn law_walk_ends_when_exhausted(v: WalkView, nodes: spec_fn(IdView) -> (Seq<IdView>, bool), depth: nat)
    requires
        walk_wf(v),
        step_kind(v) == 2,
    ensures
        remaining(v, nodes, depth) == Seq::<IdView>::empty(),
{
    lemma_pending_drop_finished(v.0, nodes, depth);
    assert(v.1.subrange(v.2 as int, v.1.len() as int) =~= Seq::<IdView>::empty());
    assert(drop_finished(v.0) =~= Seq::<FrameView>::empty());
}

/// Fetching the node a step asks for and visiting it with what the node holds loses and adds
/// no chunk, and keeps every pending node within its levels.
pub proof fn law_walk_fetch_keeps_chunks(v: WalkView, nodes: spec_fn(IdView) -> (Seq<IdView>, bool), depth: nat)
    requires
        walk_wf(v),
        step_kind(v) == 1,
        walk_fits(v, nodes, depth),
    ensures
        remaining(after_visit(after_step(v), nodes(step_id(v)).0, nodes(step_id(v)).1), nodes, depth) == remaining(v, nodes, depth),
        walk_fits(after_visit(after_step(v), nodes(step_id(v)).0, nodes(step_id(v)).1), nodes, depth),
{
    lemma_drop_finished(v.0);
    lemma_pending_drop_finished(v.0, nodes, depth);
    lemma_fits_drop_finished(v, nodes, depth);
    let rest = drop_finished(v.0);
    let t = rest.len() - 1;
    let top = rest[t];
    let ids = top.0;
    let i = top.1;
    let c = ids[i as int];
    assert(rest[t].0[i as int] == c);
    assert(node_fits(c, nodes, room(depth, t)));
    assert(t < depth);
    let d = (depth - t) as nat;
    let tail = ids.subrange((i + 1) as int, ids.len() as int);
    assert(ids.subrange(i as int, ids.len() as int)[0] == c);
    assert(ids.subrange(i as int, ids.len() as int).drop_first() =~= tail);
    assert(expand(ids.subrange(i as int, ids.len() as int), nodes, d) == expand_one(c, nodes, d) + expand(tail, nodes, d));
    let w = after_step(v);
    assert(w.0 == rest.update(t, (ids, i + 1)));
    assert(w.0.drop_last() =~= rest.drop_last());
    assert(pending(w.0, nodes, depth) == expand(tail, nodes, d) + pending(rest.drop_last(), nodes, depth));
    assert(pending(rest, nodes, depth) == expand(ids.subrange(i as int, ids.len() as int), nodes, d) + pending(rest.drop_last(), nodes, depth));
    assert(v.1.subrange(v.2 as int, v.1.len() as int) =~= Seq::<IdView>::empty());
    assert forall|k: int, j: int| 0 <= k < w.0.len() && w.0[k].1 <= j < w.0[k].0.len() implies node_fits(w.0[k].0[j], nodes, room(depth, k)) by {
        if k < t {
            assert(w.0[k] == rest[k]);
        } else {
            assert(w.0[k] == (ids, i + 1));
            assert(rest[k] == top);
        }
    }
    let (children, leaf) = nodes(c);
    let u = after_visit(w, children, leaf);
    if leaf {
        assert(expand_one(c, nodes, d) == children);
        assert(u.1.subrange(0, u.1.len() as int) =~= children);
        assert(remaining(u, nodes, depth) =~= children + pending(w.0, nodes, depth));
        assert(remaining(v, nodes, depth) =~= pending(rest, nodes, depth));
        assert(u.0 == w.0);
    } else {
        assert(expand_one(c, nodes, d) == expand(children, nodes, (d - 1) as nat));
        assert(u.0.drop_last() == w.0);
        assert(children.subrange(0, children.len() as int) =~= children);
        assert(pending(u.0, nodes, depth) == expand(children, nodes, (depth - (t + 1)) as nat) + pending(w.0, nodes, depth));
        assert(w.1.subrange(w.2 as int, w.1.len() as int) =~= Seq::<IdView>::empty());
        assert(remaining(u, nodes, depth) =~= pending(u.0, nodes, depth));
        assert(remaining(v, nodes, depth) =~= pending(rest, nodes, depth));
        assert forall|k: int, j: int| 0 <= k < u.0.len() && u.0[k].1 <= j < u.0[k].0.len() implies node_fits(u.0[k].0[j], nodes, room(depth, k)) by {
            if k < w.0.len() {
                assert(u.0[k] == w.0[k]);
            } else {
                assert(u.0[k] == (children, 0nat));
                lemma_children_fit(c, nodes, d);
                assert(node_fits(children[j], nodes, (d - 1) as nat));
                assert(d - 1 != 0);
            }
        }
    }
}

// ---------------------------------------------------------------------------------------------
// Walking a built tree
// ---------------------------------------------------------------------------------------------

/// Whether `nodes` answers each node built above `ids` (as `TreeBuilder::build` groups them)
/// with that node's children and whether they are chunks.
pub open spec fn levels_consistent(
    ids: Seq<IdView>,
    f: nat,
    is_leaf_level: bool,
    nodes: spec_fn(IdView) -> (Seq<IdView>, bool),
) -> bool
    decreases ids.len(),
{
    if f < 2 || ids.len() <= f {
        true
    } else {
        proof {
            lemma_group_count(ids.len(), f);
        }
        &&& level_consistent(ids, f, is_leaf_level, nodes)
        &&& levels_consistent(level_ids(ids, f, is_leaf_level), f, false, nodes)
    }
}

/// Whether `nodes` answers each node of the one level built above `ids` with that node's
/// children and whether they are chunks.
pub open spec fn level_consistent(
    ids: Seq<IdView>,
    f: nat,
    is_leaf_level: bool,
    nodes: spec_fn(IdView) -> (Seq<IdView>, bool),
) -> bool {
    forall|k: int|
        #![trigger level_blocks(ids, f, is_leaf_level)[k]]
        0 <= k < level_blocks(ids, f, is_leaf_level).len() ==> nodes(level_blocks(ids, f, is_leaf_level)[k].0) == (
            level_blocks(ids, f, is_leaf_level)[k].2,
            is_leaf_level,
        )
}

/// Whether `nodes` answers each node of the tree built over `chunks` (as `TreeBuilder::build`
/// builds it) with that node's children and whether they are chunks.
pub open spec fn tree_consistent(chunks: Seq<IdView>, f: nat, nodes: spec_fn(IdView) -> (Seq<IdView>, bool)) -> bool {
    &&& level_consistent(chunks, f, true, nodes)
    &&& levels_consistent(level_ids(chunks, f, true), f, false, nodes)
}

/// Expanding the identifiers of consistent node blocks one level further down gives their links.
proof fn lemma_blocks_expand(bs: Seq<BlockView>, nodes: spec_fn(IdView) -> (Seq<IdView>, bool), e: nat, leaf: bool)
    requires
        forall|k: int| 0 <= k < bs.len() ==> #[trigger] nodes(bs[k].0) == (bs[k].2, leaf),
    ensures
        expand(bs.map_values(|b: BlockView| b.0), nodes, e + 1) == (if leaf {
            concat_links(bs)
        } else {
            expand(concat_links(bs), nodes, e)
        }),
    decreases bs.len(),
{
    let ids = bs.map_values(|b: BlockView| b.0);
    if bs.len() == 0 {
        assert(ids =~= Seq::<IdView>::empty());
        assert(concat_links(bs) =~= Seq::<IdView>::empty());
    } else {
        let p = bs.drop_last();
        let x = bs.last();
        assert forall|k: int| 0 <= k < p.len() implies #[trigger] nodes(p[k].0) == (p[k].2, leaf) by {
            assert(p[k] == bs[k]);
        }
        lemma_blocks_expand(p, nodes, e, leaf);
        let pi = p.map_values(|b: BlockView| b.0);
        assert(ids =~= pi + seq![x.0]);
        lemma_expand_concat(pi, seq![x.0], nodes, e + 1);
        assert(seq![x.0].drop_first() =~= Seq::<IdView>::empty());
        assert(seq![x.0][0] == x.0);
        assert(expand(seq![x.0], nodes, e + 1) == expand_one(x.0, nodes, e + 1) + expand(Seq::<IdView>::empty(), nodes, e + 1));
        assert(nodes(bs[bs.len() - 1].0) == (bs[bs.len() - 1].2, leaf));
        assert(concat_links(bs) == concat_links(p) + x.2);
        if leaf {
            assert(expand(seq![x.0], nodes, e + 1) =~= x.2);
        } else {
            assert(expand(seq![x.0], nodes, e + 1) =~= expand(x.2, nodes, e));
            lemma_expand_concat(concat_links(p), x.2, nodes, e);
        }
    }
}

/// Expanding one tree level above `ids` one level further down gives `ids` back: the chunks
/// themselves above chunks, else what `ids` expand to.
proof fn lemma_level_expand(ids: Seq<IdView>, f: nat, leaf: bool, nodes: spec_fn(IdView) -> (Seq<IdView>, bool), e: nat)
    requires
        f >= 2,
        level_consistent(ids, f, leaf, nodes),
    ensures
        expand(level_ids(ids, f, leaf), nodes, e + 1) == (if leaf { ids } else { expand(ids, nodes, e) }),
{
    let bs = level_blocks(ids, f, leaf);
    assert forall|k: int| 0 <= k < bs.len() implies #[trigger] nodes(bs[k].0) == (bs[k].2, leaf) by {
        assert(nodes(level_blocks(ids, f, leaf)[k].0) == (level_blocks(ids, f, leaf)[k].2, leaf));
    }
    lemma_blocks_expand(bs, nodes, e, leaf);
    law_level_covers_ids(ids, f, leaf);
}

/// Expanding the root's children of the tree built above `ids` through all its levels, and
/// `e` more, gives `ids` back (the chunks above chunks, else what `ids` expand to in `e`).
proof fn lemma_tree_expand(ids: Seq<IdView>, f: nat, leaf: bool, nodes: spec_fn(IdView) -> (Seq<IdView>, bool), e: nat)
    requires
        f >= 2,
        ids.len() > f,
        levels_consistent(ids, f, leaf, nodes),
    ensures
        expand(tree_levels(ids, f, leaf).0, nodes, tree_levels(ids, f, leaf).1 + e) == (if leaf {
            ids
        } else {
            expand(ids, nodes, e)
        }),
    decreases ids.len(),
{
    lemma_group_count(ids.len(), f);
    let l = level_ids(ids, f, leaf);
    lemma_level_expand(ids, f, leaf, nodes, e);
    if l.len() > f {
        lemma_tree_expand(l, f, false, nodes, e + 1);
        assert(tree_levels(ids, f, leaf).1 + e == tree_levels(l, f, false).1 + (e + 1));
    }
}

/// The nodes of one level built above `ids` fit one level higher than `ids`.
proof fn lemma_level_fits(ids: Seq<IdView>, f: nat, leaf: bool, nodes: spec_fn(IdView) -> (Seq<IdView>, bool), h: nat)
    requires
        f >= 2,
        level_consistent(ids, f, leaf, nodes),
        leaf ==> h == 0,
        !leaf ==> forall|j: int| 0 <= j < ids.len() ==> #[trigger] node_fits(ids[j], nodes, h),
    ensures
        forall|k: int| 0 <= k < level_ids(ids, f, leaf).len() ==> #[trigger] node_fits(level_ids(ids, f, leaf)[k], nodes, h + 1),
{
    let bs = level_blocks(ids, f, leaf);
    assert forall|k: int| 0 <= k < level_ids(ids, f, leaf).len() implies #[trigger] node_fits(level_ids(ids, f, leaf)[k], nodes, h + 1) by {
        let b = bs[k];
        assert(level_ids(ids, f, leaf)[k] == b.0);
        assert(nodes(level_blocks(ids, f, leaf)[k].0) == (level_blocks(ids, f, leaf)[k].2, leaf));
        if !leaf {
            let g = group(ids, f, k as nat);
            assert(b.2 == g);
            lemma_group_start(ids.len(), f, k as nat);
            assert((k + 1) * f == k * f + f) by (nonlinear_arith);
            assert(k * f <= group_end(ids.len(), f, k as nat) <= ids.len());
            assert forall|j: int| 0 <= j < g.len() implies #[trigger] node_fits(g[j], nodes, h) by {
                assert(g[j] == ids[k * f + j]);
            }
            lemma_all_fit_intro(g, nodes, h);
        }
    }
}

/// The root's children of the tree built above `ids` fit in all its levels (plus the height of
/// `ids` themselves).
proof fn lemma_tree_fits(ids: Seq<IdView>, f: nat, leaf: bool, nodes: spec_fn(IdView) -> (Seq<IdView>, bool), h: nat)
    requires
        f >= 2,
        ids.len() > f,
        levels_consistent(ids, f, leaf, nodes),
        leaf ==> h == 0,
        !leaf ==> forall|j: int| 0 <= j < ids.len() ==> #[trigger] node_fits(ids[j], nodes, h),
    ensures
        forall|k: int|
            0 <= k < tree_levels(ids, f, leaf).0.len() ==> #[trigger] node_fits(tree_levels(ids, f, leaf).0[k], nodes, h + tree_levels(ids, f, leaf).1),
    decreases ids.len(),
{
    lemma_group_count(ids.len(), f);
    let l = level_ids(ids, f, leaf);
    lemma_level_fits(ids, f, leaf, nodes, h);
    assert(tree_levels(ids, f, leaf).0 == tree_levels(l, f, false).0);
    assert(tree_levels(ids, f, leaf).1 == tree_levels(l, f, false).1 + 1);
    let t = tree_levels(ids, f, leaf);
    if l.len() > f {
        lemma_tree_fits(l, f, false, nodes, h + 1);
        let u = tree_levels(l, f, false);
        assert forall|k: int| 0 <= k < t.0.len() implies #[trigger] node_fits(t.0[k], nodes, h + t.1) by {
            assert(t.0[k] == u.0[k]);
            assert(h + t.1 == (h + 1) + u.1);
        }
    } else {
        assert(tree_levels(l, f, false).0 == l);
        assert(tree_levels(l, f, false).1 == 0);
        assert forall|k: int| 0 <= k < t.0.len() implies #[trigger] node_fits(t.0[k], nodes, h + t.1) by {
            assert(t.0[k] == l[k]);
        }
    }
}

/// The walk started at a list of top nodes has, to give one step at a time, exactly what
/// listing the whole tree at once gives: the depth-first expansion of those nodes, each
/// leaf-level node's chunks in order.
pub proof fn law_walk_is_full_listing(top: Seq<IdView>, nodes: spec_fn(IdView) -> (Seq<IdView>, bool), depth: nat)
    ensures
        walk_wf((seq![(top, 0nat)], Seq::<IdView>::empty(), 0nat)),
        remaining((seq![(top, 0nat)], Seq::<IdView>::empty(), 0nat), nodes, depth) == expand(top, nodes, depth),
{
    let v = (seq![(top, 0nat)], Seq::<IdView>::empty(), 0nat);
    assert(top.subrange(0, top.len() as int) =~= top);
    assert(v.0.drop_last() =~= Seq::<FrameView>::empty());
    assert(v.1.subrange(0, 0) =~= Seq::<IdView>::empty());
    assert(pending(v.0, nodes, depth) == expand(top, nodes, depth) + pending(Seq::<FrameView>::empty(), nodes, depth));
    assert(remaining(v, nodes, depth) =~= expand(top, nodes, depth));
}

/// A walk started at the root's children of a tree built over chunks, whose nodes are each
/// answered with what was built for them, has exactly the chunks to give, in order, and every
/// node it will fetch fits within the tree's depth; listing the whole tree at once gives the
/// same chunks. With the laws on its steps, walking a built tree gives back exactly the chunks
/// it was built over.
pub proof fn law_built_tree_walk(chunks: Seq<IdView>, f: nat, nodes: spec_fn(IdView) -> (Seq<IdView>, bool))
    requires
        f >= 2,
        tree_consistent(chunks, f, nodes),
    ensures
        expand(tree_of(chunks, f).0, nodes, tree_of(chunks, f).1) == chunks,
        walk_wf((seq![(tree_of(chunks, f).0, 0nat)], Seq::<IdView>::empty(), 0nat)),
        walk_fits((seq![(tree_of(chunks, f).0, 0nat)], Seq::<IdView>::empty(), 0nat), nodes, tree_of(chunks, f).1),
        remaining((seq![(tree_of(chunks, f).0, 0nat)], Seq::<IdView>::empty(), 0nat), nodes, tree_of(chunks, f).1)
            == chunks,
{
    let t = tree_of(chunks, f);
    let l = level_ids(chunks, f, true);
    let up = tree_levels(l, f, false);
    lemma_level_expand(chunks, f, true, nodes, 0);
    lemma_level_fits(chunks, f, true, nodes, 0);
    if l.len() > f {
        lemma_tree_expand(l, f, false, nodes, 1);
        lemma_tree_fits(l, f, false, nodes, 1);
        assert(up.1 + 1 == t.1);
    } else {
        assert(up.0 == l);
        assert(up.1 == 0);
    }
    assert(expand(t.0, nodes, t.1) == chunks);
    assert forall|k: int| 0 <= k < t.0.len() implies #[trigger] node_fits(t.0[k], nodes, t.1) by {
        if l.len() <= f {
            assert(t.0[k] == l[k]);
            assert(node_fits(level_ids(chunks, f, true)[k], nodes, 0 + 1));
        } else {
            assert(t.0[k] == up.0[k]);
            assert(node_fits(tree_levels(l, f, false).0[k], nodes, 1 + tree_levels(l, f, false).1));
        }
    }
    let v = (seq![(t.0, 0nat)], Seq::<IdView>::empty(), 0nat);
    assert(t.0.subrange(0, t.0.len() as int) =~= t.0);
    assert(v.0.drop_last() =~= Seq::<FrameView>::empty());
    assert(v.1.subrange(0, 0) =~= Seq::<IdView>::empty());
    assert(pending(v.0, nodes, t.1) == expand(t.0, nodes, t.1) + pending(Seq::<FrameView>::empty(), nodes, t.1));
    assert(remaining(v, nodes, t.1) =~= chunks);
    assert forall|k: int, j: int| 0 <= k < v.0.len() && v.0[k].1 <= j < v.0[k].0.len() implies node_fits(v.0[k].0[j], nodes, room(t.1, k)) by {
        assert(v.0[k] == (t.0, 0nat));
        assert(node_fits(t.0[j], nodes, 0 + t.1));
    }
}

/// A flat walk has exactly its chunks to give.
pub proof fn law_flat_walk(chunks: Seq<IdView>, nodes: spec_fn(IdView) -> (Seq<IdView>, bool), depth: nat)
    ensures
        walk_wf((Seq::<FrameView>::empty(), chunks, 0nat)),
        walk_fits((Seq::<FrameView>::empty(), chunks, 0nat), nodes, depth),
        remaining((Seq::<FrameView>::empty(), chunks, 0nat), nodes, depth) == chunks,
{
    assert(chunks.subrange(0, chunks.len() as int) =~= chunks);
    assert(remaining((Seq::<FrameView>::empty(), chunks, 0nat), nodes, depth) =~= chunks);
}

} // verus!
