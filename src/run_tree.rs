//! The run tree: a spanning tree over the call graph below a root call, and
//! its flattening into an execution order.

use vstd::prelude::*;

use crate::metadata::{deps_of, Metadata, TaskCallId};
use crate::populate::{
    is_path, lemma_contains_concat, lemma_no_duplicates_concat, lemma_path_in_dep_closed, reachable,
};

verus! {

/// A node of the run tree: a call and the dependencies it is responsible for.
#[derive(Debug)]
pub struct RunNode {
    pub call_id: TaskCallId,
    pub children: Vec<RunNode>,
}

/// The post-order of a sequence of sibling trees, left to right.
pub open spec fn forest_post_order(cs: Seq<RunNode>) -> Seq<RunNode>
    decreases cs,
{
    if cs.len() == 0 {
        seq![]
    } else {
        forest_post_order(cs.drop_last()) + cs.last().post_order()
    }
}

/// Every node of `s` has each of its children at an earlier position.
pub open spec fn children_first(s: Seq<RunNode>) -> bool {
    forall|i: int, j: int|
        0 <= i < s.len() && 0 <= j < s[i].children@.len() ==> #[trigger] child_before(s, i, j)
}

/// The `j`-th child of the node at `i` stands at an earlier position of `s`.
pub open spec fn child_before(s: Seq<RunNode>, i: int, j: int) -> bool {
    exists|k: int| 0 <= k < i && s[k] == s[i].children@[j]
}

/// `a` is `b` with some elements left out, the others kept in order.
pub open spec fn is_subsequence(a: Seq<TaskCallId>, b: Seq<TaskCallId>) -> bool
    decreases b.len(),
{
    if a.len() == 0 {
        true
    } else if b.len() == 0 {
        false
    } else {
        (a.last() == b.last() && is_subsequence(a.drop_last(), b.drop_last())) || is_subsequence(
            a,
            b.drop_last(),
        )
    }
}

/// Every dependency of `x` is marked.
pub open spec fn deps_marked<A>(md: Metadata<A>, marks: Seq<bool>, x: TaskCallId) -> bool {
    forall|j: int|
        0 <= j < deps_of(md.spec_calls()[x as int]).len() ==> marks[#[trigger] deps_of(
            md.spec_calls()[x as int],
        )[j] as int]
}

/// The call ids of a sequence of nodes.
pub open spec fn ids_of(s: Seq<RunNode>) -> Seq<TaskCallId> {
    s.map_values(|n: RunNode| n.call_id)
}

impl RunNode {
    /// The nodes of the tree, children before their parent and siblings in
    /// order.
    pub open spec fn post_order(self) -> Seq<RunNode>
        decreases self,
    {
        forest_post_order(self.children@) + seq![self]
    }

    /// The call ids in the tree, in execution order.
    pub open spec fn tree_ids(self) -> Seq<TaskCallId> {
        ids_of(self.post_order())
    }

    /// Each node of the tree names a call of `md`, and each child is one of
    /// the dependencies of its parent's call.
    pub open spec fn follows_deps<A>(self, md: Metadata<A>) -> bool {
        forall|i: int|
            0 <= i < self.post_order().len() ==> Self::node_follows_deps(
                #[trigger] self.post_order()[i],
                md,
            )
    }

    /// The node names a call of `md`, and its children are dependencies of
    /// that call, in declaration order.
    pub open spec fn node_follows_deps<A>(n: RunNode, md: Metadata<A>) -> bool {
        &&& n.call_id < md.spec_calls().len()
        &&& is_subsequence(ids_of(n.children@), deps_of(md.spec_calls()[n.call_id as int]))
    }

    pub fn new(call_id: TaskCallId) -> (r: RunNode)
        ensures
            r.call_id == call_id,
            r.children@.len() == 0,
    {
        RunNode { call_id, children: Vec::new() }
    }

    /// The tree in order of execution: every child comes before its parent.
    pub fn flatten(&self) -> (r: Vec<&RunNode>)
        ensures
            r@.map_values(|n: &RunNode| *n) == self.post_order(),
            children_first(self.post_order()),
        decreases self,
    {
        let mut nodes: Vec<&RunNode> = Vec::new();
        let mut i: usize = 0;
        while i < self.children.len()
            invariant
                i <= self.children@.len(),
                nodes@.map_values(|n: &RunNode| *n) == forest_post_order(
                    self.children@.subrange(0, i as int),
                ),
            decreases self.children@.len() - i,
        {
            let mut sub = self.children[i].flatten();
            let ghost before = nodes@;
            let ghost sub_view = sub@;
            nodes.append(&mut sub);
            proof {
                let cs = self.children@.subrange(0, i + 1);
                assert(cs.drop_last() =~= self.children@.subrange(0, i as int));
                assert(cs.last() == self.children@[i as int]);
                assert(nodes@.map_values(|n: &RunNode| *n) =~= before.map_values(
                    |n: &RunNode| *n,
                ) + sub_view.map_values(|n: &RunNode| *n));
            }
            i = i + 1;
        }
        let ghost before = nodes@;
        nodes.push(self);
        proof {
            assert(self.children@.subrange(0, self.children@.len() as int) =~= self.children@);
            assert(nodes@.map_values(|n: &RunNode| *n) =~= before.map_values(|n: &RunNode| *n)
                + seq![*self]);
            lemma_children_first(*self);
        }
        nodes
    }

    /// The first node, in execution order, that stands for `call_id`.
    pub fn locate(&self, call_id: TaskCallId) -> (r: Option<&RunNode>)
        ensures
            match r {
                Some(n) => n.call_id == call_id && self.post_order().contains(*n),
                None => !self.tree_ids().contains(call_id),
            },
        decreases self,
    {
        let mut i: usize = 0;
        while i < self.children.len()
            invariant
                i <= self.children@.len(),
                !ids_of(forest_post_order(self.children@.subrange(0, i as int))).contains(
                    call_id,
                ),
            decreases self.children@.len() - i,
        {
            let found = self.children[i].locate(call_id);
            proof {
                let cs = self.children@.subrange(0, i + 1);
                assert(cs.drop_last() =~= self.children@.subrange(0, i as int));
                lemma_ids_concat(
                    forest_post_order(cs.drop_last()),
                    self.children@[i as int].post_order(),
                );
            }
            match found {
                Some(n) => {
                    proof {
                        lemma_forest_contains(self.children@, i as int, *n);
                        let f = forest_post_order(self.children@);
                        let k = choose|k: int| 0 <= k < f.len() && f[k] == *n;
                        assert(self.post_order()[k] == *n);
                    }
                    return Some(n);
                },
                None => {},
            }
            i = i + 1;
        }
        if self.call_id == call_id {
            proof {
                assert(self.post_order().last() == *self);
            }
            return Some(self);
        }
        proof {
            assert(self.children@.subrange(0, self.children@.len() as int) =~= self.children@);
            lemma_ids_concat(forest_post_order(self.children@), seq![*self]);
        }
        None
    }
}

/// How many calls have not been taken into the tree yet.
pub open spec fn unmarked(s: Seq<bool>) -> nat
    decreases s.len(),
{
    if s.len() == 0 {
        0
    } else {
        unmarked(s.drop_last()) + if s.last() {
            0nat
        } else {
            1nat
        }
    }
}

/// Marking more entries never adds unmarked ones, and marking a fresh one
/// removes one.
pub proof fn lemma_unmarked_decreases(a: Seq<bool>, b: Seq<bool>, y: int)
    requires
        a.len() == b.len(),
        forall|i: int| 0 <= i < a.len() && #[trigger] a[i] ==> b[i],
        0 <= y < a.len() ==> !a[y] && b[y],
    ensures
        unmarked(b) <= unmarked(a),
        0 <= y < a.len() ==> unmarked(b) < unmarked(a),
    decreases a.len(),
{
    if a.len() > 0 {
        let n = a.len() - 1;
        assert forall|i: int| 0 <= i < n && #[trigger] a.drop_last()[i] implies b.drop_last()[i] by {
            assert(a[i] == a.drop_last()[i]);
        }
        if y == n {
            lemma_unmarked_decreases(a.drop_last(), b.drop_last(), -1);
        } else {
            lemma_unmarked_decreases(a.drop_last(), b.drop_last(), y);
        }
    }
}

/// Build the run tree of `call_id` below the calls already `included`.
fn generate_run_tree_inner<A>(
    call_id: TaskCallId,
    metadata: &Metadata<A>,
    included: &mut Vec<bool>,
) -> (r: RunNode)
    requires
        metadata.wf(),
        old(included)@.len() == metadata.spec_calls().len(),
        call_id < metadata.spec_calls().len(),
        !old(included)@[call_id as int],
    ensures
        final(included)@.len() == old(included)@.len(),
        r.call_id == call_id,
        r.follows_deps(*metadata),
        r.tree_ids().no_duplicates(),
        forall|x: TaskCallId|
            x < old(included)@.len() ==> (#[trigger] final(included)@[x as int] <==> (old(
                included,
            )@[x as int] || r.tree_ids().contains(x))),
        forall|x: TaskCallId| #[trigger]
            r.tree_ids().contains(x) ==> x < old(included)@.len() && !old(included)@[x as int],
        forall|x: TaskCallId| #[trigger]
            r.tree_ids().contains(x) ==> deps_marked(*metadata, final(included)@, x),
    decreases unmarked(old(included)@),
{
    let ghost n = old(included)@.len();
    included.set(call_id, true);
    let deps = &metadata.task_call_metadata(call_id).unwrap().dependencies;
    let mut children: Vec<RunNode> = Vec::new();
    let mut i: usize = 0;
    proof {
        assert(ids_of(forest_post_order(children@)) =~= Seq::<TaskCallId>::empty());
    }
    while i < deps.len()
        invariant
            metadata.wf(),
            call_id < n,
            n == metadata.spec_calls().len(),
            included@.len() == n,
            old(included)@.len() == n,
            !old(included)@[call_id as int],
            i <= deps@.len(),
            deps@ == deps_of(metadata.spec_calls()[call_id as int]),
            ids_of(forest_post_order(children@)).no_duplicates(),
            forall|x: TaskCallId|
                x < n ==> (#[trigger] included@[x as int] <==> (old(included)@[x as int] || x
                    == call_id || ids_of(forest_post_order(children@)).contains(x))),
            forall|x: TaskCallId| #[trigger]
                ids_of(forest_post_order(children@)).contains(x) ==> x < n && !old(
                    included,
                )@[x as int] && x != call_id,
            forall|k: int|
                0 <= k < forest_post_order(children@).len() ==> RunNode::node_follows_deps(
                    #[trigger] forest_post_order(children@)[k],
                    *metadata,
                ),
            is_subsequence(ids_of(children@), deps@.subrange(0, i as int)),
            forall|x: TaskCallId| #[trigger]
                ids_of(forest_post_order(children@)).contains(x) ==> deps_marked(
                    *metadata,
                    included@,
                    x,
                ),
            forall|k: int| 0 <= k < i ==> included@[#[trigger] deps@[k] as int],
        decreases deps@.len() - i,
    {
        let d = deps[i];
        proof {
            assert(metadata.deps_valid(deps_of(metadata.spec_calls()[call_id as int])));
            assert(d < n);
        }
        if !included[d] {
            let ghost before = included@;
            let ghost old_children = children@;
            proof {
                assert forall|x: int| 0 <= x < n && #[trigger] old(included)@[x] implies included@[x] by {
                    assert(included@.len() == included.len());
                    let y = x as TaskCallId;
                    assert(y as int == x);
                    assert(old(included)@[y as int]);
                }
                lemma_unmarked_decreases(old(included)@, included@, call_id as int);
            }
            let child = generate_run_tree_inner(d, metadata, included);
            children.push(child);
            proof {
                let f0 = forest_post_order(old_children);
                let pc = child.post_order();
                assert(children@.drop_last() =~= old_children);
                assert(forest_post_order(children@) == f0 + pc);
                lemma_ids_concat(f0, pc);
                let ids0 = ids_of(f0);
                let idc = child.tree_ids();
                assert forall|x: TaskCallId| ids0.contains(x) implies !idc.contains(x) by {
                    assert(before[x as int]);
                }
                lemma_no_duplicates_concat(ids0, idc);
                assert forall|x: TaskCallId| #[trigger]
                    ids_of(forest_post_order(children@)).contains(x) <==> (ids0.contains(x)
                        || idc.contains(x)) by {
                    lemma_contains_concat(ids0, idc, x);
                }
                assert forall|k: int|
                    0 <= k < forest_post_order(children@).len() implies RunNode::node_follows_deps(
                    #[trigger] forest_post_order(children@)[k],
                    *metadata,
                ) by {
                    if k >= f0.len() {
                        assert(forest_post_order(children@)[k] == pc[k - f0.len()]);
                    } else {
                        assert(forest_post_order(children@)[k] == f0[k]);
                    }
                }
                assert(ids_of(children@) =~= ids_of(old_children).push(d));
                let b = deps@.subrange(0, i + 1);
                assert(b.drop_last() =~= deps@.subrange(0, i as int));
                assert(ids_of(children@).drop_last() =~= ids_of(old_children));
                assert(is_subsequence(ids_of(children@), b));
                assert forall|x: TaskCallId| #[trigger]
                    ids_of(forest_post_order(children@)).contains(x) implies deps_marked(
                    *metadata,
                    included@,
                    x,
                ) by {
                    if ids0.contains(x) {
                        assert(deps_marked(*metadata, before, x));
                        assert forall|j: int|
                            0 <= j < deps_of(metadata.spec_calls()[x as int]).len() implies included@[
                            #[trigger] deps_of(metadata.spec_calls()[x as int])[j] as int] by {
                            let y = deps_of(metadata.spec_calls()[x as int])[j];
                            assert(before[y as int]);
                            assert(x < n);
                            assert(metadata.deps_valid(deps_of(metadata.spec_calls()[x as int])));
                            assert(y < n);
                        }
                    }
                }
                assert forall|k: int| 0 <= k < i + 1 implies included@[#[trigger] deps@[k] as int] by {
                    if k < i {
                        assert(before[deps@[k] as int]);
                        assert(deps@[k] < n);
                    } else {
                        assert(child.tree_ids().contains(d)) by {
                            assert(child.post_order().last() == child);
                            assert(child.tree_ids()[child.tree_ids().len() - 1] == d);
                        }
                    }
                }
            }
        } else {
            proof {
                let b = deps@.subrange(0, i + 1);
                assert(b.drop_last() =~= deps@.subrange(0, i as int));
                assert(is_subsequence(ids_of(children@), b));
            }
        }
        i = i + 1;
    }
    let r = RunNode { call_id, children };
    proof {
        assert(deps@.subrange(0, deps@.len() as int) =~= deps@);
        let f = forest_post_order(r.children@);
        assert(r.post_order() == f + seq![r]);
        lemma_ids_concat(f, seq![r]);
        assert(ids_of(seq![r]) =~= seq![call_id]);
        assert forall|x: TaskCallId| ids_of(f).contains(x) implies !seq![call_id].contains(x) by {}
        lemma_no_duplicates_concat(ids_of(f), seq![call_id]);
        assert forall|x: TaskCallId| #[trigger]
            r.tree_ids().contains(x) <==> (ids_of(f).contains(x) || x == call_id) by {
            lemma_contains_concat(ids_of(f), seq![call_id], x);
            if x == call_id {
                assert(seq![call_id][0] == x);
            }
        }
        assert forall|k: int|
            0 <= k < r.post_order().len() implies RunNode::node_follows_deps(
            #[trigger] r.post_order()[k],
            *metadata,
        ) by {
            if k < f.len() {
                assert(r.post_order()[k] == f[k]);
            } else {
                assert(r.post_order()[k] == r);
            }
        }
        assert forall|x: TaskCallId| #[trigger] r.tree_ids().contains(x) implies deps_marked(
            *metadata,
            included@,
            x,
        ) by {
            if x != call_id {
                assert(ids_of(f).contains(x));
            } else {
                assert forall|j: int|
                    0 <= j < deps_of(metadata.spec_calls()[x as int]).len() implies included@[
                    #[trigger] deps_of(metadata.spec_calls()[x as int])[j] as int] by {
                    assert(deps@[j] == deps_of(metadata.spec_calls()[x as int])[j]);
                }
            }
        }
    }
    r
}

/// The run tree of `call_id`: a depth-first spanning tree over its
/// dependencies, children in declaration order, where a call already in the
/// tree is not taken again (so a diamond joins at its first path, and a
/// cycle is cut).
pub fn generate_run_tree<A>(call_id: TaskCallId, metadata: &Metadata<A>) -> (r: RunNode)
    requires
        metadata.wf(),
        call_id < metadata.spec_calls().len(),
    ensures
        r.call_id == call_id,
        r.follows_deps(*metadata),
        r.tree_ids().no_duplicates(),
        forall|c: TaskCallId| #[trigger] reachable(*metadata, call_id, c) ==> r.tree_ids().contains(c),
{
    let n = metadata.call_count();
    let mut included: Vec<bool> = Vec::new();
    let mut k: usize = 0;
    while k < n
        invariant
            k <= n,
            included@.len() == k,
            forall|x: int| 0 <= x < k ==> !#[trigger] included@[x],
        decreases n - k,
    {
        included.push(false);
        k = k + 1;
    }
    let ghost initial = included@;
    let r = generate_run_tree_inner(call_id, metadata, &mut included);
    proof {
        assert forall|x: int| 0 <= x < included@.len() && #[trigger] included@[x] implies deps_marked(
            *metadata,
            included@,
            x as TaskCallId,
        ) by {
            assert(included@.len() == included.len());
            let y = x as TaskCallId;
            assert(y as int == x);
            assert(!initial[x]);
            assert(r.tree_ids().contains(y));
        }
        assert(r.tree_ids().contains(call_id)) by {
            assert(r.post_order().last() == r);
            assert(r.tree_ids()[r.tree_ids().len() - 1] == call_id);
        }
        assert forall|c: TaskCallId| #[trigger] reachable(*metadata, call_id, c) implies r.tree_ids().contains(c) by {
            let path = choose|path: Seq<TaskCallId>| #[trigger]
                is_path(*metadata, path) && path[0] == call_id && path.last() == c;
            lemma_path_in_dep_closed(*metadata, included@, path);
            assert(path[path.len() - 1] < n);
        }
    }
    r
}

proof fn lemma_ids_concat(a: Seq<RunNode>, b: Seq<RunNode>)
    ensures
        ids_of(a + b) == ids_of(a) + ids_of(b),
{
    assert(ids_of(a + b) =~= ids_of(a) + ids_of(b));
}

/// The post-order of a forest holds the post-order of each of its trees.
proof fn lemma_forest_contains(cs: Seq<RunNode>, i: int, n: RunNode)
    requires
        0 <= i < cs.len(),
        cs[i].post_order().contains(n),
    ensures
        forest_post_order(cs).contains(n),
    decreases cs.len(),
{
    let f = forest_post_order(cs.drop_last());
    let p = cs.last().post_order();
    if i == cs.len() - 1 {
        let k = choose|k: int| 0 <= k < p.len() && p[k] == n;
        assert((f + p)[f.len() + k] == n);
    } else {
        lemma_forest_contains(cs.drop_last(), i, n);
        let k = choose|k: int| 0 <= k < f.len() && f[k] == n;
        assert((f + p)[k] == n);
    }
}

/// The post-order of a forest is the post-orders of its trees in sequence.
pub proof fn lemma_forest_concat(a: Seq<RunNode>, b: Seq<RunNode>)
    ensures
        forest_post_order(a + b) == forest_post_order(a) + forest_post_order(b),
    decreases b.len(),
{
    if b.len() == 0 {
        assert(a + b =~= a);
        assert(forest_post_order(a) + forest_post_order(b) =~= forest_post_order(a));
    } else {
        assert((a + b).drop_last() =~= a + b.drop_last());
        assert((a + b).last() == b.last());
        lemma_forest_concat(a, b.drop_last());
        assert(forest_post_order(a + b) =~= forest_post_order(a) + forest_post_order(b));
    }
}

proof fn lemma_children_first_concat(a: Seq<RunNode>, b: Seq<RunNode>)
    requires
        children_first(a),
        children_first(b),
    ensures
        children_first(a + b),
{
    let s = a + b;
    assert forall|i: int, j: int|
        0 <= i < s.len() && 0 <= j < s[i].children@.len() implies child_before(s, i, j) by {
        if i < a.len() {
            assert(a[i] == s[i]);
            assert(child_before(a, i, j));
            let k = choose|k: int| 0 <= k < i && a[k] == a[i].children@[j];
            assert(s[k] == a[k]);
        } else {
            let ib = i - a.len();
            assert(b[ib] == s[i]);
            assert(child_before(b, ib, j));
            let k = choose|k: int| 0 <= k < ib && b[k] == b[ib].children@[j];
            assert(s[a.len() + k] == b[k]);
        }
    }
}

proof fn lemma_post_order_last(n: RunNode)
    ensures
        n.post_order().len() >= 1,
        n.post_order().last() == n,
{
}

/// A forest's post-order lists each of its roots at the end of that root's
/// block, before any later sibling.
proof fn lemma_forest_root_position(cs: Seq<RunNode>, j: int)
    requires
        0 <= j < cs.len(),
    ensures
        forest_post_order(cs.subrange(0, j + 1)).len() >= 1,
        forest_post_order(cs.subrange(0, j + 1)).len() <= forest_post_order(cs).len(),
        forest_post_order(cs)[forest_post_order(cs.subrange(0, j + 1)).len() - 1] == cs[j],
{
    let pre = cs.subrange(0, j + 1);
    let rest = cs.subrange(j + 1, cs.len() as int);
    assert(cs =~= pre + rest);
    lemma_forest_concat(pre, rest);
    assert(pre.drop_last() =~= cs.subrange(0, j));
    lemma_post_order_last(cs[j]);
    let f = forest_post_order(pre);
    assert(f == forest_post_order(pre.drop_last()) + cs[j].post_order());
    assert(f[f.len() - 1] == cs[j]);
    assert(forest_post_order(cs)[f.len() - 1] == f[f.len() - 1]);
}

proof fn lemma_forest_children_first(cs: Seq<RunNode>)
    ensures
        children_first(forest_post_order(cs)),
    decreases cs,
{
    if cs.len() > 0 {
        lemma_forest_children_first(cs.drop_last());
        lemma_children_first(cs.last());
        lemma_children_first_concat(forest_post_order(cs.drop_last()), cs.last().post_order());
    }
}

/// In the execution order of a tree, every child comes before its parent.
pub proof fn lemma_children_first(n: RunNode)
    ensures
        children_first(n.post_order()),
    decreases n,
{
    let f = forest_post_order(n.children@);
    lemma_forest_children_first(n.children@);
    let s = n.post_order();
    assert(s == f + seq![n]);
    assert forall|i: int, j: int|
        0 <= i < s.len() && 0 <= j < s[i].children@.len() implies child_before(s, i, j) by {
        if i < f.len() {
            assert(s[i] == f[i]);
            assert(child_before(f, i, j));
            let k = choose|k: int| 0 <= k < i && f[k] == f[i].children@[j];
            assert(s[k] == f[k]);
        } else {
            assert(s[i] == n);
            lemma_forest_root_position(n.children@, j);
            let k = forest_post_order(n.children@.subrange(0, j + 1)).len() - 1;
            assert(s[k] == f[k]);
        }
    }
}

} // verus!
