//! The scheduler's decisions. The host runs the loop: it asks which call to
//! spawn next, runs it on a worker, and reports each worker's outcome back.

use vstd::prelude::*;

use crate::metadata::{Metadata, TaskCallId};
use crate::run_tree::{ids_of, RunNode};

verus! {

/// A call in the execution order, with what the scheduler needs of it.
#[derive(Debug)]
pub struct ScheduledTask {
    pub call_id: TaskCallId,
    /// The calls that must complete before this one starts.
    pub children: Vec<TaskCallId>,
    /// Whether it may run alongside other concurrent tasks.
    pub concurrent: bool,
}

pub struct Scheduler {
    order: Vec<ScheduledTask>,
    next: usize,
    running: Vec<bool>,
    failed: bool,
}

impl Scheduler {
    pub closed spec fn spec_order(&self) -> Seq<ScheduledTask> {
        self.order@
    }

    /// How many calls of the order have been spawned.
    pub closed spec fn spec_next(&self) -> int {
        self.next as int
    }

    /// Which positions of the order are running now.
    pub closed spec fn spec_running(&self) -> Seq<bool> {
        self.running@
    }

    pub closed spec fn spec_failed(&self) -> bool {
        self.failed
    }

    pub open spec fn is_running(&self, p: int) -> bool {
        0 <= p < self.spec_running().len() && self.spec_running()[p]
    }

    /// Some running position holds the call `c`.
    pub open spec fn call_running(&self, c: TaskCallId) -> bool {
        exists|p: int| #[trigger] self.is_running(p) && self.spec_order()[p].call_id == c
    }

    pub open spec fn none_running(&self) -> bool {
        forall|p: int| !#[trigger] self.is_running(p)
    }

    /// A non-concurrent task never runs alongside another one: the running
    /// set is either one non-concurrent task or concurrent tasks only.
    pub open spec fn disciplined(&self) -> bool {
        forall|p: int, q: int|
            #[trigger] self.is_running(p) && #[trigger] self.is_running(q)
                && !self.spec_order()[p].concurrent ==> p == q
    }

    pub open spec fn wf(&self) -> bool {
        &&& 0 <= self.spec_next() <= self.spec_order().len()
        &&& self.spec_running().len() == self.spec_order().len()
        &&& forall|p: int| #[trigger] self.is_running(p) ==> p < self.spec_next()
        &&& self.disciplined()
    }

    /// The next call of the order may start now: nothing has failed, none
    /// of its children is still running, no non-concurrent task is running,
    /// and, unless it is concurrent itself, nothing is running at all.
    pub open spec fn can_spawn(&self) -> bool {
        let t = self.spec_order()[self.spec_next()];
        &&& !self.spec_failed()
        &&& self.spec_next() < self.spec_order().len()
        &&& forall|j: int| 0 <= j < t.children@.len() ==> !self.call_running(#[trigger] t.children@[j])
        &&& forall|p: int| #[trigger] self.is_running(p) ==> self.spec_order()[p].concurrent
        &&& !t.concurrent ==> self.none_running()
    }

    /// The calls of `order` in turn, none started yet.
    pub fn new(order: Vec<ScheduledTask>) -> (r: Scheduler)
        ensures
            r.wf(),
            r.spec_order() == order@,
            r.spec_next() == 0,
            r.none_running(),
            !r.spec_failed(),
    {
        let n = order.len();
        let mut running: Vec<bool> = Vec::new();
        let mut k: usize = 0;
        while k < n
            invariant
                k <= n,
                running@.len() == k,
                forall|p: int| 0 <= p < k ==> !#[trigger] running@[p],
            decreases n - k,
        {
            running.push(false);
            k = k + 1;
        }
        Scheduler { order, next: 0, running, failed: false }
    }

    /// The schedule of a run tree: its calls in execution order, each with
    /// the calls of its children and the concurrency flag of its task.
    pub fn from_run_tree<A>(tree: &RunNode, metadata: &Metadata<A>) -> (r: Scheduler)
        requires
            metadata.wf(),
            tree.follows_deps(*metadata),
        ensures
            r.wf(),
            r.spec_next() == 0,
            r.none_running(),
            !r.spec_failed(),
            r.spec_order().len() == tree.post_order().len(),
            forall|i: int|
                0 <= i < r.spec_order().len() ==> {
                    let n = tree.post_order()[i];
                    let t = #[trigger] r.spec_order()[i];
                    &&& t.call_id == n.call_id
                    &&& t.children@ == ids_of(n.children@)
                    &&& t.concurrent == metadata.spec_tasks()[metadata.spec_calls()[n.call_id as int].task_id as int].flags.concurrent
                },
    {
        let nodes = tree.flatten();
        let mut order: Vec<ScheduledTask> = Vec::new();
        let mut i: usize = 0;
        while i < nodes.len()
            invariant
                metadata.wf(),
                tree.follows_deps(*metadata),
                nodes@.map_values(|n: &RunNode| *n) == tree.post_order(),
                i <= nodes@.len(),
                order@.len() == i,
                forall|k: int|
                    0 <= k < i ==> {
                        let n = tree.post_order()[k];
                        let t = #[trigger] order@[k];
                        &&& t.call_id == n.call_id
                        &&& t.children@ == ids_of(n.children@)
                        &&& t.concurrent == metadata.spec_tasks()[metadata.spec_calls()[n.call_id as int].task_id as int].flags.concurrent
                    },
            decreases nodes@.len() - i,
        {
            let node = nodes[i];
            proof {
                assert(tree.post_order()[i as int] == *node);
                assert(RunNode::node_follows_deps(tree.post_order()[i as int], *metadata));
            }
            let mut children: Vec<TaskCallId> = Vec::new();
            let mut j: usize = 0;
            while j < node.children.len()
                invariant
                    j <= node.children@.len(),
                    children@ == ids_of(node.children@.subrange(0, j as int)),
                decreases node.children@.len() - j,
            {
                children.push(node.children[j].call_id);
                proof {
                    assert(ids_of(node.children@.subrange(0, j + 1)) =~= ids_of(
                        node.children@.subrange(0, j as int),
                    ).push(node.children@[j as int].call_id));
                }
                j = j + 1;
            }
            proof {
                assert(node.children@.subrange(0, node.children@.len() as int) =~= node.children@);
            }
            let task_id = metadata.get_task_call(node.call_id).unwrap().task_id;
            let concurrent = metadata.get_task(task_id).unwrap().flags.concurrent;
            order.push(ScheduledTask { call_id: node.call_id, children, concurrent });
            i = i + 1;
        }
        Self::new(order)
    }

    pub fn is_failed(&self) -> (r: bool)
        ensures
            r == self.spec_failed(),
    {
        self.failed
    }

    /// Every call has been spawned and none is running any more.
    pub fn is_done(&self) -> (r: bool)
        requires
            self.wf(),
        ensures
            r == (self.spec_next() == self.spec_order().len() && self.none_running()),
    {
        self.next == self.order.len() && self.running_count() == 0
    }

    /// How many calls are running.
    pub fn running_count(&self) -> (r: usize)
        requires
            self.wf(),
        ensures
            r == 0 <==> self.none_running(),
    {
        let mut count: usize = 0;
        let mut p: usize = 0;
        while p < self.running.len()
            invariant
                self.wf(),
                p <= self.running@.len(),
                count <= p,
                count == 0 <==> forall|q: int| 0 <= q < p ==> !#[trigger] self.running@[q],
            decreases self.running@.len() - p,
        {
            if self.running[p] {
                count = count + 1;
            }
            p = p + 1;
        }
        proof {
            if count == 0 {
                assert forall|q: int| !#[trigger] self.is_running(q) by {}
            } else {
                let q = choose|q: int| 0 <= q < self.running@.len() && self.running@[q];
                assert(self.is_running(q));
            }
        }
        count
    }

    /// The calls that are running, in execution order.
    pub fn running_calls(&self) -> (r: Vec<TaskCallId>)
        requires
            self.wf(),
        ensures
            forall|c: TaskCallId| #[trigger] r@.contains(c) <==> self.call_running(c),
    {
        let mut out: Vec<TaskCallId> = Vec::new();
        let mut p: usize = 0;
        while p < self.running.len()
            invariant
                self.wf(),
                p <= self.running@.len(),
                forall|c: TaskCallId|
                    out@.contains(c) <==> exists|q: int|
                        0 <= q < p && #[trigger] self.is_running(q) && self.spec_order()[q].call_id
                            == c,
            decreases self.running@.len() - p,
        {
            if self.running[p] {
                let ghost before = out@;
                out.push(self.order[p].call_id);
                proof {
                    assert forall|c: TaskCallId|
                        out@.contains(c) <==> exists|q: int|
                            0 <= q < p + 1 && #[trigger] self.is_running(q)
                                && self.spec_order()[q].call_id == c by {
                        if out@.contains(c) && !before.contains(c) {
                            assert(self.is_running(p as int));
                        }
                        if exists|q: int|
                            0 <= q < p + 1 && #[trigger] self.is_running(q)
                                && self.spec_order()[q].call_id == c {
                            let q = choose|q: int|
                                0 <= q < p + 1 && #[trigger] self.is_running(q)
                                    && self.spec_order()[q].call_id == c;
                            if q == p {
                                assert(out@[out@.len() - 1] == c);
                            } else {
                                assert(before.contains(c));
                                let k = choose|k: int| 0 <= k < before.len() && before[k] == c;
                                assert(out@[k] == c);
                            }
                        }
                        if before.contains(c) {
                            let k = choose|k: int| 0 <= k < before.len() && before[k] == c;
                            assert(out@[k] == c);
                        }
                    }
                }
            } else {
                proof {
                    assert forall|c: TaskCallId|
                        out@.contains(c) <==> exists|q: int|
                            0 <= q < p + 1 && #[trigger] self.is_running(q)
                                && self.spec_order()[q].call_id == c by {
                        if exists|q: int|
                            0 <= q < p + 1 && #[trigger] self.is_running(q)
                                && self.spec_order()[q].call_id == c {
                            let q = choose|q: int|
                                0 <= q < p + 1 && #[trigger] self.is_running(q)
                                    && self.spec_order()[q].call_id == c;
                            assert(q != p);
                        }
                    }
                }
            }
            p = p + 1;
        }
        out
    }

    /// Whether the call `c` is running.
    fn is_call_running(&self, c: TaskCallId) -> (r: bool)
        requires
            self.wf(),
        ensures
            r == self.call_running(c),
    {
        let mut p: usize = 0;
        while p < self.next
            invariant
                self.wf(),
                p <= self.next,
                forall|q: int|
                    0 <= q < p ==> !(#[trigger] self.is_running(q) && self.spec_order()[q].call_id
                        == c),
            decreases self.next - p,
        {
            if self.running[p] && self.order[p].call_id == c {
                proof {
                    assert(self.is_running(p as int));
                }
                return true;
            }
            p = p + 1;
        }
        proof {
            assert forall|q: int| !(#[trigger] self.is_running(q) && self.spec_order()[q].call_id
                == c) by {
                if self.is_running(q) {
                    assert(q < self.spec_next());
                }
            }
        }
        false
    }

    /// Whether some non-concurrent task is running.
    fn exclusive_running(&self) -> (r: bool)
        requires
            self.wf(),
        ensures
            r == exists|p: int| #[trigger] self.is_running(p) && !self.spec_order()[p].concurrent,
    {
        let mut p: usize = 0;
        while p < self.next
            invariant
                self.wf(),
                p <= self.next,
                forall|q: int|
                    0 <= q < p ==> !(#[trigger] self.is_running(q)
                        && !self.spec_order()[q].concurrent),
            decreases self.next - p,
        {
            if self.running[p] && !self.order[p].concurrent {
                proof {
                    assert(self.is_running(p as int));
                }
                return true;
            }
            p = p + 1;
        }
        proof {
            assert forall|q: int| !(#[trigger] self.is_running(q)
                && !self.spec_order()[q].concurrent) by {
                if self.is_running(q) {
                    assert(q < self.spec_next());
                }
            }
        }
        false
    }

    /// Spawn the next call of the order if it may start now. A
    /// non-concurrent task acts as a barrier: it starts alone, and nothing
    /// starts while it runs.
    pub fn spawn_next(&mut self) -> (r: Option<TaskCallId>)
        requires
            old(self).wf(),
        ensures
            final(self).wf(),
            final(self).disciplined(),
            final(self).spec_order() == old(self).spec_order(),
            final(self).spec_failed() == old(self).spec_failed(),
            r.is_some() == old(self).can_spawn(),
            r.is_some() ==> {
                let t = old(self).spec_order()[old(self).spec_next()];
                &&& r == Some(t.call_id)
                &&& forall|j: int|
                    0 <= j < t.children@.len() ==> !old(self).call_running(
                        #[trigger] t.children@[j],
                    )
                &&& final(self).spec_next() == old(self).spec_next() + 1
                &&& final(self).spec_running() == old(self).spec_running().update(
                    old(self).spec_next(),
                    true,
                )
            },
            r.is_none() ==> final(self).spec_next() == old(self).spec_next()
                && final(self).spec_running() == old(self).spec_running(),
    {
        if self.failed || self.next >= self.order.len() {
            return None;
        }
        let next = self.next;
        let mut j: usize = 0;
        while j < self.order[next].children.len()
            invariant
                self.wf(),
                next == self.next,
                next < self.order@.len(),
                j <= self.order@[next as int].children@.len(),
                forall|k: int|
                    0 <= k < j ==> !self.call_running(
                        #[trigger] self.order@[next as int].children@[k],
                    ),
            decreases self.order@[next as int].children@.len() - j,
        {
            if self.is_call_running(self.order[next].children[j]) {
                return None;
            }
            j = j + 1;
        }
        if self.exclusive_running() {
            return None;
        }
        if !self.order[next].concurrent && self.running_count() != 0 {
            return None;
        }
        let call_id = self.order[next].call_id;
        self.running.set(next, true);
        self.next = next + 1;
        proof {
            assert forall|p: int, q: int|
                #[trigger] self.is_running(p) && #[trigger] self.is_running(q)
                    && !self.spec_order()[p].concurrent implies p == q by {
                if p != next && q != next {
                    assert(old(self).is_running(p) && old(self).is_running(q));
                } else if p == next && q != next {
                    assert(old(self).is_running(q));
                } else if p != next {
                    assert(old(self).is_running(p));
                }
            }
            assert forall|p: int| #[trigger] self.is_running(p) implies p < self.spec_next() by {
                if p != next {
                    assert(old(self).is_running(p));
                }
            }
        }
        Some(call_id)
    }

    /// Report that the worker of `call_id` has finished. On failure nothing
    /// more is spawned, and the calls that were still running are returned
    /// so that their workers can be aborted.
    pub fn finish(&mut self, call_id: TaskCallId, success: bool) -> (r: Vec<TaskCallId>)
        requires
            old(self).wf(),
        ensures
            final(self).wf(),
            final(self).disciplined(),
            final(self).spec_order() == old(self).spec_order(),
            final(self).spec_next() == old(self).spec_next(),
            !final(self).call_running(call_id),
            forall|p: int|
                #[trigger] final(self).is_running(p) ==> old(self).is_running(p),
            success ==> final(self).spec_failed() == old(self).spec_failed() && r@.len() == 0
                && forall|p: int|
                old(self).is_running(p) && old(self).spec_order()[p].call_id != call_id
                    ==> #[trigger] final(self).is_running(p),
            !success ==> final(self).spec_failed() && final(self).none_running() && forall|
                c: TaskCallId,
            | #[trigger] r@.contains(c) <==> old(self).call_running(c) && c != call_id,
    {
        let mut p: usize = 0;
        while p < self.next
            invariant
                old(self).wf(),
                self.wf(),
                self.spec_order() == old(self).spec_order(),
                self.spec_next() == old(self).spec_next(),
                self.spec_failed() == old(self).spec_failed(),
                p <= self.next,
                forall|q: int| #[trigger] self.is_running(q) ==> old(self).is_running(q),
                forall|q: int|
                    0 <= q < p ==> !(#[trigger] self.is_running(q) && self.spec_order()[q].call_id
                        == call_id),
                forall|q: int|
                    old(self).is_running(q) && old(self).spec_order()[q].call_id != call_id
                        ==> #[trigger] self.is_running(q),
            decreases self.next - p,
        {
            if self.running[p] && self.order[p].call_id == call_id {
                let ghost pre = *self;
                self.running.set(p, false);
                proof {
                    assert forall|q: int| #[trigger] self.is_running(q) implies pre.is_running(q) by {}
                    assert forall|q: int| #[trigger] self.is_running(q) implies old(self).is_running(q) by {
                        assert(pre.is_running(q));
                    }
                    assert forall|q: int|
                        old(self).is_running(q) && old(self).spec_order()[q].call_id != call_id
                            implies #[trigger] self.is_running(q) by {
                        assert(pre.is_running(q));
                    }
                    assert forall|a: int, b: int|
                        #[trigger] self.is_running(a) && #[trigger] self.is_running(b)
                            && !self.spec_order()[a].concurrent implies a == b by {
                        assert(pre.is_running(a) && pre.is_running(b));
                    }
                }
            }
            p = p + 1;
        }
        proof {
            assert forall|q: int| !(#[trigger] self.is_running(q) && self.spec_order()[q].call_id
                == call_id) by {
                if self.is_running(q) {
                    assert(q < self.spec_next());
                }
            }
        }
        if success {
            return Vec::new();
        }
        let ghost pre_fail = *self;
        proof {
            assert forall|c: TaskCallId| pre_fail.call_running(c) <==> old(self).call_running(c)
                && c != call_id by {
                if pre_fail.call_running(c) {
                    let q = choose|q: int| #[trigger] pre_fail.is_running(q) && pre_fail.spec_order()[q].call_id == c;
                    assert(old(self).is_running(q));
                }
                if old(self).call_running(c) && c != call_id {
                    let q = choose|q: int| #[trigger] old(self).is_running(q) && old(self).spec_order()[q].call_id == c;
                    assert(pre_fail.is_running(q));
                }
            }
        }
        let aborted = self.abort_all();
        proof {
            assert forall|k: int| #[trigger] self.is_running(k) implies old(self).is_running(k) by {}
            assert forall|c: TaskCallId| #[trigger] aborted@.contains(c) <==> old(self).call_running(c)
                && c != call_id by {
                assert(aborted@.contains(c) <==> pre_fail.call_running(c));
            }
        }
        aborted
    }

    /// Stop everything: nothing more is spawned, and the calls that were
    /// running are returned so that their workers can be aborted.
    pub fn abort_all(&mut self) -> (r: Vec<TaskCallId>)
        requires
            old(self).wf(),
        ensures
            final(self).wf(),
            final(self).spec_failed(),
            final(self).none_running(),
            final(self).spec_order() == old(self).spec_order(),
            final(self).spec_next() == old(self).spec_next(),
            forall|c: TaskCallId| #[trigger] r@.contains(c) <==> old(self).call_running(c),
    {
        let aborted = self.running_calls();
        let ghost pre_fail = *self;
        self.failed = true;
        proof {
            assert forall|k: int| #[trigger] self.is_running(k) implies pre_fail.is_running(k) by {}
            assert forall|a: int, b: int|
                #[trigger] self.is_running(a) && #[trigger] self.is_running(b)
                    && !self.spec_order()[a].concurrent implies a == b by {
                assert(pre_fail.is_running(a) && pre_fail.is_running(b));
            }
            assert forall|k: int| #[trigger] self.is_running(k) implies k < self.spec_next() by {
                assert(pre_fail.is_running(k));
            }
        }
        let mut q: usize = 0;
        while q < self.running.len()
            invariant
                self.wf(),
                self.spec_order() == old(self).spec_order(),
                self.spec_next() == old(self).spec_next(),
                self.spec_failed(),
                q <= self.running@.len(),
                forall|k: int| 0 <= k < q ==> !#[trigger] self.running@[k],
            decreases self.running@.len() - q,
        {
            let ghost pre = *self;
            self.running.set(q, false);
            proof {
                assert forall|a: int, b: int|
                    #[trigger] self.is_running(a) && #[trigger] self.is_running(b)
                        && !self.spec_order()[a].concurrent implies a == b by {
                    assert(pre.is_running(a) && pre.is_running(b));
                }
                assert forall|k: int| #[trigger] self.is_running(k) implies k < self.spec_next() by {
                    assert(pre.is_running(k));
                }
            }
            q = q + 1;
        }
        proof {
            assert forall|k: int| !#[trigger] self.is_running(k) by {}
        }
        aborted
    }
}

} // verus!
