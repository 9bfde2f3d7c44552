//! Planning the declaration phase: which call's declaration body is evaluated
//! next, so that the whole dependency closure of a root call gets populated.

use vstd::prelude::*;

use crate::errors::{QuakeError, Span};
use crate::metadata::{deps_of, BlockId, Metadata, TaskCallId, TaskCallMetadata};
use crate::run_tree::{lemma_unmarked_decreases, unmarked};
use crate::state::State;

verus! {

/// `path` walks from call to call along declared dependencies.
pub open spec fn is_path<A>(md: Metadata<A>, path: Seq<TaskCallId>) -> bool {
    &&& path.len() >= 1
    &&& forall|i: int| 0 <= i < path.len() ==> #[trigger] path[i] < md.spec_calls().len()
    &&& forall|i: int|
        0 <= i < path.len() - 1 ==> deps_of(md.spec_calls()[path[i] as int]).contains(
            #[trigger] path[i + 1],
        )
}

/// `c` is `root` or one of its transitive dependencies.
pub open spec fn reachable<A>(md: Metadata<A>, root: TaskCallId, c: TaskCallId) -> bool {
    exists|path: Seq<TaskCallId>| #[trigger]
        is_path(md, path) && path[0] == root && path.last() == c
}

/// Every transitive dependency of `root`, and `root` itself, has its metadata.
pub open spec fn closure_populated<A>(md: Metadata<A>, root: TaskCallId) -> bool {
    forall|c: TaskCallId| #[trigger] reachable(md, root, c) ==> md.is_populated(c as int)
}

/// `x` has been populated and all its dependencies have been seen.
spec fn expanded<A>(md: Metadata<A>, seen: Seq<bool>, x: int) -> bool {
    &&& md.spec_calls()[x].populated
    &&& forall|j: int|
        0 <= j < deps_of(md.spec_calls()[x]).len() ==> seen[#[trigger] deps_of(
            md.spec_calls()[x],
        )[j] as int]
}

proof fn lemma_reach_root<A>(md: Metadata<A>, root: TaskCallId)
    requires
        root < md.spec_calls().len(),
    ensures
        reachable(md, root, root),
{
    let path = seq![root];
    assert(is_path(md, path));
}

proof fn lemma_reach_step<A>(md: Metadata<A>, root: TaskCallId, v: TaskCallId, d: TaskCallId)
    requires
        reachable(md, root, v),
        v < md.spec_calls().len(),
        d < md.spec_calls().len(),
        deps_of(md.spec_calls()[v as int]).contains(d),
    ensures
        reachable(md, root, d),
{
    let path = choose|path: Seq<TaskCallId>| #[trigger]
        is_path(md, path) && path[0] == root && path.last() == v;
    let extended = path.push(d);
    assert forall|i: int| 0 <= i < extended.len() implies #[trigger] extended[i] < md.spec_calls().len() by {
        if i < path.len() {
            assert(extended[i] == path[i]);
        }
    }
    assert forall|i: int| 0 <= i < extended.len() - 1 implies deps_of(
        md.spec_calls()[extended[i] as int],
    ).contains(#[trigger] extended[i + 1]) by {
        if i < path.len() - 1 {
            assert(extended[i] == path[i] && extended[i + 1] == path[i + 1]);
        } else {
            assert(extended[i] == v);
        }
    }
    assert(is_path(md, extended));
}

/// A set of calls that holds `path`'s start and is closed under the
/// dependencies of its populated, expanded members holds the whole path.
proof fn lemma_path_in_closed<A>(md: Metadata<A>, seen: Seq<bool>, path: Seq<TaskCallId>)
    requires
        is_path(md, path),
        seen.len() == md.spec_calls().len(),
        seen[path[0] as int],
        forall|x: int| 0 <= x < seen.len() && #[trigger] seen[x] ==> expanded(md, seen, x),
    ensures
        seen[path.last() as int],
    decreases path.len(),
{
    if path.len() > 1 {
        let p = path.drop_last();
        assert forall|i: int| 0 <= i < p.len() implies #[trigger] p[i] < md.spec_calls().len() by {
            assert(p[i] == path[i]);
        }
        assert forall|i: int| 0 <= i < p.len() - 1 implies deps_of(
            md.spec_calls()[p[i] as int],
        ).contains(#[trigger] p[i + 1]) by {
            assert(p[i] == path[i] && p[i + 1] == path[i + 1]);
        }
        lemma_path_in_closed(md, seen, p);
        let x = path[path.len() - 2];
        assert(x < md.spec_calls().len());
        assert(seen[x as int]);
        assert(expanded(md, seen, x as int));
        assert(deps_of(md.spec_calls()[x as int]).contains(path[path.len() - 2 + 1]));
        let k = choose|k: int|
            0 <= k < deps_of(md.spec_calls()[x as int]).len() && deps_of(
                md.spec_calls()[x as int],
            )[k] == path.last();
        assert(seen[deps_of(md.spec_calls()[x as int])[k] as int]);
    }
}

/// A set of calls that holds `path`'s start and the dependencies of each
/// of its members holds the whole path.
pub proof fn lemma_path_in_dep_closed<A>(md: Metadata<A>, marks: Seq<bool>, path: Seq<TaskCallId>)
    requires
        is_path(md, path),
        marks.len() == md.spec_calls().len(),
        marks[path[0] as int],
        forall|x: int|
            0 <= x < marks.len() && #[trigger] marks[x] ==> crate::run_tree::deps_marked(
                md,
                marks,
                x as TaskCallId,
            ),
    ensures
        marks[path.last() as int],
    decreases path.len(),
{
    if path.len() > 1 {
        let p = path.drop_last();
        assert forall|i: int| 0 <= i < p.len() implies #[trigger] p[i] < md.spec_calls().len() by {
            assert(p[i] == path[i]);
        }
        assert forall|i: int| 0 <= i < p.len() - 1 implies deps_of(
            md.spec_calls()[p[i] as int],
        ).contains(#[trigger] p[i + 1]) by {
            assert(p[i] == path[i] && p[i + 1] == path[i + 1]);
        }
        lemma_path_in_dep_closed(md, marks, p);
        let x = path[path.len() - 2];
        assert(x < md.spec_calls().len());
        assert(marks[x as int]);
        assert(crate::run_tree::deps_marked(md, marks, (x as int) as TaskCallId));
        assert(deps_of(md.spec_calls()[x as int]).contains(path[path.len() - 2 + 1]));
        let k = choose|k: int|
            0 <= k < deps_of(md.spec_calls()[x as int]).len() && deps_of(
                md.spec_calls()[x as int],
            )[k] == path.last();
        assert(marks[deps_of(md.spec_calls()[x as int])[k] as int]);
    }
}

/// The next call whose declaration body must be evaluated for `root`: the
/// first unpopulated call met by a depth-first walk from `root` that goes
/// through the dependencies of populated calls in declaration order. `None`
/// means the whole dependency closure of `root` is populated.
pub fn next_unpopulated<A>(metadata: &Metadata<A>, root: TaskCallId) -> (r: Option<TaskCallId>)
    requires
        metadata.wf(),
        root < metadata.spec_calls().len(),
    ensures
        match r {
            Some(c) => {
                &&& c < metadata.spec_calls().len()
                &&& !metadata.spec_calls()[c as int].populated
                &&& reachable(*metadata, root, c)
            },
            None => closure_populated(*metadata, root),
        },
{
    let n = metadata.call_count();
    let mut seen: Vec<bool> = Vec::new();
    let mut k: usize = 0;
    while k < n
        invariant
            k <= n,
            seen@.len() == k,
            forall|x: int| 0 <= x < k ==> !#[trigger] seen@[x],
        decreases n - k,
    {
        seen.push(false);
        k = k + 1;
    }
    seen.set(root, true);
    let mut stack: Vec<TaskCallId> = Vec::new();
    stack.push(root);
    proof {
        lemma_reach_root(*metadata, root);
        assert(stack@[0] == root);
        assert forall|x: TaskCallId| x < n && #[trigger] seen@[x as int] implies x == root && stack@.contains(x) by {
        }
    }
    while stack.len() > 0
        invariant
            metadata.wf(),
            n == metadata.spec_calls().len(),
            root < n,
            seen@.len() == n,
            seen@[root as int],
            stack@.no_duplicates(),
            forall|i: int|
                0 <= i < stack@.len() ==> #[trigger] stack@[i] < n && seen@[stack@[i] as int],
            forall|x: TaskCallId| x < n && #[trigger] seen@[x as int] ==> reachable(*metadata, root, x),
            forall|x: TaskCallId|
                x < n && #[trigger] seen@[x as int] && !stack@.contains(x) ==> expanded(
                    *metadata,
                    seen@,
                    x as int,
                ),
        decreases unmarked(seen@), stack@.len(),
    {
        let ghost stack_entry = stack@;
        let v = stack.pop().unwrap();
        let ghost popped = stack@;
        proof {
            assert(v == stack_entry[stack_entry.len() - 1]);
            assert(!popped.contains(v)) by {
                if popped.contains(v) {
                    let i = choose|i: int| 0 <= i < popped.len() && popped[i] == v;
                    assert(stack_entry[i] == v);
                }
            }
            assert forall|i: int| 0 <= i < popped.len() implies #[trigger] popped[i] < n && seen@[popped[i] as int] by {
                assert(popped[i] == stack_entry[i]);
            }
            assert forall|x: TaskCallId|
                x < n && #[trigger] seen@[x as int] && !popped.contains(x) && x != v implies expanded(*metadata, seen@, x as int) by {
                if stack_entry.contains(x) {
                    let i = choose|i: int| 0 <= i < stack_entry.len() && stack_entry[i] == x;
                    if i < popped.len() {
                        assert(popped[i] == x);
                    }
                }
            }
        }
        let ghost seen_at_pop = seen@;
        if !metadata.get_task_call(v).unwrap().populated {
            return Some(v);
        }
        let deps = &metadata.task_call_metadata(v).unwrap().dependencies;
        let mut j: usize = deps.len();
        while j > 0
            invariant
                metadata.wf(),
                n == metadata.spec_calls().len(),
                v < n,
                metadata.spec_calls()[v as int].populated,
                deps@ == deps_of(metadata.spec_calls()[v as int]),
                metadata.deps_valid(deps@),
                j <= deps@.len(),
                seen@.len() == n,
                seen@[root as int],
                seen@[v as int],
                !stack@.contains(v),
                stack@.no_duplicates(),
                popped.len() <= stack@.len(),
                unmarked(seen@) <= unmarked(seen_at_pop),
                stack@.len() > popped.len() ==> unmarked(seen@) < unmarked(seen_at_pop),
                seen_at_pop.len() == n,
                forall|x: int| 0 <= x < n && #[trigger] seen_at_pop[x] ==> seen@[x],
                forall|i: int|
                    0 <= i < stack@.len() ==> #[trigger] stack@[i] < n && seen@[stack@[i] as int],
                forall|x: TaskCallId|
                    x < n && #[trigger] seen@[x as int] ==> reachable(*metadata, root, x),
                forall|x: TaskCallId|
                    x < n && #[trigger] seen@[x as int] && !stack@.contains(x) && x != v
                        ==> expanded(*metadata, seen@, x as int),
                forall|k: int| j <= k < deps@.len() ==> seen@[#[trigger] deps@[k] as int],
            decreases j,
        {
            j = j - 1;
            let d = deps[j];
            if !seen[d] {
                let ghost before = seen@;
                let ghost stack_before = stack@;
                proof {
                    assert(deps@.contains(d)) by {
                        assert(deps@[j as int] == d);
                    }
                    lemma_reach_step(*metadata, root, v, d);
                }
                seen.set(d, true);
                stack.push(d);
                proof {
                    assert forall|i: int| 0 <= i < n && #[trigger] before[i] implies seen@[i] by {}
                    lemma_unmarked_decreases(before, seen@, d as int);
                    assert forall|x: int| 0 <= x < n && #[trigger] seen_at_pop[x] implies seen@[x] by {
                        assert(before[x]);
                    }
                    assert(!stack_before.contains(d));
                    assert forall|i: int, l: int|
                        0 <= i < stack@.len() && 0 <= l < stack@.len() && i != l implies stack@[i]
                        != stack@[l] by {
                        if i == stack@.len() - 1 {
                            assert(stack_before[l] == stack@[l]);
                        } else if l == stack@.len() - 1 {
                            assert(stack_before[i] == stack@[i]);
                        }
                    }
                    assert forall|i: int| 0 <= i < stack@.len() implies #[trigger] stack@[i] < n
                        && seen@[stack@[i] as int] by {
                        if i < stack@.len() - 1 {
                            assert(stack@[i] == stack_before[i]);
                        }
                    }
                    assert(!stack@.contains(v)) by {
                        if stack@.contains(v) {
                            let i = choose|i: int| 0 <= i < stack@.len() && stack@[i] == v;
                            if i < stack@.len() - 1 {
                                assert(stack_before[i] == v);
                            }
                        }
                    }
                    assert forall|x: TaskCallId|
                        x < n && #[trigger] seen@[x as int] && !stack@.contains(x) && x != v
                            implies expanded(*metadata, seen@, x as int) by {
                        assert(x != d) by {
                            assert(stack@[stack@.len() - 1] == d);
                        }
                        assert(before[x as int]);
                        if stack_before.contains(x) {
                            let i = choose|i: int| 0 <= i < stack_before.len() && stack_before[i] == x;
                            assert(stack@[i] == x);
                        }
                        assert(expanded(*metadata, before, x as int));
                    }
                }
            }
        }
        proof {
            assert(expanded(*metadata, seen@, v as int));
        }
    }
    proof {
        assert forall|c: TaskCallId| #[trigger] reachable(*metadata, root, c) implies metadata.is_populated(
            c as int,
        ) by {
            let path = choose|path: Seq<TaskCallId>| #[trigger]
                is_path(*metadata, path) && path[0] == root && path.last() == c;
            assert forall|x: int| 0 <= x < seen@.len() && #[trigger] seen@[x] implies expanded(
                *metadata,
                seen@,
                x,
            ) by {
                let y = x as TaskCallId;
                assert(seen@.len() == seen.len());
                assert(y as int == x);
                assert(!stack@.contains(y));
            }
            lemma_path_in_closed(*metadata, seen@, path);
            assert(path[path.len() - 1] < n);
            assert(expanded(*metadata, seen@, c as int));
        }
    }
    None
}

/// Start populating `call_id`. When its task has a declaration body, a scope
/// is opened for the call and the body is returned with the new value of the
/// scope variable; the host evaluates it and then commits the scope.
/// Otherwise the call receives empty metadata at once.
pub fn begin_declaration<A>(state: &mut State<A>, call_id: TaskCallId, scope_var: i64, span: Span) -> (r:
    Result<Option<(BlockId, i64)>, QuakeError>)
    requires
        old(state).wf(),
        call_id < old(state).metadata.spec_calls().len(),
    ensures
        final(state).wf(),
        final(state).metadata.spec_tasks() == old(state).metadata.spec_tasks(),
        ({
            let calls = old(state).metadata.spec_calls();
            let task = old(state).metadata.spec_tasks()[calls[call_id as int].task_id as int];
            match task.decl_body {
                Some(body) => {
                    &&& final(state).metadata.spec_calls() == calls
                    &&& r.is_ok() <==> (scope_var < 0 && old(state).spec_active().is_none()
                        && old(state).spec_next_scope_id() < i64::MAX && old(
                        state,
                    ).spec_next_scope_id() < usize::MAX)
                    &&& r.is_ok() ==> {
                        &&& r->Ok_0 == Some((body, old(state).spec_next_scope_id() as i64))
                        &&& final(state).scope_active(old(state).spec_next_scope_id() as i64)
                        &&& final(state).spec_active().unwrap().call_id == call_id
                        &&& final(state).spec_active().unwrap().metadata.is_empty_spec()
                    }
                },
                None => {
                    &&& r.is_ok() <==> !calls[call_id as int].populated
                    &&& r.is_ok() ==> r->Ok_0.is_none() && final(state).metadata.spec_calls()
                        == calls.update(
                        call_id as int,
                        crate::metadata::TaskCall {
                            metadata: final(state).metadata.spec_calls()[call_id as int].metadata,
                            populated: true,
                            ..calls[call_id as int]
                        },
                    ) && final(state).metadata.spec_calls()[call_id as int].metadata.is_empty_spec()
                    &&& r.is_err() ==> final(state).metadata.spec_calls() == calls
                },
            }
        }),
{
    let task_id = state.metadata.get_task_call(call_id).unwrap().task_id;
    let decl_body = state.metadata.get_task(task_id).unwrap().decl_body;
    match decl_body {
        Some(body) => match state.push_scope(call_id, scope_var, span) {
            Ok(v) => Ok(Some((body, v))),
            Err(e) => Err(e),
        },
        None => match state.metadata.set_call_metadata(call_id, TaskCallMetadata::new()) {
            Ok(()) => Ok(None),
            Err(e) => Err(e),
        },
    }
}

pub proof fn lemma_contains_concat<T>(a: Seq<T>, b: Seq<T>, x: T)
    ensures
        (a + b).contains(x) <==> (a.contains(x) || b.contains(x)),
{
    if a.contains(x) {
        let k = choose|k: int| 0 <= k < a.len() && a[k] == x;
        assert((a + b)[k] == x);
    }
    if b.contains(x) {
        let k = choose|k: int| 0 <= k < b.len() && b[k] == x;
        assert((a + b)[a.len() + k] == x);
    }
    if (a + b).contains(x) {
        let k = choose|k: int| 0 <= k < (a + b).len() && (a + b)[k] == x;
        if k < a.len() {
            assert(a[k] == x);
        } else {
            assert(b[k - a.len()] == x);
        }
    }
}

pub proof fn lemma_no_duplicates_concat<T>(a: Seq<T>, b: Seq<T>)
    requires
        a.no_duplicates(),
        b.no_duplicates(),
        forall|x: T| a.contains(x) ==> !b.contains(x),
    ensures
        (a + b).no_duplicates(),
{
    let s = a + b;
    assert forall|i: int, j: int| 0 <= i < s.len() && 0 <= j < s.len() && i != j implies s[i]
        != s[j] by {
        if i < a.len() && j >= a.len() {
            assert(a[i] == s[i]);
            assert(b[j - a.len()] == s[j]);
            assert(a.contains(s[i]));
        } else if j < a.len() && i >= a.len() {
            assert(a[j] == s[j]);
            assert(b[i - a.len()] == s[i]);
            assert(a.contains(s[j]));
        } else if i < a.len() {
            assert(a[i] == s[i] && a[j] == s[j]);
        } else {
            assert(b[i - a.len()] == s[i] && b[j - a.len()] == s[j]);
        }
    }
}

} // verus!
