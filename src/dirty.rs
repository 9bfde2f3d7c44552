//! The dirtiness policy: a call runs when a declared source is newer than
//! every declared artifact, or when it declares no sources or no artifacts.
//!
//! Modification times are read by the host; a path that does not exist is
//! handed over as `None`.

use vstd::prelude::*;

use crate::metadata::TaskCallMetadata;

verus! {

/// A modification time, in nanoseconds relative to the Unix epoch.
pub type Timestamp = i128;

/// The later of two optional times; a missing time is earlier than any.
pub open spec fn spec_max_time(a: Option<Timestamp>, b: Option<Timestamp>) -> Option<Timestamp> {
    match (a, b) {
        (None, _) => b,
        (_, None) => a,
        (Some(x), Some(y)) => Some(if x >= y { x } else { y }),
    }
}

/// `a` is strictly later than `b`, a missing time being the earliest.
pub open spec fn spec_later(a: Option<Timestamp>, b: Option<Timestamp>) -> bool {
    match (a, b) {
        (Some(x), Some(y)) => x > y,
        (Some(_), None) => true,
        _ => false,
    }
}

/// The latest time of the paths that exist, if any exists.
pub open spec fn spec_latest(times: Seq<Option<Timestamp>>) -> Option<Timestamp>
    decreases times.len(),
{
    if times.len() == 0 {
        None
    } else {
        spec_max_time(spec_latest(times.drop_last()), times.last())
    }
}

pub open spec fn spec_is_dirty(
    n_sources: nat,
    n_artifacts: nat,
    source_times: Seq<Option<Timestamp>>,
    artifact_times: Seq<Option<Timestamp>>,
) -> bool {
    n_sources == 0 || n_artifacts == 0 || spec_later(
        spec_latest(source_times),
        spec_latest(artifact_times),
    )
}

/// The latest modification time among `times`; `None` when no path exists.
pub fn latest_timestamp(times: &Vec<Option<Timestamp>>) -> (r: Option<Timestamp>)
    ensures
        r == spec_latest(times@),
{
    let mut latest: Option<Timestamp> = None;
    let mut i: usize = 0;
    while i < times.len()
        invariant
            i <= times@.len(),
            latest == spec_latest(times@.subrange(0, i as int)),
        decreases times@.len() - i,
    {
        let t = times[i];
        latest = match (latest, t) {
            (None, _) => t,
            (_, None) => latest,
            (Some(x), Some(y)) => Some(if x >= y { x } else { y }),
        };
        proof {
            assert(times@.subrange(0, i + 1).drop_last() =~= times@.subrange(0, i as int));
        }
        i = i + 1;
    }
    proof {
        assert(times@.subrange(0, times@.len() as int) =~= times@);
    }
    latest
}

/// Whether the call declaring `task` must run, given the modification times
/// of its sources and of its artifacts, in declaration order.
pub fn is_dirty(
    task: &TaskCallMetadata,
    source_times: &Vec<Option<Timestamp>>,
    artifact_times: &Vec<Option<Timestamp>>,
) -> (r: bool)
    ensures
        r == spec_is_dirty(
            task.sources@.len(),
            task.artifacts@.len(),
            source_times@,
            artifact_times@,
        ),
{
    if task.sources.len() == 0 || task.artifacts.len() == 0 {
        return true;
    }
    let s = latest_timestamp(source_times);
    let a = latest_timestamp(artifact_times);
    match (s, a) {
        (Some(x), Some(y)) => x > y,
        (Some(_), None) => true,
        _ => false,
    }
}

proof fn lemma_latest_at_least(times: Seq<Option<Timestamp>>, j: int, t: Timestamp)
    requires
        0 <= j < times.len(),
        times[j] == Some(t),
    ensures
        spec_latest(times) is Some,
        spec_latest(times)->Some_0 >= t,
    decreases times.len(),
{
    if j < times.len() - 1 {
        lemma_latest_at_least(times.drop_last(), j, t);
    }
}

proof fn lemma_latest_at_most(times: Seq<Option<Timestamp>>, t: Timestamp)
    requires
        forall|i: int| 0 <= i < times.len() && (#[trigger] times[i]) is Some ==> times[i]->Some_0 <= t,
    ensures
        spec_latest(times) is Some ==> spec_latest(times)->Some_0 <= t,
    decreases times.len(),
{
    if times.len() > 0 {
        let p = times.drop_last();
        assert forall|i: int| 0 <= i < p.len() && (#[trigger] p[i]) is Some implies p[i]->Some_0 <= t by {
            assert(p[i] == times[i]);
        }
        lemma_latest_at_most(p, t);
    }
}

/// A call whose run left an artifact at least as new as every existing
/// source is clean: running the same root again, with no file changed in
/// between, skips it.
pub proof fn lemma_clean_after_build(
    n_sources: nat,
    n_artifacts: nat,
    source_times: Seq<Option<Timestamp>>,
    artifact_times: Seq<Option<Timestamp>>,
    j: int,
    t: Timestamp,
)
    requires
        n_sources > 0,
        n_artifacts > 0,
        0 <= j < artifact_times.len(),
        artifact_times[j] == Some(t),
        forall|i: int|
            0 <= i < source_times.len() && (#[trigger] source_times[i]) is Some
                ==> source_times[i]->Some_0 <= t,
    ensures
        !spec_is_dirty(n_sources, n_artifacts, source_times, artifact_times),
{
    lemma_latest_at_least(artifact_times, j, t);
    lemma_latest_at_most(source_times, t);
}

} // verus!
