//! Laws that relate several operations of the library: the monotone-store
//! guarantee, what the drift sentinel dominates, what a snapshot carries,
//! and what leaving the registry removes from later broadcasts.
use crate::clock::{clock_in_range, spec_sentinel, FIFTY_YEARS_MS, ONE_DAY_MS};
use crate::sessions::{matching_ids, SessionData};
use crate::state::spec_overlay;
use crate::store::store_after_targets;
use vstd::prelude::*;

verus! {

/// The store after a series of single-route invalidations of the same
/// (project, route), one per timestamp, in order.
pub open spec fn store_after_series(
    m0: Map<Seq<char>, Map<Seq<char>, i64>>,
    p: Seq<char>,
    route: Seq<char>,
    tss: Seq<i64>,
) -> Map<Seq<char>, Map<Seq<char>, i64>>
    decreases tss.len(),
{
    if tss.len() == 0 {
        m0
    } else {
        store_after_targets(
            store_after_series(m0, p, route, tss.drop_last()),
            p,
            seq![route],
            tss.last(),
        )
    }
}

/// Timestamps that never step backwards.
pub open spec fn non_decreasing(tss: Seq<i64>) -> bool {
    forall|a: int, b: int| 0 <= a <= b < tss.len() ==> #[trigger] tss[a] <= #[trigger] tss[b]
}

/// For any series of invalidations of one (project, route) with
/// non-decreasing wall-clock timestamps, the stored timestamp afterwards is
/// the last one submitted, which is the maximum of the series.
pub proof fn lemma_monotone_series_stores_max(
    m0: Map<Seq<char>, Map<Seq<char>, i64>>,
    p: Seq<char>,
    route: Seq<char>,
    tss: Seq<i64>,
)
    requires
        tss.len() > 0,
        non_decreasing(tss),
    ensures
        ({
            let m1 = store_after_series(m0, p, route, tss);
            &&& m1.contains_key(p)
            &&& m1[p].contains_key(route)
            &&& m1[p][route] == tss.last()
            &&& forall|a: int| 0 <= a < tss.len() ==> #[trigger] tss[a] <= tss.last()
        }),
{
    let prev = store_after_series(m0, p, route, tss.drop_last());
    let step = seq![route];
    assert(step.drop_last() =~= Seq::<Seq<char>>::empty());
    assert(store_after_series(m0, p, route, tss) == store_after_targets(
        prev,
        p,
        step,
        tss.last(),
    ));
}

/// The sentinel written after a detected drift lies strictly beyond the
/// drift timestamp plus fifty years less a day, so a reconnecting client
/// sees every entry as fresher than anything it could have cached before
/// the reset.
pub proof fn lemma_sentinel_exceeds_window(drift_now: int)
    requires
        clock_in_range(drift_now),
    ensures
        spec_sentinel(drift_now) > drift_now + FIFTY_YEARS_MS - ONE_DAY_MS,
{
}

/// A snapshot taken after route `route` was recorded at `ts` in a project,
/// with no later invalidation of it, carries exactly `ts` for that route.
pub proof fn lemma_snapshot_carries_recorded_route(
    catalog: Set<Seq<char>>,
    server_start: i64,
    proj: Map<Seq<char>, i64>,
    route: Seq<char>,
    ts: i64,
)
    requires
        proj.contains_key(route),
        proj[route] == ts,
    ensures
        spec_overlay(catalog, server_start, proj).contains_key(route),
        spec_overlay(catalog, server_start, proj)[route] == ts,
{
}

/// A project with no recorded invalidations and no known routes yields an
/// empty snapshot — a legitimate steady state, not an error.
pub proof fn lemma_snapshot_of_nothing_is_empty(server_start: i64)
    ensures
        spec_overlay(
            Set::<Seq<char>>::empty(),
            server_start,
            Map::<Seq<char>, i64>::empty(),
        ) =~= Map::<Seq<char>, i64>::empty(),
{
}

/// Removing a session from a project's registry removes exactly that
/// session from the set any later broadcast addresses: no delivery is ever
/// attempted to a session that has left.
pub proof fn lemma_left_session_never_addressed(
    m: Map<Seq<char>, SessionData>,
    sid: Seq<char>,
    filter: Option<Seq<char>>,
)
    ensures
        !matching_ids(m.remove(sid), filter).contains(sid),
        matching_ids(m.remove(sid), filter) =~= matching_ids(m, filter).remove(sid),
{
}

} // verus!
