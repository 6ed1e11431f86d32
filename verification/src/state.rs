//! The process-wide state and the two internal entry points: credential
//! registration and invalidation submission, plus session admission for the
//! public push stream. The wall clock is read here; everything downstream
//! of the readings is deterministic and fully specified.
use crate::clock::{
    clock_in_range, now_millis, spec_drift_detected, spec_sentinel, GlobalClock, FIFTY_YEARS_MS,
};
use crate::msg::{
    build_delta_message, build_drift_message, build_snapshot_message, pair_views,
    snapshot_message_of,
};
use crate::paths::{normalize_path, spec_normalize, PathInput};
use crate::sessions::{matching_ids, SessionRegistry};
use crate::store::{store_after_targets, InvalidationStore, RouteCatalog};
use crate::strmap::{map_of, unique_keys, StrMap};
use crate::tokens::{
    tokens_after_register, user_token_of, user_tokens_after_register, TokenRegistry,
};
use vstd::prelude::*;

verus! {

/// The default credential time-to-live, in seconds: one day.
pub const DEFAULT_TTL_SECONDS: u64 = 86400;

/// A credential registration: the opaque token and the (project, user) pair
/// it will authorize, with an optional time-to-live in seconds.
pub struct RegisterTokenRequest {
    pub token: String,
    pub user_id: String,
    pub project_id: String,
    pub ttl: Option<u64>,
}

/// An invalidation submission: the project, one or many route identifiers
/// (strings or numbers), and an optional user filter for the broadcast.
pub struct InvalidateRequest {
    pub project_id: String,
    pub path: Option<PathInput>,
    pub paths: Option<Vec<PathInput>>,
    pub user_id: Option<String>,
}

/// The outcome of an invalidation submission. `ClockReset` is not an error:
/// it is the distinguished successful outcome of the drift recovery path.
pub enum InvalidateOutcome {
    MalformedRequest,
    ClockReset { drift_time: i64 },
    Success { broadcast_count: usize, affected_paths: usize, timestamp: i64, drift_time: i64 },
}

/// Why a connection was not admitted; it never upgrades to a stream.
pub enum AdmissionError {
    MissingToken,
    UnknownToken,
}

/// Everything the session lifecycle needs after a successful admission: the
/// fresh session identity, who it serves, and the initial snapshot to send
/// before the session joins the registry.
pub struct AdmittedSession {
    pub session_id: String,
    pub project_id: String,
    pub user_id: String,
    pub snapshot_pairs: Vec<(String, i64)>,
    pub snapshot: String,
}

/// The process-wide shared state, owned by the embedding process and handed
/// by reference to every entry point.
pub struct AppState {
    pub clock: GlobalClock,
    pub tokens: TokenRegistry,
    pub store: InvalidationStore,
    pub catalog: RouteCatalog,
    pub sessions: SessionRegistry,
}

/// The requested time-to-live, or the one-day default.
pub open spec fn spec_ttl(t: Option<u64>) -> u64 {
    match t {
        Some(v) => v,
        None => DEFAULT_TTL_SECONDS,
    }
}

/// The normalized route keys an invalidation request targets: the single
/// `path` if present, then every element of `paths`, in order.
pub open spec fn spec_targets(req: &InvalidateRequest) -> Seq<Seq<char>> {
    (match req.path {
        Some(p) => seq![spec_normalize(&p)],
        None => Seq::empty(),
    }) + (match req.paths {
        Some(ps) => ps@.map(|i: int, p: PathInput| spec_normalize(&p)),
        None => Seq::empty(),
    })
}

/// The broadcast filter a request asks for.
pub open spec fn spec_user_filter(req: &InvalidateRequest) -> Option<Seq<char>> {
    match req.user_id {
        Some(u) => Some(u@),
        None => None,
    }
}

/// The per-project snapshot sent to a new session: every known route at the
/// server start time, overlaid with the project's recorded invalidations.
pub open spec fn spec_overlay(
    catalog: Set<Seq<char>>,
    server_start: i64,
    proj: Map<Seq<char>, i64>,
) -> Map<Seq<char>, i64> {
    Map::new(
        |k: Seq<char>| catalog.contains(k) || proj.contains_key(k),
        |k: Seq<char>|
            if proj.contains_key(k) {
                proj[k]
            } else {
                server_start
            },
    )
}

impl AppState {
    pub open spec fn wf(&self) -> bool {
        &&& self.clock.wf()
        &&& self.tokens.wf()
        &&& self.store.wf()
        &&& self.catalog.wf()
        &&& self.sessions.wf()
    }

    /// Fresh state: empty registries and stores, the clock baselined at the
    /// current wall time. The persisted route catalog, if any, is reloaded
    /// by the caller through `RouteCatalog::load`.
    pub fn new() -> (r: AppState)
        ensures
            r.wf(),
            r.clock.last_observed == 0,
            r.clock.last_drift == r.clock.server_start,
            r.tokens.tokens_view() =~~= Map::<Seq<char>, crate::tokens::TokenData>::empty(),
            r.store@ =~~= Map::<Seq<char>, Map<Seq<char>, i64>>::empty(),
            r.catalog@ =~= Set::<Seq<char>>::empty(),
            r.sessions@ =~~= Map::<Seq<char>, Map<Seq<char>, crate::sessions::SessionData>>::empty(),
    {
        let server_start = now_millis();
        AppState {
            clock: GlobalClock::new(server_start),
            tokens: TokenRegistry::new(),
            store: InvalidationStore::new(),
            catalog: RouteCatalog::new(),
            sessions: SessionRegistry::new(),
        }
    }
}

/// Register (or overwrite) the credential for `req.token`; a prior token
/// held by the same (project, user) pair is removed first. Always succeeds;
/// nothing outside the token registry changes.
pub fn register_token(state: &mut AppState, req: &RegisterTokenRequest)
    requires
        old(state).wf(),
    ensures
        final(state).wf(),
        final(state).tokens.tokens_view().contains_key(req.token@),
        ({
            let td = final(state).tokens.tokens_view()[req.token@];
            td.user_id@ == req.user_id@ && td.project_id@ == req.project_id@ && td.ttl == spec_ttl(
                req.ttl,
            ) && clock_in_range(td.created_at as int)
        }),
        final(state).tokens.tokens_view() == tokens_after_register(
            old(state).tokens.tokens_view(),
            user_token_of(old(state).tokens.user_tokens_view(), req.project_id@, req.user_id@),
            req.token@,
            final(state).tokens.tokens_view()[req.token@],
        ),
        final(state).tokens.user_tokens_view() == user_tokens_after_register(
            old(state).tokens.user_tokens_view(),
            req.project_id@,
            req.user_id@,
            req.token@,
        ),
        final(state).clock == old(state).clock,
        final(state).store == old(state).store,
        final(state).catalog == old(state).catalog,
        final(state).sessions == old(state).sessions,
{
    let created_at = now_millis();
    let ttl = match req.ttl {
        Some(t) => t,
        None => DEFAULT_TTL_SECONDS,
    };
    state.tokens.register(&req.token, &req.user_id, &req.project_id, ttl, created_at);
}

/// Collect and normalize every route identifier the request targets.
#[verifier::loop_isolation(false)]
fn collect_targets(req: &InvalidateRequest) -> (r: Vec<String>)
    ensures
        r@.len() == spec_targets(req).len(),
        forall|i: int| 0 <= i < r@.len() ==> #[trigger] r@[i]@ == spec_targets(req)[i],
{
    let mut out: Vec<String> = Vec::new();
    match &req.path {
        Some(p) => {
            out.push(normalize_path(p));
        },
        None => {},
    }
    let ghost head_len = out@.len();
    match &req.paths {
        Some(ps) => {
            let mut i: usize = 0;
            while i < ps.len()
                invariant
                    i <= ps@.len(),
                    out@.len() == head_len + i,
                    forall|j: int|
                        0 <= j < out@.len() ==> #[trigger] out@[j]@ == spec_targets(req)[j],
                decreases ps@.len() - i,
            {
                out.push(normalize_path(&ps[i]));
                i = i + 1;
            }
        },
        None => {},
    }
    out
}

/// Everything `invalidate` does, as a relation between the state before and
/// after, the two wall-clock readings, and what it returned: the rejected
/// empty request, the drift recovery path, and the normal delta path.
/// `routes_changed` tells the caller whether the route catalog grew, so it
/// can schedule its best-effort persistence write.
pub open spec fn invalidate_relation(
    pre: AppState,
    post: AppState,
    req: InvalidateRequest,
    now: i64,
    drift_now: i64,
    r: InvalidateOutcome,
    routes_changed: bool,
) -> bool {
    let targets = spec_targets(&req);
    if targets.len() == 0 {
        &&& r == InvalidateOutcome::MalformedRequest
        &&& post == pre
        &&& !routes_changed
    } else if spec_drift_detected(pre.clock.last_observed as int, now as int) {
        &&& r == (InvalidateOutcome::ClockReset { drift_time: drift_now })
        &&& !routes_changed
        &&& post.clock.last_observed == 0
        &&& post.clock.last_drift == drift_now
        &&& post.clock.server_start == pre.clock.server_start
        &&& forall|p: Seq<char>| post.store@.contains_key(p) <==> pre.store@.contains_key(p)
        &&& forall|p: Seq<char>, rt: Seq<char>|
            pre.store@.contains_key(p) ==> (#[trigger] post.store@[p].contains_key(rt)
                <==> pre.store@[p].contains_key(rt))
        &&& forall|p: Seq<char>, rt: Seq<char>|
            pre.store@.contains_key(p) && pre.store@[p].contains_key(rt)
                ==> #[trigger] post.store@[p][rt] == spec_sentinel(drift_now as int)
        &&& post.catalog == pre.catalog
        &&& post.tokens == pre.tokens
        &&& post.sessions == pre.sessions
    } else {
        &&& (match r {
            InvalidateOutcome::Success {
                broadcast_count,
                affected_paths,
                timestamp,
                drift_time,
            } => {
                &&& broadcast_count == matching_ids(
                    pre.sessions.project_sessions(req.project_id@),
                    spec_user_filter(&req),
                ).len()
                &&& affected_paths == targets.len()
                &&& timestamp == now
                &&& drift_time == pre.clock.last_drift
            },
            _ => false,
        })
        &&& post.store@ == store_after_targets(pre.store@, req.project_id@, targets, now)
        &&& (forall|k: Seq<char>|
            post.catalog@.contains(k) <==> pre.catalog@.contains(k) || targets.contains(k))
        &&& routes_changed == (exists|i: int|
            0 <= i < targets.len() && !pre.catalog@.contains(#[trigger] targets[i]))
        &&& post.clock.last_observed == now
        &&& post.clock.last_drift == pre.clock.last_drift
        &&& post.clock.server_start == pre.clock.server_start
        &&& post.tokens == pre.tokens
        &&& post.sessions == pre.sessions
    }
}

/// Process an invalidation submission against two given wall-clock readings:
/// `now` feeds the drift guard and stamps the routes; `drift_now` is the
/// recovery-time reading recorded if drift is detected. Deterministic in its
/// arguments; `invalidate` supplies the real clock.
#[verifier::loop_isolation(false)]
pub fn invalidate_at(
    state: &mut AppState,
    req: &InvalidateRequest,
    now: i64,
    drift_now: i64,
) -> (r: (InvalidateOutcome, bool))
    requires
        old(state).wf(),
        clock_in_range(now as int),
        clock_in_range(drift_now as int),
    ensures
        final(state).wf(),
        invalidate_relation(*old(state), *final(state), *req, now, drift_now, r.0, r.1),
{
    let targets = collect_targets(req);
    if targets.len() == 0 {
        return (InvalidateOutcome::MalformedRequest, false);
    }
    let drift_detected = state.clock.observe(now);
    if drift_detected {
        state.clock.record_drift(drift_now);
        let sentinel = drift_now + FIFTY_YEARS_MS;
        state.store.set_all_sentinel(sentinel);
        let reset_msg = build_drift_message(drift_now);
        state.sessions.fan_out_all(&reset_msg);
        return (InvalidateOutcome::ClockReset { drift_time: drift_now }, false);
    }
    let ghost pre_catalog = state.catalog@;
    let ghost pre_store = state.store@;
    let mut routes_changed = false;
    let mut delta: StrMap<i64> = StrMap::new();
    let mut i: usize = 0;
    while i < targets.len()
        invariant
            i <= targets@.len(),
            state.wf(),
            delta.wf(),
            state.clock.last_observed == now,
            state.clock.last_drift == old(state).clock.last_drift,
            state.clock.server_start == old(state).clock.server_start,
            state.tokens == old(state).tokens,
            state.sessions == old(state).sessions,
            forall|k: Seq<char>|
                state.catalog@.contains(k) <==> pre_catalog.contains(k) || exists|j2: int|
                    0 <= j2 < i && #[trigger] targets@[j2]@ == k,
            routes_changed == (exists|j2: int|
                0 <= j2 < i && !pre_catalog.contains(#[trigger] targets@[j2]@)),
            state.store@ == store_after_targets(
                pre_store,
                req.project_id@,
                spec_targets(req).take(i as int),
                now,
            ),
            forall|k: Seq<char>|
                delta@.contains_key(k) <==> exists|j2: int|
                    0 <= j2 < i && #[trigger] targets@[j2]@ == k,
            forall|k: Seq<char>| delta@.contains_key(k) ==> delta@[k] == now,
        decreases targets@.len() - i,
    {
        let is_new = state.catalog.register_if_new(&targets[i]);
        if is_new {
            routes_changed = true;
        }
        state.store.record(&req.project_id, targets[i].clone(), now);
        delta.insert(targets[i].clone(), now);
        let ghost i0 = i as int;
        i = i + 1;
        proof {
            let done = spec_targets(req).take(i0);
            let next = spec_targets(req).take(i0 + 1);
            assert(next.drop_last() =~= done);
            assert(next.last() == spec_targets(req)[i0]);
            assert(state.store@ =~~= store_after_targets(pre_store, req.project_id@, next, now));
            assert forall|k: Seq<char>|
                state.catalog@.contains(k) <==> pre_catalog.contains(k) || exists|j2: int|
                    0 <= j2 < i && #[trigger] targets@[j2]@ == k by {
                if state.catalog@.contains(k) {
                    if k == targets@[i0]@ {
                        assert(targets@[i0]@ == k);
                    }
                }
                if pre_catalog.contains(k) || (exists|j2: int|
                    0 <= j2 < i && #[trigger] targets@[j2]@ == k) {
                    if !pre_catalog.contains(k) {
                        let j2 = choose|j2: int| 0 <= j2 < i && #[trigger] targets@[j2]@ == k;
                        if j2 == i0 {
                            assert(state.catalog@.contains(targets@[i0]@));
                        }
                    }
                }
            }
            assert forall|k: Seq<char>|
                delta@.contains_key(k) <==> exists|j2: int|
                    0 <= j2 < i && #[trigger] targets@[j2]@ == k by {
                if delta@.contains_key(k) {
                    if k == targets@[i0]@ {
                        assert(targets@[i0]@ == k);
                    }
                }
                if exists|j2: int| 0 <= j2 < i && #[trigger] targets@[j2]@ == k {
                    let j2 = choose|j2: int| 0 <= j2 < i && #[trigger] targets@[j2]@ == k;
                    if j2 == i0 {
                        assert(delta@.contains_key(targets@[i0]@));
                    }
                }
            }
            assert(routes_changed == (exists|j2: int|
                0 <= j2 < i && !pre_catalog.contains(#[trigger] targets@[j2]@))) by {
                if routes_changed {
                    if !(exists|j2: int|
                        0 <= j2 < i0 && !pre_catalog.contains(#[trigger] targets@[j2]@)) {
                        assert(!pre_catalog.contains(targets@[i0]@));
                    }
                } else {
                    assert(pre_catalog.contains(targets@[i0]@));
                }
            }
        }
    }
    proof {
        let tg = spec_targets(req);
        assert(tg.take(tg.len() as int) =~= tg);
        assert(pre_catalog == old(state).catalog@);
        assert(pre_store == old(state).store@);
        assert(i == targets@.len());
        assert forall|k: Seq<char>|
            state.catalog@.contains(k) implies old(state).catalog@.contains(k) || tg.contains(
            k,
        ) by {
            if !old(state).catalog@.contains(k) {
                let j2 = choose|j2: int| 0 <= j2 < targets@.len() && #[trigger] targets@[j2]@ == k;
                assert(tg[j2] == k);
            }
        }
        assert forall|k: Seq<char>|
            old(state).catalog@.contains(k) || tg.contains(k) implies state.catalog@.contains(
            k,
        ) by {
            if old(state).catalog@.contains(k) {
                assert(pre_catalog.contains(k));
                assert(pre_catalog.contains(k) || exists|j2: int|
                    0 <= j2 < i && #[trigger] targets@[j2]@ == k);
                assert(state.catalog@.contains(k));
            }
            if tg.contains(k) {
                let j2 = choose|j2: int| 0 <= j2 < tg.len() && tg[j2] == k;
                assert(targets@[j2]@ == k);
                assert(exists|j3: int| 0 <= j3 < i && #[trigger] targets@[j3]@ == k);
                assert(state.catalog@.contains(k));
            }
        }
        assert(routes_changed == (exists|i2: int|
            0 <= i2 < tg.len() && !old(state).catalog@.contains(#[trigger] tg[i2]))) by {
            if routes_changed {
                let j2 = choose|j2: int|
                    0 <= j2 < targets@.len() && !pre_catalog.contains(#[trigger] targets@[j2]@);
                assert(!old(state).catalog@.contains(tg[j2]));
            }
            if exists|i2: int| 0 <= i2 < tg.len() && !old(state).catalog@.contains(
                #[trigger] tg[i2],
            ) {
                let j2 = choose|j2: int|
                    0 <= j2 < tg.len() && !old(state).catalog@.contains(#[trigger] tg[j2]);
                assert(!pre_catalog.contains(targets@[j2]@));
            }
        }
    }
    let current_drift = state.clock.last_drift;
    let pairs = delta.to_pairs();
    let message = build_delta_message(&pairs, current_drift);
    let count = state.sessions.fan_out(&req.project_id, &message, req.user_id.as_ref());
    (
        InvalidateOutcome::Success {
            broadcast_count: count,
            affected_paths: targets.len(),
            timestamp: now,
            drift_time: current_drift,
        },
        routes_changed,
    )
}

/// Process an invalidation submission against the wall clock: the first
/// reading feeds the drift guard, the second stamps a detected drift's
/// recovery. What holds of the result for every pair of readings is
/// `invalidate_relation`.
pub fn invalidate(state: &mut AppState, req: &InvalidateRequest) -> (r: (InvalidateOutcome, bool))
    requires
        old(state).wf(),
    ensures
        final(state).wf(),
        exists|now: i64, drift_now: i64|
            clock_in_range(now as int) && clock_in_range(drift_now as int)
                && #[trigger] invalidate_relation(
                *old(state),
                *final(state),
                *req,
                now,
                drift_now,
                r.0,
                r.1,
            ),
{
    let now = now_millis();
    let drift_now = now_millis();
    let r = invalidate_at(state, req, now, drift_now);
    r
}

/// A fresh opaque session identifier.
///
/// Relies on uuid's `Uuid::new_v4` and its hyphenated rendering: a random
/// identifier; nothing is claimed of its value.
#[verifier::external_body]
fn fresh_session_id() -> (r: String) {
    uuid::Uuid::new_v4().to_string()
}

/// The value of the `token` query parameter, if the query string carries
/// one: a pure function of the query text.
pub uninterp spec fn token_param_of(q: Seq<char>) -> Option<Seq<char>>;

/// Relies on form_urlencoded::parse: the percent-decoded value of the first
/// `token` key in the query string, or nothing if no such key occurs.
#[verifier::external_body]
fn token_param(query: &str) -> (r: Option<String>)
    ensures
        match r {
            Some(s) => token_param_of(query@) == Some(s@),
            None => token_param_of(query@) is None,
        },
{
    match form_urlencoded::parse(query.as_bytes()).find(|(k, _)| k == "token") {
        Some((_, v)) => Some(v.to_string()),
        None => None,
    }
}

/// The snapshot pairs for a project: every known route at the server start
/// time, overlaid with the project's recorded invalidation timestamps.
#[verifier::loop_isolation(false)]
pub fn snapshot_pairs(state: &AppState, project_id: &String) -> (r: Vec<(String, i64)>)
    requires
        state.wf(),
    ensures
        unique_keys(r@),
        map_of(r@) == spec_overlay(
            state.catalog@,
            state.clock.server_start,
            state.store.project_map(project_id@),
        ),
{
    let ghost proj_map = state.store.project_map(project_id@);
    let proj = state.store.project_pairs(project_id);
    let mut m: StrMap<i64> = StrMap::new();
    let mut j: usize = 0;
    while j < proj.len()
        invariant
            j <= proj@.len(),
            m.wf(),
            m@ == map_of(proj@.take(j as int)),
        decreases proj@.len() - j,
    {
        let (rk, ts) = &proj[j];
        m.insert(rk.clone(), *ts);
        proof {
            assert(proj@.take(j as int + 1).drop_last() =~= proj@.take(j as int));
            assert(m@ =~= map_of(proj@.take(j as int + 1)));
        }
        j = j + 1;
    }
    proof {
        assert(proj@.take(proj@.len() as int) =~= proj@);
        assert(m@ == proj_map);
    }
    let known = state.catalog.routes_list();
    let ghost server_start = state.clock.server_start;
    let mut i: usize = 0;
    while i < known.len()
        invariant
            i <= known@.len(),
            m.wf(),
            forall|k: Seq<char>|
                m@.contains_key(k) <==> proj_map.contains_key(k) || exists|j2: int|
                    0 <= j2 < i && #[trigger] known@[j2]@ == k,
            forall|k: Seq<char>| proj_map.contains_key(k) ==> #[trigger] m@[k] == proj_map[k],
            forall|k: Seq<char>|
                m@.contains_key(k) && !proj_map.contains_key(k) ==> #[trigger] m@[k]
                    == server_start,
        decreases known@.len() - i,
    {
        if !m.contains_key(&known[i]) {
            m.insert(known[i].clone(), state.clock.server_start);
        }
        let ghost i0 = i as int;
        i = i + 1;
        proof {
            assert forall|k: Seq<char>|
                m@.contains_key(k) <==> proj_map.contains_key(k) || exists|j2: int|
                    0 <= j2 < i && #[trigger] known@[j2]@ == k by {
                if m@.contains_key(k) {
                    if k == known@[i0]@ {
                        assert(known@[i0]@ == k);
                    }
                }
                if proj_map.contains_key(k) || (exists|j2: int|
                    0 <= j2 < i && #[trigger] known@[j2]@ == k) {
                    if !proj_map.contains_key(k) {
                        let j2 = choose|j2: int| 0 <= j2 < i && #[trigger] known@[j2]@ == k;
                        if j2 == i0 {
                            assert(m@.contains_key(known@[i0]@));
                        }
                    }
                }
            }
        }
    }
    proof {
        let ov = spec_overlay(state.catalog@, server_start, proj_map);
        assert forall|k: Seq<char>| m@.contains_key(k) == ov.contains_key(k) by {
            if m@.contains_key(k) && !proj_map.contains_key(k) {
                let j2 = choose|j2: int| 0 <= j2 < known@.len() && #[trigger] known@[j2]@ == k;
                assert(state.catalog@.contains(known@[j2]@));
            }
            if ov.contains_key(k) && !proj_map.contains_key(k) {
                let j2 = choose|j2: int| 0 <= j2 < known@.len() && #[trigger] known@[j2]@ == k;
            }
        }
        assert forall|k: Seq<char>| m@.contains_key(k) implies m@[k] == ov[k] by {}
        assert(m@ =~= ov);
    }
    m.to_pairs()
}

/// Admit a new connection: extract the token from the query string, look it
/// up, and on success hand back a fresh session identity together with the
/// initial snapshot that must be sent before the session joins the
/// registry. Admission is refused exactly when the token is missing or
/// unknown; nothing is mutated either way. A project with no known routes
/// and no recorded invalidations gets an empty object as its snapshot: a
/// legitimate steady state, not an error.
pub fn admit_session(state: &AppState, query: &str) -> (r: Result<
    AdmittedSession,
    AdmissionError,
>)
    requires
        state.wf(),
    ensures
        (r is Ok) == (token_param_of(query@) matches Some(t)
            && state.tokens.tokens_view().contains_key(t)),
        match r {
            Ok(adm) => {
                &&& (token_param_of(query@) matches Some(t)
                    && state.tokens.tokens_view().contains_key(t)
                    && adm.project_id@ == state.tokens.tokens_view()[t].project_id@
                    && adm.user_id@ == state.tokens.tokens_view()[t].user_id@)
                &&& unique_keys(adm.snapshot_pairs@)
                &&& map_of(adm.snapshot_pairs@) == spec_overlay(
                    state.catalog@,
                    state.clock.server_start,
                    state.store.project_map(adm.project_id@),
                )
                &&& adm.snapshot@ == snapshot_message_of(pair_views(adm.snapshot_pairs@))
            },
            Err(AdmissionError::MissingToken) => token_param_of(query@) is None,
            Err(AdmissionError::UnknownToken) => token_param_of(query@) matches Some(t)
                && !state.tokens.tokens_view().contains_key(t),
        },
{
    let token = match token_param(query) {
        Some(t) => t,
        None => {
            return Err(AdmissionError::MissingToken);
        },
    };
    let td = match state.tokens.lookup(&token) {
        Some(td) => td,
        None => {
            return Err(AdmissionError::UnknownToken);
        },
    };
    let project_id = td.project_id.clone();
    let user_id = td.user_id.clone();
    let session_id = fresh_session_id();
    let pairs = snapshot_pairs(state, &project_id);
    let snapshot = build_snapshot_message(&pairs);
    Ok(
        AdmittedSession {
            session_id,
            project_id,
            user_id,
            snapshot_pairs: pairs,
            snapshot,
        },
    )
}

} // verus!
