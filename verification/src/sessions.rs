//! The session registry and broadcast engine: per project, the currently
//! connected push sessions and their outbound channels, and the best-effort
//! fan-out of messages to them.
use crate::strmap::StrMap;
use vstd::prelude::*;

verus! {

/// The sending half of a session's outbound channel, declared so the
/// registry can hold and use it; its internals stay opaque.
#[verifier::external_type_specification]
#[verifier::external_body]
#[verifier::reject_recursive_types(T)]
pub struct ExUnboundedSender<T>(tokio::sync::mpsc::UnboundedSender<T>);

/// Relies on tokio's `UnboundedSender::send`: it queues the message if the
/// receiving half is still open and fails otherwise. Delivery is
/// best-effort — a closed channel is this session's problem alone — so
/// nothing is claimed of the outcome.
#[verifier::external_body]
fn send_text(sender: &tokio::sync::mpsc::UnboundedSender<String>, msg: String) {
    let _ = sender.send(msg);
}

/// One live push connection: the user it belongs to and the channel its
/// outbound messages are queued on.
pub struct SessionData {
    pub user_id: String,
    pub sender: tokio::sync::mpsc::UnboundedSender<String>,
}

/// Whether a session is addressed by a broadcast's optional user filter.
pub open spec fn session_matches(s: SessionData, filter: Option<Seq<char>>) -> bool {
    match filter {
        Some(u) => s.user_id@ == u,
        None => true,
    }
}

/// The session identifiers a broadcast with this filter addresses.
pub open spec fn matching_ids(
    m: Map<Seq<char>, SessionData>,
    filter: Option<Seq<char>>,
) -> Set<Seq<char>> {
    Set::new(|sid: Seq<char>| m.contains_key(sid) && session_matches(m[sid], filter))
}

/// projectId -> (sessionId -> session). Joins and leaves on unrelated
/// projects are independent; a broadcast walks one project's sessions.
pub struct SessionRegistry {
    projects: StrMap<StrMap<SessionData>>,
}

impl SessionRegistry {
    /// The registry as a map from project to its live sessions.
    pub closed spec fn view(&self) -> Map<Seq<char>, Map<Seq<char>, SessionData>> {
        Map::new(
            |p: Seq<char>| self.projects@.contains_key(p),
            |p: Seq<char>| self.projects@[p]@,
        )
    }

    /// A project's live sessions; empty for an unknown project.
    pub open spec fn project_sessions(&self, p: Seq<char>) -> Map<Seq<char>, SessionData> {
        if self.view().contains_key(p) {
            self.view()[p]
        } else {
            Map::empty()
        }
    }

    pub closed spec fn wf(&self) -> bool {
        &&& self.projects.wf()
        &&& forall|p: Seq<char>|
            self.projects@.contains_key(p) ==> (#[trigger] self.projects@[p]).wf()
    }

    pub fn new() -> (r: SessionRegistry)
        ensures
            r.wf(),
            r@ =~~= Map::<Seq<char>, Map<Seq<char>, SessionData>>::empty(),
    {
        let r = SessionRegistry { projects: StrMap::new() };
        proof {
            assert(r@ =~~= Map::<Seq<char>, Map<Seq<char>, SessionData>>::empty());
        }
        r
    }

    /// Insert a session under its project, creating the project bucket on
    /// first use. Overwrites a session that reuses the same identifier.
    pub fn join(
        &mut self,
        project_id: &String,
        session_id: String,
        user_id: String,
        sender: tokio::sync::mpsc::UnboundedSender<String>,
    )
        requires
            old(self).wf(),
        ensures
            final(self).wf(),
            final(self)@ == old(self)@.insert(
                project_id@,
                old(self).project_sessions(project_id@).insert(
                    session_id@,
                    (SessionData { user_id, sender }),
                ),
            ),
    {
        let mut inner = match self.projects.take(project_id) {
            Some(m) => m,
            None => StrMap::new(),
        };
        inner.insert(session_id, SessionData { user_id, sender });
        self.projects.insert(project_id.clone(), inner);
        proof {
            assert(self@ =~~= old(self)@.insert(
                project_id@,
                old(self).project_sessions(project_id@).insert(
                    session_id@,
                    (SessionData { user_id, sender }),
                ),
            ));
        }
    }

    /// Remove a session from its project. Idempotent: safe if the project
    /// bucket is absent or the session already left.
    pub fn leave(&mut self, project_id: &String, session_id: &String)
        requires
            old(self).wf(),
        ensures
            final(self).wf(),
            final(self)@ == if old(self)@.contains_key(project_id@) {
                old(self)@.insert(project_id@, old(self)@[project_id@].remove(session_id@))
            } else {
                old(self)@
            },
    {
        match self.projects.take(project_id) {
            Some(mut inner) => {
                let _ = inner.take(session_id);
                self.projects.insert(project_id.clone(), inner);
                proof {
                    assert(self@ =~~= old(self)@.insert(
                        project_id@,
                        old(self)@[project_id@].remove(session_id@),
                    ));
                }
            },
            None => {
                proof {
                    assert(self@ =~~= old(self)@);
                }
            },
        }
    }

    /// Push `message` onto the outbound channel of every session of the
    /// project that the optional user filter addresses, and report how many
    /// sessions were addressed. A closed channel never aborts the fan-out;
    /// the count is informational (sessions addressed, not deliveries).
    pub fn fan_out(
        &self,
        project_id: &String,
        message: &String,
        user_filter: Option<&String>,
    ) -> (count: usize)
        requires
            self.wf(),
        ensures
            count == matching_ids(
                self.project_sessions(project_id@),
                (match user_filter {
                    Some(u) => Some(u@),
                    None => None,
                }),
            ).len(),
    {
        broadcast use vstd::set::group_set_axioms;

        let ghost filter = (match user_filter {
            Some(u) => Some(u@),
            None => None::<Seq<char>>,
        });
        match self.projects.get(project_id) {
            None => {
                proof {
                    assert(matching_ids(self.project_sessions(project_id@), filter)
                        =~= Set::<Seq<char>>::empty());
                }
                0
            },
            Some(inner) => {
                proof {
                    inner.lemma_entries_correspond();
                }
                let ghost entries = inner.entries_seq();
                proof {
                    assert(crate::strmap::unique_keys(entries));
                }
                let n = inner.len();
                let mut count: usize = 0;
                let mut i: usize = 0;
                while i < n
                    invariant
                        self.wf(),
                        i <= n,
                        n == entries.len(),
                        inner.wf(),
                        inner.entries_seq() == entries,
                        crate::strmap::unique_keys(entries),
                        filter == (match user_filter {
                            Some(u) => Some(u@),
                            None => None::<Seq<char>>,
                        }),
                        count == matched_prefix(entries, filter, i as int).len(),
                        count <= i,
                        matched_prefix(entries, filter, i as int).finite(),
                    decreases n - i,
                {
                    let (sid, sess) = inner.entry_at(i);
                    let addressed = match user_filter {
                        Some(u) => sess.user_id.eq(u),
                        None => true,
                    };
                    proof {
                        lemma_matched_prefix_contains(entries, filter, i as int, sid@);
                        assert(entries[i as int].0@ == sid@);
                        assert forall|j: int| 0 <= j < i implies #[trigger] entries[j].0@ != sid@
                            by {
                            assert(entries[j].0@ != entries[i as int].0@);
                        }
                        assert(!matched_prefix(entries, filter, i as int).contains(sid@));
                    }
                    if addressed {
                        send_text(&sess.sender, message.clone());
                        count = count + 1;
                    }
                    proof {
                        let cur = matched_prefix(entries, filter, i as int);
                        let next = matched_prefix(entries, filter, i as int + 1);
                        assert(*sess == entries[i as int].1);
                        assert(addressed == session_matches(entries[i as int].1, filter));
                        lemma_matched_prefix_step(entries, filter, i as int + 1);
                        if addressed {
                            assert(next == cur.insert(entries[i as int].0@));
                            assert(next.len() == cur.len() + 1);
                        } else {
                            assert(next == cur);
                        }
                    }
                    i = i + 1;
                }
                proof {
                    inner.lemma_view_is_entries();
                    lemma_matched_prefix_is_matching(entries, filter);
                    assert(matched_prefix(entries, filter, n as int) == matching_ids(
                        inner@,
                        filter,
                    ));
                    assert(inner@ == self.project_sessions(project_id@));
                }
                count
            },
        }
    }

    /// Push `message` onto every session's channel in every project,
    /// unconditionally; used only by the drift-reset path, whose outcome
    /// carries no delivery count. Best-effort, like `broadcast`.
    pub fn fan_out_all(&self, message: &String)
        requires
            self.wf(),
    {
        proof {
            self.projects.lemma_entries_correspond();
            assert forall|ii: int|
                0 <= ii < self.projects.entries_seq().len() implies (#[trigger] self.projects.entries_seq()[ii].1).wf() by {
                assert(self.projects@.contains_key(self.projects.entries_seq()[ii].0@));
            }
        }
        let n = self.projects.len();
        let mut i: usize = 0;
        while i < n
            invariant
                self.wf(),
                n == self.projects.entries_seq().len(),
                forall|ii: int|
                    0 <= ii < n ==> (#[trigger] self.projects.entries_seq()[ii].1).wf(),
            decreases n - i,
        {
            let (_, inner) = self.projects.entry_at(i);
            let m = inner.len();
            let mut j: usize = 0;
            while j < m
                invariant
                    inner.wf(),
                    m == inner.entries_seq().len(),
                decreases m - j,
            {
                let (_, sess) = inner.entry_at(j);
                send_text(&sess.sender, message.clone());
                j = j + 1;
            }
            i = i + 1;
        }
    }
}

/// The identifiers among the first `n` entries that the filter addresses.
spec fn matched_prefix(
    s: Seq<(String, SessionData)>,
    filter: Option<Seq<char>>,
    n: int,
) -> Set<Seq<char>>
    decreases n,
{
    if n <= 0 {
        Set::empty()
    } else if session_matches(s[n - 1].1, filter) {
        matched_prefix(s, filter, n - 1).insert(s[n - 1].0@)
    } else {
        matched_prefix(s, filter, n - 1)
    }
}

/// One unfolding of `matched_prefix`, for the counting loop's step.
proof fn lemma_matched_prefix_step(
    s: Seq<(String, SessionData)>,
    filter: Option<Seq<char>>,
    n: int,
)
    requires
        0 < n <= s.len(),
    ensures
        matched_prefix(s, filter, n) == if session_matches(s[n - 1].1, filter) {
            matched_prefix(s, filter, n - 1).insert(s[n - 1].0@)
        } else {
            matched_prefix(s, filter, n - 1)
        },
{
}

/// Membership in a matched prefix: some earlier entry carries the
/// identifier and is addressed.
proof fn lemma_matched_prefix_contains(
    s: Seq<(String, SessionData)>,
    filter: Option<Seq<char>>,
    n: int,
    k: Seq<char>,
)
    requires
        n <= s.len(),
    ensures
        matched_prefix(s, filter, n).contains(k) <==> exists|j: int|
            0 <= j < n && #[trigger] s[j].0@ == k && session_matches(s[j].1, filter),
        matched_prefix(s, filter, n).finite(),
    decreases n,
{
    broadcast use vstd::set::group_set_axioms;

    if n > 0 {
        lemma_matched_prefix_contains(s, filter, n - 1, k);
        if matched_prefix(s, filter, n).contains(k) {
            if s[n - 1].0@ == k && session_matches(s[n - 1].1, filter) {
            } else {
                let j = choose|j: int|
                    0 <= j < n - 1 && #[trigger] s[j].0@ == k && session_matches(s[j].1, filter);
                assert(s[j].0@ == k && session_matches(s[j].1, filter));
            }
        }
    }
}

/// With unique identifiers, the full matched prefix is exactly the set of
/// sessions the filter addresses in the map the entries describe.
proof fn lemma_matched_prefix_is_matching(s: Seq<(String, SessionData)>, filter: Option<Seq<char>>)
    requires
        crate::strmap::unique_keys(s),
    ensures
        matched_prefix(s, filter, s.len() as int) =~= matching_ids(crate::strmap::map_of(s), filter),
{
    broadcast use vstd::set::group_set_axioms;

    let m = crate::strmap::map_of(s);
    assert forall|k: Seq<char>|
        matched_prefix(s, filter, s.len() as int).contains(k) == matching_ids(m, filter).contains(
        k,
    ) by {
        lemma_matched_prefix_contains(s, filter, s.len() as int, k);
        crate::strmap::lemma_map_of_contains(s, k);
        if exists|j: int|
            0 <= j < s.len() && #[trigger] s[j].0@ == k && session_matches(s[j].1, filter) {
            let j = choose|j: int|
                0 <= j < s.len() && #[trigger] s[j].0@ == k && session_matches(s[j].1, filter);
            crate::strmap::lemma_map_of_index(s, j);
        }
        if m.contains_key(k) && session_matches(m[k], filter) {
            let j = choose|j: int| 0 <= j < s.len() && #[trigger] s[j].0@ == k;
            crate::strmap::lemma_map_of_index(s, j);
        }
    }
}

} // verus!
