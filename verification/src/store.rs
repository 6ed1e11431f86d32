//! The invalidation state store — per project, the latest invalidation
//! timestamp known for each route — and the global catalog of routes ever
//! seen, which seeds the snapshot sent to a newly connecting session.
use crate::strmap::{map_of, unique_keys, StrMap};
use vstd::prelude::*;

verus! {

/// projectId -> (route -> latest invalidation timestamp, epoch millis).
/// Per-project entries are created lazily on a project's first invalidation.
pub struct InvalidationStore {
    per_project: StrMap<StrMap<i64>>,
}

impl InvalidationStore {
    /// The store as a map from project to its route-timestamp map.
    pub closed spec fn view(&self) -> Map<Seq<char>, Map<Seq<char>, i64>> {
        Map::new(
            |p: Seq<char>| self.per_project@.contains_key(p),
            |p: Seq<char>| self.per_project@[p]@,
        )
    }

    /// A project's recorded state; empty for a project never invalidated.
    pub open spec fn project_map(&self, p: Seq<char>) -> Map<Seq<char>, i64> {
        if self.view().contains_key(p) {
            self.view()[p]
        } else {
            Map::empty()
        }
    }

    pub closed spec fn wf(&self) -> bool {
        &&& self.per_project.wf()
        &&& forall|p: Seq<char>|
            self.per_project@.contains_key(p) ==> (#[trigger] self.per_project@[p]).wf()
    }

    pub fn new() -> (r: InvalidationStore)
        ensures
            r.wf(),
            r.view() =~~= Map::<Seq<char>, Map<Seq<char>, i64>>::empty(),
    {
        let r = InvalidationStore { per_project: StrMap::new() };
        proof {
            assert(r.view() =~~= Map::<Seq<char>, Map<Seq<char>, i64>>::empty());
        }
        r
    }

    /// Upsert the timestamp for (project, route), creating the per-project
    /// map if absent. A pure overwrite: the caller owns timestamp ordering.
    pub fn record(&mut self, project_id: &String, route: String, timestamp: i64)
        requires
            old(self).wf(),
        ensures
            final(self).wf(),
            final(self)@ == old(self)@.insert(
                project_id@,
                old(self).project_map(project_id@).insert(route@, timestamp),
            ),
    {
        let mut inner = match self.per_project.take(project_id) {
            Some(m) => m,
            None => StrMap::new(),
        };
        inner.insert(route, timestamp);
        self.per_project.insert(project_id.clone(), inner);
        proof {
            assert(self@ =~~= old(self)@.insert(
                project_id@,
                old(self).project_map(project_id@).insert(route@, timestamp),
            ));
        }
    }

    /// A copy of a project's route-timestamp pairs, in entry order; empty
    /// for a project with no recorded invalidations.
    pub fn project_pairs(&self, project_id: &String) -> (r: Vec<(String, i64)>)
        requires
            self.wf(),
        ensures
            unique_keys(r@),
            map_of(r@) == self.project_map(project_id@),
    {
        match self.per_project.get(project_id) {
            Some(inner) => inner.to_pairs(),
            None => {
                let r: Vec<(String, i64)> = Vec::new();
                proof {
                    assert(map_of(r@) =~= self.project_map(project_id@));
                }
                r
            },
        }
    }

    /// Overwrite every route timestamp of every project with the sentinel,
    /// so that any client reconnecting afterwards sees all its cached data
    /// as stale. Route and project sets are unchanged.
    pub fn set_all_sentinel(&mut self, sentinel: i64)
        requires
            old(self).wf(),
        ensures
            final(self).wf(),
            forall|p: Seq<char>|
                final(self)@.contains_key(p) <==> old(self)@.contains_key(p),
            forall|p: Seq<char>, r: Seq<char>|
                old(self)@.contains_key(p) ==> (#[trigger] final(self)@[p].contains_key(r)
                    <==> old(self)@[p].contains_key(r)),
            forall|p: Seq<char>, r: Seq<char>|
                old(self)@.contains_key(p) && old(self)@[p].contains_key(r)
                    ==> #[trigger] final(self)@[p][r] == sentinel,
    {
        let pkeys = self.per_project.keys_cloned();
        let ghost orig = *self;
        let mut i: usize = 0;
        while i < pkeys.len()
            invariant
                i <= pkeys@.len(),
                self.wf(),
                orig.wf(),
                pkeys@.len() == orig.per_project.entries_seq().len(),
                forall|j: int, l: int|
                    0 <= j < l < pkeys@.len() ==> #[trigger] pkeys@[j]@ != #[trigger] pkeys@[l]@,
                forall|j: int| 0 <= j < pkeys@.len() ==> orig@.contains_key(#[trigger] pkeys@[j]@),
                forall|k: Seq<char>|
                    orig@.contains_key(k) ==> exists|j: int|
                        0 <= j < pkeys@.len() && #[trigger] pkeys@[j]@ == k,
                forall|k: Seq<char>| self@.contains_key(k) <==> orig@.contains_key(k),
                forall|j: int|
                    0 <= j < i ==> {
                        let m0 = orig@[pkeys@[j]@];
                        let m1 = #[trigger] self@[pkeys@[j]@];
                        (forall|r: Seq<char>| m1.contains_key(r) <==> m0.contains_key(r))
                            && (forall|r: Seq<char>|
                            m0.contains_key(r) ==> #[trigger] m1[r] == sentinel)
                    },
                forall|k: Seq<char>|
                    self@.contains_key(k) && (forall|j: int|
                        0 <= j < i ==> #[trigger] pkeys@[j]@ != k) ==> #[trigger] self@[k]
                        == orig@[k],
            decreases pkeys@.len() - i,
        {
            let pk = &pkeys[i];
            proof {
                assert forall|j: int| 0 <= j < i implies #[trigger] pkeys@[j]@ != pk@ by {}
                assert(self@[pk@] == orig@[pk@]);
            }
            let ghost pre = *self;
            let mut inner = match self.per_project.take(pk) {
                Some(m) => m,
                None => StrMap::new(),
            };
            let ghost inner0 = inner;
            set_routes_to(&mut inner, sentinel);
            self.per_project.insert(pk.clone(), inner);
            proof {
                assert(inner0@ == orig@[pk@]);
                assert(self@ =~~= pre@.insert(pk@, inner@));
                assert forall|j: int| 0 <= j < i + 1 implies {
                    let m0 = orig@[pkeys@[j]@];
                    let m1 = #[trigger] self@[pkeys@[j]@];
                    (forall|r: Seq<char>| m1.contains_key(r) <==> m0.contains_key(r)) && (forall|
                        r: Seq<char>,
                    |
                        m0.contains_key(r) ==> #[trigger] m1[r] == sentinel)
                } by {
                    if j < i {
                        assert(pkeys@[j]@ != pk@);
                        assert(self@[pkeys@[j]@] == pre@[pkeys@[j]@]);
                        assert(pre@[pkeys@[j]@] == self@[pkeys@[j]@]);
                    } else {
                        assert(self@[pk@] == inner@);
                    }
                }
                assert forall|k: Seq<char>|
                    self@.contains_key(k) && (forall|j: int|
                        0 <= j < i + 1 ==> #[trigger] pkeys@[j]@ != k) implies #[trigger] self@[k]
                    == orig@[k] by {
                    assert(k != pk@);
                    assert(self@[k] == pre@[k]);
                }
            }
            i = i + 1;
        }
        proof {
            assert forall|p: Seq<char>, r: Seq<char>|
                old(self)@.contains_key(p) implies (#[trigger] self@[p].contains_key(r) <==> old(
                self,
            )@[p].contains_key(r)) by {
                let j = choose|j: int| 0 <= j < pkeys@.len() && #[trigger] pkeys@[j]@ == p;
            }
            assert forall|p: Seq<char>, r: Seq<char>|
                old(self)@.contains_key(p) && old(self)@[p].contains_key(r)
                implies #[trigger] self@[p][r] == sentinel by {
                let j = choose|j: int| 0 <= j < pkeys@.len() && #[trigger] pkeys@[j]@ == p;
            }
        }
    }
}

/// Overwrite every value of a route-timestamp map with `v`, keeping its
/// key set.
fn set_routes_to(m: &mut StrMap<i64>, v: i64)
    requires
        old(m).wf(),
    ensures
        final(m).wf(),
        forall|k: Seq<char>| final(m)@.contains_key(k) <==> old(m)@.contains_key(k),
        forall|k: Seq<char>| old(m)@.contains_key(k) ==> #[trigger] final(m)@[k] == v,
{
    let keys = m.keys_cloned();
    let mut j: usize = 0;
    while j < keys.len()
        invariant
            j <= keys@.len(),
            m.wf(),
            forall|l: int| 0 <= l < keys@.len() ==> old(m)@.contains_key(#[trigger] keys@[l]@),
            forall|k: Seq<char>|
                old(m)@.contains_key(k) ==> exists|l: int|
                    0 <= l < keys@.len() && #[trigger] keys@[l]@ == k,
            forall|k: Seq<char>| m@.contains_key(k) <==> old(m)@.contains_key(k),
            forall|l: int| 0 <= l < j ==> #[trigger] m@[keys@[l]@] == v,
        decreases keys@.len() - j,
    {
        m.insert(keys[j].clone(), v);
        j = j + 1;
    }
    proof {
        assert forall|k: Seq<char>| old(m)@.contains_key(k) implies #[trigger] m@[k] == v by {
            let l = choose|l: int| 0 <= l < keys@.len() && #[trigger] keys@[l]@ == k;
        }
    }
}

/// The store after recording every target of one request for one project
/// at one timestamp, in submission order.
pub open spec fn store_after_targets(
    m0: Map<Seq<char>, Map<Seq<char>, i64>>,
    p: Seq<char>,
    targets: Seq<Seq<char>>,
    ts: i64,
) -> Map<Seq<char>, Map<Seq<char>, i64>>
    decreases targets.len(),
{
    if targets.len() == 0 {
        m0
    } else {
        let prev = store_after_targets(m0, p, targets.drop_last(), ts);
        prev.insert(
            p,
            (if prev.contains_key(p) {
                prev[p]
            } else {
                Map::<Seq<char>, i64>::empty()
            }).insert(targets.last(), ts),
        )
    }
}

/// The global set of route paths ever seen, persisted by the caller for a
/// warm restart; append-only except for a full reload at startup.
pub struct RouteCatalog {
    routes: StrMap<i64>,
}

impl RouteCatalog {
    /// The set of known routes.
    pub closed spec fn view(&self) -> Set<Seq<char>> {
        self.routes@.dom()
    }

    pub closed spec fn wf(&self) -> bool {
        self.routes.wf()
    }

    pub fn new() -> (r: RouteCatalog)
        ensures
            r.wf(),
            r@ =~= Set::<Seq<char>>::empty(),
    {
        RouteCatalog { routes: StrMap::new() }
    }

    /// Add a route if it is not yet known; the result says whether it was
    /// new, so the caller can schedule a best-effort persistence write.
    pub fn register_if_new(&mut self, route: &String) -> (is_new: bool)
        requires
            old(self).wf(),
        ensures
            final(self).wf(),
            is_new == !old(self)@.contains(route@),
            final(self)@ == old(self)@.insert(route@),
    {
        if self.routes.contains_key(route) {
            proof {
                assert(self@ =~= old(self)@.insert(route@));
            }
            false
        } else {
            self.routes.insert(route.clone(), 0);
            proof {
                assert(self@ =~= old(self)@.insert(route@));
            }
            true
        }
    }

    /// Every known route, in insertion order, as persisted to storage.
    pub fn routes_list(&self) -> (r: Vec<String>)
        requires
            self.wf(),
        ensures
            forall|i: int| 0 <= i < r@.len() ==> self@.contains(#[trigger] r@[i]@),
            forall|k: Seq<char>|
                self@.contains(k) ==> exists|i: int| 0 <= i < r@.len() && #[trigger] r@[i]@ == k,
            forall|i: int, j: int| 0 <= i < j < r@.len() ==> #[trigger] r@[i]@ != #[trigger] r@[j]@,
    {
        self.routes.keys_cloned()
    }

    /// Reload the catalog from a persisted route list, keeping whatever is
    /// already present.
    pub fn load(&mut self, routes: &Vec<String>)
        requires
            old(self).wf(),
        ensures
            final(self).wf(),
            forall|k: Seq<char>|
                final(self)@.contains(k) <==> old(self)@.contains(k) || exists|i: int|
                    0 <= i < routes@.len() && #[trigger] routes@[i]@ == k,
    {
        let mut i: usize = 0;
        while i < routes.len()
            invariant
                i <= routes@.len(),
                self.wf(),
                forall|k: Seq<char>|
                    self@.contains(k) <==> old(self)@.contains(k) || exists|j: int|
                        0 <= j < i && #[trigger] routes@[j]@ == k,
            decreases routes@.len() - i,
        {
            self.routes.insert(routes[i].clone(), 0);
            proof {
                assert forall|k: Seq<char>|
                    self@.contains(k) implies old(self)@.contains(k) || exists|j: int|
                    0 <= j < i + 1 && #[trigger] routes@[j]@ == k by {
                    if k == routes@[i as int]@ {
                        assert(routes@[i as int]@ == k);
                    }
                }
            }
            i = i + 1;
        }
    }
}

} // verus!
