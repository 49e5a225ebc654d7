//! The indexing coordinator: the pipeline's only cross-cutting state.
//!
//! The coordinator decides; the host performs. It remembers whether the
//! collection has been taken care of (so creation is decided at most once),
//! tracks which point identifiers each path currently owns (so a removal can
//! delete exactly them), and bounds how many per-file tasks run at once.
//! The laws at the end connect these decisions to the store model: applying
//! the decided actions keeps the tracking in step with the store, which is
//! what makes the deletion property hold.

use vstd::prelude::*;

use crate::point::derives_from;
use crate::point::lemma_point_id_unique;
use crate::point::point_id_spec;
use crate::store::apply_delete;
use crate::store::apply_upsert;
use crate::store::id_listed;
use crate::store::lemma_built_points_ids;
use crate::store::lemma_delete_dom;
use crate::store::lemma_upsert_dom;
use crate::store::path_clear;
use crate::store::upsert_lists_id;

verus! {

/// One path's tracked point identifiers.
pub struct PathEntry {
    pub path: String,
    pub ids: Vec<String>,
}

/// The character sequences of a list of identifier strings.
pub open spec fn ids_view(ids: Seq<String>) -> Seq<Seq<char>> {
    ids.map_values(|s: String| s@)
}

/// The path-to-identifiers map an entry list denotes; a later entry for the
/// same path would win, and the coordinator keeps paths unique.
pub open spec fn entries_map(s: Seq<PathEntry>) -> Map<Seq<char>, Seq<Seq<char>>>
    decreases s.len(),
{
    if s.len() == 0 {
        Map::empty()
    } else {
        entries_map(s.drop_last()).insert(s.last().path@, ids_view(s.last().ids@))
    }
}

/// No two entries name the same path.
pub open spec fn paths_unique(s: Seq<PathEntry>) -> bool {
    forall|i: int, j: int|
        0 <= i < j < s.len() ==> (#[trigger] s[i]).path@ != (#[trigger] s[j]).path@
}

/// A list of identifiers lists `x` exactly when some position holds it.
pub proof fn lemma_id_listed_iff(ids: Seq<Seq<char>>, x: Seq<char>)
    ensures
        id_listed(ids, x) <==> exists|j: int| 0 <= j < ids.len() && ids[j] == x,
    decreases ids.len(),
{
    if ids.len() > 0 {
        let rest = ids.subrange(1, ids.len() as int);
        lemma_id_listed_iff(rest, x);
        if id_listed(ids, x) {
            if ids[0] == x {
                assert(ids[0] == x && 0 < ids.len());
            } else {
                let j = choose|j: int| 0 <= j < rest.len() && rest[j] == x;
                assert(ids[j + 1] == x);
            }
        }
        if exists|j: int| 0 <= j < ids.len() && ids[j] == x {
            let j = choose|j: int| 0 <= j < ids.len() && ids[j] == x;
            if j > 0 {
                assert(rest[j - 1] == x);
            }
        }
    }
}

/// An entry list's map contains a path exactly when some entry names it.
proof fn lemma_entries_map_dom(s: Seq<PathEntry>, p: Seq<char>)
    ensures
        entries_map(s).contains_key(p) <==> exists|i: int|
            0 <= i < s.len() && (#[trigger] s[i]).path@ == p,
    decreases s.len(),
{
    if s.len() > 0 {
        let d = s.drop_last();
        lemma_entries_map_dom(d, p);
        if s.last().path@ == p {
            assert(s[s.len() - 1].path@ == p);
        } else {
            if entries_map(s).contains_key(p) {
                let i = choose|i: int| 0 <= i < d.len() && (#[trigger] d[i]).path@ == p;
                assert(s[i].path@ == p);
            }
            if exists|i: int| 0 <= i < s.len() && (#[trigger] s[i]).path@ == p {
                let i = choose|i: int| 0 <= i < s.len() && (#[trigger] s[i]).path@ == p;
                assert(i < s.len() - 1);
                assert(d[i].path@ == p);
            }
        }
    }
}

/// With unique paths, the map's value for an entry's path is that entry's
/// identifier list.
proof fn lemma_entries_map_lookup(s: Seq<PathEntry>, i: int)
    requires
        paths_unique(s),
        0 <= i < s.len(),
    ensures
        entries_map(s).contains_key(s[i].path@),
        entries_map(s)[s[i].path@] == ids_view(s[i].ids@),
    decreases s.len(),
{
    let d = s.drop_last();
    if i == s.len() - 1 {
    } else {
        assert(paths_unique(d)) by {
            assert(forall|a: int, b: int|
                0 <= a < b < d.len() ==> (#[trigger] d[a]).path@ != (#[trigger] d[b]).path@);
        }
        lemma_entries_map_lookup(d, i);
        assert(d[i] == s[i]);
        assert(s[i].path@ != s.last().path@);
    }
}

/// With unique paths, removing the entry at `i` removes exactly its path
/// from the map.
proof fn lemma_entries_map_remove(s: Seq<PathEntry>, i: int)
    requires
        paths_unique(s),
        0 <= i < s.len(),
    ensures
        entries_map(s.remove(i)) == entries_map(s).remove(s[i].path@),
    decreases s.len(),
{
    let r = s.remove(i);
    let d = s.drop_last();
    assert(paths_unique(d)) by {
        assert(forall|a: int, b: int|
            0 <= a < b < d.len() ==> (#[trigger] d[a]).path@ != (#[trigger] d[b]).path@);
    }
    if i == s.len() - 1 {
        assert(r =~= d);
        lemma_entries_map_dom(d, s[i].path@);
        assert(!entries_map(d).contains_key(s[i].path@)) by {
            if entries_map(d).contains_key(s[i].path@) {
                let j = choose|j: int| 0 <= j < d.len() && (#[trigger] d[j]).path@ == s[i].path@;
                assert(s[j].path@ == s[i].path@ && j < i);
            }
        }
        assert(entries_map(s).remove(s[i].path@) =~= entries_map(d));
    } else {
        lemma_entries_map_remove(d, i);
        assert(r.len() == s.len() - 1);
        assert(r.last() == s.last()) by {
            assert(r[s.len() - 2] == s[s.len() - 1]);
        }
        assert(r.drop_last() =~= d.remove(i)) by {
            assert(forall|k: int|
                0 <= k < d.remove(i).len() ==> r.drop_last()[k] == #[trigger] d.remove(i)[k]);
        }
        assert(entries_map(r) == entries_map(d.remove(i)).insert(
            s.last().path@,
            ids_view(s.last().ids@),
        ));
        assert(s[i].path@ != s.last().path@);
        assert(entries_map(d).remove(s[i].path@).insert(s.last().path@, ids_view(s.last().ids@))
            =~= entries_map(d).insert(s.last().path@, ids_view(s.last().ids@)).remove(s[i].path@));
    }
}

/// Appending an entry inserts its path into the map.
proof fn lemma_entries_map_push(s: Seq<PathEntry>, e: PathEntry)
    ensures
        entries_map(s.push(e)) == entries_map(s).insert(e.path@, ids_view(e.ids@)),
{
    assert(s.push(e).drop_last() =~= s);
    assert(s.push(e).last() == e);
}

/// How often a sequence of collection-existence answers leads to a create
/// decision, starting from a given readiness flag: the decision consumes the
/// flag, so after the first answer the flag is set whatever it was.
pub open spec fn creation_decisions(ready: bool, answers: Seq<bool>) -> nat
    decreases answers.len(),
{
    if answers.len() == 0 {
        0
    } else {
        let tail = creation_decisions(true, answers.subrange(1, answers.len() as int));
        if !ready && !answers[0] {
            tail + 1
        } else {
            tail
        }
    }
}

/// Collection-lifecycle law: however many events arrive before the
/// collection exists, the coordinator decides to create it at most once,
/// and never once it is marked ready.
pub proof fn lemma_create_at_most_once(ready: bool, answers: Seq<bool>)
    ensures
        creation_decisions(ready, answers) <= 1,
        ready ==> creation_decisions(ready, answers) == 0,
    decreases answers.len(),
{
    if answers.len() > 0 {
        lemma_create_at_most_once(true, answers.subrange(1, answers.len() as int));
    }
}

/// The tracking map covers the store: every identifier in the store that
/// derives from some path is listed under that path.
pub open spec fn tracking_covers(
    store: Map<Seq<char>, Seq<u32>>,
    tracking: Map<Seq<char>, Seq<Seq<char>>>,
) -> bool {
    forall|id: Seq<char>, p: Seq<char>|
        store.contains_key(id) && #[trigger] derives_from(id, p) ==> tracking.contains_key(p)
            && id_listed(tracking[p], id)
}

/// A fresh pipeline covers a fresh store: nothing is stored, nothing is
/// tracked. Together with the re-indexing and removal laws below this
/// carries the covering invariant through every pipeline step.
pub proof fn lemma_covering_initially()
    ensures
        tracking_covers(
            Map::<Seq<char>, Seq<u32>>::empty(),
            Map::<Seq<char>, Seq<Seq<char>>>::empty(),
        ),
{
}

/// Re-indexing law: upserting the points built for a path, retiring the
/// identifiers that are no longer built (the stale ones), and pointing the
/// tracking entry at the new identifiers keeps the tracking covering the
/// store. The injectivity of identifier derivation carries the burden: a
/// point built for this path can never be mistaken for another path's.
pub proof fn lemma_reindex_preserves_covering(
    store: Map<Seq<char>, Seq<u32>>,
    tracking: Map<Seq<char>, Seq<Seq<char>>>,
    path: Seq<char>,
    pts: Seq<(Seq<char>, Seq<u32>)>,
    new_ids: Seq<Seq<char>>,
    stale: Seq<Seq<char>>,
)
    requires
        tracking_covers(store, tracking),
        forall|i: int| 0 <= i < pts.len() ==> (#[trigger] pts[i]).0 == point_id_spec(
            path,
            i as nat,
        ),
        new_ids.len() == pts.len(),
        forall|j: int| 0 <= j < new_ids.len() ==> #[trigger] new_ids[j] == pts[j].0,
        forall|id: Seq<char>| #[trigger] id_listed(stale, id) <==> (tracking.contains_key(path)
            && id_listed(tracking[path], id) && !id_listed(new_ids, id)),
    ensures
        tracking_covers(
            apply_delete(apply_upsert(store, pts), stale),
            tracking.insert(path, new_ids),
        ),
{
    let upserted = apply_upsert(store, pts);
    let new_store = apply_delete(upserted, stale);
    let new_tracking = tracking.insert(path, new_ids);
    assert forall|id: Seq<char>, p: Seq<char>|
        new_store.contains_key(id) && #[trigger] derives_from(id, p) implies new_tracking.contains_key(
        p,
    ) && id_listed(new_tracking[p], id) by {
        lemma_delete_dom(upserted, stale, id);
        lemma_upsert_dom(store, pts, id);
        if upsert_lists_id(pts, id) {
            lemma_built_points_ids(pts, path, id);
            let n = choose|n: nat| n < pts.len() && id == point_id_spec(path, n);
            let m = choose|m: nat| id == point_id_spec(p, m);
            lemma_point_id_unique(path, n, p, m);
            assert(new_ids[n as int] == id);
            lemma_id_listed_iff(new_ids, id);
        } else {
            assert(store.contains_key(id));
            if p == path {
                assert(id_listed(tracking[path], id));
                assert(!id_listed(stale, id));
                assert(id_listed(new_ids, id));
            }
        }
    }
}

/// Removal law: deleting exactly the identifiers tracked for a path clears
/// that path from the store and keeps the shrunk tracking covering it.
pub proof fn lemma_removal_preserves_covering(
    store: Map<Seq<char>, Seq<u32>>,
    tracking: Map<Seq<char>, Seq<Seq<char>>>,
    path: Seq<char>,
    removed: Seq<Seq<char>>,
)
    requires
        tracking_covers(store, tracking),
        forall|id: Seq<char>| #[trigger] id_listed(removed, id) <==> (tracking.contains_key(path)
            && id_listed(tracking[path], id)),
    ensures
        path_clear(apply_delete(store, removed), path),
        tracking_covers(apply_delete(store, removed), tracking.remove(path)),
{
    let new_store = apply_delete(store, removed);
    let new_tracking = tracking.remove(path);
    assert forall|id: Seq<char>| new_store.contains_key(id) implies !derives_from(id, path) by {
        lemma_delete_dom(store, removed, id);
        if derives_from(id, path) {
            assert(id_listed(tracking[path], id));
            assert(id_listed(removed, id));
        }
    }
    assert forall|id: Seq<char>, p: Seq<char>|
        new_store.contains_key(id) && #[trigger] derives_from(id, p) implies new_tracking.contains_key(
        p,
    ) && id_listed(new_tracking[p], id) by {
        lemma_delete_dom(store, removed, id);
        if p == path {
            assert(id_listed(removed, id));
        }
    }
}

/// The coordinator's cross-cutting state: collection readiness, per-path
/// identifier tracking, and the worker-pool counter.
pub struct Coordinator {
    collection_ready: bool,
    entries: Vec<PathEntry>,
    dimension: usize,
    max_in_flight: usize,
    in_flight: usize,
}

impl Coordinator {
    /// Whether the collection has already been taken care of.
    pub closed spec fn spec_collection_ready(&self) -> bool {
        self.collection_ready
    }

    /// The configured vector dimension of the collection.
    pub closed spec fn spec_dimension(&self) -> usize {
        self.dimension
    }

    /// The bound on concurrently running per-file tasks.
    pub closed spec fn spec_max_in_flight(&self) -> usize {
        self.max_in_flight
    }

    /// How many per-file tasks are currently running.
    pub closed spec fn spec_in_flight(&self) -> usize {
        self.in_flight
    }

    /// The path-to-identifiers tracking map.
    pub closed spec fn tracking(&self) -> Map<Seq<char>, Seq<Seq<char>>> {
        entries_map(self.entries@)
    }

    /// The tracked entries keep paths unique.
    pub closed spec fn entries_ok(&self) -> bool {
        paths_unique(self.entries@)
    }

    /// Well-formedness: unique tracking entries, the task counter within its
    /// bound, and non-trivial configuration.
    pub open spec fn wf(&self) -> bool {
        &&& self.entries_ok()
        &&& self.spec_in_flight() <= self.spec_max_in_flight()
        &&& self.spec_max_in_flight() >= 1
        &&& self.spec_dimension() >= 1
    }

    /// A fresh coordinator: nothing tracked, collection not yet checked,
    /// no task running.
    pub fn new(dimension: usize, max_in_flight: usize) -> (c: Coordinator)
        requires
            dimension >= 1,
            max_in_flight >= 1,
        ensures
            c.wf(),
            !c.spec_collection_ready(),
            c.tracking() == Map::<Seq<char>, Seq<Seq<char>>>::empty(),
            c.spec_dimension() == dimension,
            c.spec_max_in_flight() == max_in_flight,
            c.spec_in_flight() == 0,
    {
        Coordinator {
            collection_ready: false,
            entries: Vec::new(),
            dimension,
            max_in_flight,
            in_flight: 0,
        }
    }

    #[verifier::when_used_as_spec(spec_collection_ready)]
    pub fn collection_ready(&self) -> (r: bool)
        ensures
            r == self.spec_collection_ready(),
    {
        self.collection_ready
    }

    #[verifier::when_used_as_spec(spec_dimension)]
    pub fn dimension(&self) -> (d: usize)
        ensures
            d == self.spec_dimension(),
    {
        self.dimension
    }

    #[verifier::when_used_as_spec(spec_in_flight)]
    pub fn in_flight(&self) -> (n: usize)
        ensures
            n == self.spec_in_flight(),
    {
        self.in_flight
    }

    #[verifier::when_used_as_spec(spec_max_in_flight)]
    pub fn max_in_flight(&self) -> (n: usize)
        ensures
            n == self.spec_max_in_flight(),
    {
        self.max_in_flight
    }

    /// Decides the collection lifecycle step, given the store's answer to
    /// the existence check: the first decision marks the collection taken
    /// care of, and asks for creation exactly when it did not yet exist;
    /// every later decision asks for nothing.
    pub fn collection_decision(&mut self, exists: bool) -> (create: bool)
        requires
            old(self).wf(),
        ensures
            final(self).wf(),
            create == (!old(self).spec_collection_ready() && !exists),
            final(self).spec_collection_ready(),
            final(self).tracking() == old(self).tracking(),
            final(self).spec_dimension() == old(self).spec_dimension(),
            final(self).spec_max_in_flight() == old(self).spec_max_in_flight(),
            final(self).spec_in_flight() == old(self).spec_in_flight(),
    {
        let create = !self.collection_ready && !exists;
        self.collection_ready = true;
        create
    }

    /// Claims a worker slot for one per-file task if the bound allows it.
    pub fn try_begin_task(&mut self) -> (started: bool)
        requires
            old(self).wf(),
        ensures
            final(self).wf(),
            started == (old(self).spec_in_flight() < old(self).spec_max_in_flight()),
            started ==> final(self).spec_in_flight() == old(self).spec_in_flight() + 1,
            !started ==> final(self).spec_in_flight() == old(self).spec_in_flight(),
            final(self).tracking() == old(self).tracking(),
            final(self).spec_collection_ready() == old(self).spec_collection_ready(),
            final(self).spec_dimension() == old(self).spec_dimension(),
            final(self).spec_max_in_flight() == old(self).spec_max_in_flight(),
    {
        if self.in_flight < self.max_in_flight {
            self.in_flight = self.in_flight + 1;
            true
        } else {
            false
        }
    }

    /// Returns a worker slot when a per-file task finishes.
    pub fn finish_task(&mut self)
        requires
            old(self).wf(),
        ensures
            final(self).wf(),
            old(self).spec_in_flight() > 0 ==> final(self).spec_in_flight() == old(
                self,
            ).spec_in_flight() - 1,
            old(self).spec_in_flight() == 0 ==> final(self).spec_in_flight() == 0,
            final(self).tracking() == old(self).tracking(),
            final(self).spec_collection_ready() == old(self).spec_collection_ready(),
            final(self).spec_dimension() == old(self).spec_dimension(),
            final(self).spec_max_in_flight() == old(self).spec_max_in_flight(),
    {
        if self.in_flight > 0 {
            self.in_flight = self.in_flight - 1;
        }
    }

    /// The position of the entry for `path`, if one is tracked.
    fn find_entry(&self, path: &String) -> (r: Option<usize>)
        ensures
            match r {
                Some(i) => i < self.entries@.len() && self.entries@[i as int].path@ == path@,
                None => forall|j: int|
                    0 <= j < self.entries@.len() ==> (#[trigger] self.entries@[j]).path@ != path@,
            },
    {
        let n = self.entries.len();
        let mut i: usize = 0;
        while i < n
            invariant
                n == self.entries@.len(),
                i <= n,
                forall|j: int| 0 <= j < i ==> (#[trigger] self.entries@[j]).path@ != path@,
            decreases n - i,
        {
            if self.entries[i].path == *path {
                return Some(i);
            }
            i = i + 1;
        }
        None
    }

    /// The identifiers currently tracked for `path`, if any.
    pub fn tracked_ids(&self, path: &String) -> (r: Option<Vec<String>>)
        requires
            self.wf(),
        ensures
            match r {
                Some(ids) => self.tracking().contains_key(path@) && ids_view(ids@)
                    == self.tracking()[path@],
                None => !self.tracking().contains_key(path@),
            },
    {
        match self.find_entry(path) {
            Some(i) => {
                let ids = clone_ids(&self.entries[i].ids);
                proof {
                    lemma_entries_map_lookup(self.entries@, i as int);
                    assert(ids_view(ids@) =~= ids_view(self.entries@[i as int].ids@));
                }
                Some(ids)
            },
            None => {
                proof {
                    lemma_entries_map_dom(self.entries@, path@);
                }
                None
            },
        }
    }

    /// Records a successful upsert: the tracking entry for `path` now holds
    /// exactly `ids`, and the identifiers that were tracked before but are
    /// no longer among them come back as the stale ones the host must
    /// delete to retire chunks the file no longer has.
    pub fn record_upsert(&mut self, path: &String, ids: Vec<String>) -> (stale: Vec<String>)
        requires
            old(self).wf(),
        ensures
            final(self).wf(),
            final(self).tracking() == old(self).tracking().insert(path@, ids_view(ids@)),
            forall|x: Seq<char>| #[trigger] id_listed(ids_view(stale@), x) <==> (old(
                self,
            ).tracking().contains_key(path@) && id_listed(old(self).tracking()[path@], x)
                && !id_listed(ids_view(ids@), x)),
            final(self).spec_collection_ready() == old(self).spec_collection_ready(),
            final(self).spec_dimension() == old(self).spec_dimension(),
            final(self).spec_max_in_flight() == old(self).spec_max_in_flight(),
            final(self).spec_in_flight() == old(self).spec_in_flight(),
    {
        let ghost old_entries = self.entries@;
        match self.find_entry(path) {
            Some(i) => {
                let old_entry = self.entries.remove(i);
                let stale = filter_stale(&old_entry.ids, &ids);
                let new_entry = PathEntry { path: path.clone(), ids };
                self.entries.push(new_entry);
                proof {
                    lemma_entries_map_remove(old_entries, i as int);
                    lemma_entries_map_push(old_entries.remove(i as int), new_entry);
                    assert(entries_map(old_entries).remove(path@).insert(
                        path@,
                        ids_view(new_entry.ids@),
                    ) =~= entries_map(old_entries).insert(path@, ids_view(new_entry.ids@)));
                    lemma_entries_map_lookup(old_entries, i as int);
                    assert(paths_unique(self.entries@)) by {
                        assert forall|a: int, b: int|
                            0 <= a < b < self.entries@.len() implies (
                        #[trigger] self.entries@[a]).path@ != (#[trigger] self.entries@[b]).path@ by {
                            let r = old_entries.remove(i as int);
                            if b < r.len() {
                                assert(self.entries@[a] == r[a] && self.entries@[b] == r[b]);
                                if a < i {
                                    assert(r[a] == old_entries[a]);
                                } else {
                                    assert(r[a] == old_entries[a + 1]);
                                }
                                if b < i {
                                    assert(r[b] == old_entries[b]);
                                } else {
                                    assert(r[b] == old_entries[b + 1]);
                                }
                            } else {
                                assert(self.entries@[b].path@ == path@);
                                assert(self.entries@[a] == r[a]);
                                if a < i {
                                    assert(r[a] == old_entries[a]);
                                } else {
                                    assert(r[a] == old_entries[a + 1]);
                                }
                            }
                        }
                    }
                }
                stale
            },
            None => {
                let new_entry = PathEntry { path: path.clone(), ids };
                self.entries.push(new_entry);
                let stale: Vec<String> = Vec::new();
                proof {
                    lemma_entries_map_push(old_entries, new_entry);
                    lemma_entries_map_dom(old_entries, path@);
                    assert(paths_unique(self.entries@)) by {
                        assert forall|a: int, b: int|
                            0 <= a < b < self.entries@.len() implies (
                        #[trigger] self.entries@[a]).path@ != (#[trigger] self.entries@[b]).path@ by {
                            if b < old_entries.len() {
                                assert(self.entries@[a] == old_entries[a]);
                                assert(self.entries@[b] == old_entries[b]);
                            } else {
                                assert(self.entries@[a] == old_entries[a]);
                                assert(self.entries@[b].path@ == path@);
                            }
                        }
                    }
                    assert(ids_view(stale@) =~= Seq::<Seq<char>>::empty());
                }
                stale
            },
        }
    }

    /// Handles a `Removed` event for `path`: the tracking entry disappears
    /// and exactly the identifiers it held come back for the host to delete.
    pub fn handle_removed(&mut self, path: &String) -> (ids: Vec<String>)
        requires
            old(self).wf(),
        ensures
            final(self).wf(),
            final(self).tracking() == old(self).tracking().remove(path@),
            forall|x: Seq<char>| #[trigger] id_listed(ids_view(ids@), x) <==> (old(
                self,
            ).tracking().contains_key(path@) && id_listed(old(self).tracking()[path@], x)),
            final(self).spec_collection_ready() == old(self).spec_collection_ready(),
            final(self).spec_dimension() == old(self).spec_dimension(),
            final(self).spec_max_in_flight() == old(self).spec_max_in_flight(),
            final(self).spec_in_flight() == old(self).spec_in_flight(),
    {
        let ghost old_entries = self.entries@;
        match self.find_entry(path) {
            Some(i) => {
                let old_entry = self.entries.remove(i);
                proof {
                    lemma_entries_map_remove(old_entries, i as int);
                    lemma_entries_map_lookup(old_entries, i as int);
                    assert(paths_unique(self.entries@)) by {
                        assert forall|a: int, b: int|
                            0 <= a < b < self.entries@.len() implies (
                        #[trigger] self.entries@[a]).path@ != (#[trigger] self.entries@[b]).path@ by {
                            let r = old_entries.remove(i as int);
                            if a < i {
                                assert(r[a] == old_entries[a]);
                            } else {
                                assert(r[a] == old_entries[a + 1]);
                            }
                            if b < i {
                                assert(r[b] == old_entries[b]);
                            } else {
                                assert(r[b] == old_entries[b + 1]);
                            }
                        }
                    }
                }
                old_entry.ids
            },
            None => {
                let ids: Vec<String> = Vec::new();
                proof {
                    lemma_entries_map_dom(old_entries, path@);
                    assert(entries_map(old_entries).remove(path@) =~= entries_map(old_entries));
                    assert(ids_view(ids@) =~= Seq::<Seq<char>>::empty());
                }
                ids
            },
        }
    }
}

/// A copy of a list of identifier strings.
fn clone_ids(ids: &Vec<String>) -> (r: Vec<String>)
    ensures
        r@.len() == ids@.len(),
        forall|j: int| 0 <= j < r@.len() ==> (#[trigger] r@[j])@ == ids@[j]@,
{
    let n = ids.len();
    let mut r: Vec<String> = Vec::new();
    let mut i: usize = 0;
    while i < n
        invariant
            n == ids@.len(),
            i <= n,
            r@.len() == i,
            forall|j: int| 0 <= j < i ==> (#[trigger] r@[j])@ == ids@[j]@,
        decreases n - i,
    {
        r.push(ids[i].clone());
        i = i + 1;
    }
    r
}

/// Whether `x` occurs in `ids`.
fn contains_id(ids: &Vec<String>, x: &String) -> (r: bool)
    ensures
        r == id_listed(ids_view(ids@), x@),
{
    let n = ids.len();
    let mut i: usize = 0;
    while i < n
        invariant
            n == ids@.len(),
            i <= n,
            forall|j: int| 0 <= j < i ==> (#[trigger] ids@[j])@ != x@,
        decreases n - i,
    {
        if ids[i] == *x {
            proof {
                lemma_id_listed_iff(ids_view(ids@), x@);
                assert(ids_view(ids@)[i as int] == x@);
            }
            return true;
        }
        i = i + 1;
    }
    proof {
        lemma_id_listed_iff(ids_view(ids@), x@);
        assert forall|j: int| 0 <= j < ids_view(ids@).len() implies #[trigger] ids_view(ids@)[j]
            != x@ by {
            assert(ids_view(ids@)[j] == ids@[j]@);
        }
    }
    false
}

/// Listing in an extended identifier list: the new element or one of the
/// old ones.
proof fn lemma_id_listed_push(ids: Seq<Seq<char>>, y: Seq<char>, x: Seq<char>)
    ensures
        id_listed(ids.push(y), x) == (id_listed(ids, x) || y == x),
{
    lemma_id_listed_iff(ids, x);
    lemma_id_listed_iff(ids.push(y), x);
    if id_listed(ids, x) {
        let j = choose|j: int| 0 <= j < ids.len() && ids[j] == x;
        assert(ids.push(y)[j] == x);
    }
    if y == x {
        assert(ids.push(y)[ids.len() as int] == x);
    }
    if id_listed(ids.push(y), x) {
        let j = choose|j: int| 0 <= j < ids.push(y).len() && ids.push(y)[j] == x;
        if j < ids.len() {
            assert(ids[j] == x);
        }
    }
}

/// The identifiers of `old_ids` that `new_ids` no longer lists, in order.
fn filter_stale(old_ids: &Vec<String>, new_ids: &Vec<String>) -> (stale: Vec<String>)
    ensures
        forall|x: Seq<char>| #[trigger] id_listed(ids_view(stale@), x) <==> (id_listed(
            ids_view(old_ids@),
            x,
        ) && !id_listed(ids_view(new_ids@), x)),
{
    let n = old_ids.len();
    let mut stale: Vec<String> = Vec::new();
    let mut i: usize = 0;
    while i < n
        invariant
            n == old_ids@.len(),
            i <= n,
            forall|x: Seq<char>| #[trigger] id_listed(ids_view(stale@), x) <==> ((exists|j: int|
                0 <= j < i && (#[trigger] old_ids@[j])@ == x) && !id_listed(
                ids_view(new_ids@),
                x,
            )),
        decreases n - i,
    {
        let ghost prev = stale@;
        let is_stale = !contains_id(new_ids, &old_ids[i]);
        if is_stale {
            stale.push(old_ids[i].clone());
        }
        proof {
            let y = old_ids@[i as int]@;
            if is_stale {
                assert(ids_view(stale@) =~= ids_view(prev).push(y));
            } else {
                assert(stale@ == prev);
            }
            assert forall|x: Seq<char>| #[trigger] id_listed(ids_view(stale@), x) <==> ((exists|
                j: int,
            |
                0 <= j < i + 1 && (#[trigger] old_ids@[j])@ == x) && !id_listed(
                ids_view(new_ids@),
                x,
            )) by {
                if is_stale {
                    lemma_id_listed_push(ids_view(prev), y, x);
                }
                if id_listed(ids_view(stale@), x) {
                    if id_listed(ids_view(prev), x) {
                        let j = choose|j: int|
                            0 <= j < i && (#[trigger] old_ids@[j])@ == x;
                        assert(0 <= j < i + 1 && (old_ids@[j])@ == x);
                    } else {
                        assert(is_stale && y == x);
                        assert(0 <= i < i + 1 && (old_ids@[i as int])@ == x);
                    }
                }
                if (exists|j: int| 0 <= j < i + 1 && (#[trigger] old_ids@[j])@ == x)
                    && !id_listed(ids_view(new_ids@), x) {
                    let j = choose|j: int| 0 <= j < i + 1 && (#[trigger] old_ids@[j])@ == x;
                    if j < i {
                        assert(id_listed(ids_view(prev), x));
                        if is_stale {
                            assert(id_listed(ids_view(stale@), x));
                        }
                    } else {
                        assert(x == y);
                        assert(is_stale);
                        assert(id_listed(ids_view(stale@), x));
                    }
                }
            }
        }
        i = i + 1;
    }
    proof {
        assert forall|x: Seq<char>| #[trigger] id_listed(ids_view(stale@), x) <==> (id_listed(
            ids_view(old_ids@),
            x,
        ) && !id_listed(ids_view(new_ids@), x)) by {
            lemma_id_listed_iff(ids_view(old_ids@), x);
            if id_listed(ids_view(stale@), x) {
                let j = choose|j: int| 0 <= j < n && (#[trigger] old_ids@[j])@ == x;
                assert(ids_view(old_ids@)[j] == x);
            }
            if id_listed(ids_view(old_ids@), x) {
                let j = choose|j: int|
                    0 <= j < ids_view(old_ids@).len() && ids_view(old_ids@)[j] == x;
                assert((old_ids@[j])@ == x);
            }
        }
    }
    stale
}

} // verus!
