//! A mathematical model of the vector-store collection.
//!
//! The store itself lives behind a network service; the pipeline's claims
//! about it are stated against this model: a map from point identifier to
//! stored vector, with upsert and delete as the only write operations. The
//! laws proved here — upserting the same points twice changes nothing more,
//! and deleting every tracked identifier of a path clears that path — are
//! what the coordinator's bookkeeping is for.

use vstd::prelude::*;

use crate::point::derives_from;
use crate::point::point_id_spec;
use crate::point::IndexPoint;

verus! {

/// What one batched upsert writes: identifier and vector of each point,
/// in order.
pub open spec fn points_model(pts: Seq<IndexPoint>) -> Seq<(Seq<char>, Seq<u32>)> {
    pts.map_values(|p: IndexPoint| (p.id@, p.vector@))
}

/// The store after upserting `pts` in order: each point inserted by
/// identifier, overwriting whatever was there.
pub open spec fn apply_upsert(
    store: Map<Seq<char>, Seq<u32>>,
    pts: Seq<(Seq<char>, Seq<u32>)>,
) -> Map<Seq<char>, Seq<u32>>
    decreases pts.len(),
{
    if pts.len() == 0 {
        store
    } else {
        apply_upsert(store.insert(pts[0].0, pts[0].1), pts.subrange(1, pts.len() as int))
    }
}

/// The store after deleting the listed identifiers; deleting an absent
/// identifier does nothing.
pub open spec fn apply_delete(
    store: Map<Seq<char>, Seq<u32>>,
    ids: Seq<Seq<char>>,
) -> Map<Seq<char>, Seq<u32>>
    decreases ids.len(),
{
    if ids.len() == 0 {
        store
    } else {
        apply_delete(store.remove(ids[0]), ids.subrange(1, ids.len() as int))
    }
}

/// Whether some point of `pts` carries the identifier `id`.
pub open spec fn upsert_lists_id(pts: Seq<(Seq<char>, Seq<u32>)>, id: Seq<char>) -> bool
    decreases pts.len(),
{
    pts.len() > 0 && (pts[0].0 == id || upsert_lists_id(pts.subrange(1, pts.len() as int), id))
}

/// Whether `ids` lists the identifier `id`.
pub open spec fn id_listed(ids: Seq<Seq<char>>, id: Seq<char>) -> bool
    decreases ids.len(),
{
    ids.len() > 0 && (ids[0] == id || id_listed(ids.subrange(1, ids.len() as int), id))
}

/// No identifier of the store derives from `path`.
pub open spec fn path_clear(store: Map<Seq<char>, Seq<u32>>, path: Seq<char>) -> bool {
    forall|id: Seq<char>| store.contains_key(id) ==> !derives_from(id, path)
}

/// An upsert touches exactly the listed identifiers: an identifier no point
/// carries keeps its presence and value.
pub proof fn lemma_upsert_frame(
    store: Map<Seq<char>, Seq<u32>>,
    pts: Seq<(Seq<char>, Seq<u32>)>,
    id: Seq<char>,
)
    requires
        !upsert_lists_id(pts, id),
    ensures
        apply_upsert(store, pts).contains_key(id) == store.contains_key(id),
        store.contains_key(id) ==> apply_upsert(store, pts)[id] == store[id],
    decreases pts.len(),
{
    if pts.len() > 0 {
        lemma_upsert_frame(store.insert(pts[0].0, pts[0].1), pts.subrange(1, pts.len() as int), id);
    }
}

/// After an upsert, every identifier present was present before or is
/// carried by one of the upserted points.
pub proof fn lemma_upsert_dom(
    store: Map<Seq<char>, Seq<u32>>,
    pts: Seq<(Seq<char>, Seq<u32>)>,
    id: Seq<char>,
)
    ensures
        apply_upsert(store, pts).contains_key(id) == (store.contains_key(id) || upsert_lists_id(
            pts,
            id,
        )),
    decreases pts.len(),
{
    if pts.len() > 0 {
        lemma_upsert_dom(store.insert(pts[0].0, pts[0].1), pts.subrange(1, pts.len() as int), id);
    }
}

/// The value an upsert leaves under a listed identifier does not depend on
/// the store it was applied to: the last point carrying the identifier wins.
pub proof fn lemma_upsert_value_from_points(
    s1: Map<Seq<char>, Seq<u32>>,
    s2: Map<Seq<char>, Seq<u32>>,
    pts: Seq<(Seq<char>, Seq<u32>)>,
    id: Seq<char>,
)
    requires
        upsert_lists_id(pts, id),
    ensures
        apply_upsert(s1, pts).contains_key(id),
        apply_upsert(s2, pts).contains_key(id),
        apply_upsert(s1, pts)[id] == apply_upsert(s2, pts)[id],
    decreases pts.len(),
{
    let rest = pts.subrange(1, pts.len() as int);
    if upsert_lists_id(rest, id) {
        lemma_upsert_value_from_points(
            s1.insert(pts[0].0, pts[0].1),
            s2.insert(pts[0].0, pts[0].1),
            rest,
            id,
        );
    } else {
        lemma_upsert_frame(s1.insert(pts[0].0, pts[0].1), rest, id);
        lemma_upsert_frame(s2.insert(pts[0].0, pts[0].1), rest, id);
    }
}

/// Upserting the same points twice leaves the store exactly as upserting
/// them once: identifiers derived from path and chunk index overwrite, they
/// never duplicate.
pub proof fn lemma_upsert_idempotent(
    store: Map<Seq<char>, Seq<u32>>,
    pts: Seq<(Seq<char>, Seq<u32>)>,
)
    ensures
        apply_upsert(apply_upsert(store, pts), pts) == apply_upsert(store, pts),
{
    let once = apply_upsert(store, pts);
    let twice = apply_upsert(once, pts);
    assert forall|id: Seq<char>| twice.contains_key(id) == once.contains_key(id) by {
        lemma_upsert_dom(store, pts, id);
        lemma_upsert_dom(once, pts, id);
    }
    assert forall|id: Seq<char>| #[trigger] once.contains_key(id) implies twice.contains_key(id)
        && twice[id] == once[id] by {
        if upsert_lists_id(pts, id) {
            lemma_upsert_value_from_points(store, once, pts, id);
        } else {
            lemma_upsert_frame(once, pts, id);
        }
    }
    assert(twice =~= once);
}

/// A delete touches exactly the listed identifiers: an unlisted identifier
/// keeps its presence and value.
pub proof fn lemma_delete_frame(
    store: Map<Seq<char>, Seq<u32>>,
    ids: Seq<Seq<char>>,
    id: Seq<char>,
)
    requires
        !id_listed(ids, id),
    ensures
        apply_delete(store, ids).contains_key(id) == store.contains_key(id),
        store.contains_key(id) ==> apply_delete(store, ids)[id] == store[id],
    decreases ids.len(),
{
    if ids.len() > 0 {
        lemma_delete_frame(store.remove(ids[0]), ids.subrange(1, ids.len() as int), id);
    }
}

/// After a delete, an identifier is present exactly when it was present
/// before and was not listed.
pub proof fn lemma_delete_dom(store: Map<Seq<char>, Seq<u32>>, ids: Seq<Seq<char>>, id: Seq<char>)
    ensures
        apply_delete(store, ids).contains_key(id) == (store.contains_key(id) && !id_listed(
            ids,
            id,
        )),
    decreases ids.len(),
{
    if ids.len() > 0 {
        lemma_delete_dom(store.remove(ids[0]), ids.subrange(1, ids.len() as int), id);
    }
}

/// Deletion law: if `ids` covers every identifier in the store that derives
/// from `path`, then after deleting `ids` no identifier deriving from `path`
/// remains.
pub proof fn lemma_delete_clears_path(
    store: Map<Seq<char>, Seq<u32>>,
    path: Seq<char>,
    ids: Seq<Seq<char>>,
)
    requires
        forall|id: Seq<char>|
            store.contains_key(id) && #[trigger] derives_from(id, path) ==> id_listed(ids, id),
    ensures
        path_clear(apply_delete(store, ids), path),
{
    assert forall|id: Seq<char>| apply_delete(store, ids).contains_key(id) implies !derives_from(
        id,
        path,
    ) by {
        lemma_delete_dom(store, ids, id);
    }
}

/// Indexing law over the points as built: once the points planned for a
/// file are upserted, the store holds each chunk's vector under the
/// identifier derived from the file's path and that chunk's index.
pub proof fn lemma_planned_points_indexed(
    store: Map<Seq<char>, Seq<u32>>,
    path: Seq<char>,
    pts: Seq<IndexPoint>,
)
    requires
        forall|i: int| 0 <= i < pts.len() ==> (#[trigger] pts[i]).id@ == point_id_spec(
            path,
            i as nat,
        ),
    ensures
        forall|i: int|
            #![trigger pts[i]]
            0 <= i < pts.len() ==> apply_upsert(store, points_model(pts)).contains_key(
                pts[i].id@,
            ) && apply_upsert(store, points_model(pts))[pts[i].id@] == pts[i].vector@,
{
    let m = points_model(pts);
    assert(forall|i: int| 0 <= i < m.len() ==> #[trigger] m[i] == (pts[i].id@, pts[i].vector@));
    lemma_file_indexed(store, path, m);
    assert forall|i: int|
        #![trigger pts[i]]
        0 <= i < pts.len() implies apply_upsert(store, m).contains_key(pts[i].id@) && apply_upsert(
        store,
        m,
    )[pts[i].id@] == pts[i].vector@ by {
        assert(m[i] == (pts[i].id@, pts[i].vector@));
    }
}

/// A point list lists an identifier exactly when one of its points carries
/// it.
pub proof fn lemma_upsert_lists_iff(pts: Seq<(Seq<char>, Seq<u32>)>, id: Seq<char>)
    ensures
        upsert_lists_id(pts, id) <==> exists|j: int| 0 <= j < pts.len() && (#[trigger] pts[j]).0
            == id,
    decreases pts.len(),
{
    if pts.len() > 0 {
        let rest = pts.subrange(1, pts.len() as int);
        lemma_upsert_lists_iff(rest, id);
        if upsert_lists_id(pts, id) {
            if pts[0].0 == id {
                assert(0 <= 0 < pts.len() && pts[0].0 == id);
            } else {
                let j = choose|j: int| 0 <= j < rest.len() && (#[trigger] rest[j]).0 == id;
                assert(pts[j + 1].0 == id);
            }
        }
        if exists|j: int| 0 <= j < pts.len() && (#[trigger] pts[j]).0 == id {
            let j = choose|j: int| 0 <= j < pts.len() && (#[trigger] pts[j]).0 == id;
            if j > 0 {
                assert(rest[j - 1].0 == id);
            }
        }
    }
}

/// Upserting points with pairwise distinct identifiers writes each point's
/// vector under its identifier.
pub proof fn lemma_upsert_installs(
    store: Map<Seq<char>, Seq<u32>>,
    pts: Seq<(Seq<char>, Seq<u32>)>,
    i: int,
)
    requires
        0 <= i < pts.len(),
        forall|j: int, k: int| 0 <= j < k < pts.len() ==> (#[trigger] pts[j]).0 != (
        #[trigger] pts[k]).0,
    ensures
        apply_upsert(store, pts).contains_key(pts[i].0),
        apply_upsert(store, pts)[pts[i].0] == pts[i].1,
    decreases pts.len(),
{
    let rest = pts.subrange(1, pts.len() as int);
    if i == 0 {
        assert(!upsert_lists_id(rest, pts[0].0)) by {
            lemma_upsert_lists_iff(rest, pts[0].0);
            if exists|j: int| 0 <= j < rest.len() && (#[trigger] rest[j]).0 == pts[0].0 {
                let j = choose|j: int| 0 <= j < rest.len() && (#[trigger] rest[j]).0 == pts[0].0;
                assert(pts[j + 1].0 == pts[0].0);
            }
        }
        lemma_upsert_frame(store.insert(pts[0].0, pts[0].1), rest, pts[0].0);
    } else {
        assert(forall|j: int, k: int|
            0 <= j < k < rest.len() ==> (#[trigger] rest[j]).0 != (#[trigger] rest[k]).0) by {
            assert(forall|j: int|
                0 <= j < rest.len() ==> (#[trigger] rest[j]).0 == pts[j + 1].0);
        }
        lemma_upsert_installs(store.insert(pts[0].0, pts[0].1), rest, i - 1);
        assert(rest[i - 1] == pts[i]);
    }
}

/// Indexing law: after upserting the points built for a file, the store
/// holds, under the identifier derived from the file's path and each chunk
/// index, exactly that chunk's vector.
pub proof fn lemma_file_indexed(
    store: Map<Seq<char>, Seq<u32>>,
    path: Seq<char>,
    pts: Seq<(Seq<char>, Seq<u32>)>,
)
    requires
        forall|i: int| 0 <= i < pts.len() ==> (#[trigger] pts[i]).0 == point_id_spec(
            path,
            i as nat,
        ),
    ensures
        forall|i: int|
            #![trigger pts[i]]
            0 <= i < pts.len() ==> apply_upsert(store, pts).contains_key(pts[i].0)
                && apply_upsert(store, pts)[pts[i].0] == pts[i].1,
{
    assert forall|j: int, k: int|
        0 <= j < k < pts.len() implies (#[trigger] pts[j]).0 != (#[trigger] pts[k]).0 by {
        if pts[j].0 == pts[k].0 {
            crate::point::lemma_point_id_unique(path, j as nat, path, k as nat);
        }
    }
    assert forall|i: int|
        #![trigger pts[i]]
        0 <= i < pts.len() implies apply_upsert(store, pts).contains_key(
        point_id_spec(path, i as nat),
    ) && apply_upsert(store, pts)[point_id_spec(path, i as nat)] == pts[i].1 by {
        assert(pts[i].0 == point_id_spec(path, i as nat));
        lemma_upsert_installs(store, pts, i);
        assert(apply_upsert(store, pts).contains_key(point_id_spec(path, i as nat)));
        assert(apply_upsert(store, pts)[point_id_spec(path, i as nat)] == pts[i].1);
    }
}

/// The points built for a file list exactly the identifiers derived from its
/// path and a chunk index below the chunk count.
pub proof fn lemma_built_points_ids(pts: Seq<(Seq<char>, Seq<u32>)>, path: Seq<char>, id: Seq<char>)
    requires
        forall|i: int| 0 <= i < pts.len() ==> (#[trigger] pts[i]).0 == point_id_spec(
            path,
            i as nat,
        ),
    ensures
        upsert_lists_id(pts, id) <==> exists|n: nat| n < pts.len() && id == point_id_spec(path, n),
        upsert_lists_id(pts, id) ==> derives_from(id, path),
{
    lemma_shifted_points_ids(pts, path, 0, id);
    if upsert_lists_id(pts, id) {
        let n = choose|n: nat| 0 <= n < pts.len() + 0 && id == point_id_spec(path, n);
        assert(id == point_id_spec(path, n));
        assert(derives_from(id, path));
    }
}

/// Points whose identifiers are the chunk identifiers of `path` starting at
/// offset `k` list `id` exactly for the chunk indices `k .. k + len`.
proof fn lemma_shifted_points_ids(
    pts: Seq<(Seq<char>, Seq<u32>)>,
    path: Seq<char>,
    k: nat,
    id: Seq<char>,
)
    requires
        forall|i: int| 0 <= i < pts.len() ==> (#[trigger] pts[i]).0 == point_id_spec(
            path,
            (i + k) as nat,
        ),
    ensures
        upsert_lists_id(pts, id) <==> exists|n: nat| k <= n < pts.len() + k && id == point_id_spec(
            path,
            n,
        ),
    decreases pts.len(),
{
    if pts.len() > 0 {
        let rest = pts.subrange(1, pts.len() as int);
        assert(forall|i: int| 0 <= i < rest.len() ==> (#[trigger] rest[i]).0 == point_id_spec(
            path,
            (i + k + 1) as nat,
        ));
        lemma_shifted_points_ids(rest, path, k + 1, id);
        if pts[0].0 == id {
            assert(k <= k < pts.len() + k && id == point_id_spec(path, k));
        }
        if exists|n: nat| k <= n < pts.len() + k && id == point_id_spec(path, n) {
            let n = choose|n: nat| k <= n < pts.len() + k && id == point_id_spec(path, n);
            if n == k {
                assert(pts[0].0 == point_id_spec(path, k));
            } else {
                assert(k + 1 <= n < rest.len() + k + 1);
            }
        }
    }
}

} // verus!
