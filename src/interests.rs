//! Interest aggregation: the total interest weight of the trackers present at
//! a location, per interest, heaviest first.
use vstd::prelude::*;
use crate::db::{first_index, get_tracker_by_id, lemma_first_index, tracker_at, tracker_ids, Store};
use crate::model::{Tracker, TrackerInterest};

verus! {

/// Whether the interest edge `e` belongs to a tracker registered at `location`.
pub open spec fn edge_at(trackers: Seq<Tracker>, e: TrackerInterest, location: i32) -> bool {
    tracker_at(trackers, e.tracker, location)
}

/// The summed weight that the trackers at `location` give `interest`.
pub open spec fn interest_weight(
    trackers: Seq<Tracker>,
    edges: Seq<TrackerInterest>,
    location: i32,
    interest: i32,
) -> nat
    decreases edges.len(),
{
    if edges.len() == 0 {
        0
    } else {
        let e = edges.last();
        interest_weight(trackers, edges.drop_last(), location, interest) + if edge_at(
            trackers,
            e,
            location,
        ) && e.interest == interest {
            e.weight as nat
        } else {
            0nat
        }
    }
}

/// Whether some tracker at `location` has an edge to `interest`.
pub open spec fn interest_present(
    trackers: Seq<Tracker>,
    edges: Seq<TrackerInterest>,
    location: i32,
    interest: i32,
) -> bool {
    exists|k: int|
        0 <= k < edges.len() && #[trigger] edges[k].interest == interest && edge_at(
            trackers,
            edges[k],
            location,
        )
}

/// The interests present at `location`.
pub open spec fn interests_at(
    trackers: Seq<Tracker>,
    edges: Seq<TrackerInterest>,
    location: i32,
) -> Set<i32> {
    Set::new(|i: i32| interest_present(trackers, edges, location, i))
}

/// `r` lists each interest present at `location` exactly once, with its total weight.
pub open spec fn lists_interests(
    r: Seq<(i32, u128)>,
    trackers: Seq<Tracker>,
    edges: Seq<TrackerInterest>,
    location: i32,
) -> bool {
    &&& forall|j: int|
        0 <= j < r.len() ==> interest_present(trackers, edges, location, #[trigger] r[j].0)
            && r[j].1 == interest_weight(trackers, edges, location, r[j].0)
    &&& forall|i: i32|
        #[trigger] interest_present(trackers, edges, location, i) ==> exists|j: int|
            0 <= j < r.len() && #[trigger] r[j].0 == i
    &&& forall|a: int, b: int| 0 <= a < b < r.len() ==> #[trigger] r[a].0 != #[trigger] r[b].0
}

/// Weights never increase along `r`.
pub open spec fn weight_sorted(r: Seq<(i32, u128)>) -> bool {
    forall|a: int, b: int| 0 <= a < b < r.len() ==> #[trigger] r[a].1 >= #[trigger] r[b].1
}

/// The aggregation of interests at `location`: each present interest once,
/// with its summed weight, heaviest first.
pub open spec fn is_interest_ranking(
    r: Seq<(i32, u128)>,
    trackers: Seq<Tracker>,
    edges: Seq<TrackerInterest>,
    location: i32,
) -> bool {
    lists_interests(r, trackers, edges, location) && weight_sorted(r)
}

/// How one more edge changes the summed weights and the present interests.
proof fn lemma_weight_step(
    trackers: Seq<Tracker>,
    edges: Seq<TrackerInterest>,
    location: i32,
    k: int,
)
    requires
        0 <= k < edges.len(),
    ensures
        forall|i: i32|
            #[trigger] interest_weight(trackers, edges.subrange(0, k + 1), location, i)
                == interest_weight(trackers, edges.subrange(0, k), location, i) + if edge_at(
                trackers,
                edges[k],
                location,
            ) && edges[k].interest == i {
                edges[k].weight as nat
            } else {
                0nat
            },
        forall|i: i32|
            #[trigger] interest_present(trackers, edges.subrange(0, k + 1), location, i) <==> (
            interest_present(trackers, edges.subrange(0, k), location, i) || (edge_at(
                trackers,
                edges[k],
                location,
            ) && edges[k].interest == i)),
{
    let pre = edges.subrange(0, k);
    let next = edges.subrange(0, k + 1);
    assert(next.drop_last() =~= pre);
    assert forall|i: i32|
        #[trigger] interest_present(trackers, next, location, i) <==> (interest_present(
            trackers,
            pre,
            location,
            i,
        ) || (edge_at(trackers, edges[k], location) && edges[k].interest == i)) by {
        if interest_present(trackers, next, location, i) {
            let m = choose|m: int|
                0 <= m < next.len() && #[trigger] next[m].interest == i && edge_at(
                    trackers,
                    next[m],
                    location,
                );
            if m < k {
                assert(pre[m] == next[m]);
            }
        }
        if interest_present(trackers, pre, location, i) {
            let m = choose|m: int|
                0 <= m < pre.len() && #[trigger] pre[m].interest == i && edge_at(
                    trackers,
                    pre[m],
                    location,
                );
            assert(pre[m] == next[m]);
        }
        if edge_at(trackers, edges[k], location) && edges[k].interest == i {
            assert(next[k] == edges[k]);
        }
    }
}

/// After `k` edges of at most `u32::MAX` each a sum stays within `k * u32::MAX`,
/// which fits a `u128` for every `k` that a `usize` can count.
proof fn lemma_bound_step(k: int, w: int)
    requires
        0 <= k < 0x1_0000_0000_0000_0000,
        0 <= w <= 0xffff_ffff,
    ensures
        k * 0xffff_ffff + w <= (k + 1) * 0xffff_ffff,
        (k + 1) * 0xffff_ffff <= 0xffff_ffff_ffff_ffff_ffff_ffff_ffff_ffff,
{
    assert((k + 1) * 0xffff_ffff <= 0x1_0000_0000_0000_0000 * 0xffff_ffff) by (nonlinear_arith)
        requires
            k + 1 <= 0x1_0000_0000_0000_0000,
    ;
}

/// Whether the tracker `id` is registered at `location`, by a lookup.
fn tracker_is_at(db: &Store, id: i32, location: i32) -> (r: bool)
    ensures
        r == tracker_at(db.trackers@, id, location),
{
    match get_tracker_by_id(db, id) {
        Some(t) => match t.location {
            Some(l) => l == location,
            None => false,
        },
        None => false,
    }
}

/// Position of `interest` among the first components of `acc`.
fn find_interest(acc: &Vec<(i32, u128)>, interest: i32) -> (r: Option<usize>)
    ensures
        match r {
            Some(j) => j < acc@.len() && acc@[j as int].0 == interest,
            None => forall|j: int| 0 <= j < acc@.len() ==> acc@[j].0 != interest,
        },
{
    let mut j: usize = 0;
    while j < acc.len()
        invariant
            j <= acc@.len(),
            forall|q: int| 0 <= q < j ==> acc@[q].0 != interest,
        decreases acc@.len() - j,
    {
        if acc[j].0 == interest {
            return Some(j);
        }
        j += 1;
    }
    None
}

/// Sums the weights at `location` per interest, in order of first appearance.
fn sum_interests(db: &Store, location: i32) -> (acc: Vec<(i32, u128)>)
    ensures
        lists_interests(acc@, db.trackers@, db.tracker_interests@, location),
{
    let ghost trackers = db.trackers@;
    let ghost edges = db.tracker_interests@;
    let mut acc: Vec<(i32, u128)> = Vec::new();
    let mut k: usize = 0;
    assert(edges.subrange(0, 0).len() == 0);
    while k < db.tracker_interests.len()
        invariant
            k <= edges.len(),
            trackers == db.trackers@,
            edges == db.tracker_interests@,
            lists_interests(acc@, trackers, edges.subrange(0, k as int), location),
            forall|j: int| 0 <= j < acc@.len() ==> #[trigger] acc@[j].1 <= k * 0xffff_ffff,
        decreases edges.len() - k,
    {
        let e = db.tracker_interests[k];
        proof {
            lemma_weight_step(trackers, edges, location, k as int);
            lemma_bound_step(k as int, e.weight as int);
        }
        let ghost pre = edges.subrange(0, k as int);
        let ghost next = edges.subrange(0, k as int + 1);
        let ghost old_acc = acc@;
        if tracker_is_at(db, e.tracker, location) {
            match find_interest(&acc, e.interest) {
                Some(j) => {
                    let total = acc[j].1 + e.weight as u128;
                    acc.set(j, (e.interest, total));
                    assert forall|i: i32|
                        #[trigger] interest_present(trackers, next, location, i) implies exists|
                        q: int,
                    | 0 <= q < acc@.len() && #[trigger] acc@[q].0 == i by {
                        if i == e.interest {
                            assert(acc@[j as int].0 == i);
                        } else {
                            assert(interest_present(trackers, pre, location, i));
                            let q = choose|q: int| 0 <= q < old_acc.len() && #[trigger] old_acc[q].0 == i;
                            assert(acc@[q].0 == i);
                        }
                    }
                },
                None => {
                    acc.push((e.interest, e.weight as u128));
                    assert(interest_present(trackers, next, location, e.interest));
                    assert forall|i: i32|
                        #[trigger] interest_present(trackers, next, location, i) implies exists|
                        q: int,
                    | 0 <= q < acc@.len() && #[trigger] acc@[q].0 == i by {
                        if i == e.interest {
                            assert(acc@[old_acc.len() as int].0 == i);
                        } else {
                            assert(interest_present(trackers, pre, location, i));
                            let q = choose|q: int| 0 <= q < old_acc.len() && #[trigger] old_acc[q].0 == i;
                            assert(acc@[q].0 == i);
                        }
                    }
                    assert(interest_weight(trackers, pre, location, e.interest) == 0) by {
                        if interest_weight(trackers, pre, location, e.interest) != 0 {
                            lemma_weight_positive_present(trackers, pre, location, e.interest);
                            let q = choose|q: int| 0 <= q < old_acc.len() && #[trigger] old_acc[q].0 == e.interest;
                        }
                    }
                },
            }
        } else {
            assert forall|i: i32|
                #[trigger] interest_present(trackers, next, location, i) implies exists|q: int|
                0 <= q < acc@.len() && #[trigger] acc@[q].0 == i by {
                assert(interest_present(trackers, pre, location, i));
            }
        }
        k += 1;
    }
    assert(edges.subrange(0, edges.len() as int) =~= edges);
    acc
}

/// A positive summed weight means the interest is present.
proof fn lemma_weight_positive_present(
    trackers: Seq<Tracker>,
    edges: Seq<TrackerInterest>,
    location: i32,
    interest: i32,
)
    requires
        interest_weight(trackers, edges, location, interest) != 0,
    ensures
        interest_present(trackers, edges, location, interest),
    decreases edges.len(),
{
    let e = edges.last();
    let pre = edges.drop_last();
    if edge_at(trackers, e, location) && e.interest == interest {
        assert(edges[edges.len() - 1] == e);
    } else {
        lemma_weight_positive_present(trackers, pre, location, interest);
        let m = choose|m: int|
            0 <= m < pre.len() && #[trigger] pre[m].interest == interest && edge_at(
                trackers,
                pre[m],
                location,
            );
        assert(edges[m] == pre[m]);
    }
}

/// First components of `v` are pairwise distinct.
pub open spec fn distinct_interests(v: Seq<(i32, u128)>) -> bool {
    forall|a: int, b: int| 0 <= a < b < v.len() ==> #[trigger] v[a].0 != #[trigger] v[b].0
}

/// Some entry of `v` before position `m` is `x`.
pub open spec fn in_prefix(v: Seq<(i32, u128)>, m: int, x: (i32, u128)) -> bool {
    exists|j: int| 0 <= j < m && v[j] == x
}

proof fn lemma_insert_sorted(before: Seq<(i32, u128)>, p: int, item: (i32, u128))
    requires
        weight_sorted(before),
        distinct_interests(before),
        0 <= p <= before.len(),
        forall|q: int| 0 <= q < p ==> #[trigger] before[q].1 >= item.1,
        forall|q: int| p <= q < before.len() ==> #[trigger] before[q].1 < item.1,
        forall|q: int| 0 <= q < before.len() ==> #[trigger] before[q].0 != item.0,
    ensures
        weight_sorted(before.insert(p, item)),
        distinct_interests(before.insert(p, item)),
        forall|y: (i32, u128)| #[trigger]
            before.insert(p, item).contains(y) <==> (before.contains(y) || y == item),
{
    let out = before.insert(p, item);
    assert forall|a: int, b: int| 0 <= a < b < out.len() implies #[trigger] out[a].1
        >= #[trigger] out[b].1 && out[a].0 != out[b].0 by {
        if b < p {
        } else if b == p {
        } else if a < p {
            assert(out[b] == before[b - 1]);
        } else if a == p {
            assert(out[b] == before[b - 1]);
        } else {
            assert(out[a] == before[a - 1]);
            assert(out[b] == before[b - 1]);
        }
    }
    assert forall|y: (i32, u128)| #[trigger] out.contains(y) <==> (before.contains(y) || y == item) by {
        if out.contains(y) {
            let x = choose|x: int| 0 <= x < out.len() && out[x] == y;
            if x < p {
                assert(before[x] == y);
            } else if x > p {
                assert(before[x - 1] == y);
            }
        }
        if before.contains(y) {
            let x = choose|x: int| 0 <= x < before.len() && before[x] == y;
            if x < p {
                assert(out[x] == y);
            } else {
                assert(out[x + 1] == y);
            }
        }
        if y == item {
            assert(out[p] == y);
        }
    }
}

/// Reorders `v` by non-increasing weight.
fn sort_by_weight(v: &Vec<(i32, u128)>) -> (r: Vec<(i32, u128)>)
    requires
        distinct_interests(v@),
    ensures
        weight_sorted(r@),
        distinct_interests(r@),
        forall|y: (i32, u128)| #[trigger] r@.contains(y) <==> v@.contains(y),
{
    let mut out: Vec<(i32, u128)> = Vec::new();
    let mut m: usize = 0;
    while m < v.len()
        invariant
            m <= v@.len(),
            distinct_interests(v@),
            weight_sorted(out@),
            distinct_interests(out@),
            forall|y: (i32, u128)| #[trigger] out@.contains(y) <==> in_prefix(v@, m as int, y),
        decreases v@.len() - m,
    {
        let item = v[m];
        let mut p: usize = 0;
        while p < out.len() && out[p].1 >= item.1
            invariant
                p <= out@.len(),
                forall|q: int| 0 <= q < p ==> #[trigger] out@[q].1 >= item.1,
            decreases out@.len() - p,
        {
            p += 1;
        }
        let ghost before = out@;
        proof {
            assert forall|q: int| p <= q < before.len() implies #[trigger] before[q].1 < item.1 by {
                if q > p {
                    assert(before[p as int].1 >= before[q].1);
                }
            }
            assert forall|q: int| 0 <= q < before.len() implies #[trigger] before[q].0 != item.0 by {
                assert(before.contains(before[q]));
                let j = choose|j: int| 0 <= j < m && v@[j] == before[q];
                assert(v@[j].0 != v@[m as int].0);
            }
            lemma_insert_sorted(before, p as int, item);
            assert forall|y: (i32, u128)| in_prefix(v@, m + 1, y) <==> (in_prefix(v@, m as int, y)
                || y == item) by {
                if in_prefix(v@, m + 1, y) && y != item {
                    let j = choose|j: int| 0 <= j < m + 1 && v@[j] == y;
                    assert(j < m);
                }
                if y == item {
                    assert(v@[m as int] == y);
                }
            }
        }
        out.insert(p, item);
        m += 1;
    }
    proof {
        assert forall|y: (i32, u128)| in_prefix(v@, m as int, y) <==> v@.contains(y) by {}
    }
    out
}

/// The interests present at `location` with their summed weights, heaviest
/// first; `None` when no tracker there has any interest.
pub fn get_interests_at_location(db: &Store, location: i32) -> (r: Option<Vec<(i32, u128)>>)
    ensures
        match r {
            Some(v) => v@.len() > 0 && is_interest_ranking(
                v@,
                db.trackers@,
                db.tracker_interests@,
                location,
            ),
            None => interests_at(db.trackers@, db.tracker_interests@, location).is_empty(),
        },
        r.is_none() <==> interests_at(db.trackers@, db.tracker_interests@, location).is_empty(),
{
    let ghost trackers = db.trackers@;
    let ghost edges = db.tracker_interests@;
    let acc = sum_interests(db, location);
    if acc.len() == 0 {
        assert(interests_at(trackers, edges, location) =~= Set::<i32>::empty());
        return None;
    }
    let sorted = sort_by_weight(&acc);
    assert forall|j: int| 0 <= j < sorted@.len() implies interest_present(
        trackers,
        edges,
        location,
        #[trigger] sorted@[j].0,
    ) && sorted@[j].1 == interest_weight(trackers, edges, location, sorted@[j].0) by {
        assert(sorted@.contains(sorted@[j]));
        let q = choose|q: int| 0 <= q < acc@.len() && acc@[q] == sorted@[j];
        assert(acc@[q].0 == sorted@[j].0);
    }
    assert forall|i: i32| #[trigger] interest_present(trackers, edges, location, i) implies exists|
        j: int,
    | 0 <= j < sorted@.len() && #[trigger] sorted@[j].0 == i by {
        let q = choose|q: int| 0 <= q < acc@.len() && #[trigger] acc@[q].0 == i;
        assert(acc@.contains(acc@[q]));
        assert(sorted@.contains(acc@[q]));
        let x = choose|x: int| 0 <= x < sorted@.len() && sorted@[x] == acc@[q];
        assert(sorted@[x].0 == i);
    }
    assert(sorted@.len() > 0) by {
        assert(acc@.contains(acc@[0]));
        assert(sorted@.contains(acc@[0]));
    }
    assert(interests_at(trackers, edges, location).contains(sorted@[0].0));
    Some(sorted)
}

/// With no tracker registered at `location`, no interest is present there:
/// aggregating the interests at `location` yields nothing.
pub proof fn lemma_no_trackers_no_interests(db: &Store, location: i32)
    requires
        forall|k: int| 0 <= k < db.trackers@.len() ==> #[trigger] db.trackers@[k].location != Some(location),
    ensures
        interests_at(db.trackers@, db.tracker_interests@, location).is_empty(),
{
    let trackers = db.trackers@;
    let edges = db.tracker_interests@;
    assert forall|i: i32| !interests_at(trackers, edges, location).contains(i) by {
        if interest_present(trackers, edges, location, i) {
            let k = choose|k: int|
                0 <= k < edges.len() && #[trigger] edges[k].interest == i && edge_at(
                    trackers,
                    edges[k],
                    location,
                );
            lemma_first_index(tracker_ids(trackers), edges[k].tracker);
            let p = first_index(tracker_ids(trackers), edges[k].tracker);
            assert(trackers[p].location != Some(location));
        }
    }
    assert(interests_at(trackers, edges, location) =~= Set::<i32>::empty());
}

} // verus!
