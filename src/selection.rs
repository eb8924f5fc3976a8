//! Selection: the video a display plays next.
use vstd::prelude::*;
use rand::seq::SliceRandom;
use crate::db::{get_display_location, lookup_display, Store};
use crate::eligibility::{
    eligible_in, find_eligible_videos_by_interest, lemma_eligible_empty_interests,
    lemma_eligible_has_credit,
};
use crate::interests::{
    get_interests_at_location, interest_weight, interests_at,
};
use crate::model::{AdvertVideoOrder, VideoServiceError};

verus! {

/// The first candidate of `cands` with interest `interest`.
pub open spec fn first_with_interest(cands: Seq<AdvertVideoOrder>, interest: i32) -> Option<
    AdvertVideoOrder,
>
    decreases cands.len(),
{
    if cands.len() == 0 {
        None
    } else if cands[0].interest == interest {
        Some(cands[0])
    } else {
        first_with_interest(cands.drop_first(), interest)
    }
}

/// Walks `ranked` in order and takes, for the first interest that any
/// candidate has, the first such candidate.
pub open spec fn pick(ranked: Seq<(i32, u128)>, cands: Seq<AdvertVideoOrder>) -> Option<
    AdvertVideoOrder,
>
    decreases ranked.len(),
{
    if ranked.len() == 0 {
        None
    } else {
        match first_with_interest(cands, ranked[0].0) {
            Some(c) => Some(c),
            None => pick(ranked.drop_first(), cands),
        }
    }
}

/// Some candidate of `cands` has interest `interest`.
pub open spec fn has_interest(cands: Seq<AdvertVideoOrder>, interest: i32) -> bool {
    exists|j: int| 0 <= j < cands.len() && #[trigger] cands[j].interest == interest
}

pub proof fn lemma_first_with_interest(cands: Seq<AdvertVideoOrder>, interest: i32)
    ensures
        first_with_interest(cands, interest) is None <==> !has_interest(cands, interest),
        first_with_interest(cands, interest) is Some ==> cands.contains(
            first_with_interest(cands, interest).unwrap(),
        ) && first_with_interest(cands, interest).unwrap().interest == interest,
    decreases cands.len(),
{
    if cands.len() > 0 {
        let rest = cands.drop_first();
        lemma_first_with_interest(rest, interest);
        if cands[0].interest != interest {
            if has_interest(cands, interest) {
                let j = choose|j: int| 0 <= j < cands.len() && #[trigger] cands[j].interest == interest;
                assert(rest[j - 1].interest == interest);
            }
            if has_interest(rest, interest) {
                let j = choose|j: int| 0 <= j < rest.len() && #[trigger] rest[j].interest == interest;
                assert(cands[j + 1].interest == interest);
            }
            if first_with_interest(rest, interest) is Some {
                let c = first_with_interest(rest, interest).unwrap();
                let j = choose|j: int| 0 <= j < rest.len() && rest[j] == c;
                assert(cands[j + 1] == c);
            }
        } else {
            assert(cands[0] == cands[0]);
        }
    }
}

/// What `pick` returns: `None` exactly when no candidate has a ranked
/// interest; otherwise a candidate of the earliest rank that any candidate has.
pub proof fn lemma_pick(ranked: Seq<(i32, u128)>, cands: Seq<AdvertVideoOrder>)
    ensures
        pick(ranked, cands) is None <==> forall|m: int|
            0 <= m < ranked.len() ==> !has_interest(cands, #[trigger] ranked[m].0),
        pick(ranked, cands) is Some ==> {
            let c = pick(ranked, cands).unwrap();
            &&& cands.contains(c)
            &&& exists|k: int|
                0 <= k < ranked.len() && c.interest == ranked[k].0 && forall|m: int|
                    0 <= m < k ==> !has_interest(cands, #[trigger] ranked[m].0)
        },
    decreases ranked.len(),
{
    if ranked.len() > 0 {
        let rest = ranked.drop_first();
        lemma_pick(rest, cands);
        lemma_first_with_interest(cands, ranked[0].0);
        if first_with_interest(cands, ranked[0].0) is None {
            assert forall|m: int| 1 <= m < ranked.len() implies ranked[m] == rest[m - 1] by {}
            if pick(ranked, cands) is Some {
                let c = pick(ranked, cands).unwrap();
                let k = choose|k: int|
                    0 <= k < rest.len() && c.interest == rest[k].0 && forall|m: int|
                        0 <= m < k ==> !has_interest(cands, #[trigger] rest[m].0);
                assert(c.interest == ranked[k + 1].0);
                assert forall|m: int| 0 <= m < k + 1 implies !has_interest(
                    cands,
                    #[trigger] ranked[m].0,
                ) by {
                    if m > 0 {
                        assert(ranked[m] == rest[m - 1]);
                    }
                }
            } else {
                assert forall|m: int| 0 <= m < ranked.len() implies !has_interest(
                    cands,
                    #[trigger] ranked[m].0,
                ) by {
                    if m > 0 {
                        assert(ranked[m] == rest[m - 1]);
                    }
                }
            }
        } else {
            let c = pick(ranked, cands).unwrap();
            assert(c.interest == ranked[0].0);
            assert(has_interest(cands, ranked[0].0));
        }
    }
}

/// When some candidate has the interest ranked at `a`, selection picks a
/// candidate whose interest is ranked at `a` or earlier: a lower-ranked
/// interest is never preferred to one that has a candidate.
pub proof fn lemma_pick_top_tier(ranked: Seq<(i32, u128)>, cands: Seq<AdvertVideoOrder>, a: int)
    requires
        0 <= a < ranked.len(),
        has_interest(cands, ranked[a].0),
    ensures
        pick(ranked, cands) is Some,
        exists|k: int| 0 <= k <= a && pick(ranked, cands).unwrap().interest == ranked[k].0,
{
    lemma_pick(ranked, cands);
    let c = pick(ranked, cands).unwrap();
    let k = choose|k: int|
        0 <= k < ranked.len() && c.interest == ranked[k].0 && forall|m: int|
            0 <= m < k ==> !has_interest(cands, #[trigger] ranked[m].0);
    assert(k <= a);
}

/// A candidate with the same fields as `c`.
pub fn copy_candidate(c: &AdvertVideoOrder) -> (r: AdvertVideoOrder)
    ensures
        r == *c,
{
    AdvertVideoOrder {
        video_id: c.video_id,
        interest: c.interest,
        url: c.url.clone(),
        length_sec: c.length_sec,
        order: c.order.clone(),
    }
}

/// Picks from `cands`, taken in their given order, the first candidate of the
/// best-ranked interest of `ranked` that has any.
pub fn select_from_ranked(ranked: &Vec<(i32, u128)>, cands: &Vec<AdvertVideoOrder>) -> (r: Option<
    AdvertVideoOrder,
>)
    ensures
        r == pick(ranked@, cands@),
{
    let mut i: usize = 0;
    assert(ranked@.subrange(0, ranked@.len() as int) =~= ranked@);
    while i < ranked.len()
        invariant
            i <= ranked@.len(),
            pick(ranked@, cands@) == pick(ranked@.subrange(i as int, ranked@.len() as int), cands@),
        decreases ranked@.len() - i,
    {
        let interest = ranked[i].0;
        let ghost tail = ranked@.subrange(i as int, ranked@.len() as int);
        assert(tail.drop_first() =~= ranked@.subrange(i + 1, ranked@.len() as int));
        let mut j: usize = 0;
        assert(cands@.subrange(0, cands@.len() as int) =~= cands@);
        while j < cands.len()
            invariant
                j <= cands@.len(),
                i < ranked@.len(),
                interest == ranked@[i as int].0,
                tail == ranked@.subrange(i as int, ranked@.len() as int),
                pick(ranked@, cands@) == pick(tail, cands@),
                first_with_interest(cands@, interest) == first_with_interest(
                    cands@.subrange(j as int, cands@.len() as int),
                    interest,
                ),
            decreases cands@.len() - j,
        {
            let ghost rest = cands@.subrange(j as int, cands@.len() as int);
            assert(rest.drop_first() =~= cands@.subrange(j + 1, cands@.len() as int));
            if cands[j].interest == interest {
                assert(rest[0] == cands@[j as int]);
                assert(tail[0] == ranked@[i as int]);
                return Some(copy_candidate(&cands[j]));
            }
            j += 1;
        }
        i += 1;
    }
    None
}

/// Relies on rand's `SliceRandom::shuffle` with the thread-local generator:
/// it reorders the candidates and neither drops nor adds any.
#[verifier::external_body]
fn shuffle_candidates(v: &mut Vec<AdvertVideoOrder>)
    ensures
        final(v)@.to_multiset() == old(v)@.to_multiset(),
{
    v.shuffle(&mut rand::thread_rng());
}

/// The interest ids of `ranked`, in its order.
fn interest_ids(ranked: &Vec<(i32, u128)>) -> (r: Vec<i32>)
    ensures
        r@.len() == ranked@.len(),
        forall|j: int| 0 <= j < ranked@.len() ==> #[trigger] r@[j] == ranked@[j].0,
{
    let mut ids: Vec<i32> = Vec::new();
    let mut j: usize = 0;
    while j < ranked.len()
        invariant
            j <= ranked@.len(),
            ids@.len() == j,
            forall|q: int| 0 <= q < j ==> #[trigger] ids@[q] == ranked@[q].0,
        decreases ranked@.len() - j,
    {
        ids.push(ranked[j].0);
        j += 1;
    }
    ids
}

/// Some candidate has `interest`, and `interest` stands in `ranked`.
pub open spec fn ranked_and_offered(
    ranked: Seq<(i32, u128)>,
    cands: Seq<AdvertVideoOrder>,
    interest: i32,
) -> bool {
    has_interest(cands, interest) && exists|m: int|
        0 <= m < ranked.len() && #[trigger] ranked[m].0 == interest
}

/// The location of the display `display_id`, if it exists.
pub open spec fn display_location(db: &Store, display_id: i32) -> Option<i32> {
    match lookup_display(db.displays@, display_id) {
        Some(d) => Some(d.location),
        None => None,
    }
}

/// The candidates of the interests present at `location`.
pub open spec fn candidates_at(db: &Store, location: i32) -> Seq<AdvertVideoOrder> {
    eligible_in(db, interests_at(db.trackers@, db.tracker_interests@, location))
}

/// The summed weight of `interest` at `location`.
pub open spec fn weight_at(db: &Store, location: i32, interest: i32) -> nat {
    interest_weight(db.trackers@, db.tracker_interests@, location, interest)
}

/// The video that the display `display_id` should play: among the candidates
/// of the interests present at its location, one of an interest of the
/// greatest summed weight, chosen at random among those of that interest.
/// `Ok(None)` when there is no candidate; an error when the display does not
/// exist.
pub fn find_relevant_video(db: &Store, display_id: i32) -> (r: Result<
    Option<AdvertVideoOrder>,
    VideoServiceError,
>)
    ensures
        match display_location(db, display_id) {
            None => r == Err::<Option<AdvertVideoOrder>, VideoServiceError>(
                VideoServiceError::NoSuchDisplayLocation,
            ),
            Some(location) => match r {
                Ok(None) => candidates_at(db, location).len() == 0,
                Ok(Some(c)) => {
                    &&& candidates_at(db, location).contains(c)
                    &&& forall|j: int|
                        0 <= j < candidates_at(db, location).len() ==> weight_at(
                            db,
                            location,
                            #[trigger] candidates_at(db, location)[j].interest,
                        ) <= weight_at(db, location, c.interest)
                },
                Err(_) => false,
            },
        },
{
    let location = match get_display_location(db, display_id) {
        Some(l) => l,
        None => return Err(VideoServiceError::NoSuchDisplayLocation),
    };
    let ghost trackers = db.trackers@;
    let ghost edges = db.tracker_interests@;
    let ghost wanted = interests_at(trackers, edges, location);
    let ranked = match get_interests_at_location(db, location) {
        Some(v) => v,
        None => {
            proof {
                lemma_eligible_empty_interests(
                    db.videos@,
                    db.orders@,
                    db.advertisement_orders@,
                    wanted,
                );
            }
            return Ok(None);
        },
    };
    let ids = interest_ids(&ranked);
    proof {
        assert forall|i: i32| ids@.to_set().contains(i) <==> wanted.contains(i) by {
            if ids@.contains(i) {
                let j = choose|j: int| 0 <= j < ids@.len() && ids@[j] == i;
                assert(ranked@[j].0 == i);
            }
            if wanted.contains(i) {
                let j = choose|j: int| 0 <= j < ranked@.len() && #[trigger] ranked@[j].0 == i;
                assert(ids@[j] == i);
            }
        }
        assert(ids@.to_set() =~= wanted);
    }
    let mut videos = match find_eligible_videos_by_interest(db, ids) {
        Some(v) => v,
        None => return Ok(None),
    };
    let ghost found = videos@;
    shuffle_candidates(&mut videos);
    let chosen = select_from_ranked(&ranked, &videos);
    proof {
        let shuffled = videos@;
        lemma_eligible_has_credit(db.videos@, db.orders@, db.advertisement_orders@, wanted);
        lemma_pick(ranked@, shuffled);
        assert forall|x: AdvertVideoOrder| shuffled.contains(x) <==> found.contains(x) by {
            vstd::seq_lib::to_multiset_contains(shuffled, x);
            vstd::seq_lib::to_multiset_contains(found, x);
        }
        // every candidate has an interest of the ranking
        assert forall|j: int| 0 <= j < found.len() implies ranked_and_offered(
            ranked@,
            shuffled,
            #[trigger] found[j].interest,
        ) by {
            assert(wanted.contains(found[j].interest));
            let m = choose|m: int|
                0 <= m < ranked@.len() && #[trigger] ranked@[m].0 == found[j].interest;
            assert(found.contains(found[j]));
            assert(shuffled.contains(found[j]));
            let q = choose|q: int| 0 <= q < shuffled.len() && shuffled[q] == found[j];
            assert(shuffled[q].interest == ranked@[m].0);
        }
        if chosen is None {
            assert(ranked_and_offered(ranked@, shuffled, found[0].interest));
            let m = choose|m: int|
                0 <= m < ranked@.len() && #[trigger] ranked@[m].0 == found[0].interest;
        } else {
            let c = chosen.unwrap();
            assert(found.contains(c));
            let k = choose|k: int|
                0 <= k < ranked@.len() && c.interest == ranked@[k].0 && forall|m: int|
                    0 <= m < k ==> !has_interest(shuffled, #[trigger] ranked@[m].0);
            assert forall|j: int| 0 <= j < found.len() implies weight_at(
                db,
                location,
                #[trigger] found[j].interest,
            ) <= weight_at(db, location, c.interest) by {
                assert(ranked_and_offered(ranked@, shuffled, found[j].interest));
                let m = choose|m: int|
                    0 <= m < ranked@.len() && #[trigger] ranked@[m].0 == found[j].interest;
                assert(m >= k);
                if m > k {
                    assert(ranked@[k].1 >= ranked@[m].1);
                }
            }
        }
    }
    match chosen {
        Some(c) => Ok(Some(c)),
        None => Ok(None),
    }
}

} // verus!
