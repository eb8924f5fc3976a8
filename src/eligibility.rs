//! Eligibility: the sponsored videos of given interests whose order still
//! has credit.
use vstd::prelude::*;
use crate::db::{get_order_by_id, lookup_order, lookup_video, video_index, Store};
use crate::model::{AdvertVideoOrder, AdvertisementOrder, Order, Video};

verus! {

/// The candidate that the sponsorship `s` yields: its video and order exist,
/// the video's interest is one of `interests` and the order has credit left.
pub open spec fn candidate_for(
    videos: Seq<Video>,
    orders: Seq<Order>,
    s: AdvertisementOrder,
    interests: Set<i32>,
) -> Option<AdvertVideoOrder> {
    match (lookup_video(videos, s.video), lookup_order(orders, s.order@)) {
        (Some(v), Some(o)) => if interests.contains(v.interest) && o.credits > 0 {
            Some(
                AdvertVideoOrder {
                    video_id: s.video,
                    interest: v.interest,
                    url: v.url,
                    length_sec: v.length_sec,
                    order: s.order,
                },
            )
        } else {
            None
        },
        _ => None,
    }
}

/// The candidates of the sponsorships `sps`, in their order.
pub open spec fn eligible(
    videos: Seq<Video>,
    orders: Seq<Order>,
    sps: Seq<AdvertisementOrder>,
    interests: Set<i32>,
) -> Seq<AdvertVideoOrder>
    decreases sps.len(),
{
    if sps.len() == 0 {
        Seq::empty()
    } else {
        let rest = eligible(videos, orders, sps.drop_last(), interests);
        match candidate_for(videos, orders, sps.last(), interests) {
            Some(c) => rest.push(c),
            None => rest,
        }
    }
}

/// The candidates in the store for `interests`.
pub open spec fn eligible_in(db: &Store, interests: Set<i32>) -> Seq<AdvertVideoOrder> {
    eligible(db.videos@, db.orders@, db.advertisement_orders@, interests)
}

/// Every candidate is backed by an existing order with credits left, and its
/// interest is one of those asked for.
pub proof fn lemma_eligible_has_credit(
    videos: Seq<Video>,
    orders: Seq<Order>,
    sps: Seq<AdvertisementOrder>,
    interests: Set<i32>,
)
    ensures
        forall|j: int|
            0 <= j < eligible(videos, orders, sps, interests).len() ==> {
                let c = #[trigger] eligible(videos, orders, sps, interests)[j];
                &&& interests.contains(c.interest)
                &&& lookup_order(orders, c.order@) is Some
                &&& lookup_order(orders, c.order@).unwrap().credits > 0
            },
    decreases sps.len(),
{
    if sps.len() > 0 {
        lemma_eligible_has_credit(videos, orders, sps.drop_last(), interests);
    }
}

/// A video of the store, with its fields.
fn copy_video(v: &Video) -> (r: Video)
    ensures
        r == *v,
{
    Video { id: v.id, interest: v.interest, url: v.url.clone(), length_sec: v.length_sec }
}

fn contains_interest(interests: &Vec<i32>, interest: i32) -> (r: bool)
    ensures
        r == interests@.contains(interest),
{
    let mut j: usize = 0;
    while j < interests.len()
        invariant
            j <= interests@.len(),
            forall|q: int| 0 <= q < j ==> interests@[q] != interest,
        decreases interests@.len() - j,
    {
        if interests[j] == interest {
            assert(interests@[j as int] == interest);
            return true;
        }
        j += 1;
    }
    false
}

fn get_video_row(db: &Store, video_id: i32) -> (r: Option<Video>)
    ensures
        r == lookup_video(db.videos@, video_id),
{
    match video_index(&db.videos, video_id) {
        Some(i) => Some(copy_video(&db.videos[i])),
        None => None,
    }
}

/// The candidate of the sponsorship `s`, if it yields one.
fn candidate_of(db: &Store, s: &AdvertisementOrder, interests: &Vec<i32>) -> (r: Option<
    AdvertVideoOrder,
>)
    ensures
        r == candidate_for(db.videos@, db.orders@, *s, interests@.to_set()),
{
    match (get_video_row(db, s.video), get_order_by_id(db, &s.order)) {
        (Some(v), Some(o)) => {
            if contains_interest(interests, v.interest) && o.credits > 0 {
                Some(
                    AdvertVideoOrder {
                        video_id: s.video,
                        interest: v.interest,
                        url: v.url,
                        length_sec: v.length_sec,
                        order: s.order.clone(),
                    },
                )
            } else {
                None
            }
        },
        _ => None,
    }
}

/// Every (video, order) pairing whose video has one of `interests` and whose
/// order has credits left; `None` when there is none.
pub fn find_eligible_videos_by_interest(db: &Store, interests: Vec<i32>) -> (r: Option<
    Vec<AdvertVideoOrder>,
>)
    ensures
        match r {
            Some(v) => v@.len() > 0 && v@ == eligible_in(db, interests@.to_set()),
            None => eligible_in(db, interests@.to_set()).len() == 0,
        },
{
    let ghost sps = db.advertisement_orders@;
    let ghost wanted = interests@.to_set();
    let mut out: Vec<AdvertVideoOrder> = Vec::new();
    if interests.len() == 0 {
        assert forall|k: int| 0 <= k <= sps.len() implies eligible(
            db.videos@,
            db.orders@,
            #[trigger] sps.subrange(0, k),
            wanted,
        ).len() == 0 by {
            lemma_eligible_empty_interests(db.videos@, db.orders@, sps.subrange(0, k), wanted);
        }
        assert(sps.subrange(0, sps.len() as int) =~= sps);
        return None;
    }
    let mut k: usize = 0;
    assert(sps.subrange(0, 0) =~= Seq::<AdvertisementOrder>::empty());
    while k < db.advertisement_orders.len()
        invariant
            k <= sps.len(),
            sps == db.advertisement_orders@,
            wanted == interests@.to_set(),
            out@ == eligible(db.videos@, db.orders@, sps.subrange(0, k as int), wanted),
        decreases sps.len() - k,
    {
        assert(sps.subrange(0, k as int + 1).drop_last() =~= sps.subrange(0, k as int));
        match candidate_of(db, &db.advertisement_orders[k], &interests) {
            Some(c) => out.push(c),
            None => {},
        }
        k += 1;
    }
    assert(sps.subrange(0, sps.len() as int) =~= sps);
    if out.len() == 0 {
        None
    } else {
        Some(out)
    }
}

/// No interests asked for, no candidates.
pub proof fn lemma_eligible_empty_interests(
    videos: Seq<Video>,
    orders: Seq<Order>,
    sps: Seq<AdvertisementOrder>,
    interests: Set<i32>,
)
    requires
        interests.is_empty(),
    ensures
        eligible(videos, orders, sps, interests).len() == 0,
    decreases sps.len(),
{
    if sps.len() > 0 {
        lemma_eligible_empty_interests(videos, orders, sps.drop_last(), interests);
    }
}

} // verus!
