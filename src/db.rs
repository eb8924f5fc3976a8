//! The data store: tables held in memory and looked up by primary key.
//!
//! A lookup by id yields the first row that carries the id, as a keyed query
//! that returns its first row does.
use vstd::prelude::*;
use crate::model::{
    AdvertVideo, AdvertisementOrder, Display, Order, PlayedVideo, Receiver, Tracker,
    TrackerInterest, Video,
};

verus! {

/// Every table of the store.
pub struct Store {
    pub trackers: Vec<Tracker>,
    pub receivers: Vec<Receiver>,
    pub displays: Vec<Display>,
    pub tracker_interests: Vec<TrackerInterest>,
    pub videos: Vec<Video>,
    pub orders: Vec<Order>,
    pub advertisement_orders: Vec<AdvertisementOrder>,
    pub played_videos: Vec<PlayedVideo>,
}

/// Index of the first occurrence of `k` in `keys`, or -1 when there is none.
pub open spec fn first_index<K>(keys: Seq<K>, k: K) -> int
    decreases keys.len(),
{
    if keys.len() == 0 {
        -1
    } else if keys[0] == k {
        0
    } else {
        let p = first_index(keys.drop_first(), k);
        if p < 0 {
            -1
        } else {
            p + 1
        }
    }
}

pub proof fn lemma_first_index<K>(keys: Seq<K>, k: K)
    ensures
        -1 <= first_index(keys, k) < keys.len(),
        first_index(keys, k) == -1 <==> (forall|j: int| 0 <= j < keys.len() ==> keys[j] != k),
        first_index(keys, k) >= 0 ==> keys[first_index(keys, k)] == k,
        forall|j: int| 0 <= j < first_index(keys, k) ==> keys[j] != k,
    decreases keys.len(),
{
    if keys.len() > 0 && keys[0] != k {
        let rest = keys.drop_first();
        lemma_first_index(rest, k);
        assert forall|j: int| 1 <= j < keys.len() implies keys[j] == rest[j - 1] by {}
        if first_index(rest, k) == -1 {
            assert forall|j: int| 0 <= j < keys.len() implies keys[j] != k by {
                if j > 0 {
                    assert(rest[j - 1] != k);
                }
            }
        } else {
            assert forall|j: int| 0 <= j < first_index(keys, k) implies keys[j] != k by {
                if j > 0 {
                    assert(rest[j - 1] != k);
                }
            }
        }
    }
}

/// Where `p` is the first index of `k` in `keys`.
pub proof fn lemma_first_index_at<K>(keys: Seq<K>, k: K, p: int)
    requires
        0 <= p < keys.len(),
        keys[p] == k,
        forall|j: int| 0 <= j < p ==> keys[j] != k,
    ensures
        first_index(keys, k) == p,
{
    lemma_first_index(keys, k);
}

pub open spec fn tracker_ids(s: Seq<Tracker>) -> Seq<i32> {
    s.map_values(|t: Tracker| t.id)
}

pub open spec fn receiver_ids(s: Seq<Receiver>) -> Seq<i32> {
    s.map_values(|r: Receiver| r.id)
}

pub open spec fn display_ids(s: Seq<Display>) -> Seq<i32> {
    s.map_values(|d: Display| d.id)
}

pub open spec fn video_ids(s: Seq<Video>) -> Seq<i32> {
    s.map_values(|v: Video| v.id)
}

pub open spec fn order_ids(s: Seq<Order>) -> Seq<Seq<char>> {
    s.map_values(|o: Order| o.id@)
}

/// The tracker that a lookup by `id` finds.
pub open spec fn lookup_tracker(s: Seq<Tracker>, id: i32) -> Option<Tracker> {
    let p = first_index(tracker_ids(s), id);
    if p >= 0 {
        Some(s[p])
    } else {
        None
    }
}

pub open spec fn lookup_receiver(s: Seq<Receiver>, id: i32) -> Option<Receiver> {
    let p = first_index(receiver_ids(s), id);
    if p >= 0 {
        Some(s[p])
    } else {
        None
    }
}

pub open spec fn lookup_display(s: Seq<Display>, id: i32) -> Option<Display> {
    let p = first_index(display_ids(s), id);
    if p >= 0 {
        Some(s[p])
    } else {
        None
    }
}

pub open spec fn lookup_video(s: Seq<Video>, id: i32) -> Option<Video> {
    let p = first_index(video_ids(s), id);
    if p >= 0 {
        Some(s[p])
    } else {
        None
    }
}

pub open spec fn lookup_order(s: Seq<Order>, id: Seq<char>) -> Option<Order> {
    let p = first_index(order_ids(s), id);
    if p >= 0 {
        Some(s[p])
    } else {
        None
    }
}

/// Whether the tracker `id` is registered at `location`.
pub open spec fn tracker_at(s: Seq<Tracker>, id: i32, location: i32) -> bool {
    match lookup_tracker(s, id) {
        Some(t) => t.location == Some(location),
        None => false,
    }
}

fn tracker_index(trackers: &Vec<Tracker>, id: i32) -> (r: Option<usize>)
    ensures
        match r {
            Some(i) => i < trackers@.len() && first_index(tracker_ids(trackers@), id) == i,
            None => first_index(tracker_ids(trackers@), id) == -1,
        },
{
    let ghost keys = tracker_ids(trackers@);
    let mut i: usize = 0;
    while i < trackers.len()
        invariant
            i <= trackers@.len(),
            keys == tracker_ids(trackers@),
            forall|j: int| 0 <= j < i ==> keys[j] != id,
        decreases trackers@.len() - i,
    {
        if trackers[i].id == id {
            proof {
                lemma_first_index_at(keys, id, i as int);
            }
            return Some(i);
        }
        i += 1;
    }
    proof {
        lemma_first_index(keys, id);
    }
    None
}

fn receiver_index(receivers: &Vec<Receiver>, id: i32) -> (r: Option<usize>)
    ensures
        match r {
            Some(i) => i < receivers@.len() && first_index(receiver_ids(receivers@), id) == i,
            None => first_index(receiver_ids(receivers@), id) == -1,
        },
{
    let ghost keys = receiver_ids(receivers@);
    let mut i: usize = 0;
    while i < receivers.len()
        invariant
            i <= receivers@.len(),
            keys == receiver_ids(receivers@),
            forall|j: int| 0 <= j < i ==> keys[j] != id,
        decreases receivers@.len() - i,
    {
        if receivers[i].id == id {
            proof {
                lemma_first_index_at(keys, id, i as int);
            }
            return Some(i);
        }
        i += 1;
    }
    proof {
        lemma_first_index(keys, id);
    }
    None
}

fn display_index(displays: &Vec<Display>, id: i32) -> (r: Option<usize>)
    ensures
        match r {
            Some(i) => i < displays@.len() && first_index(display_ids(displays@), id) == i,
            None => first_index(display_ids(displays@), id) == -1,
        },
{
    let ghost keys = display_ids(displays@);
    let mut i: usize = 0;
    while i < displays.len()
        invariant
            i <= displays@.len(),
            keys == display_ids(displays@),
            forall|j: int| 0 <= j < i ==> keys[j] != id,
        decreases displays@.len() - i,
    {
        if displays[i].id == id {
            proof {
                lemma_first_index_at(keys, id, i as int);
            }
            return Some(i);
        }
        i += 1;
    }
    proof {
        lemma_first_index(keys, id);
    }
    None
}

pub(crate) fn video_index(videos: &Vec<Video>, id: i32) -> (r: Option<usize>)
    ensures
        match r {
            Some(i) => i < videos@.len() && first_index(video_ids(videos@), id) == i,
            None => first_index(video_ids(videos@), id) == -1,
        },
{
    let ghost keys = video_ids(videos@);
    let mut i: usize = 0;
    while i < videos.len()
        invariant
            i <= videos@.len(),
            keys == video_ids(videos@),
            forall|j: int| 0 <= j < i ==> keys[j] != id,
        decreases videos@.len() - i,
    {
        if videos[i].id == id {
            proof {
                lemma_first_index_at(keys, id, i as int);
            }
            return Some(i);
        }
        i += 1;
    }
    proof {
        lemma_first_index(keys, id);
    }
    None
}

pub(crate) fn order_index(orders: &Vec<Order>, id: &String) -> (r: Option<usize>)
    ensures
        match r {
            Some(i) => i < orders@.len() && first_index(order_ids(orders@), id@) == i,
            None => first_index(order_ids(orders@), id@) == -1,
        },
{
    let ghost keys = order_ids(orders@);
    let mut i: usize = 0;
    while i < orders.len()
        invariant
            i <= orders@.len(),
            keys == order_ids(orders@),
            forall|j: int| 0 <= j < i ==> keys[j] != id@,
        decreases orders@.len() - i,
    {
        if orders[i].id == *id {
            proof {
                lemma_first_index_at(keys, id@, i as int);
            }
            return Some(i);
        }
        i += 1;
    }
    proof {
        lemma_first_index(keys, id@);
    }
    None
}

/// An order with the same fields as `o`.
pub fn copy_order(o: &Order) -> (r: Order)
    ensures
        r == *o,
{
    Order { id: o.id.clone(), credits: o.credits, user: o.user.clone() }
}

/// The tracker with id `tracker_id`, if there is one.
pub fn get_tracker_by_id(db: &Store, tracker_id: i32) -> (r: Option<Tracker>)
    ensures
        r == lookup_tracker(db.trackers@, tracker_id),
{
    match tracker_index(&db.trackers, tracker_id) {
        Some(i) => Some(db.trackers[i]),
        None => None,
    }
}

/// The receiver with id `receiver_id`, if there is one.
pub fn get_receiver_by_id(db: &Store, receiver_id: i32) -> (r: Option<Receiver>)
    ensures
        r == lookup_receiver(db.receivers@, receiver_id),
{
    match receiver_index(&db.receivers, receiver_id) {
        Some(i) => Some(db.receivers[i]),
        None => None,
    }
}

/// The display with id `display_id`, if there is one.
pub fn get_display_by_id(db: &Store, display_id: i32) -> (r: Option<Display>)
    ensures
        r == lookup_display(db.displays@, display_id),
{
    match display_index(&db.displays, display_id) {
        Some(i) => Some(db.displays[i]),
        None => None,
    }
}

/// The location of the display `display_id`, if the display exists.
pub fn get_display_location(db: &Store, display_id: i32) -> (r: Option<i32>)
    ensures
        r == match lookup_display(db.displays@, display_id) {
            Some(d) => Some(d.location),
            None => None::<i32>,
        },
{
    match get_display_by_id(db, display_id) {
        Some(d) => Some(d.location),
        None => None,
    }
}

/// The video with id `video_id`, if there is one.
pub fn get_advertisement_video_by_id(db: &Store, video_id: i32) -> (r: Option<AdvertVideo>)
    ensures
        match lookup_video(db.videos@, video_id) {
            Some(v) => r == Some(
                AdvertVideo { interest: v.interest, url: v.url, length_sec: v.length_sec },
            ),
            None => r.is_none(),
        },
{
    match video_index(&db.videos, video_id) {
        Some(i) => {
            let v = &db.videos[i];
            Some(AdvertVideo { interest: v.interest, url: v.url.clone(), length_sec: v.length_sec })
        },
        None => None,
    }
}

/// The order with id `order_id`, if there is one.
pub fn get_order_by_id(db: &Store, order_id: &String) -> (r: Option<Order>)
    ensures
        r == lookup_order(db.orders@, order_id@),
{
    match order_index(&db.orders, order_id) {
        Some(i) => Some(copy_order(&db.orders[i])),
        None => None,
    }
}

/// Whether a tracker with id `tr_id` exists.
pub fn tracker_exists(db: &Store, tr_id: i32) -> (r: bool)
    ensures
        r == lookup_tracker(db.trackers@, tr_id).is_some(),
{
    tracker_index(&db.trackers, tr_id).is_some()
}

/// Every table but `trackers` is the same in `a` and `b`.
pub open spec fn same_but_trackers(a: &Store, b: &Store) -> bool {
    &&& a.receivers@ == b.receivers@
    &&& a.displays@ == b.displays@
    &&& a.tracker_interests@ == b.tracker_interests@
    &&& a.videos@ == b.videos@
    &&& a.orders@ == b.orders@
    &&& a.advertisement_orders@ == b.advertisement_orders@
    &&& a.played_videos@ == b.played_videos@
}

/// Sets the location of the tracker found by `id`.
fn set_tracker_location(db: &mut Store, id: i32, location: Option<i32>)
    ensures
        same_but_trackers(old(db), final(db)),
        match lookup_tracker(old(db).trackers@, id) {
            Some(t) => final(db).trackers@ == old(db).trackers@.update(
                first_index(tracker_ids(old(db).trackers@), id),
                Tracker { id: t.id, location },
            ),
            None => final(db).trackers@ == old(db).trackers@,
        },
{
    match tracker_index(&db.trackers, id) {
        Some(i) => {
            proof {
                lemma_first_index(tracker_ids(db.trackers@), id);
            }
            assert(tracker_ids(db.trackers@)[i as int] == db.trackers@[i as int].id);
            db.trackers.set(i, Tracker { id, location });
        },
        None => {},
    }
}

/// Marks the tracker `tracker_id` as present nowhere.
pub fn unregister_tracker(db: &mut Store, tracker_id: i32)
    ensures
        same_but_trackers(old(db), final(db)),
        match lookup_tracker(old(db).trackers@, tracker_id) {
            Some(t) => final(db).trackers@ == old(db).trackers@.update(
                first_index(tracker_ids(old(db).trackers@), tracker_id),
                Tracker { id: tracker_id, location: None },
            ),
            None => final(db).trackers@ == old(db).trackers@,
        },
{
    proof {
        lemma_first_index(tracker_ids(db.trackers@), tracker_id);
    }
    set_tracker_location(db, tracker_id, None);
}

/// Places the tracker `tracker` at the location of the receiver `receiver`;
/// nothing changes when the receiver does not exist.
pub fn register_tracker_to_receiver(db: &mut Store, receiver: i32, tracker: i32)
    ensures
        same_but_trackers(old(db), final(db)),
        match (lookup_receiver(old(db).receivers@, receiver), lookup_tracker(old(db).trackers@, tracker)) {
            (Some(r), Some(t)) => final(db).trackers@ == old(db).trackers@.update(
                first_index(tracker_ids(old(db).trackers@), tracker),
                Tracker { id: tracker, location: Some(r.location) },
            ),
            _ => final(db).trackers@ == old(db).trackers@,
        },
{
    proof {
        lemma_first_index(tracker_ids(db.trackers@), tracker);
    }
    match get_receiver_by_id(db, receiver) {
        Some(r) => set_tracker_location(db, tracker, Some(r.location)),
        None => {},
    }
}

/// No table differs between `a` and `b`.
pub open spec fn unchanged(a: &Store, b: &Store) -> bool {
    a.trackers@ == b.trackers@ && same_but_trackers(a, b)
}

/// Every table but `orders` and `played_videos` is the same in `a` and `b`.
pub open spec fn same_but_billing(a: &Store, b: &Store) -> bool {
    &&& a.trackers@ == b.trackers@
    &&& a.receivers@ == b.receivers@
    &&& a.displays@ == b.displays@
    &&& a.tracker_interests@ == b.tracker_interests@
    &&& a.videos@ == b.videos@
    &&& a.advertisement_orders@ == b.advertisement_orders@
}

/// `o` with `credits` in place of its balance.
pub open spec fn with_credits(o: Order, credits: int) -> Order {
    Order { id: o.id, credits: credits as i32, user: o.user }
}

/// Appends a row to the play log.
pub fn insert_played_video(db: &mut Store, video_id: i32, time_epoch: u64, order_id: &String)
    ensures
        same_but_billing(old(db), final(db)),
        final(db).orders@ == old(db).orders@,
        final(db).played_videos@ == old(db).played_videos@.push(
            PlayedVideo { video: video_id, time_epoch, order: *order_id },
        ),
{
    db.played_videos.push(PlayedVideo { video: video_id, time_epoch, order: order_id.clone() });
}

/// Takes `credits` off the balance of the order `order_id`. Nothing changes
/// when the order does not exist; the call fails, changing nothing, when the
/// new balance would not fit an `i32`.
pub fn draw_credits_for_order(db: &mut Store, order_id: &String, credits: i32) -> (r: Result<
    (),
    String,
>)
    ensures
        same_but_billing(old(db), final(db)),
        final(db).played_videos@ == old(db).played_videos@,
        match lookup_order(old(db).orders@, order_id@) {
            None => r is Ok && final(db).orders@ == old(db).orders@,
            Some(o) => if i32::MIN <= o.credits - credits <= i32::MAX {
                &&& r is Ok
                &&& final(db).orders@ == old(db).orders@.update(
                    first_index(order_ids(old(db).orders@), order_id@),
                    with_credits(o, o.credits - credits),
                )
            } else {
                r is Err && final(db).orders@ == old(db).orders@
            },
        },
{
    match order_index(&db.orders, order_id) {
        Some(i) => {
            let o = copy_order(&db.orders[i]);
            let balance = o.credits as i64 - credits as i64;
            if balance < i32::MIN as i64 || balance > i32::MAX as i64 {
                return Err("credit balance out of range".to_string());
            }
            db.orders.set(i, Order { id: o.id, credits: balance as i32, user: o.user });
            Ok(())
        },
        None => Ok(()),
    }
}

/// Replacing the row that a lookup finds by one with the same id keeps the
/// lookup on that row.
pub proof fn lemma_order_update_keeps_lookup(orders: Seq<Order>, id: Seq<char>, o: Order)
    requires
        first_index(order_ids(orders), id) >= 0,
        o.id@ == id,
    ensures
        lookup_order(orders.update(first_index(order_ids(orders), id), o), id) == Some(o),
{
    let p = first_index(order_ids(orders), id);
    lemma_first_index(order_ids(orders), id);
    let updated = orders.update(p, o);
    assert forall|j: int| 0 <= j < p implies order_ids(updated)[j] != id by {
        assert(order_ids(updated)[j] == order_ids(orders)[j]);
    }
    lemma_first_index_at(order_ids(updated), id, p);
}

} // verus!
