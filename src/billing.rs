//! Billing: recording a confirmed play and charging its order.
use vstd::prelude::*;
use crate::db::{
    draw_credits_for_order, first_index, get_display_by_id, insert_played_video,
    lemma_first_index, lemma_order_update_keeps_lookup, lookup_display, lookup_order,
    lookup_video, order_ids, order_index, same_but_billing, unchanged, video_index, with_credits, Store,
};
use crate::model::{PlayedVideo, VideoServiceError};

verus! {

/// Seconds of play that one credit pays for.
pub const SECONDS_PER_CREDIT: i32 = 8;

/// Credits charged for a play of `length_sec` seconds: one per started
/// `SECONDS_PER_CREDIT` seconds rounded down, and at least one.
pub open spec fn credits_for_play(length_sec: int) -> int {
    let q = length_sec / (SECONDS_PER_CREDIT as int);
    if q > 1 {
        q
    } else {
        1
    }
}

/// The error that a play of `video_id` on `display_id` charged to `order_id`
/// meets, checked in this order; `None` when all three exist.
pub open spec fn play_error(db: &Store, display_id: i32, video_id: i32, order_id: Seq<char>) -> Option<
    VideoServiceError,
> {
    if lookup_video(db.videos@, video_id) is None {
        Some(VideoServiceError::NoSuchVideo)
    } else if lookup_display(db.displays@, display_id) is None {
        Some(VideoServiceError::NoSuchDisplay)
    } else if lookup_order(db.orders@, order_id) is None {
        Some(VideoServiceError::NoSuchOrder)
    } else {
        None
    }
}

/// Charging the play leaves the balance of `order_id` within `i32`.
pub open spec fn charge_fits(db: &Store, order_id: Seq<char>, length_sec: i32) -> bool {
    lookup_order(db.orders@, order_id).unwrap().credits - credits_for_play(length_sec as int)
        >= i32::MIN
}

/// `after` is `before` with one play of `video_id` at `time_epoch` logged and
/// its charge taken off the order `order_id`.
pub open spec fn play_recorded(
    before: &Store,
    after: &Store,
    video_id: i32,
    order_id: &String,
    length_sec: i32,
    time_epoch: u64,
) -> bool {
    let o = lookup_order(before.orders@, order_id@).unwrap();
    &&& lookup_order(before.orders@, order_id@) is Some
    &&& o.credits - credits_for_play(length_sec as int) >= i32::MIN
    &&& same_but_billing(before, after)
    &&& after.orders@ == before.orders@.update(
        first_index(order_ids(before.orders@), order_id@),
        with_credits(o, o.credits - credits_for_play(length_sec as int)),
    )
    &&& after.played_videos@ == before.played_videos@.push(
        PlayedVideo { video: video_id, time_epoch, order: *order_id },
    )
}

/// Credits charged for a play of `length_sec` seconds.
pub fn play_charge(length_sec: i32) -> (r: i32)
    ensures
        r == credits_for_play(length_sec as int),
        r >= 1,
{
    let q = if length_sec >= 0 {
        length_sec / SECONDS_PER_CREDIT
    } else {
        0
    };
    if q > 1 {
        q
    } else {
        1
    }
}

/// Checks that the video, the display and the order of a play exist.
pub fn check_play(db: &Store, display_id: i32, video_id: i32, order_id: &String) -> (r: Result<
    (),
    VideoServiceError,
>)
    ensures
        match play_error(db, display_id, video_id, order_id@) {
            Some(e) => r == Err::<(), VideoServiceError>(e),
            None => r is Ok,
        },
{
    if video_index(&db.videos, video_id).is_none() {
        return Err(VideoServiceError::NoSuchVideo);
    }
    if get_display_by_id(db, display_id).is_none() {
        return Err(VideoServiceError::NoSuchDisplay);
    }
    if order_index(&db.orders, order_id).is_none() {
        return Err(VideoServiceError::NoSuchOrder);
    }
    Ok(())
}

/// Records a play at `time_epoch`: the play is logged and its order charged,
/// both or neither. Fails, changing nothing, when the video, the display or
/// the order does not exist, or when the charge would take the balance out
/// of `i32`.
pub fn record_play_at(
    db: &mut Store,
    display_id: i32,
    video_id: i32,
    order_id: &String,
    length_sec: i32,
    time_epoch: u64,
) -> (r: Result<(), VideoServiceError>)
    ensures
        match play_error(old(db), display_id, video_id, order_id@) {
            Some(e) => r == Err::<(), VideoServiceError>(e) && unchanged(old(db), final(db)),
            None => if charge_fits(old(db), order_id@, length_sec) {
                r is Ok && play_recorded(
                    old(db),
                    final(db),
                    video_id,
                    order_id,
                    length_sec,
                    time_epoch,
                )
            } else {
                r == Err::<(), VideoServiceError>(VideoServiceError::Other) && unchanged(
                    old(db),
                    final(db),
                )
            },
        },
{
    match check_play(db, display_id, video_id, order_id) {
        Err(e) => return Err(e),
        Ok(()) => {},
    }
    let charge = play_charge(length_sec);
    match draw_credits_for_order(db, order_id, charge) {
        Err(_) => return Err(VideoServiceError::Other),
        Ok(()) => {},
    }
    insert_played_video(db, video_id, time_epoch, order_id);
    Ok(())
}

/// Relies on std's `SystemTime::now`: the seconds since the Unix epoch, or
/// `None` when the clock stands before it. The value depends on the clock.
#[verifier::external_body]
fn epoch_seconds_now() -> (r: Option<u64>) {
    match std::time::SystemTime::now().duration_since(std::time::UNIX_EPOCH) {
        Ok(d) => Some(d.as_secs()),
        Err(_) => None,
    }
}

/// Records a play now. Fails, changing nothing, when the video, the display
/// or the order does not exist (checked in that order); otherwise the play is
/// logged at the current time and its order charged, both or neither.
pub fn register_video_view(
    db: &mut Store,
    display_id: i32,
    video_id: i32,
    order_id: &String,
    length_sec: i32,
) -> (r: Result<(), VideoServiceError>)
    ensures
        match play_error(old(db), display_id, video_id, order_id@) {
            Some(e) => r == Err::<(), VideoServiceError>(e) && unchanged(old(db), final(db)),
            None => match r {
                Ok(()) => exists|t: u64|
                    play_recorded(old(db), final(db), video_id, order_id, length_sec, t),
                Err(e) => e == VideoServiceError::Other && unchanged(old(db), final(db)),
            },
        },
{
    match check_play(db, display_id, video_id, order_id) {
        Err(e) => return Err(e),
        Ok(()) => {},
    }
    match epoch_seconds_now() {
        Some(t) => record_play_at(db, display_id, video_id, order_id, length_sec, t),
        None => Err(VideoServiceError::Other),
    }
}

/// Recording the same play twice charges its order twice and logs two rows:
/// recording is not idempotent.
pub proof fn lemma_two_plays_charge_twice(
    s0: &Store,
    s1: &Store,
    s2: &Store,
    video_id: i32,
    order_id: &String,
    length_sec: i32,
    t1: u64,
    t2: u64,
)
    requires
        play_recorded(s0, s1, video_id, order_id, length_sec, t1),
        play_recorded(s1, s2, video_id, order_id, length_sec, t2),
    ensures
        lookup_order(s2.orders@, order_id@).unwrap().credits == lookup_order(
            s0.orders@,
            order_id@,
        ).unwrap().credits - 2 * credits_for_play(length_sec as int),
        s2.played_videos@ == s0.played_videos@.push(
            PlayedVideo { video: video_id, time_epoch: t1, order: *order_id },
        ).push(PlayedVideo { video: video_id, time_epoch: t2, order: *order_id }),
{
    let o0 = lookup_order(s0.orders@, order_id@).unwrap();
    let o1 = with_credits(o0, o0.credits - credits_for_play(length_sec as int));
    lemma_first_index(order_ids(s0.orders@), order_id@);
    assert(order_ids(s0.orders@)[first_index(order_ids(s0.orders@), order_id@)] == o0.id@);
    lemma_order_update_keeps_lookup(s0.orders@, order_id@, o1);
    let o2 = lookup_order(s2.orders@, order_id@).unwrap();
    lemma_order_update_keeps_lookup(
        s1.orders@,
        order_id@,
        with_credits(o1, o1.credits - credits_for_play(length_sec as int)),
    );
}

} // verus!
