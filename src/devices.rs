//! Device services: placing trackers at the locations of receivers.
use vstd::prelude::*;
use crate::db::{
    first_index, get_receiver_by_id, get_tracker_by_id, lookup_receiver, lookup_tracker,
    register_tracker_to_receiver, same_but_trackers, tracker_ids, unchanged, unregister_tracker,
    Store,
};
use crate::model::{DeviceServiceError, Receiver, Tracker};

verus! {

/// `Ok` exactly when the receiver `station_id` exists.
pub fn validate_receiver_id(db: &Store, station_id: i32) -> (r: Result<(), &'static str>)
    ensures
        r is Ok <==> lookup_receiver(db.receivers@, station_id) is Some,
{
    match get_receiver_by_id(db, station_id) {
        Some(_) => Ok(()),
        None => Err("No such receiver exists"),
    }
}

/// `Ok` exactly when the tracker `tracker_id` exists.
pub fn validate_tracker_id(db: &Store, tracker_id: i32) -> (r: Result<(), &'static str>)
    ensures
        r is Ok <==> lookup_tracker(db.trackers@, tracker_id) is Some,
{
    match get_tracker_by_id(db, tracker_id) {
        Some(_) => Ok(()),
        None => Err("No such tracker exists"),
    }
}

/// The trackers after the tracker found by `id` is set to `location`.
pub open spec fn trackers_with_location(trackers: Seq<Tracker>, id: i32, location: Option<i32>) -> Seq<
    Tracker,
> {
    trackers.update(first_index(tracker_ids(trackers), id), Tracker { id, location })
}

/// Registers the tracker at the location of the receiver; an unknown receiver
/// is reported before an unknown tracker.
pub fn ftr_register_tracker_location(db: &mut Store, receiver_id: i32, tracker_id: i32) -> (r:
    Result<(), DeviceServiceError>)
    ensures
        match (lookup_receiver(old(db).receivers@, receiver_id), lookup_tracker(old(db).trackers@, tracker_id)) {
            (None, _) => r == Err::<(), DeviceServiceError>(DeviceServiceError::NoSuchReceiver)
                && unchanged(old(db), final(db)),
            (Some(_), None) => r == Err::<(), DeviceServiceError>(DeviceServiceError::NoSuchTracker)
                && unchanged(old(db), final(db)),
            (Some(rc), Some(_)) => r is Ok && same_but_trackers(old(db), final(db))
                && final(db).trackers@ == trackers_with_location(
                old(db).trackers@,
                tracker_id,
                Some(rc.location),
            ),
        },
{
    if validate_receiver_id(db, receiver_id).is_err() {
        return Err(DeviceServiceError::NoSuchReceiver);
    }
    if validate_tracker_id(db, tracker_id).is_err() {
        return Err(DeviceServiceError::NoSuchTracker);
    }
    register_tracker_to_receiver(db, receiver_id, tracker_id);
    Ok(())
}

/// Unregisters the tracker, but only where it is registered at the location
/// of this receiver; otherwise nothing changes. An unknown receiver is
/// reported before an unknown tracker.
pub fn ftr_unregister_tracker_location(db: &mut Store, receiver_id: i32, tracker_id: i32) -> (r:
    Result<(), DeviceServiceError>)
    ensures
        match (lookup_receiver(old(db).receivers@, receiver_id), lookup_tracker(old(db).trackers@, tracker_id)) {
            (None, _) => r == Err::<(), DeviceServiceError>(DeviceServiceError::NoSuchReceiver)
                && unchanged(old(db), final(db)),
            (Some(_), None) => r == Err::<(), DeviceServiceError>(DeviceServiceError::NoSuchTracker)
                && unchanged(old(db), final(db)),
            (Some(rc), Some(t)) => r is Ok && if t.location == Some(rc.location) {
                same_but_trackers(old(db), final(db)) && final(db).trackers@
                    == trackers_with_location(old(db).trackers@, tracker_id, None)
            } else {
                unchanged(old(db), final(db))
            },
        },
{
    let receiver: Receiver = match get_receiver_by_id(db, receiver_id) {
        Some(rc) => rc,
        None => return Err(DeviceServiceError::NoSuchReceiver),
    };
    let tracker: Tracker = match get_tracker_by_id(db, tracker_id) {
        Some(t) => t,
        None => return Err(DeviceServiceError::NoSuchTracker),
    };
    match tracker.location {
        Some(l) => {
            if l == receiver.location {
                unregister_tracker(db, tracker_id);
            }
        },
        None => {},
    }
    Ok(())
}

} // verus!
