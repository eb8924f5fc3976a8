use iot_ads::billing::register_video_view;
use iot_ads::db::Store;
use iot_ads::devices::{
    ftr_register_tracker_location, ftr_unregister_tracker_location, validate_receiver_id,
    validate_tracker_id,
};
use iot_ads::model::{
    AdvertisementOrder, DeviceServiceError, Display, Order, Receiver, Tracker, TrackerInterest,
    Video, VideoServiceError,
};
use iot_ads::selection::find_relevant_video;

fn empty_store() -> Store {
    Store {
        trackers: vec![],
        receivers: vec![],
        displays: vec![],
        tracker_interests: vec![],
        videos: vec![],
        orders: vec![],
        advertisement_orders: vec![],
        played_videos: vec![],
    }
}

#[test]
fn register_video_view_for_nonexistent_video_unittest() {
    let mut db = empty_store();
    assert!(
        match register_video_view(&mut db, 2, 1, &"order_id".to_owned(), 100) {
            Err(VideoServiceError::NoSuchVideo) => true,
            _ => false,
        },
        "incorrect error type on register"
    )
}

#[test]
fn register_video_view_for_nonexistent_display_unittest() {
    let mut db = empty_store();
    db.videos.push(Video { id: 1, interest: 1, url: "interest_1".to_owned(), length_sec: 1 });
    assert!(
        match register_video_view(&mut db, 2, 1, &"order_id".to_owned(), 100) {
            Err(VideoServiceError::NoSuchDisplay) => true,
            _ => false,
        },
        "incorrect error type on register"
    )
}

#[test]
fn register_video_view_success_unittest() {
    let mut db = empty_store();
    db.videos.push(Video { id: 1, interest: 1, url: "interest_1".to_owned(), length_sec: 1 });
    db.displays.push(Display { id: 2, location: 1 });
    db.orders.push(Order { id: "order_id".to_owned(), credits: 100, user: "user_1".to_owned() });
    assert!(
        match register_video_view(&mut db, 2, 1, &"order_id".to_owned(), 100) {
            Ok(()) => true,
            _ => false,
        },
        "incorrect error type on register"
    );
    assert_eq!(db.orders[0].credits, 100 - 12);
    assert_eq!(db.played_videos.len(), 1);
}

#[test]
fn get_video_with_notexistent_display_unittest() {
    let db = empty_store();
    assert!(
        match find_relevant_video(&db, 1) {
            Err(VideoServiceError::NoSuchDisplayLocation) => true,
            _ => false,
        },
        "incorrect error on find relevant video"
    )
}

#[test]
fn get_video_with_no_trackers_at_display_unittest() {
    let mut db = empty_store();
    db.displays.push(Display { id: 1, location: 1 });
    assert!(
        match find_relevant_video(&db, 1) {
            Ok(None) => true,
            _ => false,
        },
        "incorrect error on find relevant video"
    )
}

#[test]
fn get_video_success_unittest() {
    let mut db = empty_store();
    db.displays.push(Display { id: 1, location: 1 });
    db.trackers.push(Tracker { id: 7, location: Some(1) });
    db.tracker_interests.push(TrackerInterest { tracker: 7, interest: 1, weight: 1 });
    db.videos.push(Video {
        id: 1,
        interest: 1,
        url: "example.com/video".to_owned(),
        length_sec: 100,
    });
    db.orders.push(Order { id: "order_1".to_owned(), credits: 100, user: "user_1".to_owned() });
    db.advertisement_orders.push(AdvertisementOrder { video: 1, order: "order_1".to_owned() });
    let found = find_relevant_video(&db, 1);
    assert!(
        match &found {
            Ok(Some(v)) => v.video_id == 1 && v.interest == 1 && v.length_sec == 100,
            _ => false,
        },
        "incorrect error on find relevant video"
    )
}

fn device_store(tracker_location: Option<i32>) -> Store {
    let mut db = empty_store();
    db.receivers.push(Receiver { id: 10, location: 1 });
    db.trackers.push(Tracker { id: 20, location: tracker_location });
    db
}

#[test]
fn validate_nonexistant_tracker_unittest() {
    let db = empty_store();
    assert!(
        match validate_tracker_id(&db, 20) {
            Err(_) => true,
            _ => false,
        },
        "Wrong value returned when validating nonextistant tracker"
    );
}

#[test]
fn validate_tracker_unittest() {
    let db = device_store(None);
    assert!(
        match validate_tracker_id(&db, 20) {
            Ok(()) => true,
            _ => false,
        },
        "Wrong value returned when validating tracker"
    );
}

#[test]
fn validate_nonexistant_receiver_unittest() {
    let db = empty_store();
    assert!(
        match validate_receiver_id(&db, 10) {
            Err(_) => true,
            _ => false,
        },
        "Wrong value returned when validating nonextistant tracker"
    );
}

#[test]
fn validate_tracker_receiver_unittest() {
    let db = device_store(None);
    assert!(
        match validate_receiver_id(&db, 10) {
            Ok(()) => true,
            _ => false,
        },
        "Wrong value returned when validating tracker"
    );
}

#[test]
fn ftr_register_tracker_location_when_nonexistent_receiver_unittest() {
    let mut db = empty_store();
    db.trackers.push(Tracker { id: 20, location: None });
    assert!(match ftr_register_tracker_location(&mut db, 10, 20) {
        Err(DeviceServiceError::NoSuchReceiver) => true,
        _ => false,
    })
}

#[test]
fn ftr_register_tracker_location_when_nonexistent_tracker_unittest() {
    let mut db = empty_store();
    db.receivers.push(Receiver { id: 10, location: 1 });
    assert!(match ftr_register_tracker_location(&mut db, 10, 20) {
        Err(DeviceServiceError::NoSuchTracker) => true,
        _ => false,
    })
}

#[test]
fn ftr_register_tracker_location_success_unittest() {
    let mut db = device_store(None);
    assert!(match ftr_register_tracker_location(&mut db, 10, 20) {
        Ok(()) => true,
        _ => false,
    });
    assert_eq!(db.trackers[0].location, Some(1));
}

#[test]
fn ftr_unregister_tracker_from_receiver_where_tracker_is_not_in_same_location_unittest() {
    let mut db = device_store(Some(2));
    assert!(match ftr_unregister_tracker_location(&mut db, 10, 20) {
        Ok(()) => true,
        _ => false,
    });
    assert_eq!(db.trackers[0].location, Some(2));
}

#[test]
fn ftr_unregister_tracker_from_receiver_success_unittest() {
    let mut db = device_store(Some(1));
    assert!(match ftr_unregister_tracker_location(&mut db, 10, 20) {
        Ok(()) => true,
        _ => false,
    });
    assert_eq!(db.trackers[0].location, None);
}

#[test]
fn ftr_unregister_tracker_from_receiver_where_receiver_nonexistent_unittest() {
    let mut db = empty_store();
    db.trackers.push(Tracker { id: 20, location: Some(1) });
    assert!(match ftr_unregister_tracker_location(&mut db, 10, 20) {
        Err(_) => true,
        _ => false,
    })
}

#[test]
fn ftr_unregister_tracker_from_receiver_where_tracker_nonexistent_unittest() {
    let mut db = empty_store();
    db.receivers.push(Receiver { id: 10, location: 1 });
    assert!(match ftr_unregister_tracker_location(&mut db, 10, 20) {
        Err(_) => true,
        _ => false,
    })
}
