use iot_ads::billing::{play_charge, record_play_at, register_video_view};
use iot_ads::db::{draw_credits_for_order, get_order_by_id, Store};
use iot_ads::eligibility::find_eligible_videos_by_interest;
use iot_ads::environment::{db_vars_for, DbVars};
use iot_ads::interests::get_interests_at_location;
use iot_ads::model::{
    AdvertVideoOrder, AdvertisementOrder, Display, Order, Tracker, TrackerInterest, Video,
    VideoServiceError,
};
use iot_ads::selection::{find_relevant_video, select_from_ranked};

const SPORT: i32 = 1;
const MOVIES: i32 = 2;

fn empty_store() -> Store {
    Store {
        trackers: vec![],
        receivers: vec![],
        displays: vec![],
        tracker_interests: vec![],
        videos: vec![],
        orders: vec![],
        advertisement_orders: vec![],
        played_videos: vec![],
    }
}

fn order(id: &str, credits: i32) -> Order {
    Order { id: id.to_owned(), credits, user: "user@example.com".to_owned() }
}

fn video(id: i32, interest: i32, url: &str) -> Video {
    Video { id, interest, url: url.to_owned(), length_sec: 30 }
}

fn sponsor(video: i32, order: &str) -> AdvertisementOrder {
    AdvertisementOrder { video, order: order.to_owned() }
}

/// A display at location 1 with one tracker there per given (interest, weight).
fn store_with_interests(weights: &[(i32, u32)]) -> Store {
    let mut db = empty_store();
    db.displays.push(Display { id: 1, location: 1 });
    for (k, (interest, weight)) in weights.iter().enumerate() {
        let tracker = 100 + k as i32;
        db.trackers.push(Tracker { id: tracker, location: Some(1) });
        db.tracker_interests.push(TrackerInterest { tracker, interest: *interest, weight: *weight });
    }
    db
}

fn candidate(interest: i32, url: &str) -> AdvertVideoOrder {
    AdvertVideoOrder {
        video_id: interest,
        interest,
        url: url.to_owned(),
        length_sec: 30,
        order: "o".to_owned(),
    }
}

#[test]
fn no_trackers_gives_no_interests() {
    let mut db = store_with_interests(&[]);
    db.trackers.push(Tracker { id: 5, location: Some(2) });
    db.trackers.push(Tracker { id: 6, location: None });
    db.tracker_interests.push(TrackerInterest { tracker: 5, interest: SPORT, weight: 9 });
    db.tracker_interests.push(TrackerInterest { tracker: 6, interest: SPORT, weight: 9 });
    assert!(get_interests_at_location(&db, 1).is_none());
}

#[test]
fn interests_are_summed_and_sorted() {
    let mut db = store_with_interests(&[(SPORT, 10), (MOVIES, 15), (SPORT, 7), (3, 2)]);
    db.trackers.push(Tracker { id: 9, location: Some(2) });
    db.tracker_interests.push(TrackerInterest { tracker: 9, interest: 3, weight: 50 });
    let ranked = get_interests_at_location(&db, 1).unwrap();
    assert_eq!(ranked, vec![(SPORT, 17), (MOVIES, 15), (3, 2)]);
    for w in ranked.windows(2) {
        assert!(w[0].1 >= w[1].1);
    }
}

#[test]
fn large_weights_do_not_overflow() {
    let db = store_with_interests(&[(SPORT, u32::MAX), (SPORT, u32::MAX), (SPORT, u32::MAX)]);
    let ranked = get_interests_at_location(&db, 1).unwrap();
    assert_eq!(ranked, vec![(SPORT, 3 * u32::MAX as u128)]);
}

#[test]
fn eligible_needs_credit_and_interest() {
    let mut db = empty_store();
    db.videos.push(video(1, SPORT, "a"));
    db.videos.push(video(2, MOVIES, "b"));
    db.orders.push(order("paid", 3));
    db.orders.push(order("empty", 0));
    db.orders.push(order("paid2", 1));
    db.advertisement_orders.push(sponsor(1, "paid"));
    db.advertisement_orders.push(sponsor(1, "empty"));
    db.advertisement_orders.push(sponsor(1, "paid2"));
    db.advertisement_orders.push(sponsor(2, "paid"));
    db.advertisement_orders.push(sponsor(3, "paid"));
    let found = find_eligible_videos_by_interest(&db, vec![SPORT]).unwrap();
    let orders: Vec<&str> = found.iter().map(|c| c.order.as_str()).collect();
    assert_eq!(orders, vec!["paid", "paid2"]);
    assert!(found.iter().all(|c| c.video_id == 1 && c.interest == SPORT && c.url == "a"));
}

#[test]
fn eligible_empty_interests_or_no_match() {
    let mut db = empty_store();
    db.videos.push(video(1, SPORT, "a"));
    db.orders.push(order("paid", 3));
    db.advertisement_orders.push(sponsor(1, "paid"));
    assert!(find_eligible_videos_by_interest(&db, vec![]).is_none());
    assert!(find_eligible_videos_by_interest(&db, vec![MOVIES]).is_none());
}

#[test]
fn select_from_ranked_takes_best_ranked_interest() {
    let ranked = vec![(MOVIES, 90u128), (SPORT, 10u128)];
    let cands = vec![candidate(SPORT, "s1"), candidate(MOVIES, "m1"), candidate(MOVIES, "m2")];
    let chosen = select_from_ranked(&ranked, &cands).unwrap();
    assert_eq!(chosen.url, "m1");
    let only_sport = vec![candidate(SPORT, "s1"), candidate(SPORT, "s2")];
    assert_eq!(select_from_ranked(&ranked, &only_sport).unwrap().url, "s1");
    assert!(select_from_ranked(&ranked, &vec![candidate(3, "x")]).is_none());
    assert!(select_from_ranked(&vec![], &only_sport).is_none());
}

#[test]
fn higher_tier_always_wins() {
    let mut db = store_with_interests(&[(SPORT, 10), (MOVIES, 90)]);
    db.videos.push(video(1, SPORT, "sport"));
    db.videos.push(video(2, MOVIES, "movies"));
    db.orders.push(order("o", 5));
    db.advertisement_orders.push(sponsor(1, "o"));
    db.advertisement_orders.push(sponsor(2, "o"));
    for _ in 0..50 {
        let chosen = find_relevant_video(&db, 1).unwrap().unwrap();
        assert_eq!(chosen.url, "movies");
    }
}

#[test]
fn ties_within_a_tier_are_shuffled() {
    let mut db = store_with_interests(&[(SPORT, 10)]);
    db.videos.push(video(1, SPORT, "first"));
    db.videos.push(video(2, SPORT, "second"));
    db.orders.push(order("o", 5));
    db.advertisement_orders.push(sponsor(1, "o"));
    db.advertisement_orders.push(sponsor(2, "o"));
    let mut seen_second = false;
    for _ in 0..200 {
        let chosen = find_relevant_video(&db, 1).unwrap().unwrap();
        assert!(chosen.url == "first" || chosen.url == "second");
        if chosen.url == "second" {
            seen_second = true;
        }
    }
    assert!(seen_second);
}

#[test]
fn single_sport_video_is_selected() {
    let mut db = store_with_interests(&[(SPORT, 100)]);
    db.videos.push(video(11, SPORT, "videoA"));
    db.orders.push(order("o", 5));
    db.advertisement_orders.push(sponsor(11, "o"));
    let chosen = find_relevant_video(&db, 1).unwrap().unwrap();
    assert_eq!(chosen.video_id, 11);
    assert_eq!(chosen.url, "videoA");
}

#[test]
fn lower_tier_selected_when_top_has_no_video() {
    let mut db = store_with_interests(&[(SPORT, 10), (MOVIES, 90)]);
    db.videos.push(video(11, SPORT, "sportVideo"));
    db.orders.push(order("o", 5));
    db.advertisement_orders.push(sponsor(11, "o"));
    let chosen = find_relevant_video(&db, 1).unwrap().unwrap();
    assert_eq!(chosen.interest, SPORT);
    assert_eq!(chosen.url, "sportVideo");
}

#[test]
fn no_eligible_video_gives_none() {
    let mut db = store_with_interests(&[(SPORT, 10)]);
    db.videos.push(video(11, SPORT, "sportVideo"));
    db.orders.push(order("o", 0));
    db.advertisement_orders.push(sponsor(11, "o"));
    assert!(matches!(find_relevant_video(&db, 1), Ok(None)));
}

fn billing_store(credits: i32) -> Store {
    let mut db = empty_store();
    db.displays.push(Display { id: 1, location: 1 });
    db.videos.push(video(11, SPORT, "v"));
    db.orders.push(order("o", credits));
    db
}

#[test]
fn charge_formula() {
    assert_eq!(play_charge(16), 2);
    assert_eq!(play_charge(1), 1);
    assert_eq!(play_charge(0), 1);
    assert_eq!(play_charge(7), 1);
    assert_eq!(play_charge(8), 1);
    assert_eq!(play_charge(15), 1);
    assert_eq!(play_charge(17), 2);
    assert_eq!(play_charge(100), 12);
    assert_eq!(play_charge(-40), 1);
    assert_eq!(play_charge(i32::MAX), i32::MAX / 8);
}

#[test]
fn play_of_sixteen_seconds_charges_two() {
    let mut db = billing_store(5);
    let id = "o".to_owned();
    assert_eq!(record_play_at(&mut db, 1, 11, &id, 16, 1000), Ok(()));
    assert_eq!(db.orders[0].credits, 3);
    assert_eq!(db.played_videos.len(), 1);
    assert_eq!(db.played_videos[0].video, 11);
    assert_eq!(db.played_videos[0].time_epoch, 1000);
    assert_eq!(db.played_videos[0].order, "o");
}

#[test]
fn play_of_one_second_charges_one() {
    let mut db = billing_store(5);
    assert_eq!(record_play_at(&mut db, 1, 11, &"o".to_owned(), 1, 1000), Ok(()));
    assert_eq!(db.orders[0].credits, 4);
    assert_eq!(db.played_videos.len(), 1);
}

#[test]
fn recording_twice_charges_twice() {
    let mut db = billing_store(5);
    let id = "o".to_owned();
    assert_eq!(record_play_at(&mut db, 1, 11, &id, 16, 1000), Ok(()));
    assert_eq!(record_play_at(&mut db, 1, 11, &id, 16, 1000), Ok(()));
    assert_eq!(db.orders[0].credits, 1);
    assert_eq!(db.played_videos.len(), 2);
}

#[test]
fn credits_may_go_negative() {
    let mut db = billing_store(1);
    assert_eq!(record_play_at(&mut db, 1, 11, &"o".to_owned(), 80, 5), Ok(()));
    assert_eq!(db.orders[0].credits, -9);
}

#[test]
fn unknown_video_writes_nothing() {
    let mut db = billing_store(5);
    let r = record_play_at(&mut db, 1, 99, &"o".to_owned(), 16, 1000);
    assert_eq!(r, Err(VideoServiceError::NoSuchVideo));
    assert_eq!(db.orders[0].credits, 5);
    assert!(db.played_videos.is_empty());
}

#[test]
fn unknown_display_and_order_are_reported() {
    let mut db = billing_store(5);
    assert_eq!(
        record_play_at(&mut db, 2, 11, &"o".to_owned(), 16, 1000),
        Err(VideoServiceError::NoSuchDisplay)
    );
    assert_eq!(
        record_play_at(&mut db, 1, 11, &"x".to_owned(), 16, 1000),
        Err(VideoServiceError::NoSuchOrder)
    );
    assert_eq!(db.orders[0].credits, 5);
    assert!(db.played_videos.is_empty());
}

#[test]
fn out_of_range_balance_fails_without_writes() {
    let mut db = billing_store(i32::MIN);
    assert_eq!(
        record_play_at(&mut db, 1, 11, &"o".to_owned(), 16, 1000),
        Err(VideoServiceError::Other)
    );
    assert_eq!(db.orders[0].credits, i32::MIN);
    assert!(db.played_videos.is_empty());
    assert!(draw_credits_for_order(&mut db, &"o".to_owned(), 1).is_err());
    assert!(draw_credits_for_order(&mut db, &"none".to_owned(), 1).is_ok());
}

#[test]
fn register_view_logs_current_time() {
    let mut db = billing_store(5);
    assert_eq!(register_video_view(&mut db, 1, 11, &"o".to_owned(), 24), Ok(()));
    assert_eq!(db.orders[0].credits, 2);
    assert_eq!(db.played_videos.len(), 1);
    assert!(db.played_videos[0].time_epoch > 1_600_000_000);
}

#[test]
fn order_lookup_by_id() {
    let mut db = billing_store(5);
    db.orders.push(order("p", 7));
    assert_eq!(get_order_by_id(&db, &"p".to_owned()).unwrap().credits, 7);
    assert!(get_order_by_id(&db, &"q".to_owned()).is_none());
}

#[test]
fn environment_variables_by_environment() {
    let prod: DbVars = db_vars_for(&"PRODUCTION".to_owned());
    assert_eq!(prod.host_var, "SQL_HOST");
    assert_eq!(prod.pass_var, "SQL_PASSWORD");
    let test = db_vars_for(&"TEST".to_owned());
    assert_eq!(test.host_var, "SQL_HOST_TEST");
    assert_eq!(test.db_var, "SQL_DB_NAME_TEST");
    assert_eq!(test.user_var, "SQL_USERNAME_TEST");
}

#[test]
fn version_banner() {
    assert_eq!(iot_ads::endpoints::default(), "IoT server v1.0.0");
}
