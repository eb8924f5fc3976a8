//! Rows of the data store and the values handed to callers.
use vstd::prelude::*;

verus! {

/// A video as returned by a lookup by id.
#[derive(Debug, Clone)]
pub struct AdvertVideo {
    pub interest: i32,
    pub url: String,
    pub length_sec: i32,
}

/// A prepaid order; each play of a sponsored video draws on its credits.
#[derive(Debug, Clone)]
pub struct Order {
    pub id: String,
    pub credits: i32,
    pub user: String,
}

/// A video together with one order that sponsors it: a candidate for play.
#[derive(Debug, Clone)]
pub struct AdvertVideoOrder {
    pub video_id: i32,
    pub interest: i32,
    pub url: String,
    pub length_sec: i32,
    pub order: String,
}

/// An RFID tag; `location` is `None` while it is not registered anywhere.
#[derive(Debug, Clone, Copy, PartialEq, Eq, Structural)]
pub struct Tracker {
    pub id: i32,
    pub location: Option<i32>,
}

/// An RFID reader fixed at a location.
#[derive(Debug, Clone, Copy, PartialEq, Eq, Structural)]
pub struct Receiver {
    pub id: i32,
    pub location: i32,
}

/// A screen fixed at a location.
#[derive(Debug, Clone, Copy, PartialEq, Eq, Structural)]
pub struct Display {
    pub id: i32,
    pub location: i32,
}

/// An advertising agency.
#[derive(Debug, Clone)]
pub struct Agency {
    pub name: String,
    pub orgnr: String,
}

/// How strongly a tracker cares about an interest.
#[derive(Debug, Clone, Copy, PartialEq, Eq, Structural)]
pub struct TrackerInterest {
    pub tracker: i32,
    pub interest: i32,
    pub weight: u32,
}

/// A stored advertisement video.
#[derive(Debug, Clone)]
pub struct Video {
    pub id: i32,
    pub interest: i32,
    pub url: String,
    pub length_sec: i32,
}

/// Sponsorship of a video by an order.
#[derive(Debug, Clone)]
pub struct AdvertisementOrder {
    pub video: i32,
    pub order: String,
}

/// One confirmed play, charged to `order`.
#[derive(Debug, Clone)]
pub struct PlayedVideo {
    pub video: i32,
    pub time_epoch: u64,
    pub order: String,
}

/// Why a video could not be selected or a play not recorded.
#[derive(Debug, Clone, Copy, PartialEq, Eq, Structural)]
pub enum VideoServiceError {
    NoSuchVideo,
    NoSuchDisplay,
    NoSuchOrder,
    NoSuchDisplayLocation,
    Other,
}

/// Why a tracker could not be registered or unregistered.
#[derive(Debug, Clone, Copy, PartialEq, Eq, Structural)]
pub enum DeviceServiceError {
    NoSuchTracker,
    NoSuchReceiver,
    Other,
}

} // verus!
