//! Presence tracking and advertisement selection for RFID-tracked locations.
//!
//! Trackers are placed at locations by receivers; the interests of the
//! trackers present at a display's location decide which sponsored video the
//! display plays, and each confirmed play is charged to a prepaid order.
pub mod model;
pub mod db;
pub mod interests;
pub mod eligibility;
pub mod selection;
pub mod billing;
pub mod devices;
pub mod environment;
pub mod endpoints;
