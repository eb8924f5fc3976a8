//! Values that the HTTP layer reads from requests, and its fixed replies.
use vstd::prelude::*;

verus! {

/// Body of a request that reports a play.
pub struct VideoBody {
    pub length_sec: i32,
}

/// Body of a request that registers a tracker at a location.
pub struct RegisterBody {
    pub loc: String,
    pub tag: String,
}

/// A request body read whole as text.
pub struct StrCont {
    pub data: String,
}

/// A message or error that a client asks to log.
pub struct LogMessage {
    pub error: bool,
    pub message: String,
}

/// The version banner, which also shows that the service is up.
pub fn default() -> (r: &'static str)
    ensures
        r@ == "IoT server v1.0.0"@,
{
    "IoT server v1.0.0"
}

} // verus!
