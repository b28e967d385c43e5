use vstd::prelude::*;
use vstd::string::*;

verus! {

/// The errors of the event bus.  Errors that come from the transport, the
/// JSON codec, storage or the operating system carry their description.
#[derive(Debug)]
pub enum EventBusError {
    WebSocket(String),
    Serialization(String),
    Storage(String),
    IoError(String),
    Connection(String),
    InvalidMessage(String),
    ChannelClosed,
    NotImplemented,
    Timeout,
    Unknown(String),
}

/// The text that describes an error.
pub open spec fn error_text(e: EventBusError) -> Seq<char> {
    match e {
        EventBusError::WebSocket(s) => "WebSocket error: "@ + s@,
        EventBusError::Serialization(s) => "Serialization error: "@ + s@,
        EventBusError::Storage(s) => "Storage error: "@ + s@,
        EventBusError::IoError(s) => "Connection failed: "@ + s@,
        EventBusError::Connection(s) => "IO Error: "@ + s@,
        EventBusError::InvalidMessage(s) => "Invalid message format: "@ + s@,
        EventBusError::ChannelClosed => "Channel closed"@,
        EventBusError::NotImplemented => "Not Implemented"@,
        EventBusError::Timeout => "Timeout error"@,
        EventBusError::Unknown(s) => "Unknown error "@ + s@,
    }
}

fn prefixed(prefix: &str, detail: &String) -> (r: String)
    ensures
        r@ == prefix@ + detail@,
{
    String::from_str(prefix).concat(detail.as_str())
}

impl EventBusError {
    /// The text that describes the error.
    pub fn to_string(&self) -> (r: String)
        ensures
            r@ == error_text(*self),
    {
        match self {
            EventBusError::WebSocket(s) => prefixed("WebSocket error: ", s),
            EventBusError::Serialization(s) => prefixed("Serialization error: ", s),
            EventBusError::Storage(s) => prefixed("Storage error: ", s),
            EventBusError::IoError(s) => prefixed("Connection failed: ", s),
            EventBusError::Connection(s) => prefixed("IO Error: ", s),
            EventBusError::InvalidMessage(s) => prefixed("Invalid message format: ", s),
            EventBusError::ChannelClosed => String::from_str("Channel closed"),
            EventBusError::NotImplemented => String::from_str("Not Implemented"),
            EventBusError::Timeout => String::from_str("Timeout error"),
            EventBusError::Unknown(s) => prefixed("Unknown error ", s),
        }
    }
}

} // verus!
