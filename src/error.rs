use vstd::prelude::*;

verus! {

/// Errors that the relay server reports to its HTTP clients.
#[derive(Clone, Copy, Debug, PartialEq, Eq, Structural)]
pub enum Error {
    YahtzeeLobbyAlreadyExists,
    YahtzeeLobbyNotFound,
    YahtzeeMessageSerializationError,
}

/// HTTP status code for a bad request.
pub const BAD_REQUEST: u16 = 400;

/// HTTP status code for an internal server error.
pub const INTERNAL_SERVER_ERROR: u16 = 500;

impl Error {
    /// The status code and the short error text shown to the client: a missing
    /// lobby is the client's fault, anything else is the service's.
    pub fn client_status_and_error(&self) -> (r: (u16, &'static str))
        ensures
            *self == Error::YahtzeeLobbyNotFound ==> r.0 == BAD_REQUEST && r.1@ == "INVALID_LOBBY"@,
            *self != Error::YahtzeeLobbyNotFound ==> r.0 == INTERNAL_SERVER_ERROR && r.1@
                == "SERVICE_ERROR"@,
    {
        match self {
            Error::YahtzeeLobbyNotFound => {
                proof {
                    reveal_strlit("INVALID_LOBBY");
                }
                (BAD_REQUEST, "INVALID_LOBBY")
            },
            _ => {
                proof {
                    reveal_strlit("SERVICE_ERROR");
                }
                (INTERNAL_SERVER_ERROR, "SERVICE_ERROR")
            },
        }
    }
}

} // verus!
