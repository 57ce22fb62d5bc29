use vstd::prelude::*;

verus! {

/// The service-level error classes the layer around the library maps
/// failures onto before answering a client. Client-caused classes carry
/// a message; `ExternalError` carries the rendered message of an error
/// from a collaborator.
#[derive(Clone, Debug)]
pub enum ServiceError {
    BadRequest(String),
    Unauthorized(String),
    Forbidden(String),
    NotFound(String),
    Conflict(String),
    ValidationError(String),
    ServiceUnavailable,
    DataBaseError(String),
    InternalServerError,
    ExternalError(String),
}

/// The detail line a service error shows a client, if its class shows
/// one: a fixed prefix naming the class, then the error's message.
pub open spec fn spec_details(e: ServiceError) -> Option<Seq<char>> {
    match e {
        ServiceError::BadRequest(m) => Some("Invalid Input : "@ + m@),
        ServiceError::Unauthorized(m) => Some("Unauthorized: "@ + m@),
        ServiceError::Forbidden(m) => Some("Forbidden: "@ + m@),
        ServiceError::NotFound(m) => Some("NotFound: "@ + m@),
        ServiceError::Conflict(m) => Some("Conflict: "@ + m@),
        _ => None,
    }
}

impl ServiceError {
    /// The detail line shown to a client, for the classes that have
    /// one; server-side classes reveal nothing.
    pub fn details(&self) -> (r: Option<String>)
        ensures
            match r {
                Some(s) => spec_details(*self) == Some(s@),
                None => spec_details(*self) is None,
            },
    {
        match self {
            ServiceError::BadRequest(m) => {
                let mut s = String::new();
                s.append("Invalid Input : ");
                s.append(m.as_str());
                Some(s)
            },
            ServiceError::Unauthorized(m) => {
                let mut s = String::new();
                s.append("Unauthorized: ");
                s.append(m.as_str());
                Some(s)
            },
            ServiceError::Forbidden(m) => {
                let mut s = String::new();
                s.append("Forbidden: ");
                s.append(m.as_str());
                Some(s)
            },
            ServiceError::NotFound(m) => {
                let mut s = String::new();
                s.append("NotFound: ");
                s.append(m.as_str());
                Some(s)
            },
            ServiceError::Conflict(m) => {
                let mut s = String::new();
                s.append("Conflict: ");
                s.append(m.as_str());
                Some(s)
            },
            _ => None,
        }
    }
}

/// The body of an error answer: the error's rendered text and the
/// optional detail line of `ServiceError::details`.
#[derive(Clone, Debug)]
pub struct ErrorResponse {
    pub error: String,
    pub details: Option<String>,
}

/// The claims carried in an access token: the subject, an optional
/// session identity, and the expiry as seconds since the epoch. Token
/// signing and checking live outside the library.
#[derive(Clone, Debug)]
pub struct Claims {
    pub sub: String,
    pub session: Option<String>,
    pub exp: i64,
}

/// One outbound frame for a connected client, as the transport layer
/// delivers it: text or bytes.
#[derive(Clone, Debug)]
pub enum Outgoing {
    Text(String),
    Binary(Vec<u8>),
}

} // verus!
