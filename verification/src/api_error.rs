//! Errors of the HTTP interface, and how they are answered.
use vstd::prelude::*;
use vstd::string::*;

use crate::text::{chars_of, contains_chars, occurs_in};

verus! {

/// An error of the PIR protocol, in the abstract.
pub enum PirFault {
    MissingClientRegistration { crs_hash: Seq<char> },
    Inspire { message: Seq<char>, display: Seq<char> },
    InvalidIndex(Seq<char>),
    InvalidLevel(Seq<char>),
    InvalidRequest(Seq<char>),
    Other(Seq<char>),
}

/// An error of the PIR protocol.
#[derive(Debug)]
pub enum PirError {
    /// No client of this CRS hash is registered.
    MissingClientRegistration { crs_hash: String },
    /// An error of the PIR scheme: its message, and the error in words.
    Inspire { message: String, display: String },
    /// An index that does not exist; the error in words.
    InvalidIndex(String),
    /// A level that does not exist; the error in words.
    InvalidLevel(String),
    /// A request that is not well-formed; the error in words.
    InvalidRequest(String),
    /// Any other error in words.
    Other(String),
}

impl View for PirError {
    type V = PirFault;

    open spec fn view(&self) -> PirFault {
        match *self {
            PirError::MissingClientRegistration { crs_hash } =>
                PirFault::MissingClientRegistration { crs_hash: crs_hash@ },
            PirError::Inspire { message, display } => PirFault::Inspire {
                message: message@,
                display: display@,
            },
            PirError::InvalidIndex(display) => PirFault::InvalidIndex(display@),
            PirError::InvalidLevel(display) => PirFault::InvalidLevel(display@),
            PirError::InvalidRequest(display) => PirFault::InvalidRequest(display@),
            PirError::Other(display) => PirFault::Other(display@),
        }
    }
}

/// An error of the HTTP interface, in the abstract.
pub enum ApiFault {
    TreePir(PirFault),
    InvalidLayout(Seq<char>),
    InvalidCrsHash,
    InvalidClientCrs(Seq<char>),
    InvalidPathRequest(Seq<char>),
    InvalidPathResponse(Seq<char>),
    StaleLayout,
    Base64(Seq<char>),
    Bincode(Seq<char>),
    JsonWire(Seq<char>),
}

/// An error of the HTTP interface.
#[derive(Debug)]
pub enum ApiError {
    TreePir(PirError),
    InvalidLayout(String),
    InvalidCrsHash,
    InvalidClientCrs(String),
    InvalidPathRequest(String),
    InvalidPathResponse(String),
    StaleLayout,
    Base64(String),
    Bincode(String),
    JsonWire(String),
}

impl View for ApiError {
    type V = ApiFault;

    open spec fn view(&self) -> ApiFault {
        match *self {
            ApiError::TreePir(error) => ApiFault::TreePir(error@),
            ApiError::InvalidLayout(why) => ApiFault::InvalidLayout(why@),
            ApiError::InvalidCrsHash => ApiFault::InvalidCrsHash,
            ApiError::InvalidClientCrs(why) => ApiFault::InvalidClientCrs(why@),
            ApiError::InvalidPathRequest(why) => ApiFault::InvalidPathRequest(why@),
            ApiError::InvalidPathResponse(why) => ApiFault::InvalidPathResponse(why@),
            ApiError::StaleLayout => ApiFault::StaleLayout,
            ApiError::Base64(why) => ApiFault::Base64(why@),
            ApiError::Bincode(why) => ApiFault::Bincode(why@),
            ApiError::JsonWire(why) => ApiFault::JsonWire(why@),
        }
    }
}

/// The body of an answer to a request that was refused.
#[derive(Debug, Clone)]
pub struct ErrorResponse {
    pub error: String,
}

/// The error says that the layout is stale.
pub open spec fn is_stale(error: PirFault) -> bool {
    error matches PirFault::Inspire { message, .. } && occurs_in("stale layout"@, message)
}

impl PirFault {
    /// What is answered.
    pub open spec fn answer(self) -> Seq<char> {
        match self {
            PirFault::MissingClientRegistration { .. } => "missing client registration"@,
            PirFault::Inspire { display, .. } => if is_stale(self) {
                "stale layout; refresh layout and rebuild PIR query"@
            } else {
                display
            },
            PirFault::InvalidIndex(display) => display,
            PirFault::InvalidLevel(display) => display,
            PirFault::InvalidRequest(display) => display,
            PirFault::Other(display) => display,
        }
    }
}

impl ApiFault {
    /// The HTTP status of the answer.
    pub open spec fn status(self) -> u16 {
        match self {
            ApiFault::TreePir(PirFault::MissingClientRegistration { .. }) => 401,
            ApiFault::TreePir(error) => if is_stale(error) {
                409
            } else {
                400
            },
            ApiFault::StaleLayout => 409,
            _ => 400,
        }
    }

    /// What is answered.
    pub open spec fn answer(self) -> Seq<char> {
        match self {
            ApiFault::TreePir(error) => error.answer(),
            ApiFault::InvalidLayout(why) => "invalid layout: "@ + why,
            ApiFault::InvalidCrsHash => "invalid CRS hash"@,
            ApiFault::InvalidClientCrs(why) => "invalid client CRS: "@ + why,
            ApiFault::InvalidPathRequest(why) => "invalid path request: "@ + why,
            ApiFault::InvalidPathResponse(why) => "invalid path response: "@ + why,
            ApiFault::StaleLayout => "stale layout; refresh layout and rebuild PIR query"@,
            ApiFault::Base64(why) => "invalid base64: "@ + why,
            ApiFault::Bincode(why) => "invalid bincode: "@ + why,
            ApiFault::JsonWire(why) => "invalid json wire payload: "@ + why,
        }
    }
}

/// Whether the error says that the layout is stale.
pub fn is_stale_treepir_error(error: &PirError) -> (stale: bool)
    ensures
        stale == is_stale(error@),
{
    match error {
        PirError::Inspire { message, display: _ } => contains_chars(
            &chars_of(message.as_str()),
            &chars_of("stale layout"),
        ),
        _ => false,
    }
}

/// The error of a client that is not registered.
pub open spec fn missing_registration(crs_hash: Seq<char>) -> ApiFault {
    ApiFault::TreePir(PirFault::MissingClientRegistration { crs_hash })
}

/// The error of a client that is not registered.
pub fn missing_registration_error(crs_hash: &str) -> (error: ApiError)
    ensures
        error@ == missing_registration(crs_hash@),
{
    ApiError::TreePir(PirError::MissingClientRegistration { crs_hash: crs_hash.to_owned() })
}

/// `why` behind `front`.
fn behind(front: &str, why: &str) -> (out: String)
    ensures
        out@ == front@ + why@,
{
    let mut out = front.to_owned();
    out.append(why);
    out
}

impl ApiError {
    /// The HTTP status and the body of the answer.
    pub fn into_response(&self) -> (out: (u16, ErrorResponse))
        ensures
            out.0 == self@.status(),
            out.1.error@ == self@.answer(),
    {
        let stale = "stale layout; refresh layout and rebuild PIR query";
        let (status, error): (u16, String) = match self {
            ApiError::TreePir(error) => match error {
                PirError::MissingClientRegistration { crs_hash: _ } => (
                    401,
                    "missing client registration".to_owned(),
                ),
                PirError::Inspire { message: _, display } => if is_stale_treepir_error(error) {
                    (409, stale.to_owned())
                } else {
                    (400, display.as_str().to_owned())
                },
                PirError::InvalidIndex(display) => (400, display.as_str().to_owned()),
                PirError::InvalidLevel(display) => (400, display.as_str().to_owned()),
                PirError::InvalidRequest(display) => (400, display.as_str().to_owned()),
                PirError::Other(display) => (400, display.as_str().to_owned()),
            },
            ApiError::InvalidLayout(why) => (400, behind("invalid layout: ", why.as_str())),
            ApiError::InvalidCrsHash => (400, "invalid CRS hash".to_owned()),
            ApiError::InvalidClientCrs(why) => (400, behind("invalid client CRS: ", why.as_str())),
            ApiError::InvalidPathRequest(why) => (
                400,
                behind("invalid path request: ", why.as_str()),
            ),
            ApiError::InvalidPathResponse(why) => (
                400,
                behind("invalid path response: ", why.as_str()),
            ),
            ApiError::StaleLayout => (409, stale.to_owned()),
            ApiError::Base64(why) => (400, behind("invalid base64: ", why.as_str())),
            ApiError::Bincode(why) => (400, behind("invalid bincode: ", why.as_str())),
            ApiError::JsonWire(why) => (400, behind("invalid json wire payload: ", why.as_str())),
        };
        (status, ErrorResponse { error })
    }
}

} // verus!
