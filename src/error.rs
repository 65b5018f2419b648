//! The errors of the framework and the HTTP status that each one answers with.
use vstd::prelude::*;

verus! {

#[verifier::external_type_specification]
#[verifier::external_body]
pub struct ExIoError(std::io::Error);

#[verifier::external_type_specification]
#[verifier::external_body]
pub struct ExJsonError(serde_json::Error);

#[derive(Debug)]
pub enum XpressError {
    IoError(std::io::Error),
    JsonError(serde_json::Error),
    MutexError(String),
    NotFound(String),
    MethodNotAllowed(String),
    FileNotFound(String),
    ConnectionError(String),
    ParsingError(String),
    Custom(String),
}

/// The HTTP status that answers an error of this kind.
pub open spec fn status_of(e: XpressError) -> u16 {
    match e {
        XpressError::NotFound(_) | XpressError::FileNotFound(_) => 404,
        XpressError::MethodNotAllowed(_) => 405,
        XpressError::ParsingError(_) => 400,
        XpressError::ConnectionError(_) => 502,
        XpressError::MutexError(_) => 500,
        XpressError::IoError(_) | XpressError::JsonError(_) | XpressError::Custom(_) => 500,
    }
}

/// The words that open the description of an error of this kind.
pub open spec fn prefix_of(e: XpressError) -> Seq<char> {
    match e {
        XpressError::IoError(_) => "I/O Error: "@,
        XpressError::JsonError(_) => "JSON Error: "@,
        XpressError::MutexError(_) => "Mutex Lock Error: "@,
        XpressError::NotFound(_) => "Route Not Found: "@,
        XpressError::MethodNotAllowed(_) => "Method Not Allowed: "@,
        XpressError::FileNotFound(_) => "File Not Found: "@,
        XpressError::ConnectionError(_) => "Connection Error: "@,
        XpressError::ParsingError(_) => "Parsing Error: "@,
        XpressError::Custom(_) => "Error: "@,
    }
}

/// The message that an error carries as text; the two that wrap an error of
/// another library carry none of their own.
pub open spec fn message_of(e: XpressError) -> Option<Seq<char>> {
    match e {
        XpressError::IoError(_) | XpressError::JsonError(_) => None,
        XpressError::MutexError(m) | XpressError::NotFound(m) | XpressError::MethodNotAllowed(m)
        | XpressError::FileNotFound(m) | XpressError::ConnectionError(m)
        | XpressError::ParsingError(m) | XpressError::Custom(m) => Some(m@),
    }
}

impl XpressError {
    pub fn status_code(&self) -> (r: u16)
        ensures
            r == status_of(*self),
    {
        match self {
            XpressError::NotFound(_) | XpressError::FileNotFound(_) => 404,
            XpressError::MethodNotAllowed(_) => 405,
            XpressError::ParsingError(_) => 400,
            XpressError::ConnectionError(_) => 502,
            XpressError::MutexError(_) => 500,
            XpressError::IoError(_) | XpressError::JsonError(_) | XpressError::Custom(_) => 500,
        }
    }

    /// A one-line description: the kind of error, then its message.
    pub fn describe(&self) -> (r: String)
        ensures
            prefix_of(*self).len() <= r@.len(),
            r@.subrange(0, prefix_of(*self).len() as int) == prefix_of(*self),
            message_of(*self) matches Some(m) ==> r@ == prefix_of(*self) + m,
    {
        let (prefix, detail) = match self {
            XpressError::IoError(e) => ("I/O Error: ", e.to_string()),
            XpressError::JsonError(e) => ("JSON Error: ", e.to_string()),
            XpressError::MutexError(m) => ("Mutex Lock Error: ", m.clone()),
            XpressError::NotFound(m) => ("Route Not Found: ", m.clone()),
            XpressError::MethodNotAllowed(m) => ("Method Not Allowed: ", m.clone()),
            XpressError::FileNotFound(m) => ("File Not Found: ", m.clone()),
            XpressError::ConnectionError(m) => ("Connection Error: ", m.clone()),
            XpressError::ParsingError(m) => ("Parsing Error: ", m.clone()),
            XpressError::Custom(m) => ("Error: ", m.clone()),
        };
        let mut r = String::from_str(prefix);
        r.append(detail.as_str());
        assert(r@.subrange(0, prefix@.len() as int) =~= prefix@);
        r
    }
}

impl From<std::io::Error> for XpressError {
    fn from(err: std::io::Error) -> (r: XpressError)
        ensures
            r == XpressError::IoError(err),
    {
        XpressError::IoError(err)
    }
}

impl vstd::std_specs::convert::FromSpecImpl<std::io::Error> for XpressError {
    open spec fn obeys_from_spec() -> bool {
        true
    }

    open spec fn from_spec(v: std::io::Error) -> XpressError {
        XpressError::IoError(v)
    }
}

impl From<serde_json::Error> for XpressError {
    fn from(err: serde_json::Error) -> (r: XpressError)
        ensures
            r == XpressError::JsonError(err),
    {
        XpressError::JsonError(err)
    }
}

impl vstd::std_specs::convert::FromSpecImpl<serde_json::Error> for XpressError {
    open spec fn obeys_from_spec() -> bool {
        true
    }

    open spec fn from_spec(v: serde_json::Error) -> XpressError {
        XpressError::JsonError(v)
    }
}

} // verus!
