pub mod error;
pub mod kv;
pub mod parser;
pub mod request;
pub mod response;
pub mod router;
pub mod text;
pub mod xpress;

pub use error::XpressError;
pub use xpress::Xpress;
