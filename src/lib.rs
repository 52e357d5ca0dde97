//! Request cookie jar and response cookie writer for an HTTP pipeline.
//!
//! Incoming `Cookie` headers are parsed once per request into an ordered jar
//! that stays frozen afterwards; outgoing cookies are encoded and appended as
//! `Set-Cookie` headers, one per call, never merged.
pub mod codec;
pub mod model;
pub mod request;
pub mod response;

pub use codec::{parse_header, parse_segment, trim_chars};
pub use model::{Cookie, CookieError, SameSite};
pub use request::HttpRequest;
pub use response::{removal, Header, HttpResponseBuilder};
