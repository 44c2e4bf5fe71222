//! The HTTP vocabulary: methods, requests, query strings, responses.

pub mod headers;
pub mod method;
pub mod query;
pub mod request;
pub mod response;
pub mod status_code;

pub use headers::Headers;
pub use method::Method;
pub use query::Query;
pub use request::Request;
pub use response::Response;
pub use status_code::StatusCode;
