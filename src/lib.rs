//! Route matching for frontend web applications: an ordered list of routes,
//! each a slash-separated pattern with typed placeholders, resolved by
//! first match.

pub mod param;
pub mod path;
pub mod route;
pub mod router;

pub use param::{parse_u64, ParamType, ParamValue};
pub use path::{chars_of, same_chars, segment_spans};
pub use route::{Route, RouteParams};
pub use router::Router;
