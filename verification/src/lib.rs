//! Serving a folder of Markdown documentation: the verified decisions of the
//! server (which file a request names, how a page is rendered, when a reload
//! is announced).

pub mod highlight;
pub mod markdown;
pub mod page;
pub mod path;
pub mod routes;
pub mod text;
pub mod watch;
