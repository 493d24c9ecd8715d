//! A file server that lists directories: the path resolution, the dispatch
//! rules and the listing order, free of I/O.
//!
//! The library decides and the host acts. For each request the host
//!
//! * hands the segments of the request to `ListingFileServer::resolve` (or,
//!   where `\` separates path components too, to `resolve_on_windows`) and
//!   probes what the resolved path denotes;
//! * hands the request and the probed target to `ListingFileServer::handle`,
//!   which answers with an [`dispatch::Action`]: an outcome to respond with,
//!   an index file to try, or a directory to read;
//! * feeds what it found back through `index_probed` or `directory_read`,
//!   until an outcome is reached.
//!
//! A request never resolves to a path outside the root, read as the host
//! that the resolving function is for reads it; a listing has one order
//! whatever the order of the enumeration was; and the rules apply in one
//! fixed order. These are stated beside the functions they are about, as
//! contracts and as proof functions.

pub mod dispatch;
pub mod listing;
pub mod options;
pub mod path;
pub mod server;
pub mod text;
