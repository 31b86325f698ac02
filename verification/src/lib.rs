//! Verified core of a personal media-archival agent.
//!
//! The library holds the logic of one archival run: walking a paginated
//! activity feed with deduplication and an inclusion policy, deciding when a
//! cached authentication token must be refreshed, deriving deterministic
//! local paths for each track, ranking transcoding candidates, and driving
//! the per-track download procedure (fetch to a temporary path, write tags,
//! publish atomically) as a state machine. All network, filesystem and codec
//! work is performed by unverified glue around the library, which feeds the
//! results back in as plain values.

pub mod feed;
pub mod model;
pub mod paths;
pub mod pipeline;
pub mod select;
pub mod strtool;
pub mod timefmt;
pub mod token;
