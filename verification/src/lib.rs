//! Converts a base64-encoded proxy subscription body into typed Shadowsocks
//! entries and renders each entry as one Clash configuration fragment.
//!
//! The pipeline: decode the subscription body into lines, percent-decode and
//! parse each line as a URI, decode the `ss://` variant into a typed entry,
//! and serialize each entry into a mapping-style text fragment. Failures are
//! isolated per entry: a bad line is skipped with a reason, the run goes on.

pub mod bytes;
pub mod ext;
pub mod model;
pub mod render;
pub mod ss;
pub mod subscription;
