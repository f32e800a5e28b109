//! Battery fuel-gauge telemetry over textual attribute files.
//!
//! Each hardware attribute is a small text file holding one base-10 integer,
//! optionally terminated by a single newline.  The `attr` module reads and
//! parses such files; the `gauge` module layers a capability-tiered model of
//! concrete gauge chips on top of it.

pub mod attr;
pub mod gauge;
