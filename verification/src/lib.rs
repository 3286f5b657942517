//! Verified core of a service-status viewer: resolving truncated service
//! start dates against a reference instant, rendering relative-age labels,
//! and aligning styled terminal text without counting escape bytes.

pub mod arguments;
pub mod color_aware_string;
pub mod datetime;
pub mod fmri;
pub mod relative;
pub mod report;
pub mod smf;
pub mod text;
