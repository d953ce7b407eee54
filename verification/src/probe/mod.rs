//! OSINT probes: a request template and the rules that decide what the
//! answer means.

pub mod schema;
pub mod decide;
pub mod extract;
pub mod control;
pub mod request;
