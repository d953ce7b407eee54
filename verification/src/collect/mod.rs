//! Native collection transforms: what each decides from the data it fetched.

pub mod phone;
pub mod email;
pub mod ct;
pub mod dns;
pub mod whatsmyname;
pub mod whois;
