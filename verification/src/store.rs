//! The store facades: typed get/put/delete/iterate over the backend contract.

pub mod keys;
pub mod integermulti;
pub mod multi;
pub mod single;
