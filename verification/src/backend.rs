//! The backend capability contract and the engines implementing it.

pub mod common;
pub mod impl_safe;
pub mod traits;
