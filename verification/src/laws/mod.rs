//! What holds of the library as a whole.

pub mod calls;
pub mod data;
pub mod demands;
pub mod listing;
pub mod locking;
pub mod paging;
pub mod round_trips;
pub mod upkeep;
pub mod views;
