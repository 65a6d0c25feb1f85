use vstd::prelude::*;

pub mod blacklist;
pub mod config;
pub mod counter;
pub mod events;
pub mod external;
pub mod general;
pub mod lists;
pub mod sentences;
pub mod moderation;
pub mod playground;
pub mod reminder;
pub mod status;
pub mod text;
pub mod unblacklist;

verus! {

} // verus!
