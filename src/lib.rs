//! Tracking of remote video channels: an expiring cache of channel listings,
//! parsing of the listing and probing tools' output, detection of videos that
//! are already stored locally, and a queue of download jobs.
use vstd::prelude::*;

pub mod cache;
pub mod channels;
pub mod decimal;
pub mod listing;
pub mod progress;
pub mod queue;
pub mod scanner;
pub mod table;
pub mod text;

verus! {

} // verus!
