//! Reading the job feed: XML tokens and the flattening of each posting
//! into a key/value map.

pub mod events;
pub mod read;


pub use read::read_stream;
