use vstd::prelude::*;

pub mod text;
pub mod types;
pub mod paths;
pub mod formats;
pub mod metadata;
pub mod plan;
pub mod logging;
pub mod hashing;
pub mod scan;
pub mod volumes;
pub mod executor;
pub mod video;
pub mod thumbnail;

verus! {
} // verus!
