//! What the library is for, as laws: how the results of its operations follow
//! from what goes into them.

pub mod caches;
pub mod checks;
pub mod documents;
pub mod duplicates;
pub mod links;
pub mod lists;
pub mod names;
pub mod naming;
pub mod outbounds;
pub mod places;
pub mod refusals;
pub mod serving;
pub mod settings;
pub mod statistics;
pub mod texts;
pub mod times;
pub mod tunnels;
pub mod updates;
