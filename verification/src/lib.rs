//! Collects proxy nodes from subscriptions, removes duplicates, checks them
//! through each modem and publishes the result as one subscription.

pub mod branch;
pub mod cache;
pub mod clock;
pub mod codec;
pub mod config;
pub mod dedup;
pub mod encoder;
pub mod events;
pub mod failure;
pub mod fields;
pub mod health;
pub mod items;
pub mod json;
pub mod laws;
pub mod link;
pub mod node;
pub mod parser;
pub mod paths;
pub mod probe;
pub mod progress;
pub mod renamer;
pub mod roundtrip;
pub mod schedule;
pub mod singbox;
pub mod stats;
pub mod strmap;
pub mod text;
pub mod tunnel;
pub mod update;
pub mod uri;
pub mod web;
