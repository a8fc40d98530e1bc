//! The cluster: what it is made of and where the copies of its indices go.

pub mod apart;
pub mod balance;
pub mod commands;
pub mod deciders;
pub mod departures;
pub mod explain;
pub mod follow;
pub mod members;
pub mod moves;
pub mod order;
pub mod placement;
pub mod reports;
pub mod reroute;
pub mod settings;
pub mod state;
pub mod sync;
pub mod undone;
pub mod work;
