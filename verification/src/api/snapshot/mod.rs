//! Repositories and the snapshots they hold.

pub mod begin;
pub mod create;
pub mod duplicate;
pub mod end;
pub mod member;
pub mod pick;
pub mod plan;
pub mod refused;
pub mod repository;
pub mod restore;
pub mod restoring;
pub mod status;
