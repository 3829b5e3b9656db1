//! The ability service: character attributes, ability casting rules, and
//! the service's handling of cast requests, hits and mana regeneration.

pub mod attribute;
pub mod ability;
pub mod entity;
pub mod service;
pub mod laws;
pub mod rounding;
