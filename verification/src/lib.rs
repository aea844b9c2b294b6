//! Spaces: groups of actors whose membership is governed by causally ordered
//! operations, merged without a coordinator. A removal wins over every grant
//! that did not know of it.

pub mod types;
pub mod model;
pub mod space;
pub mod laws;
pub mod forge;
pub mod orderer;
pub mod roster;
pub mod store;
pub mod manager;
pub mod keys;
