//! Entities, their components and the systems that update them.

pub mod actor;
pub mod components;
pub mod manager;
pub mod scheduler;
pub mod store;
pub mod systems;
