//! Display profile management for Wayland compositors: the data model of
//! outputs and layouts, identity matching, profile selection and layout
//! planning.
pub mod assoc;
pub mod model;
pub mod text;
pub mod profile;
pub mod normalize;
pub mod matcher;
pub mod planner;
pub mod terminal;
pub mod engine;
pub mod error;
pub mod state;
pub mod store;
pub mod workflow;
pub mod backends;
pub mod cycle;
