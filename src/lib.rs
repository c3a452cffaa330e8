//! Derives a base value for every item of a crafting-recipe graph from a few
//! manually assigned values, by recipe-cost inference and tag averaging.
pub mod catalog;
pub mod engine;
pub mod graph;
pub mod ident;
pub mod index;
pub mod model;
pub mod propagate;
pub mod report;
