//! A runtime dependency-injection container.
//!
//! Components are registered on an [`injection_binder::InjectionBinder`], each
//! with the keys of the components it needs. `build` validates the whole
//! dependency graph, resolves it in waves and hands back an
//! [`injector::Injector`] from which every component can be read by its type.

pub mod type_key;
pub mod collections;
pub mod names;
pub mod error;
pub mod graph;
pub mod validation;
pub mod resolution;
pub mod laws;
pub mod named;
pub mod registry;
pub mod injector;
pub mod tuples;
mod builder;
pub mod component_meta;
pub mod tags;
pub mod lazy;
pub mod expander;
pub mod injection_binder;
pub mod derive_plan;

pub use injection_binder::InjectionBinder;
pub use injector::Injector;
pub use lazy::Lazy;
