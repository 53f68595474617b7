//! Build-time prop partitioning for `@meonode/ui` call sites.
//!
//! [`detect`] finds the calls of UI factories in a program and decides what can
//! be done to each. [`partition`] rewrites the props objects of those calls
//! into buckets that the UI library's runtime can use as they are. [`plugin`]
//! puts the two together.
//!
//! The rewriting must not be noticed when the program runs. [`effect`],
//! [`placement`], [`order`] and [`validate`] judge that; [`steps`] states and
//! proves it.
pub mod ast;
pub mod bindings;
pub mod catalog;
pub mod config;
pub mod decision_laws;
pub mod detect;
pub mod detect_laws;
pub mod effect;
pub mod effect_laws;
pub mod import_laws;
pub mod item_laws;
pub mod keys;
pub mod laws;
pub mod model;
pub mod order;
pub mod partition;
pub mod partition_laws;
pub mod placement;
pub mod plugin;
pub mod program_laws;
pub mod rewrite;
pub mod rewrite_laws;
pub mod second_pass;
pub mod site_key;
pub mod steps;
pub mod text;
pub mod theme;
pub mod validate;
pub mod visit;
