//! Core of a static-site builder: resolves a flat set of path-addressed
//! content items into a navigable tree (menus, breadcrumbs, inherited
//! notifications) and plans responsive image variants for source images.
pub mod paths;
pub mod ratio;
pub mod dashes;
pub mod strutil;
pub mod errors;
pub mod bulma;
pub mod config_files;
pub mod structure;
pub mod image;
pub mod content;
pub mod files;
pub mod generator;
