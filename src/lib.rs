//! Metadata resolution and bookkeeping for installable add-ons described by a
//! primary descriptor file and an optional companion file.
pub mod catalog;
pub mod descriptor;
pub mod order;
pub mod plugin;
pub mod store;
pub mod text;
