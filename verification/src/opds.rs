//! OPDS catalogs: Atom feeds of navigation and acquisition entries.

pub mod atom;
pub mod catalog;
pub mod entry;
pub mod feed;
pub mod routes;
pub mod sample;
