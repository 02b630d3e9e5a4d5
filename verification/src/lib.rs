//! Extraction of a structured catalogue of media items from a
//! category-organised listing site whose markup changes between site
//! revisions.
//!
//! The crate is organised around a small document model ([`dom`]), a
//! declarative layout schema ([`schema`]), an entry classifier and
//! extractor ([`extract`]), a crawler that follows pagination and
//! pointer links to closure ([`crawl`]), and the catalogue aggregate
//! ([`catalog`]). Fetching and HTML parsing are collaborators: callers
//! hand the library already-parsed documents as plain data.

pub mod text;
pub mod dom;
pub mod schema;
pub mod extract;
pub mod crawl;
pub mod catalog;
