//! Verified core of a read-mostly web backend for browsing a Digikam photo
//! database: natural ordering, album paths, SQL filter building, the tag
//! tree, bookmarks and the small pieces of HTTP logic the server relies on.
pub mod filters;
pub mod handlers;
pub mod models;
pub mod natural;
pub mod outside;
pub mod paths;
pub mod query;
pub mod tags;
pub mod text;
pub mod web;
