//! A searchable index of the packages of an archive and of their files:
//! the reading of the two feed formats, the course of the load that fills
//! the store, and the search over it.
//!
//! The library decides and computes; it does not touch the network or the
//! store. [`stanza`] and [`contents`] read the two formats on top of
//! [`text`]. [`ingest`] is the machine that tells a driver what to do next
//! during a load; [`runs`] and [`outcome`] state what holds of whole loads.
//! [`search`] and [`store`] hold the rules of the search and the statements
//! of the store. [`feed`] decodes a feed that is held in memory.

pub mod config;
pub mod contents;
pub mod feed;
pub mod ingest;
pub mod outcome;
pub mod package;
pub mod runs;
pub mod search;
pub mod stanza;
pub mod store;
pub mod text;
