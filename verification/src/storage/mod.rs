//! What is written to the store: the keys of each column family and the
//! batch that commits one block.

pub mod database;
