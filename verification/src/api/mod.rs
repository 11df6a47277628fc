//! What the node tells those who ask: the records of the read interface
//! and of the event stream, each made from chain data.

pub mod rest;
pub mod websocket;
