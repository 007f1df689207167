//! The dispatch and routing core of one node of a peer-to-peer overlay mesh,
//! written without I/O: connections carry outbound queues that the embedding
//! program pumps onto its tunnels, and every decision about a frame is a
//! function from the node's state and the frame to the next state and an
//! outcome, with its contract proved by Verus.

pub mod common;
pub mod encrypt;
pub mod error;
pub mod filter;
pub mod foreign_network;
pub mod manager;
pub mod outside;
pub mod packet;
pub mod peer_conn;
pub mod peer_map;
pub mod peer_map_lemmas;
pub mod search;
pub mod theorems;
