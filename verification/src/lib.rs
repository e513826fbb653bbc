//! Installable data products behind one program: a cache, a key-value store,
//! publish/subscribe topics, work queues and event streams, each with
//! replication between regions.
//!
//! Everything that decides or computes stands here, with its contract and
//! proof. What reads and writes files and sockets hands plain values in and
//! carries out what comes back.

pub mod api;
pub mod bench;
pub mod broadcast;
pub mod bus;
pub mod bytes;
pub mod cli;
pub mod client;
pub mod config;
pub mod error;
pub mod event;
pub mod expiry;
pub mod feature;
pub mod health;
pub mod hlc;
pub mod install;
pub mod keyspace;
pub mod log;
pub mod messaging;
pub mod named;
pub mod node;
pub mod profile;
pub mod proto;
pub mod queue;
pub mod replication;
pub mod rest;
pub mod serve;
pub mod stream;
pub mod text;
pub mod topic;
pub mod writer;
pub mod ws;
