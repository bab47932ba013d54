//! Verified core of the Bitcoin After Life will executor: descriptor and
//! extended-key handling, request validation and the decisions taken by the
//! HTTP server and the block watcher.

pub mod text;
pub mod network;
pub mod xpub;
pub mod validation;
pub mod umbrel_api;
pub mod pusher;
pub mod server;
pub mod db;
