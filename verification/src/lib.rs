//! The node layer of a peer-to-peer messaging overlay: wire frames, local
//! control protocols, admission and reading rules, and the decisions a node
//! takes between one piece of network or storage work and the next.

pub mod actor;
pub mod anchor;
pub mod api;
pub mod app;
pub mod appipc;
pub mod bootstrap;
pub mod cbor;
pub mod channel;
pub mod circuitstream;
pub mod content;
pub mod coordstream;
pub mod error;
pub mod hash;
pub mod headless;
pub mod identity;
pub mod interface;
pub mod ipc;
pub mod joinstream;
pub mod keypackage;
pub mod link;
pub mod lists;
pub mod nameipc;
pub mod relaying;
pub mod table;
pub mod text;
