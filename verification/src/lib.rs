//! Storage node and web gateway logic of a holographic file system.

// Bytes and texts.
pub mod bytes;
pub mod calendar;
pub mod hex;
pub mod json;
pub mod text;
pub mod text_laws;

// Keys, and who is let in.
pub mod certificates;
pub mod crypto;
pub mod handshake;
pub mod identity;
pub mod keyring;
pub mod keyring_file;
pub mod keyring_file_laws;
pub mod keyring_laws;
pub mod security_laws;
pub mod tls;
pub mod whitelist;
pub mod wire;

// The store of a node.
pub mod chaos;
pub mod compaction;
pub mod durability;
pub mod format_laws;
pub mod held;
pub mod live;
pub mod node;
pub mod node_config;
pub mod node_laws;
pub mod recovery;
pub mod restart;
pub mod shard_file;
pub mod state_laws;
pub mod store;
pub mod store_laws;
pub mod wal;
pub mod wal_laws;
pub mod writer_laws;

// The gateway.
pub mod access;
pub mod audit;
pub mod bootstrap;
pub mod catalog;
pub mod catalog_view;
pub mod cli;
pub mod config_file;
pub mod filter;
pub mod filter_laws;
pub mod form;
pub mod form_laws;
pub mod gateway_laws;
pub mod handlers;
pub mod health_view;
pub mod help;
pub mod help_laws;
pub mod http;
pub mod http_laws;
pub mod manifest;
pub mod metrics;
pub mod page_laws;
pub mod pictures;
pub mod report_laws;
pub mod tree;

// What holds of all of it.
pub mod message_laws;
pub mod view_laws;
