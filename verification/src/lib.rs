//! Verified core of a peer-to-peer directory synchronization tool.
pub mod addresses;
pub mod hexlify;
pub mod block_id;
pub mod block_map;
pub mod hex_codec;
pub mod machine_id;
pub mod stable_sort;
pub mod signatures;
pub mod time_util;
pub mod config;
pub mod cleanup;
pub mod failure_tracker;
pub mod named_mutex;
pub mod mask;
pub mod text;
pub mod http_route;
pub mod names;
pub mod cli;
pub mod lines;
pub mod keys;
pub mod key_sources;
pub mod private_key_text;
pub mod upload;
pub mod upload_progress;
pub mod key_set;
pub mod bookkeeping;
pub mod upload_text;
pub mod client_progress;
pub mod cluster_rules;
pub mod index;
pub mod index_tree;
pub mod commit_plan;
pub mod edit_rules;
pub mod link_sources;
pub mod disk;
pub mod reconciliation;
pub mod state_files;
pub mod state_scan;
