//! A BitTorrent client library: wire formats, tracker protocols, piece selection and assembly.
pub mod piece_picker;
pub mod wire;
pub mod messages;
pub mod codec;
pub mod hash;
pub mod piece_assembler;
pub mod net;
pub mod metadata;
pub mod metadata_fetch;
pub mod magnet;
pub mod torrent;
pub mod text;
pub mod engine;
pub mod download_directory;
pub mod arguments;
pub mod udp_tracker;
pub mod tracker;
pub mod command;
pub mod tui;
pub mod piece_storage;
pub mod peer;
pub mod file_tree;
pub mod completion;
pub mod sized_tree;
pub mod udp_announce;
