//! A virtual filesystem engine that exposes live game state as files.
//!
//! The crate is organised bottom-up:
//! - `num` and `text`: decimal numerals, UTF-8 validation and the float
//!   grammar, on byte strings;
//! - `inode`: allocation of inode numbers, split into a static and a dynamic range;
//! - `pos`: block positions, dimensions, and the block-coordinate name parser;
//! - `command`: typed command bodies, their byte-level parsing and formatting;
//! - `state`: game snapshots, state interests, and the TTL'd snapshot cache;
//! - `entry`: the entry model (files, directories, links) and its filters;
//! - `registry`: the inode registry with parent/child links, dynamic
//!   generation, diffing and garbage collection;
//! - `structure`: the concrete tree of entries served by the filesystem;
//! - `wire`: length-prefixed framing, the request/response codec, and the
//!   reconnect policy for the game channel;
//! - `fuse`: the filesystem operation surface (lookup, getattr, read, write,
//!   readdir, readlink) expressed over plain values.

mod assoc;
pub mod num;
pub mod pos;
pub mod text;
pub mod command;
pub mod state;
pub mod entry;
pub mod registry;
pub mod structure;
pub mod wire;
pub mod fuse;
pub mod inode;
