//! Verified core of the rtils toolkit: identifiers, text scanning and
//! tokenizing, chunked lists, a hash map and set, id allocation, a block
//! heap, pipes and locks, a process runtime, HTTP request handling, a
//! request/response channel, table queries, text-box editing,
//! drawing-command buffers and draws, interface layout and tile maps, and
//! the small data structures that the programs built on it share.
pub mod arena;
pub mod array_list;
pub mod commands;
pub mod database;
pub mod device;
pub mod draw;
pub mod erl;
pub mod error;
pub mod events;
pub mod format;
pub mod hashed;
pub mod heap;
pub mod http;
pub mod http_parse;
pub mod id_alloc;
pub mod ids;
pub mod immutable;
pub mod list;
pub mod palette;
pub mod marathon;
pub mod scan;
pub mod screen;
pub mod sorting;
pub mod sync;
pub mod text;
pub mod text_box;
pub mod tilemap;
pub mod tokens;
pub mod ui_layout;
pub mod wire;
