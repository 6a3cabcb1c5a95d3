//! An in-memory world-editing engine for a voxel-world server: cuboid
//! selections, snapshots with copy, paste, move, stack and undo, weighted
//! block patterns, a command table with typed flags and arguments, a
//! schematic importer, and the byte encodings of the client-bound packets.
pub mod pos;
pub mod cuboid;
pub mod storage;
pub mod world;
pub mod clipboard;
pub mod operation;
pub mod grammar;
pub mod registry;
pub mod pattern;
pub mod region;
pub mod command;
pub mod session;
pub mod wire;
pub mod packets;
pub mod varint;
pub mod schematic;
