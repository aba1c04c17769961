//! Verified core of a command-line toolkit for reading, validating and
//! patching Office Open XML word-processing documents.

pub mod assoc;
pub mod bytes;
pub mod chars;
pub mod commands;
pub mod comments;
pub mod create;
pub mod delete;
pub mod diff;
pub mod envelope;
pub mod error;
pub mod id_alloc;
pub mod index;
pub mod inspect;
pub mod invariants;
pub mod job;
pub mod kb;
pub mod markup;
pub mod ooxml;
pub mod package;
pub mod read;
pub mod part_graph;
pub mod redline;
pub mod repair;
pub mod replace_text;
pub mod schema;
pub mod story;
pub mod structural;
pub mod text;
pub mod tracked_changes;
pub mod units;
pub mod xml;
