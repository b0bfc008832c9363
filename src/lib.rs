//! Sorts the files of a directory into category folders by extension.
//!
//! The library holds the decisions: the rule table and how a file is
//! classified, which folders are made and which renames are done, which
//! empty folders are pruned, what a backup archive holds and what it is
//! called, and whether a target path is accepted at all. The caller does the
//! file system work that these plans describe.
pub mod text;
pub mod rules;
pub mod organize;
pub mod prune;
pub mod guard;
pub mod message;
pub mod archive;
pub mod backup;
pub mod clock;
