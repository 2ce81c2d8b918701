//! Finds reclaimable disk space and guards its deletion.
//!
//! The library holds the rules of four scans and of the validation that comes before every
//! deletion, each as a function from plain values to plain values with a proved contract:
//!
//! - `cleanup`: reclaimable data by category, added up by directory;
//! - `treemap`: the size tree of a directory, to a fixed depth;
//! - `duplicates`: files with identical content, found by size and then by digest;
//! - `large_files`: files above a size and an age;
//! - `sanitizer`: the validation of a path before it is deleted;
//! - `deletion`: the bookkeeping of a batch of deletions.
//!
//! The library reads no file and no clock. Its caller walks the file system, reads the time
//! and removes what is to be removed; `models` and the scanners' own modules hold the values
//! in which the caller reports what it found.
//!
//! Beside the scans stand the rules of the program that shows their results: `selection`
//! (the marks on the items of a list), `navigation` (screens, cursors, sort order), `keys`
//! (what each key does), `presentation` (ages in words, kinds of file), `messages` (the status
//! lines) and `system` (the use of the root disk). `ordering`,
//! `grouping`, `sums`, `paths`, `platform`, `hasher` and `text` hold what the others share.

pub mod cleanup;
pub mod deletion;
pub mod duplicates;
pub mod grouping;
pub mod hasher;
pub mod keys;
pub mod large_files;
pub mod messages;
pub mod models;
pub mod navigation;
pub mod ordering;
pub mod paths;
pub mod platform;
pub mod presentation;
pub mod sanitizer;
pub mod selection;
pub mod sums;
pub mod system;
pub mod text;
pub mod treemap;
