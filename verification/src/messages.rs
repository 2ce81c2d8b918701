//! The lines that tell the user what a scan found and what a batch of deletions came to.
//!
//! Sizes are written by the `humansize` crate, in binary units.

use crate::deletion::DeletionReport;
use crate::text::{decimal, decimal_digits};
use vstd::prelude::*;
use vstd::string::StringExecFns;

verus! {

/// What `humansize::format_size` writes for a number of bytes with the options `BINARY`: the
/// size in the largest binary unit that it fills, such as `1.50 KiB`.
pub uninterp spec fn human_size(bytes: u64) -> Seq<char>;

/// Calls `humansize::format_size` with the options `BINARY`: the text is determined by the
/// number of bytes.
#[verifier::external_body]
fn format_bytes(bytes: u64) -> (text: String)
    ensures
        text@ == human_size(bytes),
{
    humansize::format_size(bytes, humansize::BINARY)
}

/// The list from which a batch of deletions was made.
#[derive(Debug, Clone, Copy, PartialEq, Eq, Structural)]
pub enum Batch {
    Cleanup,
    Duplicates,
    LargeFiles,
}

/// What the user reads after a scan for reclaimable data.
pub open spec fn found_items_line(count: usize) -> Seq<char> {
    "Found "@ + decimal_digits(count as nat) + " items"@
}

/// What the user reads after a scan for duplicates.
pub open spec fn found_duplicates_line(groups: usize, wasted: u64) -> Seq<char> {
    "Found "@ + decimal_digits(groups as nat) + " duplicate groups - "@ + human_size(wasted)
        + " duplicate"@
}

/// What the user reads after a scan for large files.
pub open spec fn found_large_files_line(count: usize, total: u64) -> Seq<char> {
    "Found "@ + decimal_digits(count as nat) + " large files - "@ + human_size(total) + " total"@
}

/// What the user reads while a batch is deleted.
pub open spec fn deleting_line(count: usize) -> Seq<char> {
    "Deleting "@ + decimal_digits(count as nat) + " items..."@
}

/// What the user reads instead of a deletion in preview mode.
pub open spec fn would_delete_line(count: usize, size: u64) -> Seq<char> {
    "Preview mode: Would delete "@ + decimal_digits(count as nat) + " items ("@ + human_size(size)
        + ")"@
}

/// The words in front of the count of a finished batch.
pub open spec fn deleted_lead(batch: Batch) -> Seq<char> {
    match batch {
        Batch::Cleanup => "✓ Deleted "@,
        _ => "Deleted "@,
    }
}

/// What the items of a batch are called: by their kind where all were deleted, plainly where
/// some were not.
pub open spec fn deleted_noun(batch: Batch, failed: bool) -> Seq<char> {
    match batch {
        Batch::Cleanup => " items ("@,
        Batch::Duplicates => if failed {
            " files ("@
        } else {
            " duplicate files ("@
        },
        Batch::LargeFiles => if failed {
            " files ("@
        } else {
            " large files ("@
        },
    }
}

/// What the user reads after a batch of deletions: how many paths were deleted, the size
/// that was freed and, if any, how many deletions failed.
pub open spec fn deleted_line(batch: Batch, report: DeletionReport) -> Seq<char> {
    let start = deleted_lead(batch) + decimal_digits(report.deleted as nat) + deleted_noun(
        batch,
        report.failed > 0,
    ) + human_size(report.bytes_freed);
    if report.failed > 0 {
        start + ") - "@ + decimal_digits(report.failed as nat) + " failed"@
    } else {
        start + ")"@
    }
}

pub fn found_items(count: usize) -> (line: String)
    ensures
        line@ == found_items_line(count),
{
    let mut line = String::from_str("Found ");
    line.append(decimal(count as u64).as_str());
    line.append(" items");
    line
}

pub fn found_duplicates(groups: usize, wasted: u64) -> (line: String)
    ensures
        line@ == found_duplicates_line(groups, wasted),
{
    let mut line = String::from_str("Found ");
    line.append(decimal(groups as u64).as_str());
    line.append(" duplicate groups - ");
    line.append(format_bytes(wasted).as_str());
    line.append(" duplicate");
    line
}

pub fn found_large_files(count: usize, total: u64) -> (line: String)
    ensures
        line@ == found_large_files_line(count, total),
{
    let mut line = String::from_str("Found ");
    line.append(decimal(count as u64).as_str());
    line.append(" large files - ");
    line.append(format_bytes(total).as_str());
    line.append(" total");
    line
}

pub fn deleting(count: usize) -> (line: String)
    ensures
        line@ == deleting_line(count),
{
    let mut line = String::from_str("Deleting ");
    line.append(decimal(count as u64).as_str());
    line.append(" items...");
    line
}

pub fn would_delete(count: usize, size: u64) -> (line: String)
    ensures
        line@ == would_delete_line(count, size),
{
    let mut line = String::from_str("Preview mode: Would delete ");
    line.append(decimal(count as u64).as_str());
    line.append(" items (");
    line.append(format_bytes(size).as_str());
    line.append(")");
    line
}

/// The line for a finished batch of deletions.
pub fn deleted(batch: Batch, report: &DeletionReport) -> (line: String)
    ensures
        line@ == deleted_line(batch, *report),
{
    let some_failed = report.failed > 0;
    let mut line = match batch {
        Batch::Cleanup => String::from_str("✓ Deleted "),
        _ => String::from_str("Deleted "),
    };
    line.append(decimal(report.deleted as u64).as_str());
    match batch {
        Batch::Cleanup => line.append(" items ("),
        Batch::Duplicates => if some_failed {
            line.append(" files (")
        } else {
            line.append(" duplicate files (")
        },
        Batch::LargeFiles => if some_failed {
            line.append(" files (")
        } else {
            line.append(" large files (")
        },
    }
    line.append(format_bytes(report.bytes_freed).as_str());
    if some_failed {
        line.append(") - ");
        line.append(decimal(report.failed as u64).as_str());
        line.append(" failed");
    } else {
        line.append(")");
    }
    line
}

} // verus!
