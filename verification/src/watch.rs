//! The decision side of the live-watch loop: what to do for one debounced
//! file event. The watcher thread and the filesystem calls live outside
//! the library; they hand the decision function plain values and perform
//! the action it returns.

use vstd::prelude::*;

verus! {

/// What the watch loop does for one changed file.
pub enum WatchAction {
    /// The path is outside the root or has an unwatched extension: ignore.
    Skip,
    /// The stored hash equals the current one: do not re-ingest, only
    /// embed the document's chunks that still lack an embedding.
    BackfillOnly,
    /// New or modified: run the ingestion pipeline for this file, then
    /// embed its chunks that lack an embedding.
    ReingestAndEmbed,
}

/// Decide how to handle one debounced file event, from plain facts: did
/// the path resolve under the root, is its extension watched, and how
/// does the stored hash compare to the current one.
pub fn watch_decision(
    under_root: bool,
    extension: &str,
    stored_hash: Option<&String>,
    current_hash: &str,
) -> (r: WatchAction)
    ensures
        r is Skip <==> (!under_root || !crate::ingest::watch_allows(extension@)),
        r is BackfillOnly <==> (under_root && crate::ingest::watch_allows(extension@) && (
        match stored_hash {
            Some(h) => h@ == current_hash@,
            None => false,
        })),
        r is ReingestAndEmbed <==> (under_root && crate::ingest::watch_allows(extension@) && (
        match stored_hash {
            Some(h) => h@ != current_hash@,
            None => true,
        })),
{
    if !under_root {
        return WatchAction::Skip;
    }
    if !crate::ingest::is_watched_extension(extension) {
        return WatchAction::Skip;
    }
    match stored_hash {
        Some(h) => {
            if crate::text::str_eq(h.as_str(), current_hash) {
                WatchAction::BackfillOnly
            } else {
                WatchAction::ReingestAndEmbed
            }
        },
        None => WatchAction::ReingestAndEmbed,
    }
}

} // verus!
