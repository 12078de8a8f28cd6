//! What the launcher tells its window about an update of itself.

use vstd::prelude::*;

verus! {

/// The version that can be installed, and the one that is running.
#[derive(Debug, PartialEq, Eq)]
pub struct UpdateMetadata {
    pub version: String,
    pub current_version: String,
}

/// A step of the download of an update.
#[derive(Clone, Copy, Debug, PartialEq, Eq)]
pub enum DownloadEvent {
    Started { content_length: Option<u64> },
    Progress { chunk_length: usize },
    Finished,
}

/// The events to send when a chunk of the update has arrived, and whether
/// the download has started by then: the first chunk announces the start,
/// with the length of the whole, before it is counted itself.
pub fn chunk_events(started: bool, chunk_length: usize, content_length: Option<u64>) -> (r: (
    Vec<DownloadEvent>,
    bool,
))
    ensures
        r.1,
        r.0@ == if started {
            seq![DownloadEvent::Progress { chunk_length }]
        } else {
            seq![DownloadEvent::Started { content_length }, DownloadEvent::Progress { chunk_length }]
        },
{
    let mut events: Vec<DownloadEvent> = Vec::new();
    if !started {
        events.push(DownloadEvent::Started { content_length });
    }
    events.push(DownloadEvent::Progress { chunk_length });
    (events, true)
}

} // verus!
