use vstd::prelude::*;

verus! {

/// A peer's public key.
pub type PeerKey = [u8; 32];

/// A progress event of a blob download, with the numbers the client reads from it.
#[derive(Clone, Copy, Debug, PartialEq, Eq, Structural)]
pub enum ProgressEvent {
    InitialState,
    /// The blob is already local, with this size.
    FoundLocal(u64),
    Connected,
    /// The blob was found remotely, with this size.
    Found(u64),
    FoundHashSeq,
    /// Downloaded up to this offset.
    Progress(u64),
    Done,
    AllDone,
    Abort,
}

/// A download being followed: from whom, which blob, how far it got and how large
/// the blob is.
pub struct Download {
    pub from: PeerKey,
    pub hash: String,
    pub last_offset: u64,
    pub total_size: u64,
}

/// What a progress event reports: the blob, its source, the bytes gained by this
/// event, the bytes so far and the blob's size.
pub struct DownloadUpdate {
    pub hash: String,
    pub from: PeerKey,
    pub downloaded_size_delta: u64,
    pub downloaded_size: u64,
    pub total_size: u64,
}

/// The report of an event as plain numbers: gained, so far, size.
pub open spec fn update_numbers(d_last: u64, d_total: u64, e: ProgressEvent) -> Option<(u64, u64, u64)> {
    match e {
        ProgressEvent::FoundLocal(size) => Some((0, size, size)),
        ProgressEvent::Found(size) => Some((0, 0, size)),
        ProgressEvent::Progress(offset) => Some(((offset - d_last) as u64, offset, d_total)),
        ProgressEvent::AllDone => Some((0, d_total, d_total)),
        ProgressEvent::Abort => Some((0, 0, 0)),
        _ => None,
    }
}

impl Download {
    /// A download that has not started.
    pub fn new(from: PeerKey, hash: String) -> (d: Self)
        ensures
            d.from == from,
            d.hash@ == hash@,
            d.last_offset == 0,
            d.total_size == 0,
    {
        Download { from, hash, last_offset: 0, total_size: 0 }
    }

    /// Follows a progress event: a found blob sets the size, progress moves the
    /// offset; local, found, progress, completion and abort events are reported,
    /// with what this event gained (only progress gains bytes), the bytes so far
    /// (all of it when local or complete, none when found or aborted) and the size
    /// (none when aborted).
    pub fn handle_progress(&mut self, event: ProgressEvent) -> (r: Option<DownloadUpdate>)
        requires
            event matches ProgressEvent::Progress(offset) ==> offset >= old(self).last_offset,
        ensures
            final(self).from == old(self).from,
            final(self).hash@ == old(self).hash@,
            final(self).total_size == (match event {
                ProgressEvent::Found(size) => size,
                _ => old(self).total_size,
            }),
            final(self).last_offset == (match event {
                ProgressEvent::Progress(offset) => offset,
                _ => old(self).last_offset,
            }),
            match update_numbers(old(self).last_offset, old(self).total_size, event) {
                Some((delta, so_far, size)) => r matches Some(u) && {
                    &&& u.hash@ == old(self).hash@
                    &&& u.from == old(self).from
                    &&& u.downloaded_size_delta == delta
                    &&& u.downloaded_size == so_far
                    &&& u.total_size == size
                },
                None => r is None,
            },
    {
        match event {
            ProgressEvent::FoundLocal(size) => Some(DownloadUpdate {
                hash: self.hash.clone(),
                from: self.from,
                downloaded_size_delta: 0,
                downloaded_size: size,
                total_size: size,
            }),
            ProgressEvent::Found(size) => {
                self.total_size = size;
                Some(DownloadUpdate {
                    hash: self.hash.clone(),
                    from: self.from,
                    downloaded_size_delta: 0,
                    downloaded_size: 0,
                    total_size: size,
                })
            },
            ProgressEvent::Progress(offset) => {
                let update = DownloadUpdate {
                    hash: self.hash.clone(),
                    from: self.from,
                    downloaded_size_delta: offset - self.last_offset,
                    downloaded_size: offset,
                    total_size: self.total_size,
                };
                self.last_offset = offset;
                Some(update)
            },
            ProgressEvent::AllDone => Some(DownloadUpdate {
                hash: self.hash.clone(),
                from: self.from,
                downloaded_size_delta: 0,
                downloaded_size: self.total_size,
                total_size: self.total_size,
            }),
            ProgressEvent::Abort => Some(DownloadUpdate {
                hash: self.hash.clone(),
                from: self.from,
                downloaded_size_delta: 0,
                downloaded_size: 0,
                total_size: 0,
            }),
            _ => None,
        }
    }
}

impl DownloadUpdate {
    /// The download is complete: all of the blob has arrived.
    pub fn is_done(&self) -> (r: bool)
        ensures
            r == (self.downloaded_size == self.total_size),
    {
        self.downloaded_size == self.total_size
    }
}

/// The step of a bandwidth test at a wall-clock time: one every fifteen seconds,
/// two seconds early.
pub fn step_for_time(unix_secs: u64) -> (step: u64)
    requires
        unix_secs + 2 <= u64::MAX,
    ensures
        step == (unix_secs + 2) / 15,
{
    (unix_secs + 2) / 15
}

} // verus!
