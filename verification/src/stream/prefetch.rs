//! The startup buffer: what is read of a file before the player starts.

use crate::stream::transfer::{
    bytes_read, transfers_move_what_was_asked, Progress, ReadEvent, Transfer,
};
use crate::torrent::layout::{LayoutError, TorrentFile, TorrentLayout};
use vstd::prelude::*;

verus! {

/// What is to be read before the player starts: so many bytes from the start of the file, and the
/// first and the last of their pieces.
#[derive(Clone, Copy, Debug, PartialEq, Eq)]
pub struct StartupBuffer {
    pub target: u64,
    pub pieces: Option<(u32, u32)>,
}

/// Why the startup buffer is not ready.
#[derive(Clone, Copy, Debug, PartialEq, Eq, Structural)]
pub enum StartupError {
    Stalled,
    ReadFailed,
    Ended,
}

/// The number of bytes of a file that are read in advance.
pub open spec fn startup_target(file: TorrentFile, requested_bytes: u64) -> u64 {
    if requested_bytes < file.length {
        requested_bytes
    } else {
        file.length
    }
}

/// Plans the startup buffer of a file: as many bytes as are requested, but no more than the file
/// has.
pub fn prefetch(file: &TorrentFile, layout: &TorrentLayout, requested_bytes: u64) -> (res: Result<
    StartupBuffer,
    LayoutError,
>)
    ensures
        ({
            let target = startup_target(*file, requested_bytes);
            match layout.file_piece_range_of(file.file_id, 0, target) {
                Ok(pieces) => res == Ok::<StartupBuffer, LayoutError>(
                    StartupBuffer { target, pieces },
                ),
                Err(error) => res == Err::<StartupBuffer, LayoutError>(error),
            }
        }),
{
    let target: u64 = if requested_bytes < file.length {
        requested_bytes
    } else {
        file.length
    };
    match layout.file_piece_range(file.file_id, 0, target) {
        Ok(pieces) => Ok(StartupBuffer { target, pieces }),
        Err(error) => Err(error),
    }
}

impl StartupBuffer {
    /// The transfer that fills the buffer; `None` if there is nothing to read.
    pub fn start(&self) -> (res: Option<Transfer>)
        ensures
            res is None <==> self.target == 0,
            res matches Some(transfer) ==> transfer == (Transfer { total: self.target, moved: 0 })
                && transfer.valid(),
    {
        if self.target == 0 {
            None
        } else {
            Some(Transfer::new(self.target))
        }
    }

    /// What has become of the buffer, given where its transfer stands; `None` as long as neither
    /// all bytes were read nor anything went wrong.
    pub open spec fn result_of(self, progress: Progress) -> Option<Result<u64, StartupError>> {
        match progress {
            Progress::More | Progress::Cancelled => None,
            Progress::Complete => Some(Ok(self.target)),
            Progress::Failed => Some(Err(StartupError::ReadFailed)),
            Progress::Stalled => Some(Err(StartupError::Stalled)),
            Progress::Ended => Some(Err(StartupError::Ended)),
        }
    }

    /// What has become of the buffer, given where its transfer stands.
    pub fn result(&self, progress: Progress) -> (res: Option<Result<u64, StartupError>>)
        ensures
            res == self.result_of(progress),
    {
        match progress {
            Progress::More | Progress::Cancelled => None,
            Progress::Complete => Some(Ok(self.target)),
            Progress::Failed => Some(Err(StartupError::ReadFailed)),
            Progress::Stalled => Some(Err(StartupError::Stalled)),
            Progress::Ended => Some(Err(StartupError::Ended)),
        }
    }
}

/// The startup buffer is ready exactly if as many bytes were read as are requested, or all bytes
/// of a shorter file.
pub proof fn startup_buffer_is_filled(
    file: TorrentFile,
    requested_bytes: u64,
    buffer: StartupBuffer,
    events: Seq<ReadEvent>,
)
    requires
        buffer.target == startup_target(file, requested_bytes),
        (Transfer { total: buffer.target, moved: 0 }).ends_by(events),
    ensures
        ({
            let start = Transfer { total: buffer.target, moved: 0 };
            let least = if requested_bytes < file.length {
                requested_bytes
            } else {
                file.length
            };
            &&& buffer.result_of(start.outcome(events)) == Some(Ok::<u64, StartupError>(least))
                <==> bytes_read(events) == least
            &&& bytes_read(events) <= least
        }),
{
    transfers_move_what_was_asked(Transfer { total: buffer.target, moved: 0 }, events);
}

impl StartupError {
    /// What the user is told.
    pub open spec fn message_text(self) -> Seq<char> {
        match self {
            StartupError::Stalled => "startup buffer stalled while waiting for torrent pieces"@,
            StartupError::ReadFailed => "startup buffer read failed"@,
            StartupError::Ended => "startup stream ended before the requested buffer was ready"@,
        }
    }

    /// What the user is told.
    pub fn message(self) -> (res: &'static str)
        ensures
            res@ == self.message_text(),
    {
        match self {
            StartupError::Stalled => "startup buffer stalled while waiting for torrent pieces",
            StartupError::ReadFailed => "startup buffer read failed",
            StartupError::Ended => "startup stream ended before the requested buffer was ready",
        }
    }
}

/// A startup buffer fails with the reason for which its transfer ended, and is neither ready nor
/// failed as long as it goes on.
pub proof fn startup_failures_are_told_apart(buffer: StartupBuffer, progress: Progress)
    ensures
        progress == Progress::Stalled ==> buffer.result_of(progress) == Some(
            Err::<u64, StartupError>(StartupError::Stalled),
        ),
        progress == Progress::Failed ==> buffer.result_of(progress) == Some(
            Err::<u64, StartupError>(StartupError::ReadFailed),
        ),
        progress == Progress::Ended ==> buffer.result_of(progress) == Some(
            Err::<u64, StartupError>(StartupError::Ended),
        ),
        progress == Progress::More ==> buffer.result_of(progress) is None,
        buffer.result_of(progress) matches Some(Ok(bytes)) ==> progress == Progress::Complete
            && bytes == buffer.target,
{
}

/// A file is never read further in advance than it is long, nor than was requested, and as far as
/// one of them.
pub proof fn startup_targets_are_the_lesser(file: TorrentFile, requested_bytes: u64)
    ensures
        startup_target(file, requested_bytes) <= file.length,
        startup_target(file, requested_bytes) <= requested_bytes,
        startup_target(file, requested_bytes) == file.length || startup_target(
            file,
            requested_bytes,
        ) == requested_bytes,
{
}

} // verus!
