//! Reading a known number of bytes from a torrent, in chunks of bounded size.

use vstd::prelude::*;

verus! {

/// The most bytes that are read at once.
pub const CHUNK_SIZE: usize = 1_048_576;

/// How far the reading of `total` bytes has come.
#[derive(Clone, Copy, Debug, PartialEq, Eq, Structural)]
pub struct Transfer {
    pub total: u64,
    pub moved: u64,
}

/// What came of an attempt to read.
#[derive(Clone, Copy, Debug, PartialEq, Eq, Structural)]
pub enum ReadEvent {
    /// This many bytes were read; none at the end of the data.
    Data(usize),
    /// The reading was called off.
    Cancelled,
    /// The read failed.
    Failed,
    /// No data came in time.
    Stalled,
}

/// Where the reading stands after an attempt to read.
#[derive(Clone, Copy, Debug, PartialEq, Eq, Structural)]
pub enum Progress {
    /// There is more to read.
    More,
    /// All bytes were read.
    Complete,
    /// The reading was called off.
    Cancelled,
    /// A read failed.
    Failed,
    /// No data came in time.
    Stalled,
    /// The data ended too early.
    Ended,
}

impl Progress {
    /// Whether the reading went wrong.
    pub open spec fn is_fault(self) -> bool {
        self is Failed || self is Stalled || self is Ended
    }

    /// Whether the reading went wrong.
    pub fn fault(self) -> (res: bool)
        ensures
            res == self.is_fault(),
    {
        match self {
            Progress::Failed | Progress::Stalled | Progress::Ended => true,
            _ => false,
        }
    }
}

impl Transfer {
    /// Whether no more was read than asked for.
    pub open spec fn valid(self) -> bool {
        self.moved <= self.total
    }

    /// The number of bytes that the next read asks for.
    pub open spec fn next_size(self) -> int {
        if self.total - self.moved < CHUNK_SIZE {
            self.total - self.moved
        } else {
            CHUNK_SIZE as int
        }
    }

    /// Whether an attempt to read can have come out like this.
    pub open spec fn admits(self, event: ReadEvent) -> bool {
        event matches ReadEvent::Data(count) ==> count <= self.next_size()
    }

    /// The state after an attempt to read.
    pub open spec fn after(self, event: ReadEvent) -> Transfer {
        match event {
            ReadEvent::Data(count) => Transfer { moved: (self.moved + count) as u64, ..self },
            _ => self,
        }
    }

    /// Where the reading stands after an attempt to read.
    pub open spec fn progress(self, event: ReadEvent) -> Progress {
        match event {
            ReadEvent::Data(count) => if count == 0 {
                Progress::Ended
            } else if self.moved + count == self.total {
                Progress::Complete
            } else {
                Progress::More
            },
            ReadEvent::Cancelled => Progress::Cancelled,
            ReadEvent::Failed => Progress::Failed,
            ReadEvent::Stalled => Progress::Stalled,
        }
    }

    /// The start of the reading of `total` bytes.
    pub fn new(total: u64) -> (res: Transfer)
        ensures
            res == (Transfer { total, moved: 0 }),
            res.valid(),
    {
        Transfer { total, moved: 0 }
    }

    /// The number of bytes that the next read asks for: the rest, but at most a chunk.
    pub fn wanted(&self) -> (res: usize)
        requires
            self.valid(),
        ensures
            res == self.next_size(),
            res <= CHUNK_SIZE,
            res == 0 <==> self.moved == self.total,
    {
        let rest: u64 = self.total - self.moved;
        if rest < CHUNK_SIZE as u64 {
            rest as usize
        } else {
            CHUNK_SIZE
        }
    }

    /// Takes note of an attempt to read, and tells where the reading stands.
    pub fn advance(&mut self, event: ReadEvent) -> (res: Progress)
        requires
            old(self).valid(),
            old(self).admits(event),
        ensures
            *final(self) == old(self).after(event),
            res == old(self).progress(event),
            final(self).valid(),
    {
        match event {
            ReadEvent::Data(count) => {
                if count == 0 {
                    return Progress::Ended;
                }
                self.moved = self.moved + count as u64;
                if self.moved == self.total {
                    Progress::Complete
                } else {
                    Progress::More
                }
            },
            ReadEvent::Cancelled => Progress::Cancelled,
            ReadEvent::Failed => Progress::Failed,
            ReadEvent::Stalled => Progress::Stalled,
        }
    }

    /// Whether `events` can be the attempts to read of a transfer from this state on, up to its
    /// end.
    pub open spec fn ends_by(self, events: Seq<ReadEvent>) -> bool
        decreases events.len(),
    {
        if self.moved == self.total {
            events.len() == 0
        } else {
            &&& events.len() > 0
            &&& self.admits(events[0])
            &&& if self.progress(events[0]) is More {
                self.after(events[0]).ends_by(events.drop_first())
            } else {
                events.len() == 1
            }
        }
    }

    /// Where the transfer ends, given the attempts to read from this state on.
    pub open spec fn outcome(self, events: Seq<ReadEvent>) -> Progress
        decreases events.len(),
    {
        if events.len() == 0 {
            if self.moved == self.total {
                Progress::Complete
            } else {
                Progress::More
            }
        } else if self.progress(events[0]) is More {
            self.after(events[0]).outcome(events.drop_first())
        } else {
            self.progress(events[0])
        }
    }
}

/// The number of bytes that are read in the given attempts.
pub open spec fn bytes_read(events: Seq<ReadEvent>) -> int
    decreases events.len(),
{
    if events.len() == 0 {
        0
    } else {
        bytes_read(events.drop_first()) + match events[0] {
            ReadEvent::Data(count) => count as int,
            _ => 0,
        }
    }
}

/// A transfer that has ended is complete if and only if exactly the missing bytes were read;
/// otherwise fewer were read, and it was called off or went wrong.
pub proof fn transfers_move_what_was_asked(transfer: Transfer, events: Seq<ReadEvent>)
    requires
        transfer.valid(),
        transfer.ends_by(events),
    ensures
        transfer.outcome(events) is Complete <==> transfer.moved + bytes_read(events)
            == transfer.total,
        transfer.moved + bytes_read(events) <= transfer.total,
        transfer.outcome(events) is Complete || transfer.outcome(events) is Cancelled
            || transfer.outcome(events).is_fault(),
    decreases events.len(),
{
    if transfer.moved < transfer.total {
        if transfer.progress(events[0]) is More {
            transfers_move_what_was_asked(transfer.after(events[0]), events.drop_first());
        } else {
            assert(bytes_read(events.drop_first()) == 0);
        }
    }
}

/// An end of the data before the last byte is a fault, as is a failed or a stalled read.
pub proof fn faults_end_the_transfer(transfer: Transfer, event: ReadEvent)
    requires
        transfer.valid(),
        transfer.admits(event),
        transfer.moved < transfer.total,
        event is Failed || event is Stalled || event == ReadEvent::Data(0),
    ensures
        transfer.progress(event).is_fault(),
        transfer.after(event) == transfer,
{
}

/// A read asks for all that is missing, or for a chunk if that is more.
pub proof fn reads_ask_for_what_is_missing(transfer: Transfer)
    requires
        transfer.valid(),
    ensures
        transfer.total - transfer.moved <= CHUNK_SIZE ==> transfer.next_size() == transfer.total
            - transfer.moved,
        transfer.total - transfer.moved > CHUNK_SIZE ==> transfer.next_size() == CHUNK_SIZE,
{
}

/// Every attempt to read has its own outcome: data moves the transfer on by as many bytes, and to
/// its end with the last of them; what is called off, fails or stalls leaves it where it is and is
/// told apart.
pub proof fn attempts_are_told_apart(transfer: Transfer, event: ReadEvent)
    requires
        transfer.valid(),
        transfer.admits(event),
        transfer.moved < transfer.total,
    ensures
        transfer.after(event).total == transfer.total,
        transfer.after(event).valid(),
        match event {
            ReadEvent::Data(count) => {
                &&& transfer.after(event).moved - transfer.moved == count
                &&& count == 0 ==> transfer.progress(event) == Progress::Ended
                &&& count > 0 && transfer.moved + count < transfer.total ==> transfer.progress(event)
                    == Progress::More
                &&& count > 0 && transfer.moved + count == transfer.total ==> transfer.progress(
                    event,
                ) == Progress::Complete
            },
            ReadEvent::Cancelled => transfer.after(event) == transfer && transfer.progress(event)
                == Progress::Cancelled && !transfer.progress(event).is_fault(),
            ReadEvent::Failed => transfer.after(event) == transfer && transfer.progress(event)
                == Progress::Failed,
            ReadEvent::Stalled => transfer.after(event) == transfer && transfer.progress(event)
                == Progress::Stalled,
        },
{
}

/// What goes on, is complete or was called off is no fault.
pub proof fn only_faults_are_faults(progress: Progress)
    ensures
        progress.is_fault() <==> !(progress == Progress::More || progress == Progress::Complete
            || progress == Progress::Cancelled),
{
}

} // verus!
