//! What comes back from the daemon for a popup's errands, and how many status reads are still out.

use vstd::prelude::*;

use crate::unit::Status;
use crate::view::Owner;

verus! {

/// What came back, and for whose errand. A verb answers with a note or with nothing, a read with the
/// manifest's units, and either may answer with the sentence the daemon refused it with.
#[derive(Debug)]
pub enum Answer {
    Read(Owner, Result<Vec<(String, Status)>, String>),
    Note(Result<Option<String>, String>),
}

/// Status reads posted and not yet answered. A second beat must not queue a second round behind a
/// daemon that is still busy with the first.
#[derive(Debug)]
pub struct Outstanding {
    reading: usize,
}

impl Outstanding {
    pub closed spec fn count(&self) -> nat {
        self.reading as nat
    }

    /// Nothing posted yet.
    pub fn new() -> (r: Outstanding)
        ensures
            r.count() == 0,
    {
        Outstanding { reading: 0 }
    }

    /// A status read was posted.
    pub fn posted(&mut self)
        requires
            old(self).count() < usize::MAX,
        ensures
            final(self).count() == old(self).count() + 1,
    {
        self.reading = self.reading + 1;
    }

    /// An answer came back: a read's answer settles one read, a verb's settles none.
    pub fn came_back(&mut self, answer: &Answer)
        ensures
            final(self).count() == match answer {
                Answer::Read(..) => if old(self).count() > 0 {
                    (old(self).count() - 1) as nat
                } else {
                    0
                },
                Answer::Note(..) => old(self).count(),
            },
    {
        match answer {
            Answer::Read(..) => {
                if self.reading > 0 {
                    self.reading = self.reading - 1;
                }
            },
            Answer::Note(..) => {},
        }
    }

    /// The answering end is gone, so nothing outstanding is coming back. Left uncounted, the next
    /// beat would wait forever on a read that no longer exists.
    pub fn hung_up(&mut self)
        ensures
            final(self).count() == 0,
    {
        self.reading = 0;
    }

    /// Whether a round of reads is still out. Only a read is counted: a verb is the user's own
    /// doing and waits for nothing.
    pub fn reading(&self) -> (r: bool)
        ensures
            r == (self.count() > 0),
    {
        self.reading > 0
    }
}

} // verus!
