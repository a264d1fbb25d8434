//! The run's shared counter set.  Many workers increment it; any
//! observer may take a consistent snapshot.  The callers serialise
//! access; each method here is one read-modify-write.

use vstd::prelude::*;

verus! {

/// Counters describing one run: how many targets exist, how many have
/// been checked, and how many servers and channels were found.
#[derive(Clone, Copy, Debug, PartialEq, Eq, Structural)]
pub struct RunProgress {
    pub total: usize,
    pub checked: usize,
    pub servers_found: usize,
    pub channels_found: usize,
}

impl RunProgress {
    /// A fresh counter set for a run over `total` targets.
    pub fn new(total: usize) -> (r: Self)
        ensures
            r == (RunProgress { total, checked: 0, servers_found: 0, channels_found: 0 }),
    {
        RunProgress { total, checked: 0, servers_found: 0, channels_found: 0 }
    }

    /// Counts one finished probe.
    pub fn increment_checked(&mut self)
        requires
            old(self).checked < usize::MAX,
        ensures
            *final(self) == (RunProgress { checked: (old(self).checked + 1) as usize, ..*old(self) }),
    {
        self.checked = self.checked + 1;
    }

    /// Counts one newly discovered server.
    pub fn increment_servers(&mut self)
        requires
            old(self).servers_found < usize::MAX,
        ensures
            *final(self) == (RunProgress { servers_found: (old(self).servers_found + 1) as usize, ..*old(self) }),
    {
        self.servers_found = self.servers_found + 1;
    }

    /// Counts `n` newly persisted channels, saturating rather than
    /// overflowing.
    pub fn add_channels(&mut self, n: usize)
        ensures
            *final(self) == (RunProgress {
                channels_found: if old(self).channels_found + n <= usize::MAX {
                    (old(self).channels_found + n) as usize
                } else {
                    usize::MAX
                },
                ..*old(self)
            }),
    {
        if n <= usize::MAX - self.channels_found {
            self.channels_found = self.channels_found + n;
        } else {
            self.channels_found = usize::MAX;
        }
    }

    /// A consistent snapshot of the counters.
    pub fn snapshot(&self) -> (r: RunProgress)
        ensures
            r == *self,
    {
        *self
    }
}

} // verus!
