use vstd::prelude::*;

verus! {

/// Process-wide, read-only configuration resolved once at startup.
pub struct Flags {
    max_recents: usize,
}

impl Flags {
    /// The bound on the recent-files list that this process runs with.
    pub closed spec fn spec_max_recents(&self) -> nat {
        self.max_recents as nat
    }

    pub fn new(max_recents: usize) -> (flags: Flags)
        ensures
            flags.spec_max_recents() == max_recents as nat,
    {
        Flags { max_recents }
    }

    pub fn max_recents(&self) -> (max: usize)
        ensures
            max as nat == self.spec_max_recents(),
    {
        self.max_recents
    }
}

} // verus!

