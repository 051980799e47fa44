//! The modification times that were decoded with an archive, kept per path
//! for as long as the path is not written again. The memory filesystem
//! keeps times of its own and has no way to set them, so what an archive
//! recorded is remembered here and written back on close.

use vstd::prelude::*;

use crate::path::ArchivePath;

verus! {

/// One line of the record: a path got a time, or lost the one it had.
struct Note {
    path: ArchivePath,
    mtime: Option<u64>,
}

/// The times that a sequence of notes leaves: each note sets or clears the
/// time of its path, the later note deciding.
spec fn noted(notes: Seq<Note>) -> Map<Seq<Seq<u8>>, u64>
    decreases notes.len(),
{
    if notes.len() == 0 {
        Map::<Seq<Seq<u8>>, u64>::empty()
    } else {
        match notes.last().mtime {
            Some(mtime) => noted(notes.drop_last()).insert(notes.last().path@, mtime),
            None => noted(notes.drop_last()).remove(notes.last().path@),
        }
    }
}

/// The time that is kept for a path, if one is.
pub open spec fn kept_time(times: Map<Seq<Seq<u8>>, u64>, path: Seq<Seq<u8>>) -> Option<u64> {
    if times.dom().contains(path) {
        Some(times[path])
    } else {
        None
    }
}

/// The times after a path's time was set, or cleared where `mtime` is `None`.
pub open spec fn with_time(times: Map<Seq<Seq<u8>>, u64>, path: Seq<Seq<u8>>, mtime: Option<u64>) -> Map<
    Seq<Seq<u8>>,
    u64,
> {
    match mtime {
        Some(seconds) => times.insert(path, seconds),
        None => times.remove(path),
    }
}

/// The modification times, in seconds since the epoch, that are kept for
/// paths of an archive. Its view maps each path that has a time to it.
pub struct KeptTimes {
    notes: Vec<Note>,
}

impl View for KeptTimes {
    type V = Map<Seq<Seq<u8>>, u64>;

    closed spec fn view(&self) -> Map<Seq<Seq<u8>>, u64> {
        noted(self.notes@)
    }
}

impl KeptTimes {
    /// No path has a time.
    pub fn new() -> (times: KeptTimes)
        ensures
            times@ == Map::<Seq<Seq<u8>>, u64>::empty(),
    {
        KeptTimes { notes: Vec::new() }
    }

    /// The time that is kept for a path, if one is.
    pub fn time_of(&self, path: &ArchivePath) -> (mtime: Option<u64>)
        ensures
            mtime == kept_time(self@, path@),
    {
        let mut i: usize = self.notes.len();
        assert(self.notes@.take(i as int) == self.notes@);
        while i > 0
            invariant
                i <= self.notes.len(),
                kept_time(noted(self.notes@), path@) == kept_time(noted(self.notes@.take(i as int)), path@),
            decreases i,
        {
            let note = &self.notes[i - 1];
            proof {
                let front = self.notes@.take(i as int);
                assert(front.last() == *note);
                assert(front.drop_last() == self.notes@.take(i - 1));
            }
            if note.path.same_as(path) {
                return note.mtime;
            }
            i -= 1;
        }
        None
    }

    /// Sets the time of a path, or clears it where `mtime` is `None`.
    pub fn set(&mut self, path: &ArchivePath, mtime: Option<u64>)
        ensures
            final(self)@ == with_time(old(self)@, path@, mtime),
    {
        let known = self.time_of(path);
        if mtime.is_some() || known.is_some() {
            let ghost before = self.notes@;
            self.notes.push(Note { path: path.duplicate(), mtime });
            assert(self.notes@.drop_last() == before);
        } else {
            assert(self@.remove(path@) == self@);
        }
    }

    /// Clears the time of a path.
    pub fn forget(&mut self, path: &ArchivePath)
        ensures
            final(self)@ == old(self)@.remove(path@),
    {
        self.set(path, None);
    }
}

} // verus!
