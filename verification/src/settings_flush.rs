//! When the settings are written back: a change marks them dirty, a flush
//! takes the mark before writing, and a flush that fails puts it back so
//! that the next flush writes again.

use vstd::prelude::*;

verus! {

/// Whether the settings in memory differ from what was last written.
pub struct DirtyFlag {
    pub dirty: bool,
}

impl DirtyFlag {
    /// A flag for settings as read from disk (`false`), or for defaults
    /// not written yet (`true`).
    pub fn new(dirty: bool) -> (r: Self)
        ensures
            r.dirty == dirty,
    {
        DirtyFlag { dirty }
    }

    /// The settings changed in memory.
    pub fn mark_changed(&mut self)
        ensures
            final(self).dirty,
    {
        self.dirty = true;
    }

    /// Starts a flush: true iff there is something to write, in which case
    /// the flag is taken.
    pub fn begin_flush(&mut self) -> (write: bool)
        ensures
            write == old(self).dirty,
            !final(self).dirty,
    {
        let write = self.dirty;
        self.dirty = false;
        write
    }

    /// The write failed: the settings stay dirty.
    pub fn flush_failed(&mut self)
        ensures
            final(self).dirty,
    {
        self.dirty = true;
    }
}

/// The name of the temporary file a settings file is written through.
pub fn temp_file_name(file_name: &str) -> (r: String)
    ensures
        r@ == file_name@ + ".tmp"@,
{
    let mut r = crate::text::owned(file_name);
    crate::text::push_str(&mut r, ".tmp");
    r
}

} // verus!
