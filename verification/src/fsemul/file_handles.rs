//! How the files a client opens are numbered: by the host's own descriptor,
//! or, once asked for, by a counter that never hands out a number twice.
//! The choice can only be made before the first file is opened.

use crate::fsemul::errors::FSEmulAPIError;
use vstd::prelude::*;

verus! {

/// How file handles are numbered.
pub struct FileHandleNumbers {
    unique: bool,
    opened_any: bool,
    next_unique: i32,
}

/// Whether handles come from the counter, whether any file was opened, and
/// the counter's next number.
pub struct FileHandleNumbersView {
    pub unique: bool,
    pub opened_any: bool,
    pub next_unique: i32,
}

impl View for FileHandleNumbers {
    type V = FileHandleNumbersView;

    closed spec fn view(&self) -> FileHandleNumbersView {
        FileHandleNumbersView { unique: self.unique, opened_any: self.opened_any, next_unique: self.next_unique }
    }
}

/// The number after `n`, wrapping around as an atomic counter adds.
pub open spec fn following(n: i32) -> i32 {
    if n == i32::MAX {
        i32::MIN
    } else {
        (n + 1) as i32
    }
}

impl FileHandleNumbers {
    /// Before any file is opened: handles are the host's descriptors, and
    /// the counter starts at one.
    pub fn new() -> (r: Self)
        ensures
            r@ == (FileHandleNumbersView { unique: false, opened_any: false, next_unique: 1 }),
    {
        FileHandleNumbers { unique: false, opened_any: false, next_unique: 1 }
    }

    /// Number handles by the counter from now on; refused once a file has
    /// been opened.
    pub fn force_unique_fds(&mut self) -> (r: Result<(), FSEmulAPIError>)
        ensures
            old(self)@.opened_any ==> r == Err::<(), FSEmulAPIError>(FSEmulAPIError::CannotSwapFdStrategy)
                && final(self)@ == old(self)@,
            !old(self)@.opened_any ==> r is Ok && final(self)@ == (FileHandleNumbersView {
                unique: true,
                ..old(self)@
            }),
    {
        if self.opened_any {
            Err(FSEmulAPIError::CannotSwapFdStrategy)
        } else {
            self.unique = true;
            Ok(())
        }
    }

    /// The handle for a file the host opened as `raw_fd`: the counter's
    /// next number when handles are unique, else `raw_fd` itself.
    pub fn handle_for_open(&mut self, raw_fd: i32) -> (r: i32)
        ensures
            r == if old(self)@.unique {
                old(self)@.next_unique
            } else {
                raw_fd
            },
            final(self)@ == (FileHandleNumbersView {
                opened_any: true,
                next_unique: if old(self)@.unique {
                    following(old(self)@.next_unique)
                } else {
                    old(self)@.next_unique
                },
                ..old(self)@
            }),
    {
        self.opened_any = true;
        if self.unique {
            let n = self.next_unique;
            self.next_unique = n.wrapping_add(1);
            n
        } else {
            raw_fd
        }
    }
}

} // verus!
