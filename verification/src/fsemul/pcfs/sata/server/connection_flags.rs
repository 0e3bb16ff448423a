//! The flags that hold for a whole connection:
//!
//! 1. "Fast file I/O": whether file data travels inline on the stream
//!    rather than in a series of chunked packets.
//! 2. "Combined send/receive": whether sends and receives may be bundled.
//! 3. The version of PCFS reported to the client.
//! 4. The first read and write sizes, past which no padding is added.
//!
//! A connection has one set of these flags, seen alike by every part of
//! the server that handles it. Here that set is one value, which cannot be
//! copied: whoever reads the flags borrows it, and whoever changes them
//! borrows it mutably, so a change made while answering one request is
//! what every later request on the connection sees.

use crate::fsemul::pcfs::sata::proto::ping::SataPongBody;
use vstd::prelude::*;

verus! {

/// The first read size a connection starts with.
pub const DEFAULT_FIRST_READ_SIZE: u32 = 196_672;

/// The first write size a connection starts with.
pub const DEFAULT_FIRST_WRITE_SIZE: u32 = 196_640;

/// The flags set on one connection. There is no `Clone`: the connection's
/// one set of flags is passed by reference, never copied.
#[derive(Debug, PartialEq, Eq)]
pub struct SataConnectionFlags {
    fast_file_io_enabled: bool,
    combined_send_recv_enabled: bool,
    version: u32,
    first_read_size: u32,
    first_write_size: u32,
}

/// The values of a connection's flags.
pub struct ConnectionFlagsView {
    pub ffio: bool,
    pub csr: bool,
    pub version: u32,
    pub first_read_size: u32,
    pub first_write_size: u32,
}

impl View for SataConnectionFlags {
    type V = ConnectionFlagsView;

    closed spec fn view(&self) -> ConnectionFlagsView {
        ConnectionFlagsView {
            ffio: self.fast_file_io_enabled,
            csr: self.combined_send_recv_enabled,
            version: self.version,
            first_read_size: self.first_read_size,
            first_write_size: self.first_write_size,
        }
    }
}

impl SataConnectionFlags {
    /// The flags of a new connection reporting PCFS `version`: fast file
    /// I/O and combined send/receive on, and the default first read and
    /// write sizes.
    pub fn new(version: u32) -> (r: Self)
        ensures
            r@ == (ConnectionFlagsView {
                ffio: true,
                csr: true,
                version,
                first_read_size: DEFAULT_FIRST_READ_SIZE,
                first_write_size: DEFAULT_FIRST_WRITE_SIZE,
            }),
    {
        Self::new_with_flags(true, true, version)
    }

    /// The flags of a new connection reporting PCFS `version`, with fast
    /// file I/O and combined send/receive as given, and the default first
    /// read and write sizes.
    pub fn new_with_flags(ffio_enabled: bool, csr_enabled: bool, version: u32) -> (r: Self)
        ensures
            r@ == (ConnectionFlagsView {
                ffio: ffio_enabled,
                csr: csr_enabled,
                version,
                first_read_size: DEFAULT_FIRST_READ_SIZE,
                first_write_size: DEFAULT_FIRST_WRITE_SIZE,
            }),
    {
        SataConnectionFlags {
            fast_file_io_enabled: ffio_enabled,
            combined_send_recv_enabled: csr_enabled,
            version,
            first_read_size: DEFAULT_FIRST_READ_SIZE,
            first_write_size: DEFAULT_FIRST_WRITE_SIZE,
        }
    }

    pub fn ffio_enabled(&self) -> (r: bool)
        ensures
            r == self@.ffio,
    {
        self.fast_file_io_enabled
    }

    pub fn set_ffio_enabled(&mut self, enabled: bool)
        ensures
            final(self)@ == (ConnectionFlagsView { ffio: enabled, ..old(self)@ }),
    {
        self.fast_file_io_enabled = enabled;
    }

    pub fn csr_enabled(&self) -> (r: bool)
        ensures
            r == self@.csr,
    {
        self.combined_send_recv_enabled
    }

    pub fn set_csr_enabled(&mut self, enabled: bool)
        ensures
            final(self)@ == (ConnectionFlagsView { csr: enabled, ..old(self)@ }),
    {
        self.combined_send_recv_enabled = enabled;
    }

    pub fn version(&self) -> (r: u32)
        ensures
            r == self@.version,
    {
        self.version
    }

    pub fn set_version(&mut self, version_num: u32)
        ensures
            final(self)@ == (ConnectionFlagsView { version: version_num, ..old(self)@ }),
    {
        self.version = version_num;
    }

    pub fn first_read_size(&self) -> (r: u32)
        ensures
            r == self@.first_read_size,
    {
        self.first_read_size
    }

    pub fn set_first_read_size(&mut self, new_size: u32)
        ensures
            final(self)@ == (ConnectionFlagsView { first_read_size: new_size, ..old(self)@ }),
    {
        self.first_read_size = new_size;
    }

    pub fn first_write_size(&self) -> (r: u32)
        ensures
            r == self@.first_write_size,
    {
        self.first_write_size
    }

    /// Answer a ping: a feature the client does not offer is turned off,
    /// and both are when the first word of its capabilities is zero; the
    /// pong reports what stays on.
    pub fn negotiate(
        &mut self,
        client_ffio: bool,
        client_csr: bool,
        client_capabilities: u32,
    ) -> (r: SataPongBody)
        ensures
            final(self)@ == (ConnectionFlagsView {
                ffio: old(self)@.ffio && client_ffio && client_capabilities != 0,
                csr: old(self)@.csr && client_csr && client_capabilities != 0,
                ..old(self)@
            }),
            r@ == (final(self)@.ffio, final(self)@.csr),
    {
        if !client_ffio {
            self.set_ffio_enabled(false);
        }
        if !client_csr {
            self.set_csr_enabled(false);
        }
        if client_capabilities == 0 {
            self.set_csr_enabled(false);
            self.set_ffio_enabled(false);
        }
        SataPongBody::new(self.ffio_enabled(), self.csr_enabled())
    }

    pub fn set_first_write_size(&mut self, new_size: u32)
        ensures
            final(self)@ == (ConnectionFlagsView { first_write_size: new_size, ..old(self)@ }),
    {
        self.first_write_size = new_size;
    }
}

} // verus!
