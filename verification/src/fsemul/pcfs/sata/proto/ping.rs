//! The `PING` packet and its answer, which also tells which connection
//! features both sides have enabled.

use crate::errors::{
    check_exact_len, exact_len_errors, is_unexpected_trailer, unexpected_trailer, NetworkParseError,
};
use crate::wire::{be_u32, lemma_be_u32_roundtrip, put_u32, read_u32, u32_at};
use vstd::prelude::*;

verus! {

/// A ping: a packet with an empty body.
#[derive(Copy, Clone, Debug, PartialEq, Eq)]
pub struct SataPingPacketBody;

impl SataPingPacketBody {
    pub fn new() -> (r: Self) {
        Self
    }

    /// Parse a ping body, which must be empty.
    pub fn try_from_bytes(value: &[u8]) -> (r: Result<Self, NetworkParseError>)
        ensures
            value@.len() == 0 <==> r is Ok,
            value@.len() != 0 ==> (r matches Err(e) && is_unexpected_trailer(
                e,
                "SataPingPacketBody"@,
                value@,
            )),
    {
        if value.len() != 0 {
            let e = unexpected_trailer("SataPingPacketBody", value, 0);
            assert(value@.subrange(0, value@.len() as int) =~= value@);
            return Err(e);
        }
        Ok(Self)
    }

    /// The body of a ping: no bytes at all.
    pub fn to_bytes(&self) -> (r: Vec<u8>)
        ensures
            r@.len() == 0,
    {
        Vec::new()
    }
}

impl Default for SataPingPacketBody {
    fn default() -> (r: Self) {
        Self
    }
}

/// The answer to a ping.
#[derive(Clone, Debug, PartialEq, Eq)]
pub struct SataPongBody {
    fast_file_io_enabled: bool,
    combined_send_recv_enabled: bool,
}

impl View for SataPongBody {
    /// (fast file I/O enabled, combined send/receive enabled)
    type V = (bool, bool);

    closed spec fn view(&self) -> (bool, bool) {
        (self.fast_file_io_enabled, self.combined_send_recv_enabled)
    }
}

/// The feature word of a pong for the given features.
pub open spec fn pong_feature_word(ffio: bool, csr: bool) -> u32 {
    if ffio && csr {
        0xCAFE_0003
    } else if ffio {
        0xCAFE_0001
    } else if csr {
        0xCAFE_0002
    } else {
        0
    }
}

/// The features a pong's feature word announces.
pub open spec fn pong_features(word: u32) -> (bool, bool) {
    (word == 0xCAFE_0003 || word == 0xCAFE_0001, word == 0xCAFE_0003 || word == 0xCAFE_0002)
}

/// The bytes of a pong: a zero return code, then the feature word.
pub open spec fn encode_pong(m: (bool, bool)) -> Seq<u8> {
    be_u32(0) + be_u32(pong_feature_word(m.0, m.1))
}

impl SataPongBody {
    pub fn new(ffio_enabled: bool, csr_enabled: bool) -> (r: Self)
        ensures
            r@ == (ffio_enabled, csr_enabled),
    {
        Self { fast_file_io_enabled: ffio_enabled, combined_send_recv_enabled: csr_enabled }
    }

    pub fn ffio_enabled(&self) -> (r: bool)
        ensures
            r == self@.0,
    {
        self.fast_file_io_enabled
    }

    pub fn set_ffio_enabled(&mut self, enabled: bool)
        ensures
            final(self)@ == (enabled, old(self)@.1),
    {
        self.fast_file_io_enabled = enabled;
    }

    pub fn combined_send_recv_enabled(&self) -> (r: bool)
        ensures
            r == self@.1,
    {
        self.combined_send_recv_enabled
    }

    pub fn set_combined_send_recv_enabled(&mut self, enabled: bool)
        ensures
            final(self)@ == (old(self)@.0, enabled),
    {
        self.combined_send_recv_enabled = enabled;
    }

    /// The eight bytes of the answer.
    pub fn to_bytes(&self) -> (r: Vec<u8>)
        ensures
            r@ == encode_pong(self@),
    {
        let mut out: Vec<u8> = Vec::new();
        put_u32(&mut out, 0);
        let word: u32 = if self.fast_file_io_enabled && self.combined_send_recv_enabled {
            0xCAFE_0003
        } else if self.fast_file_io_enabled {
            0xCAFE_0001
        } else if self.combined_send_recv_enabled {
            0xCAFE_0002
        } else {
            0
        };
        put_u32(&mut out, word);
        out
    }

    /// Parse an answer: eight bytes, a return code that must be zero, then
    /// the feature word.
    pub fn try_from_bytes(value: &[u8]) -> (r: Result<Self, NetworkParseError>)
        ensures
            exact_len_errors(r, "SataPongBody"@, 8, value@),
            value@.len() == 8 && u32_at(value@, 0) != 0 ==> r == Err::<Self, NetworkParseError>(
                NetworkParseError::ErrorCode(u32_at(value@, 0)),
            ),
            value@.len() == 8 && u32_at(value@, 0) == 0 ==> (r matches Ok(b) && b@ == pong_features(
                u32_at(value@, 4),
            )),
    {
        if value.len() < 8 {
            match check_exact_len("SataPongBody", value, 8) {
                Err(e) => return Err(e),
                Ok(()) => {},
            }
        }
        if value.len() > 8 {
            return Err(unexpected_trailer("SataPongBody", value, 8));
        }
        let rc = read_u32(value, 0);
        if rc != 0 {
            return Err(NetworkParseError::ErrorCode(rc));
        }
        let flags = read_u32(value, 4);
        Ok(
            Self {
                fast_file_io_enabled: flags == 0xCAFE_0003 || flags == 0xCAFE_0001,
                combined_send_recv_enabled: flags == 0xCAFE_0003 || flags == 0xCAFE_0002,
            },
        )
    }
}

/// Parsing the bytes of an answer gives the answer back: the return code
/// reads as zero, and the feature word announces the same features.
pub proof fn lemma_pong_roundtrip(m: (bool, bool))
    ensures
        encode_pong(m).len() == 8,
        u32_at(encode_pong(m), 0) == 0,
        pong_features(u32_at(encode_pong(m), 4)) == m,
{
    let w = pong_feature_word(m.0, m.1);
    lemma_be_u32_roundtrip(0);
    lemma_be_u32_roundtrip(w);
    let s = encode_pong(m);
    assert(s.subrange(0, 4) =~= be_u32(0));
    assert(s.subrange(4, 8) =~= be_u32(w));
}

} // verus!
