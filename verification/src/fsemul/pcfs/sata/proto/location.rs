//! Where a file pointer is moved to before a read or a write.

use crate::errors::{from_sata_error, sata_parse_error, NetworkParseError};
use crate::fsemul::pcfs::errors::SataProtocolError;
use vstd::prelude::*;

verus! {

/// A position in an open file to move its pointer to.
#[derive(Copy, Clone, Debug, PartialEq, Eq)]
pub enum MoveToFileLocation {
    /// The start of the file.
    Begin,
    /// Where the pointer already is.
    Current,
    /// The end of the file.
    End,
}

/// The number a position is sent as.
pub open spec fn location_code(l: MoveToFileLocation) -> u32 {
    match l {
        MoveToFileLocation::Begin => 0,
        MoveToFileLocation::Current => 1,
        MoveToFileLocation::End => 2,
    }
}

/// The position a number stands for, if any.
pub open spec fn location_from_code(v: u32) -> Option<MoveToFileLocation> {
    if v == 0 {
        Some(MoveToFileLocation::Begin)
    } else if v == 1 {
        Some(MoveToFileLocation::Current)
    } else if v == 2 {
        Some(MoveToFileLocation::End)
    } else {
        None
    }
}

impl MoveToFileLocation {
    /// The number this position is sent as.
    pub fn to_u32(self) -> (r: u32)
        ensures
            r == location_code(self),
    {
        match self {
            MoveToFileLocation::Begin => 0,
            MoveToFileLocation::Current => 1,
            MoveToFileLocation::End => 2,
        }
    }

    /// The position sent as `value`.
    pub fn try_from_u32(value: u32) -> (r: Result<Self, SataProtocolError>)
        ensures
            location_from_code(value) matches Some(l) ==> r == Ok::<Self, SataProtocolError>(l),
            location_from_code(value) is None ==> r == Err::<Self, SataProtocolError>(
                SataProtocolError::UnknownFileLocation(value),
            ),
    {
        if value == 0 {
            Ok(MoveToFileLocation::Begin)
        } else if value == 1 {
            Ok(MoveToFileLocation::Current)
        } else if value == 2 {
            Ok(MoveToFileLocation::End)
        } else {
            Err(SataProtocolError::UnknownFileLocation(value))
        }
    }

    /// The position sent as `value`, with an unknown one reported as a
    /// parse error.
    pub fn parse(value: u32) -> (r: Result<Self, NetworkParseError>)
        ensures
            location_from_code(value) matches Some(l) ==> r == Ok::<Self, NetworkParseError>(l),
            location_from_code(value) is None ==> r == Err::<Self, NetworkParseError>(
                sata_parse_error(SataProtocolError::UnknownFileLocation(value)),
            ),
    {
        match Self::try_from_u32(value) {
            Ok(l) => Ok(l),
            Err(e) => Err(from_sata_error(e)),
        }
    }
}

/// Every position reads back from the number it is sent as.
pub proof fn lemma_location_roundtrip(l: MoveToFileLocation)
    ensures
        location_from_code(location_code(l)) == Some(l),
{
}

} // verus!
