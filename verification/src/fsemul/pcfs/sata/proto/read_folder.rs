//! The `ReadFolder` packet, which asks for the next entry of an open
//! folder, and its answer.

use super::get_info_by_query::{decode_fd_info, encode_fd_info, FdInfoFields, PCFSSataFdInfo};
use super::path_field::{field_errors, lemma_field_chars_fit, read_field};
use crate::errors::{
    is_not_enough_data, is_unexpected_trailer, not_enough_data, unexpected_trailer,
    NetworkParseError,
};
use crate::fsemul::pcfs::errors::PCFSApiError;
use crate::wire::{
    be_u32, c_str_chars, put_bytes, put_u32, put_zeros, read_u32, str_byte_len, str_bytes, u32_at,
    utf8_bytes, zeros,
};
use crate::errors::{check_exact_len, exact_len_errors};
use crate::wire::{be_i32, i32_at, lemma_be_i32_roundtrip, put_i32, read_i32};
use vstd::prelude::*;

verus! {

/// The return code that says a folder has no more entries.
pub const NO_MORE_ITEMS: u32 = 0xFFF0_FFFC;

/// A path short enough for a directory entry.
pub open spec fn entry_path_fits(path: Seq<char>) -> bool {
    utf8_bytes(path).len() <= 255
}

/// The model of a directory entry answer: the return code, and the
/// information and name of the next entry, if any.
pub type DirectoryItemModel = (u32, Option<(FdInfoFields, Seq<char>)>);

/// What parsing a directory entry answer gives.
pub open spec fn directory_item_parsed(
    r: Result<DirectoryItemModel, NetworkParseError>,
    value: Seq<u8>,
) -> bool {
    let rc = u32_at(value, 0);
    let rest = value.subrange(4, value.len() as int);
    &&& value.len() < 4 ==> (r matches Err(e) && is_not_enough_data(
        e,
        "DirectoryItemResponse"@,
        4,
        value,
    ))
    &&& value.len() >= 4 && rc != 0 && rc != NO_MORE_ITEMS ==> r == Err::<
        DirectoryItemModel,
        NetworkParseError,
    >(NetworkParseError::ErrorCode(rc))
    &&& value.len() >= 4 && rc == NO_MORE_ITEMS ==> r == Ok::<
        DirectoryItemModel,
        NetworkParseError,
    >((NO_MORE_ITEMS, None))
    &&& value.len() >= 4 && rc == 0 && rest.len() < 0x154 ==> (r matches Err(e)
        && is_not_enough_data(e, "DirectoryItemResponse"@, 0x154, rest))
    &&& value.len() >= 4 && rc == 0 && rest.len() > 0x154 ==> (r matches Err(e)
        && is_unexpected_trailer(e, "DirectoryItemResponse"@, rest.subrange(0x154, rest.len() as int)))
    &&& value.len() >= 4 && rc == 0 && rest.len() == 0x154 ==> field_errors(
        r,
        rest.subrange(84, 0x154),
    )
    &&& value.len() >= 4 && rc == 0 && rest.len() == 0x154 && r is Ok ==> r == Ok::<
        DirectoryItemModel,
        NetworkParseError,
    >((0, Some((decode_fd_info(rest.subrange(0, 84)), c_str_chars(rest.subrange(84, 0x154))->0))))
}

/// Parse a directory entry answer: a return code, then, when it is zero,
/// exactly 84 bytes of file information and a 256 byte NUL terminated name.
pub fn parse_directory_item(value: &[u8]) -> (r: Result<
    (u32, Option<(PCFSSataFdInfo, String)>),
    NetworkParseError,
>)
    ensures
        directory_item_parsed(
            match r {
                Ok((rc, None)) => Ok((rc, None)),
                Ok((rc, Some((info, path)))) => Ok((rc, Some((info@, path@)))),
                Err(e) => Err(e),
            },
            value@,
        ),
        r matches Ok((_, Some((_, path)))) ==> utf8_bytes(path@).len() < 256,
{
    if value.len() < 4 {
        return Err(not_enough_data("DirectoryItemResponse", 4, value));
    }
    let rc = read_u32(value, 0);
    if rc != 0 && rc != NO_MORE_ITEMS {
        return Err(NetworkParseError::ErrorCode(rc));
    }
    if rc == NO_MORE_ITEMS {
        return Ok((NO_MORE_ITEMS, None));
    }
    let rest = &value[4..value.len()];
    if rest.len() < 0x154 {
        return Err(not_enough_data("DirectoryItemResponse", 0x154, rest));
    }
    if rest.len() > 0x154 {
        return Err(unexpected_trailer("DirectoryItemResponse", rest, 0x154));
    }
    let info = PCFSSataFdInfo::read_from(rest, 0);
    let path = match read_field(rest, 84, 0x154) {
        Ok(p) => p,
        Err(e) => return Err(e),
    };
    proof {
        lemma_field_chars_fit(rest@.subrange(84, 0x154));
    }
    Ok((0, Some((info, path))))
}

/// A request for the next entry of the folder behind a file descriptor.
#[derive(Clone, Debug, PartialEq, Eq)]
pub struct SataReadFolderPacketBody {
    file_descriptor: i32,
}

impl View for SataReadFolderPacketBody {
    type V = i32;

    closed spec fn view(&self) -> i32 {
        self.file_descriptor
    }
}

/// The bytes of a SataReadDir body for descriptor `fd`.
pub open spec fn encode_read_folder(fd: i32) -> Seq<u8> {
    be_i32(fd)
}

impl SataReadFolderPacketBody {
    /// A request for the next item of folder `fd`.
    pub fn new(fd: i32) -> (r: Self)
        ensures
            r@ == fd,
    {
        Self { file_descriptor: fd }
    }

    pub fn file_descriptor(&self) -> (r: i32)
        ensures
            r == self@,
    {
        self.file_descriptor
    }

    /// Despite its name this leaves the body as it is, and gives back the
    /// current descriptor.
    pub fn set_file_descriptor(&mut self) -> (r: i32)
        ensures
            final(self)@ == old(self)@,
            r == old(self)@,
    {
        self.file_descriptor
    }

    /// Parse a body: exactly four bytes, the descriptor in big-endian.
    pub fn try_from_bytes(value: &[u8]) -> (r: Result<Self, NetworkParseError>)
        ensures
            exact_len_errors(r, "SataReadDir"@, 4, value@),
            value@.len() == 4 ==> (r matches Ok(b) && b@ == i32_at(value@, 0)),
    {
        match check_exact_len("SataReadDir", value, 4) {
            Err(e) => Err(e),
            Ok(()) => Ok(Self { file_descriptor: read_i32(value, 0) }),
        }
    }

    /// The four big-endian bytes of the descriptor.
    pub fn to_bytes(&self) -> (r: Vec<u8>)
        ensures
            r@ == encode_read_folder(self@),
    {
        let mut out: Vec<u8> = Vec::new();
        put_i32(&mut out, self.file_descriptor);
        out
    }
}

/// Parsing the bytes written for a SataReadDir body gives the body back.
pub proof fn lemma_read_folder_roundtrip(fd: i32)
    ensures
        encode_read_folder(fd).len() == 4,
        i32_at(encode_read_folder(fd), 0) == fd,
{
    lemma_be_i32_roundtrip(fd);
    assert(encode_read_folder(fd).subrange(0, 4) =~= encode_read_folder(fd));
}


/// An answer to a request for the next entry of a folder.
#[derive(Debug)]
pub struct DirectoryItemResponse {
    return_code: u32,
    next_file_info: Option<(PCFSSataFdInfo, String)>,
}

impl View for DirectoryItemResponse {
    type V = DirectoryItemModel;

    closed spec fn view(&self) -> DirectoryItemModel {
        (
            self.return_code,
            match self.next_file_info {
                Some((info, path)) => Some((info@, path@)),
                None => None,
            },
        )
    }
}

/// The bytes of an answer: the return code, then either the entry's
/// information and its name padded to 256 bytes, or zeros; 344 bytes
/// either way.
pub open spec fn encode_directory_item(m: DirectoryItemModel) -> Seq<u8> {
    match m.1 {
        Some((info, path)) => be_u32(m.0) + encode_fd_info(info) + utf8_bytes(path) + zeros(
            (256 - utf8_bytes(path).len()) as nat,
        ),
        None => be_u32(m.0) + zeros(0x154),
    }
}

impl DirectoryItemResponse {
    #[verifier::type_invariant]
    closed spec fn inv(&self) -> bool {
        self.next_file_info matches Some((_, path)) ==> entry_path_fits(path@)
    }

    /// An answer holding the next entry; its name must be at most 255 bytes.
    pub fn new_next(info: PCFSSataFdInfo, path: String) -> (r: Result<Self, PCFSApiError>)
        ensures
            entry_path_fits(path@) ==> (r matches Ok(b) && b@ == (0u32, Some((info@, path@)))),
            !entry_path_fits(path@) ==> r == Err::<Self, PCFSApiError>(
                PCFSApiError::PathTooLong(path),
            ),
    {
        if str_byte_len(&path) > 255 {
            return Err(PCFSApiError::PathTooLong(path));
        }
        Ok(Self { return_code: 0, next_file_info: Some((info, path)) })
    }

    /// The answer that the folder has no more entries.
    pub fn new_nothing_left() -> (r: Self)
        ensures
            r@ == (NO_MORE_ITEMS, None::<(FdInfoFields, Seq<char>)>),
    {
        Self { return_code: NO_MORE_ITEMS, next_file_info: None }
    }

    /// An answer carrying only the return code `rc`.
    pub fn new_error_code(rc: u32) -> (r: Self)
        ensures
            r@ == (rc, None::<(FdInfoFields, Seq<char>)>),
    {
        Self { return_code: rc, next_file_info: None }
    }

    pub fn return_code(&self) -> (r: u32)
        ensures
            r == self@.0,
    {
        self.return_code
    }

    /// The answer reports success: an entry, or the end of the folder.
    pub fn is_successful(&self) -> (r: bool)
        ensures
            r == (self@.0 == NO_MORE_ITEMS || self@.0 == 0),
    {
        self.return_code == NO_MORE_ITEMS || self.return_code == 0
    }

    /// The next entry, if any.
    pub fn file_info(&self) -> (r: Option<&(PCFSSataFdInfo, String)>)
        ensures
            match r {
                Some(p) => self@.1 == Some((p.0@, p.1@)),
                None => self@.1 is None,
            },
    {
        match &self.next_file_info {
            Some(p) => Some(p),
            None => None,
        }
    }

    /// Take the next entry, if any.
    pub fn take_file_info(self) -> (r: Option<(PCFSSataFdInfo, String)>)
        ensures
            match r {
                Some(p) => self@.1 == Some((p.0@, p.1@)),
                None => self@.1 is None,
            },
    {
        self.next_file_info
    }

    /// The bytes of the answer.
    pub fn to_bytes(&self) -> (r: Vec<u8>)
        ensures
            r@ == encode_directory_item(self@),
    {
        proof {
            use_type_invariant(self);
        }
        let mut out: Vec<u8> = Vec::new();
        match &self.next_file_info {
            Some((info, path)) => {
                put_u32(&mut out, self.return_code);
                info.append_to(&mut out);
                let path_bytes = str_bytes(path.as_str());
                put_bytes(&mut out, path_bytes);
                put_zeros(&mut out, 256 - path_bytes.len());
            },
            None => {
                put_u32(&mut out, self.return_code);
                put_zeros(&mut out, 0x154);
            },
        }
        out
    }

    /// Parse an answer: a return code that must be zero or the end marker,
    /// then for zero exactly 84 bytes of file information and a 256 byte NUL
    /// terminated name.
    pub fn try_from_bytes(value: &[u8]) -> (r: Result<Self, NetworkParseError>)
        ensures
            directory_item_parsed(
                match r {
                    Ok(b) => Ok(b@),
                    Err(e) => Err(e),
                },
                value@,
            ),
    {
        match parse_directory_item(value) {
            Ok((rc, info)) => Ok(Self { return_code: rc, next_file_info: info }),
            Err(e) => Err(e),
        }
    }
}

} // verus!
