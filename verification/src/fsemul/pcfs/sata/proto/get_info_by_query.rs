//! The `GetInfoByQuery` packet and its answers: free disk space, the size of
//! a folder, the number of files in a folder, or the details of one path.

use super::path_field::{
    check_path, encode_field, field_errors, lemma_field_chars_fit, lemma_field_roundtrip, path_fits,
    put_field, read_field,
};
use crate::errors::{
    field_not_long_enough, from_sata_error, is_field_not_long_enough, is_not_enough_data,
    is_unexpected_trailer, not_enough_data, sata_parse_error, unexpected_trailer,
    NetworkParseError,
};
use crate::fsemul::pcfs::errors::{PCFSApiError, SataProtocolError};
use crate::wire::{
    be_u32, be_u64, c_str_chars, lemma_be_u32_roundtrip, lemma_be_u64_roundtrip, put_u32, put_u64,
    put_zeros, read_u32, read_u64, u32_at, u64_at, zeros,
};
use vstd::prelude::*;
use vstd::std_specs::convert::{FromSpecImpl, TryFromSpecImpl};

verus! {

/// The kind of information asked for.
#[derive(Copy, Clone, Debug, PartialEq, Eq)]
pub enum PCFSSataQueryType {
    /// The free disk space available to the caller.
    FreeDiskSpace,
    /// The total size of the files in a folder, recursively.
    SizeOfFolder,
    /// The number of files in a folder, recursively.
    FileCount,
    /// The details of one file or folder.
    FileDetails,
}

/// The number a query type is sent as.
pub open spec fn query_type_code(t: PCFSSataQueryType) -> u32 {
    match t {
        PCFSSataQueryType::FreeDiskSpace => 0,
        PCFSSataQueryType::SizeOfFolder => 1,
        PCFSSataQueryType::FileCount => 2,
        PCFSSataQueryType::FileDetails => 5,
    }
}

/// The query type a number stands for, or the error for an unknown one.
pub open spec fn query_type_from_code(v: u32) -> Result<PCFSSataQueryType, SataProtocolError> {
    if v == 0 {
        Ok(PCFSSataQueryType::FreeDiskSpace)
    } else if v == 1 {
        Ok(PCFSSataQueryType::SizeOfFolder)
    } else if v == 2 {
        Ok(PCFSSataQueryType::FileCount)
    } else if v == 5 {
        Ok(PCFSSataQueryType::FileDetails)
    } else {
        Err(SataProtocolError::UnknownGetInfoQueryType(v))
    }
}

impl From<PCFSSataQueryType> for u32 {
    fn from(value: PCFSSataQueryType) -> (r: u32) {
        match value {
            PCFSSataQueryType::FreeDiskSpace => 0,
            PCFSSataQueryType::SizeOfFolder => 1,
            PCFSSataQueryType::FileCount => 2,
            PCFSSataQueryType::FileDetails => 5,
        }
    }
}

impl FromSpecImpl<PCFSSataQueryType> for u32 {
    open spec fn obeys_from_spec() -> bool {
        true
    }

    open spec fn from_spec(v: PCFSSataQueryType) -> u32 {
        query_type_code(v)
    }
}

impl TryFrom<u32> for PCFSSataQueryType {
    type Error = SataProtocolError;

    fn try_from(value: u32) -> (r: Result<Self, SataProtocolError>) {
        if value == 0 {
            Ok(Self::FreeDiskSpace)
        } else if value == 1 {
            Ok(Self::SizeOfFolder)
        } else if value == 2 {
            Ok(Self::FileCount)
        } else if value == 5 {
            Ok(Self::FileDetails)
        } else {
            Err(SataProtocolError::UnknownGetInfoQueryType(value))
        }
    }
}

impl TryFromSpecImpl<u32> for PCFSSataQueryType {
    open spec fn obeys_try_from_spec() -> bool {
        true
    }

    open spec fn try_from_spec(v: u32) -> Result<Self, SataProtocolError> {
        query_type_from_code(v)
    }
}

/// Every query type reads back from the number it is sent as.
pub proof fn lemma_query_type_roundtrip(t: PCFSSataQueryType)
    ensures
        query_type_from_code(query_type_code(t)) == Ok::<PCFSSataQueryType, SataProtocolError>(t),
{
}

/// A request for information about a path.
#[derive(Debug, PartialEq, Eq)]
pub struct SataGetInfoByQueryPacketBody {
    path: String,
    typ: PCFSSataQueryType,
}

impl View for SataGetInfoByQueryPacketBody {
    /// (path, query type)
    type V = (Seq<char>, PCFSSataQueryType);

    closed spec fn view(&self) -> (Seq<char>, PCFSSataQueryType) {
        (self.path@, self.typ)
    }
}

impl Clone for SataGetInfoByQueryPacketBody {
    fn clone(&self) -> (r: Self)
        ensures
            r@ == self@,
    {
        proof {
            use_type_invariant(self);
        }
        Self { path: self.path.clone(), typ: self.typ }
    }
}

/// The 516 bytes of a get info request.
pub open spec fn encode_get_info_by_query(m: (Seq<char>, PCFSSataQueryType)) -> Seq<u8> {
    encode_field(m.0, 0x200) + be_u32(query_type_code(m.1))
}

impl SataGetInfoByQueryPacketBody {
    #[verifier::type_invariant]
    closed spec fn inv(&self) -> bool {
        path_fits(self.path@)
    }

    /// A request about `path`, which must be at most 511 bytes long.
    pub fn new(path: String, query_type: PCFSSataQueryType) -> (r: Result<Self, PCFSApiError>)
        ensures
            path_fits(path@) ==> (r matches Ok(b) && b@ == (path@, query_type)),
            !path_fits(path@) ==> r == Err::<Self, PCFSApiError>(PCFSApiError::PathTooLong(path)),
    {
        match check_path(path) {
            Ok(p) => Ok(Self { path: p, typ: query_type }),
            Err(e) => Err(e),
        }
    }

    pub fn query_type(&self) -> (r: PCFSSataQueryType)
        ensures
            r == self@.1,
    {
        self.typ
    }

    pub fn set_query_type(&mut self, new_type: PCFSSataQueryType)
        ensures
            final(self)@ == (old(self)@.0, new_type),
    {
        proof {
            use_type_invariant(&*self);
        }
        self.typ = new_type;
    }

    pub fn path(&self) -> (r: &str)
        ensures
            r@ == self@.0,
    {
        self.path.as_str()
    }

    /// Replace the path, unless `new_path` is longer than 511 bytes.
    pub fn set_path(&mut self, new_path: String) -> (r: Result<(), PCFSApiError>)
        ensures
            path_fits(new_path@) ==> r is Ok && final(self)@ == (new_path@, old(self)@.1),
            !path_fits(new_path@) ==> r == Err::<(), PCFSApiError>(PCFSApiError::PathTooLong(new_path))
                && final(self)@ == old(self)@,
    {
        match check_path(new_path) {
            Ok(p) => {
                self.path = p;
                Ok(())
            },
            Err(e) => Err(e),
        }
    }

    /// The 516 bytes of the request.
    pub fn to_bytes(&self) -> (r: Vec<u8>)
        ensures
            r@ == encode_get_info_by_query(self@),
    {
        proof {
            use_type_invariant(self);
        }
        let mut out: Vec<u8> = Vec::new();
        put_field(&mut out, self.path.as_str(), 0x200);
        put_u32(&mut out, u32::from(self.typ));
        out
    }

    /// Parse a request: exactly 516 bytes, a NUL terminated UTF-8 path in
    /// the first 512, then a known query type.
    pub fn try_from_bytes(value: &[u8]) -> (r: Result<Self, NetworkParseError>)
        ensures
            value@.len() < 0x204 ==> (r matches Err(e) && is_field_not_long_enough(
                e,
                "SataGetInfoByQuery"@,
                0x204,
                value@,
            )),
            value@.len() > 0x204 ==> (r matches Err(e) && is_unexpected_trailer(
                e,
                "SataGetInfoByQueryBody"@,
                value@.subrange(0x204, value@.len() as int),
            )),
            value@.len() == 0x204 && c_str_chars(value@.subrange(0, 0x200)) is None ==> field_errors(
                r,
                value@.subrange(0, 0x200),
            ),
            value@.len() == 0x204 && c_str_chars(value@.subrange(0, 0x200)) is Some ==> match query_type_from_code(
                u32_at(value@, 0x200),
            ) {
                Ok(t) => (r matches Ok(b) && b@ == (c_str_chars(value@.subrange(0, 0x200))->0, t)),
                Err(e) => r == Err::<Self, NetworkParseError>(sata_parse_error(e)),
            },
    {
        if value.len() < 0x204 {
            return Err(field_not_long_enough("SataGetInfoByQuery", 0x204, value));
        }
        if value.len() > 0x204 {
            return Err(unexpected_trailer("SataGetInfoByQueryBody", value, 0x204));
        }
        let query_type = read_u32(value, 0x200);
        let path = match read_field(value, 0, 0x200) {
            Ok(p) => p,
            Err(e) => return Err(e),
        };
        proof {
            lemma_field_chars_fit(value@.subrange(0, 0x200));
        }
        match PCFSSataQueryType::try_from(query_type) {
            Ok(t) => Ok(Self { path, typ: t }),
            Err(e) => Err(from_sata_error(e)),
        }
    }
}

/// Parsing the bytes of a get info request gives the request back, when
/// its path holds no NUL character.
pub proof fn lemma_get_info_by_query_roundtrip(m: (Seq<char>, PCFSSataQueryType))
    requires
        path_fits(m.0),
        !m.0.contains('\0'),
    ensures
        encode_get_info_by_query(m).len() == 0x204,
        c_str_chars(encode_get_info_by_query(m).subrange(0, 0x200)) == Some(m.0),
        query_type_from_code(u32_at(encode_get_info_by_query(m), 0x200)) == Ok::<
            PCFSSataQueryType,
            SataProtocolError,
        >(m.1),
{
    let s = encode_get_info_by_query(m);
    lemma_field_roundtrip(m.0, 0x200, Seq::empty());
    lemma_be_u32_roundtrip(query_type_code(m.1));
    assert(s.subrange(0, 0x200) =~= encode_field(m.0, 0x200));
    assert(s.subrange(0x200, 0x204) =~= be_u32(query_type_code(m.1)));
}

/// Information about a file or folder.
#[derive(Clone, Debug, PartialEq, Eq)]
pub struct PCFSSataFdInfo {
    file_or_folder_flags: u32,
    perms: u32,
    file_length: u32,
    created_timestamp: u64,
    last_updated_timestamp: u64,
}

/// The fields of file information.
pub struct FdInfoFields {
    pub flags: u32,
    pub perms: u32,
    pub file_length: u32,
    pub created: u64,
    pub updated: u64,
}

impl View for PCFSSataFdInfo {
    type V = FdInfoFields;

    closed spec fn view(&self) -> FdInfoFields {
        FdInfoFields {
            flags: self.file_or_folder_flags,
            perms: self.perms,
            file_length: self.file_length,
            created: self.created_timestamp,
            updated: self.last_updated_timestamp,
        }
    }
}

/// The 84 bytes of file information.
pub open spec fn encode_fd_info(m: FdInfoFields) -> Seq<u8> {
    be_u32(m.flags) + be_u32(m.perms) + be_u32(1) + be_u32(1) + be_u32(m.file_length) + be_u32(0)
        + be_u32(0xE8) + be_u32(0xDA6F_F000) + be_u32(0) + be_u64(m.created) + be_u64(m.updated)
        + zeros(32)
}

/// The file information 84 bytes hold.
pub open spec fn decode_fd_info(s: Seq<u8>) -> FdInfoFields {
    FdInfoFields {
        flags: u32_at(s, 0),
        perms: u32_at(s, 4),
        file_length: u32_at(s, 16),
        created: u64_at(s, 36),
        updated: u64_at(s, 44),
    }
}

/// The flags of a path that is a file.
pub const FILE_FLAGS: u32 = 0x2C00_0000;

/// The flags of a path that is a folder.
pub const FOLDER_FLAGS: u32 = 0xAC00_0000;

impl PCFSSataFdInfo {
    /// The information about a path from what the host knows of it: its
    /// kind, whether it is read-only, its length, and its creation and
    /// modification times in milliseconds since 1980. A folder reports a
    /// length of zero; a length or a time too large for its field reports
    /// the field's largest value.
    pub fn from_stat(
        is_file: bool,
        is_dir: bool,
        is_read_only: bool,
        length: u64,
        created_millis: u128,
        updated_millis: u128,
    ) -> (r: Self)
        ensures
            r@.flags == (if is_file {
                FILE_FLAGS
            } else {
                FOLDER_FLAGS
            }),
            r@.perms == (if is_read_only {
                0x444u32
            } else {
                0x666u32
            }),
            r@.file_length == (if is_dir {
                0
            } else if length <= u32::MAX {
                length as u32
            } else {
                u32::MAX
            }),
            r@.created == (if created_millis <= u64::MAX {
                created_millis as u64
            } else {
                u64::MAX
            }),
            r@.updated == (if updated_millis <= u64::MAX {
                updated_millis as u64
            } else {
                u64::MAX
            }),
    {
        let file_length: u32 = if is_dir {
            0
        } else if length <= u32::MAX as u64 {
            length as u32
        } else {
            u32::MAX
        };
        let created: u64 = if created_millis <= u64::MAX as u128 {
            created_millis as u64
        } else {
            u64::MAX
        };
        let updated: u64 = if updated_millis <= u64::MAX as u128 {
            updated_millis as u64
        } else {
            u64::MAX
        };
        Self {
            file_or_folder_flags: if is_file {
                FILE_FLAGS
            } else {
                FOLDER_FLAGS
            },
            perms: if is_read_only {
                0x444
            } else {
                0x666
            },
            file_length,
            created_timestamp: created,
            last_updated_timestamp: updated,
        }
    }

    /// The raw flags of the path.
    pub fn flags(&self) -> (r: u32)
        ensures
            r == self@.flags,
    {
        self.file_or_folder_flags
    }

    /// The path exists on disk.
    pub fn path_exists(&self) -> (r: bool)
        ensures
            r == (self@.flags & 0x2000_0000 != 0),
    {
        (self.file_or_folder_flags & 0x2000_0000) != 0
    }

    /// The path is a file.
    pub fn is_file(&self) -> (r: bool)
        ensures
            r == (self@.flags & 0x8000_0000 == 0),
    {
        (self.file_or_folder_flags & 0x8000_0000) == 0
    }

    /// The path is a folder.
    pub fn is_directory(&self) -> (r: bool)
        ensures
            r == (self@.flags & 0x8000_0000 != 0),
    {
        !self.is_file()
    }

    /// The permission bits: `0x666`, or `0x444` when read-only.
    pub fn permissions(&self) -> (r: u32)
        ensures
            r == self@.perms,
    {
        self.perms
    }

    /// The length of a file; nothing for a folder.
    pub fn file_size(&self) -> (r: Option<u32>)
        ensures
            r == (if self@.flags & 0x8000_0000 == 0 {
                Some(self@.file_length)
            } else {
                None
            }),
    {
        if self.is_file() {
            Some(self.file_length)
        } else {
            None
        }
    }

    /// The raw creation time.
    pub fn raw_created_timestamp(&self) -> (r: u64)
        ensures
            r == self@.created,
    {
        self.created_timestamp
    }

    /// The raw modification time.
    pub fn raw_last_updated_timestamp(&self) -> (r: u64)
        ensures
            r == self@.updated,
    {
        self.last_updated_timestamp
    }

    /// The 84 bytes of the information.
    pub fn to_bytes(&self) -> (r: Vec<u8>)
        ensures
            r@ == encode_fd_info(self@),
    {
        let mut out: Vec<u8> = Vec::new();
        self.append_to(&mut out);
        out
    }

    /// Append the 84 bytes of the information.
    pub fn append_to(&self, out: &mut Vec<u8>)
        ensures
            final(out)@ == old(out)@ + encode_fd_info(self@),
    {
        let ghost start = out@;
        put_u32(out, self.file_or_folder_flags);
        put_u32(out, self.perms);
        put_u32(out, 1);
        put_u32(out, 1);
        put_u32(out, self.file_length);
        put_u32(out, 0);
        put_u32(out, 0xE8);
        put_u32(out, 0xDA6F_F000);
        put_u32(out, 0);
        put_u64(out, self.created_timestamp);
        put_u64(out, self.last_updated_timestamp);
        put_zeros(out, 32);
        assert(out@ =~= start + encode_fd_info(self@));
    }

    /// Parse the information from exactly 84 bytes.
    pub fn try_from_bytes(value: &[u8]) -> (r: Result<Self, NetworkParseError>)
        ensures
            value@.len() < 84 ==> (r matches Err(e) && is_field_not_long_enough(
                e,
                "PCFSSataFdInfo"@,
                84,
                value@,
            )),
            value@.len() > 84 ==> (r matches Err(e) && is_unexpected_trailer(
                e,
                "PCFSSataFdInfoBody"@,
                value@.subrange(84, value@.len() as int),
            )),
            value@.len() == 84 ==> (r matches Ok(b) && b@ == decode_fd_info(value@)),
    {
        if value.len() < 84 {
            return Err(field_not_long_enough("PCFSSataFdInfo", 84, value));
        }
        if value.len() > 84 {
            return Err(unexpected_trailer("PCFSSataFdInfoBody", value, 84));
        }
        Ok(Self::read_from(value, 0))
    }

    /// The information held by `value[off..off + 84]`.
    pub fn read_from(value: &[u8], off: usize) -> (r: Self)
        requires
            off + 84 <= value@.len(),
        ensures
            r@ == decode_fd_info(value@.subrange(off as int, off + 84)),
    {
        let len = value.len();
        assert(len == value@.len());
        let ghost s = value@.subrange(off as int, off + 84);
        assert(s.subrange(0, 4) =~= value@.subrange(off as int, off + 4));
        assert(s.subrange(4, 8) =~= value@.subrange(off + 4, off + 8));
        assert(s.subrange(16, 20) =~= value@.subrange(off + 16, off + 20));
        assert(s.subrange(36, 44) =~= value@.subrange(off + 36, off + 44));
        assert(s.subrange(44, 52) =~= value@.subrange(off + 44, off + 52));
        Self {
            file_or_folder_flags: read_u32(value, off),
            perms: read_u32(value, off + 4),
            file_length: read_u32(value, off + 16),
            created_timestamp: read_u64(value, off + 36),
            last_updated_timestamp: read_u64(value, off + 44),
        }
    }
}

/// Parsing the bytes of file information gives the information back.
pub proof fn lemma_fd_info_roundtrip(m: FdInfoFields)
    ensures
        encode_fd_info(m).len() == 84,
        decode_fd_info(encode_fd_info(m)) == m,
{
    let s = encode_fd_info(m);
    lemma_be_u32_roundtrip(m.flags);
    lemma_be_u32_roundtrip(m.perms);
    lemma_be_u32_roundtrip(m.file_length);
    lemma_be_u32_roundtrip(1);
    lemma_be_u32_roundtrip(0);
    lemma_be_u32_roundtrip(0xE8);
    lemma_be_u32_roundtrip(0xDA6F_F000);
    lemma_be_u64_roundtrip(m.created);
    lemma_be_u64_roundtrip(m.updated);
    assert(s.subrange(0, 4) =~= be_u32(m.flags));
    assert(s.subrange(4, 8) =~= be_u32(m.perms));
    assert(s.subrange(16, 20) =~= be_u32(m.file_length));
    assert(s.subrange(36, 44) =~= be_u64(m.created));
    assert(s.subrange(44, 52) =~= be_u64(m.updated));
}

/// Law: the bytes of file information hold, big endian, the flags at 0,
/// the permissions at 4, the length at 16, the creation time at 36 and the
/// modification time at 44.
pub proof fn lemma_fd_info_field_offsets(m: FdInfoFields)
    ensures
        encode_fd_info(m).len() == 84,
        u32_at(encode_fd_info(m), 0) == m.flags,
        u32_at(encode_fd_info(m), 4) == m.perms,
        u32_at(encode_fd_info(m), 16) == m.file_length,
        u64_at(encode_fd_info(m), 36) == m.created,
        u64_at(encode_fd_info(m), 44) == m.updated,
{
    let bytes = encode_fd_info(m);
    lemma_be_u32_roundtrip(m.flags);
    lemma_be_u32_roundtrip(m.perms);
    lemma_be_u32_roundtrip(m.file_length);
    lemma_be_u32_roundtrip(1);
    lemma_be_u32_roundtrip(0);
    lemma_be_u32_roundtrip(0xE8);
    lemma_be_u32_roundtrip(0xDA6F_F000);
    lemma_be_u64_roundtrip(m.created);
    lemma_be_u64_roundtrip(m.updated);
    assert(bytes.subrange(0, 4) == be_u32(m.flags)) by {
        assert(bytes.subrange(0, 4) =~= be_u32(m.flags));
    }
    assert(bytes.subrange(4, 8) == be_u32(m.perms)) by {
        assert(bytes.subrange(4, 8) =~= be_u32(m.perms));
    }
    assert(bytes.subrange(16, 20) == be_u32(m.file_length)) by {
        assert(bytes.subrange(16, 20) =~= be_u32(m.file_length));
    }
    assert(bytes.subrange(36, 44) == be_u64(m.created)) by {
        assert(bytes.subrange(36, 44) =~= be_u64(m.created));
    }
    assert(bytes.subrange(44, 52) == be_u64(m.updated)) by {
        assert(bytes.subrange(44, 52) =~= be_u64(m.updated));
    }
}

/// The answer to a get info request.
#[derive(Debug)]
pub enum PCFSSataQueryResponse {
    /// The request failed with this return code.
    ErrorCode(u32),
    /// A size that fits 32 bits: the answer to a file count.
    SmallSize(u32),
    /// A size that fits 64 bits: the answer to a folder size or free space.
    LargeSize(u64),
    /// The details of a path.
    FDInfo(PCFSSataFdInfo),
}

/// The 88 bytes of an answer.
pub open spec fn encode_query_response(r: PCFSSataQueryResponse) -> Seq<u8> {
    match r {
        PCFSSataQueryResponse::FDInfo(info) => be_u32(0) + encode_fd_info(info@),
        PCFSSataQueryResponse::LargeSize(v) => be_u32(0) + be_u64(v) + zeros(76),
        PCFSSataQueryResponse::SmallSize(v) => be_u32(0) + be_u32(v) + zeros(80),
        PCFSSataQueryResponse::ErrorCode(ec) => be_u32(ec) + zeros(84),
    }
}

/// What an answer holds, with the details of a path as their fields.
pub enum QueryAnswer {
    ErrorCode(u32),
    SmallSize(u32),
    LargeSize(u64),
    FDInfo(FdInfoFields),
}

impl View for PCFSSataQueryResponse {
    type V = QueryAnswer;

    open spec fn view(&self) -> QueryAnswer {
        match self {
            PCFSSataQueryResponse::ErrorCode(ec) => QueryAnswer::ErrorCode(*ec),
            PCFSSataQueryResponse::SmallSize(v) => QueryAnswer::SmallSize(*v),
            PCFSSataQueryResponse::LargeSize(v) => QueryAnswer::LargeSize(*v),
            PCFSSataQueryResponse::FDInfo(info) => QueryAnswer::FDInfo(info@),
        }
    }
}

/// The answer `value` holds when it starts with a return code of zero and
/// then a size of `width` bytes (4 or 8): an error when it is too short for
/// the return code or the size, or when the return code is not zero.
pub open spec fn sized_answer_parsed(
    r: Result<PCFSSataQueryResponse, NetworkParseError>,
    value: Seq<u8>,
    width: nat,
) -> bool {
    &&& value.len() < 4 ==> (r matches Err(e) && is_not_enough_data(
        e,
        "PCFSSataQueryResponse"@,
        4,
        value,
    ))
    &&& value.len() >= 4 && u32_at(value, 0) != 0 ==> r == Err::<
        PCFSSataQueryResponse,
        NetworkParseError,
    >(NetworkParseError::ErrorCode(u32_at(value, 0)))
    &&& value.len() >= 4 && u32_at(value, 0) == 0 && value.len() < 4 + width ==> (r matches Err(e)
        && is_not_enough_data(e, "PCFSSataQueryResponse"@, 4 + width, value))
    &&& value.len() >= 4 + width && u32_at(value, 0) == 0 ==> r is Ok
}

impl PCFSSataQueryResponse {
    /// Read the answer to a file count: a return code, then a 32 bit size;
    /// bytes after them are ignored.
    pub fn try_from_small(value: &[u8]) -> (r: Result<Self, NetworkParseError>)
        ensures
            sized_answer_parsed(r, value@, 4),
            r is Ok ==> r == Ok::<Self, NetworkParseError>(
                PCFSSataQueryResponse::SmallSize(u32_at(value@, 4)),
            ),
    {
        if value.len() < 4 {
            return Err(not_enough_data("PCFSSataQueryResponse", 4, value));
        }
        let rc = read_u32(value, 0);
        if rc != 0 {
            return Err(NetworkParseError::ErrorCode(rc));
        }
        if value.len() < 8 {
            return Err(not_enough_data("PCFSSataQueryResponse", 8, value));
        }
        Ok(PCFSSataQueryResponse::SmallSize(read_u32(value, 4)))
    }

    /// Read the answer to a folder size or free space query: a return code,
    /// then a 64 bit size; bytes after them are ignored.
    pub fn try_from_large(value: &[u8]) -> (r: Result<Self, NetworkParseError>)
        ensures
            sized_answer_parsed(r, value@, 8),
            r is Ok ==> r == Ok::<Self, NetworkParseError>(
                PCFSSataQueryResponse::LargeSize(u64_at(value@, 4)),
            ),
    {
        if value.len() < 4 {
            return Err(not_enough_data("PCFSSataQueryResponse", 4, value));
        }
        let rc = read_u32(value, 0);
        if rc != 0 {
            return Err(NetworkParseError::ErrorCode(rc));
        }
        if value.len() < 12 {
            return Err(not_enough_data("PCFSSataQueryResponse", 12, value));
        }
        Ok(PCFSSataQueryResponse::LargeSize(read_u64(value, 4)))
    }

    /// Read the answer to a details query: a return code, then exactly 84
    /// bytes of file information.
    pub fn try_from_fd_info(value: &[u8]) -> (r: Result<Self, NetworkParseError>)
        ensures
            value@.len() < 4 ==> (r matches Err(e) && is_not_enough_data(
                e,
                "PCFSSataQueryResponse"@,
                4,
                value@,
            )),
            value@.len() >= 4 && u32_at(value@, 0) != 0 ==> r == Err::<Self, NetworkParseError>(
                NetworkParseError::ErrorCode(u32_at(value@, 0)),
            ),
            value@.len() >= 4 && u32_at(value@, 0) == 0 && value@.len() < 88 ==> (r matches Err(e)
                && is_field_not_long_enough(
                e,
                "PCFSSataFdInfo"@,
                84,
                value@.subrange(4, value@.len() as int),
            )),
            u32_at(value@, 0) == 0 && value@.len() > 88 ==> (r matches Err(e) && is_unexpected_trailer(
                e,
                "PCFSSataFdInfoBody"@,
                value@.subrange(88, value@.len() as int),
            )),
            u32_at(value@, 0) == 0 && value@.len() == 88 ==> (r matches Ok(
                PCFSSataQueryResponse::FDInfo(info),
            ) && info@ == decode_fd_info(value@.subrange(4, 88))),
    {
        if value.len() < 4 {
            return Err(not_enough_data("PCFSSataQueryResponse", 4, value));
        }
        let rc = read_u32(value, 0);
        if rc != 0 {
            return Err(NetworkParseError::ErrorCode(rc));
        }
        let rest = &value[4..value.len()];
        proof {
            if value@.len() > 88 {
                assert(rest@.subrange(84, rest@.len() as int) =~= value@.subrange(
                    88,
                    value@.len() as int,
                ));
            }
            if value@.len() == 88 {
                assert(rest@ =~= value@.subrange(4, 88));
            }
        }
        match PCFSSataFdInfo::try_from_bytes(rest) {
            Ok(info) => Ok(PCFSSataQueryResponse::FDInfo(info)),
            Err(e) => Err(e),
        }
    }

    /// The 88 bytes of the answer.
    pub fn to_bytes(&self) -> (r: Vec<u8>)
        ensures
            r@ == encode_query_response(*self),
    {
        let mut out: Vec<u8> = Vec::new();
        match self {
            PCFSSataQueryResponse::FDInfo(info) => {
                put_u32(&mut out, 0);
                info.append_to(&mut out);
            },
            PCFSSataQueryResponse::LargeSize(v) => {
                put_u32(&mut out, 0);
                put_u64(&mut out, *v);
                put_zeros(&mut out, 76);
            },
            PCFSSataQueryResponse::SmallSize(v) => {
                put_u32(&mut out, 0);
                put_u32(&mut out, *v);
                put_zeros(&mut out, 80);
            },
            PCFSSataQueryResponse::ErrorCode(ec) => {
                put_u32(&mut out, *ec);
                put_zeros(&mut out, 84);
            },
        }
        out
    }
}

/// The bytes of every answer are 88 long, and read back as that answer: a
/// small or large size as the size, the details as the details, and a
/// non-zero return code as that code.
pub proof fn lemma_query_response_roundtrip(r: PCFSSataQueryResponse)
    ensures
        encode_query_response(r).len() == 88,
        r matches PCFSSataQueryResponse::SmallSize(v) ==> u32_at(encode_query_response(r), 0) == 0
            && u32_at(encode_query_response(r), 4) == v,
        r matches PCFSSataQueryResponse::LargeSize(v) ==> u32_at(encode_query_response(r), 0) == 0
            && u64_at(encode_query_response(r), 4) == v,
        r matches PCFSSataQueryResponse::FDInfo(info) ==> u32_at(encode_query_response(r), 0) == 0
            && decode_fd_info(encode_query_response(r).subrange(4, 88)) == info@,
        r matches PCFSSataQueryResponse::ErrorCode(ec) ==> u32_at(encode_query_response(r), 0)
            == ec,
{
    let s = encode_query_response(r);
    lemma_be_u32_roundtrip(0);
    match r {
        PCFSSataQueryResponse::FDInfo(info) => {
            lemma_fd_info_roundtrip(info@);
            assert(s.subrange(0, 4) =~= be_u32(0));
            assert(s.subrange(4, 88) =~= encode_fd_info(info@));
        },
        PCFSSataQueryResponse::LargeSize(v) => {
            lemma_be_u64_roundtrip(v);
            assert(s.subrange(0, 4) =~= be_u32(0));
            assert(s.subrange(4, 12) =~= be_u64(v));
        },
        PCFSSataQueryResponse::SmallSize(v) => {
            lemma_be_u32_roundtrip(v);
            assert(s.subrange(0, 4) =~= be_u32(0));
            assert(s.subrange(4, 8) =~= be_u32(v));
        },
        PCFSSataQueryResponse::ErrorCode(ec) => {
            lemma_be_u32_roundtrip(ec);
            assert(s.subrange(0, 4) =~= be_u32(ec));
        },
    }
}

} // verus!
