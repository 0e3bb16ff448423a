//! The write-ahead log of a PCFS SATA connection: each request a client
//! sends waits, in the order it was sent, for the response that answers it,
//! and the responses that open or close files and folders, or answer a
//! ping, change what the log knows of the connection.
//!
//! The log keeps one `StreamLog` per connection. A request is read from the
//! command code, capabilities and user its header carries and from its
//! body; a response from its bytes, after a header of 0x20 bytes. The
//! lines written for them are in `wal_lines`.

use crate::fsemul::dlf::numbers::{lemma_radix_text, push_radix_text, radix_text};
use crate::fsemul::dlf::syntax::lemma_ascii_valid_utf8;
use crate::fsemul::pcfs::sata::proto::close_folder::SataCloseFolderPacketBody;
use crate::fsemul::pcfs::sata::proto::create_folder::SataCreateFolderPacketBody;
use crate::errors::NetworkParseError;
use crate::fsemul::pcfs::sata::proto::get_info_by_query::{
    decode_fd_info, query_type_from_code, FdInfoFields, PCFSSataFdInfo, PCFSSataQueryResponse,
    PCFSSataQueryType, QueryAnswer, SataGetInfoByQueryPacketBody,
};
use crate::fsemul::pcfs::sata::proto::location::{location_from_code, MoveToFileLocation};
use crate::fsemul::pcfs::sata::proto::open_file::{mode_ok, SataOpenFilePacketBody};
use crate::fsemul::pcfs::sata::proto::ping::{pong_features, SataPingPacketBody, SataPongBody};
use crate::fsemul::pcfs::sata::proto::read_file::{decode_block_transfer, SataReadFilePacketBody};
use crate::fsemul::pcfs::sata::proto::read_folder::{
    DirectoryItemResponse, SataReadFolderPacketBody, NO_MORE_ITEMS,
};
use crate::fsemul::pcfs::sata::proto::remove::SataRemovePacketBody;
use crate::fsemul::pcfs::sata::proto::path_field::path_fits;
use crate::fsemul::pcfs::sata::proto::rename::{encode_rename, lemma_rename_roundtrip, SataRenamePacketBody};
use crate::fsemul::pcfs::sata::proto::rewind_folder::SataRewindFolderPacketBody;
use crate::fsemul::pcfs::sata::proto::set_file_position::SataSetFilePositionPacketBody;
use crate::fsemul::pcfs::sata::proto::stat_file::SataStatFilePacketBody;
use crate::fsemul::pcfs::sata::proto::write_file::SataWriteFilePacketBody;
use crate::wire::{
    c_str_chars, copy_range, i32_at, read_i32, read_u32, str_bytes, string_from_utf8, u32_at, u64_at,
};
use std::collections::HashMap;
use vstd::prelude::*;
use vstd::utf8::*;

verus! {

broadcast use vstd::std_specs::hash::group_hash_axioms;

/// A request that waits for its response, with what the log needs of it.
#[derive(Clone, Debug, PartialEq, Eq)]
pub enum WaitingRequest {
    /// Create a folder (path, will set write mode).
    CreateFolder(String, bool),
    /// Open a folder (path).
    OpenFolder(String),
    /// Read the next entry of a folder (path).
    ReadFolder(String),
    /// Rewind a folder (path).
    RewindFolder(String),
    /// Close a folder (handle, path).
    CloseFolder(i32, String),
    /// Open a file (path, mode).
    OpenFile(String, String),
    /// Read a file (path, where to move first, total size).
    ReadFile(String, Option<MoveToFileLocation>, u32),
    /// Write a file (path, where to move first).
    WriteFile(String, Option<MoveToFileLocation>),
    /// Move the position in a file (path, where to).
    SetFilePosition(String, MoveToFileLocation),
    /// The details of an open file (path).
    StatFile(String),
    /// Close a file (handle, path).
    CloseFile(i32, String),
    /// Remove a file or folder (path).
    Remove(String),
    /// Rename a file or folder (source, destination).
    Rename(String, String),
    /// Ask about a path (what, path).
    QueryPath(PCFSSataQueryType, String),
    /// Change the owner of a path (path, uid, gid).
    ChangeOwner(String, u32, u32),
    /// Change the mode of a path (path, mode).
    ChangeMode(String, String),
    /// A ping (fast file I/O, combined send/receive, first read size, first
    /// write size).
    Ping(bool, bool, u32, u32),
    /// Bytes that are no known request.
    Unknown(Vec<u8>),
}

/// A response, with what the log needs of it. A return code of zero is
/// success; an opened handle comes as `Ok`, a failure to open as its
/// return code.
#[derive(Debug)]
pub enum WaitingResponse {
    CreateFolder(u32),
    OpenFolder(Result<i32, u32>),
    ReadFolder(u32, Option<String>),
    RewindFolder(u32),
    CloseFolder(u32),
    OpenFile(Result<i32, u32>),
    ReadFile(Result<(u32, usize, Vec<u8>, u64), u32>),
    WriteFile(u32),
    SetFilePosition(u32),
    StatFile(Result<PCFSSataFdInfo, u32>),
    CloseFile(u32),
    Remove(u32),
    Rename(u32),
    QueryPath(Result<PCFSSataQueryResponse, u32>),
    ChangeOwner(u32),
    ChangeMode(u32),
    /// The answer to a ping (fast file I/O, combined send/receive).
    Pong(bool, bool),
    Unknown(Vec<u8>),
}

/// What the log knows of a response: its strings as text, the details of a
/// path by their fields, its unknown bytes as bytes.
pub enum ResponseView {
    CreateFolder(u32),
    OpenFolder(Result<i32, u32>),
    ReadFolder(u32, Option<Seq<char>>),
    RewindFolder(u32),
    CloseFolder(u32),
    OpenFile(Result<i32, u32>),
    ReadFile(Result<(u32, usize, Seq<u8>, u64), u32>),
    WriteFile(u32),
    SetFilePosition(u32),
    StatFile(Result<FdInfoFields, u32>),
    CloseFile(u32),
    Remove(u32),
    Rename(u32),
    QueryPath(Result<QueryAnswer, u32>),
    ChangeOwner(u32),
    ChangeMode(u32),
    Pong(bool, bool),
    Unknown(Seq<u8>),
}

impl View for WaitingResponse {
    type V = ResponseView;

    open spec fn view(&self) -> ResponseView {
        match self {
            WaitingResponse::CreateFolder(rc) => ResponseView::CreateFolder(*rc),
            WaitingResponse::OpenFolder(h) => ResponseView::OpenFolder(*h),
            WaitingResponse::ReadFolder(rc, n) => ResponseView::ReadFolder(
                *rc,
                match n {
                    Some(s) => Some(s@),
                    None => None,
                },
            ),
            WaitingResponse::RewindFolder(rc) => ResponseView::RewindFolder(*rc),
            WaitingResponse::CloseFolder(rc) => ResponseView::CloseFolder(*rc),
            WaitingResponse::OpenFile(h) => ResponseView::OpenFile(*h),
            WaitingResponse::ReadFile(r) => ResponseView::ReadFile(
                match r {
                    Ok((size, len, header, chk)) => Ok((*size, *len, header@, *chk)),
                    Err(rc) => Err(*rc),
                },
            ),
            WaitingResponse::WriteFile(rc) => ResponseView::WriteFile(*rc),
            WaitingResponse::SetFilePosition(rc) => ResponseView::SetFilePosition(*rc),
            WaitingResponse::StatFile(r) => ResponseView::StatFile(
                match r {
                    Ok(info) => Ok(info@),
                    Err(rc) => Err(*rc),
                },
            ),
            WaitingResponse::CloseFile(rc) => ResponseView::CloseFile(*rc),
            WaitingResponse::Remove(rc) => ResponseView::Remove(*rc),
            WaitingResponse::Rename(rc) => ResponseView::Rename(*rc),
            WaitingResponse::QueryPath(r) => ResponseView::QueryPath(
                match r {
                    Ok(q) => Ok(q@),
                    Err(rc) => Err(*rc),
                },
            ),
            WaitingResponse::ChangeOwner(rc) => ResponseView::ChangeOwner(*rc),
            WaitingResponse::ChangeMode(rc) => ResponseView::ChangeMode(*rc),
            WaitingResponse::Pong(f, c) => ResponseView::Pong(*f, *c),
            WaitingResponse::Unknown(d) => ResponseView::Unknown(d@),
        }
    }
}

/// The key the checksum of a fast file read starts from.
pub const READ_CHECKSUM_KEY: u64 = 69420;

/// The 64 bit FNV-1a hash of `s` started from `key`: each byte in turn is
/// xored into the hash, which is then multiplied by 0x100000001b3, wrapping
/// at 64 bits.
pub open spec fn fnv1a(key: u64, s: Seq<u8>) -> u64
    decreases s.len(),
{
    if s.len() == 0 {
        key
    } else {
        (((fnv1a(key, s.drop_last()) ^ (s.last() as u64)) as nat * 0x100000001b3nat)
            % 0x1_0000_0000_0000_0000nat) as u64
    }
}

/// Calls `fnv::FnvHasher::with_key(key)`, then `write(data)` and `finish()`
/// on it: the FNV-1a hash of `data` started from `key`, as `fnv1a` states
/// it.
#[verifier::external_body]
fn fnv_hash(key: u64, data: &[u8]) -> (r: u64)
    ensures
        r == fnv1a(key, data@),
{
    let mut hasher = fnv::FnvHasher::with_key(key);
    std::hash::Hasher::write(&mut hasher, data);
    std::hash::Hasher::finish(&hasher)
}

/// A body that is only a return code: exactly four bytes.
pub open spec fn code_body(body: Seq<u8>) -> Option<u32> {
    if body.len() == 4 {
        Some(u32_at(body, 0))
    } else {
        None
    }
}

/// A body that answers an open: exactly eight bytes, a return code and then
/// the handle, which is opened only when the return code is zero.
pub open spec fn handle_body(body: Seq<u8>) -> Option<Result<i32, u32>> {
    if body.len() != 8 {
        None
    } else if u32_at(body, 0) == 0 {
        Some(Ok(i32_at(body, 4)))
    } else {
        Some(Err(u32_at(body, 0)))
    }
}

/// A body that answers a read of a folder, as a directory entry answer
/// parses: the end marker, or a return code of zero with the entry's
/// information and a name that reads as text; the return code and the name.
pub open spec fn folder_item_body(body: Seq<u8>) -> Option<(u32, Option<Seq<char>>)> {
    if body.len() >= 4 && u32_at(body, 0) == NO_MORE_ITEMS {
        Some((NO_MORE_ITEMS, None))
    } else if body.len() == 0x158 && u32_at(body, 0) == 0 && c_str_chars(body.subrange(88, 0x158)) is Some {
        Some((0, Some(c_str_chars(body.subrange(88, 0x158))->0)))
    } else {
        None
    }
}

/// A body that answers a query of the kind `t`, as the answer parses: a
/// non-zero return code as that code; with a zero return code, a 32 bit
/// count, 84 bytes of details, or a 64 bit size.
pub open spec fn query_body(t: PCFSSataQueryType, body: Seq<u8>) -> Option<Result<QueryAnswer, u32>> {
    if body.len() >= 4 && u32_at(body, 0) != 0 {
        Some(Err(u32_at(body, 0)))
    } else {
        match t {
            PCFSSataQueryType::FileCount => if body.len() >= 8 {
                Some(Ok(QueryAnswer::SmallSize(u32_at(body, 4))))
            } else {
                None
            },
            PCFSSataQueryType::FileDetails => if body.len() == 88 {
                Some(Ok(QueryAnswer::FDInfo(decode_fd_info(body.subrange(4, 88)))))
            } else {
                None
            },
            _ => if body.len() >= 12 {
                Some(Ok(QueryAnswer::LargeSize(u64_at(body, 4))))
            } else {
                None
            },
        }
    }
}

/// A body that answers a ping: exactly eight bytes, a return code of zero
/// and the feature word; the features it announces.
pub open spec fn pong_body(body: Seq<u8>) -> Option<(bool, bool)> {
    if body.len() == 8 && u32_at(body, 0) == 0 {
        Some(pong_features(u32_at(body, 4)))
    } else {
        None
    }
}

/// A return code, or the unknown response when the body does not read as
/// one.
pub open spec fn code_or(body: Seq<u8>, known: spec_fn(u32) -> ResponseView, unknown: ResponseView) -> ResponseView {
    match code_body(body) {
        Some(rc) => known(rc),
        None => unknown,
    }
}

/// What the log records for the response `response` to the request `req`.
/// A response is a header of 0x20 bytes and a body; the header's fields are
/// not examined. The answer to a read, with fast file I/O on, is recorded
/// from the whole response: the file length in the four bytes after the
/// header, the response's length, its header, and its checksum (see
/// `fnv1a`). Any other response is recorded as its body reads for the
/// request it answers, and as its unknown bytes when it does not read, is
/// shorter than a header, or answers an unknown request.
pub open spec fn logged_response(req: RequestView, response: Seq<u8>) -> ResponseView {
    let body = response.subrange(0x20, response.len() as int);
    let unknown = ResponseView::Unknown(response);
    if req is ReadFile {
        if response.len() < 0x24 {
            unknown
        } else {
            ResponseView::ReadFile(
                Ok(
                    (
                        u32_at(response, 0x20),
                        response.len() as usize,
                        response.subrange(0, 0x20),
                        fnv1a(READ_CHECKSUM_KEY, response),
                    ),
                ),
            )
        }
    } else if response.len() < 0x20 {
        unknown
    } else {
        match req {
            RequestView::CreateFolder(..) => code_or(body, |rc| ResponseView::CreateFolder(rc), unknown),
            RequestView::RewindFolder(..) => code_or(body, |rc| ResponseView::RewindFolder(rc), unknown),
            RequestView::CloseFolder(..) => code_or(body, |rc| ResponseView::CloseFolder(rc), unknown),
            RequestView::WriteFile(..) => code_or(body, |rc| ResponseView::WriteFile(rc), unknown),
            RequestView::SetFilePosition(..) => code_or(body, |rc| ResponseView::SetFilePosition(rc), unknown),
            RequestView::CloseFile(..) => code_or(body, |rc| ResponseView::CloseFile(rc), unknown),
            RequestView::Remove(..) => code_or(body, |rc| ResponseView::Remove(rc), unknown),
            RequestView::Rename(..) => code_or(body, |rc| ResponseView::Rename(rc), unknown),
            RequestView::ChangeOwner(..) => code_or(body, |rc| ResponseView::ChangeOwner(rc), unknown),
            RequestView::ChangeMode(..) => code_or(body, |rc| ResponseView::ChangeMode(rc), unknown),
            RequestView::OpenFolder(..) => match handle_body(body) {
                Some(h) => ResponseView::OpenFolder(h),
                None => unknown,
            },
            RequestView::OpenFile(..) => match handle_body(body) {
                Some(h) => ResponseView::OpenFile(h),
                None => unknown,
            },
            RequestView::ReadFolder(..) => match folder_item_body(body) {
                Some((rc, name)) => ResponseView::ReadFolder(rc, name),
                None => unknown,
            },
            RequestView::StatFile(..) => match query_body(PCFSSataQueryType::FileDetails, body) {
                Some(Ok(QueryAnswer::FDInfo(info))) => ResponseView::StatFile(Ok(info)),
                Some(Err(rc)) => ResponseView::StatFile(Err(rc)),
                _ => unknown,
            },
            RequestView::QueryPath(t, _) => match query_body(t, body) {
                Some(q) => ResponseView::QueryPath(q),
                None => unknown,
            },
            RequestView::Ping(..) => match pong_body(body) {
                Some((f, c)) => ResponseView::Pong(f, c),
                None => unknown,
            },
            _ => unknown,
        }
    }
}

/// The return code `body` holds: see `code_body`.
fn code_of(body: &[u8]) -> (r: Option<u32>)
    ensures
        r == code_body(body@),
{
    if body.len() == 4 {
        Some(read_u32(body, 0))
    } else {
        None
    }
}

/// The opened handle or return code `body` holds: see `handle_body`.
fn handle_of(body: &[u8]) -> (r: Option<Result<i32, u32>>)
    ensures
        r == handle_body(body@),
{
    if body.len() != 8 {
        return None;
    }
    let rc = read_u32(body, 0);
    if rc == 0 {
        Some(Ok(read_i32(body, 4)))
    } else {
        Some(Err(rc))
    }
}

/// The return code and the entry name `body` holds: see
/// `folder_item_body`.
fn folder_item_of(body: &[u8]) -> (r: Option<(u32, Option<String>)>)
    ensures
        match r {
            Some((rc, name)) => folder_item_body(body@) == Some(
                (
                    rc,
                    match name {
                        Some(s) => Some(s@),
                        None => None,
                    },
                ),
            ),
            None => folder_item_body(body@) is None,
        },
{
    match DirectoryItemResponse::try_from_bytes(body) {
        Ok(item) => {
            let rc = item.return_code();
            let name = match item.take_file_info() {
                Some((_, n)) => Some(n),
                None => None,
            };
            proof {
                if body@.len() >= 4 && u32_at(body@, 0) == 0 && body@.len() == 0x158 {
                    assert(body@.subrange(4, body@.len() as int).subrange(84, 0x154) =~= body@.subrange(88, 0x158));
                }
            }
            Some((rc, name))
        },
        Err(_) => {
            proof {
                if body@.len() == 0x158 {
                    assert(body@.subrange(4, body@.len() as int).subrange(84, 0x154) =~= body@.subrange(88, 0x158));
                }
            }
            None
        },
    }
}

/// The answer `body` holds to a query of the kind `t`: see `query_body`.
fn query_of(t: PCFSSataQueryType, body: &[u8]) -> (r: Option<Result<PCFSSataQueryResponse, u32>>)
    ensures
        match r {
            Some(Ok(q)) => query_body(t, body@) == Some(Ok::<QueryAnswer, u32>(q@)),
            Some(Err(rc)) => query_body(t, body@) == Some(Err::<QueryAnswer, u32>(rc)),
            None => query_body(t, body@) is None,
        },
{
    let parsed = match t {
        PCFSSataQueryType::FileCount => PCFSSataQueryResponse::try_from_small(body),
        PCFSSataQueryType::FileDetails => PCFSSataQueryResponse::try_from_fd_info(body),
        _ => PCFSSataQueryResponse::try_from_large(body),
    };
    match parsed {
        Ok(q) => Some(Ok(q)),
        Err(NetworkParseError::ErrorCode(rc)) => Some(Err(rc)),
        Err(_) => None,
    }
}

/// The handles of `m`, each with its path as text.
pub open spec fn handle_paths(m: Map<i32, String>) -> Map<i32, Seq<char>> {
    m.map_values(|s: String| s@)
}

/// The path of the handle `k` in `m`, if it has one.
fn path_of(m: &HashMap<i32, String>, k: i32) -> (r: Option<String>)
    ensures
        r is Some <==> handle_paths(m@).contains_key(k),
        r matches Some(s) ==> s@ == handle_paths(m@)[k],
{
    match m.get(&k) {
        Some(p) => Some(p.clone()),
        None => None,
    }
}

/// What the log knows of one connection.
pub struct StreamLog {
    waiting: Vec<WaitingRequest>,
    files: HashMap<i32, String>,
    folders: HashMap<i32, String>,
    ffio_enabled: bool,
    csr_enabled: bool,
}

/// The requests waiting for a response, oldest first, the open files and
/// folders with their paths, and the connection's fast file I/O and
/// combined send/receive flags.
pub struct StreamLogView {
    pub waiting: Seq<WaitingRequest>,
    pub files: Map<i32, Seq<char>>,
    pub folders: Map<i32, Seq<char>>,
    pub ffio: bool,
    pub csr: bool,
}


/// What the log knows of a waiting request: its strings as text, its
/// unknown bytes as bytes.
pub enum RequestView {
    CreateFolder(Seq<char>, bool),
    OpenFolder(Seq<char>),
    ReadFolder(Seq<char>),
    RewindFolder(Seq<char>),
    CloseFolder(i32, Seq<char>),
    OpenFile(Seq<char>, Seq<char>),
    ReadFile(Seq<char>, Option<MoveToFileLocation>, u32),
    WriteFile(Seq<char>, Option<MoveToFileLocation>),
    SetFilePosition(Seq<char>, MoveToFileLocation),
    StatFile(Seq<char>),
    CloseFile(i32, Seq<char>),
    Remove(Seq<char>),
    Rename(Seq<char>, Seq<char>),
    QueryPath(PCFSSataQueryType, Seq<char>),
    ChangeOwner(Seq<char>, u32, u32),
    ChangeMode(Seq<char>, Seq<char>),
    Ping(bool, bool, u32, u32),
    Unknown(Seq<u8>),
}

impl View for WaitingRequest {
    type V = RequestView;

    open spec fn view(&self) -> RequestView {
        match self {
            WaitingRequest::CreateFolder(p, w) => RequestView::CreateFolder(p@, *w),
            WaitingRequest::OpenFolder(p) => RequestView::OpenFolder(p@),
            WaitingRequest::ReadFolder(p) => RequestView::ReadFolder(p@),
            WaitingRequest::RewindFolder(p) => RequestView::RewindFolder(p@),
            WaitingRequest::CloseFolder(fd, p) => RequestView::CloseFolder(*fd, p@),
            WaitingRequest::OpenFile(p, m) => RequestView::OpenFile(p@, m@),
            WaitingRequest::ReadFile(p, l, n) => RequestView::ReadFile(p@, *l, *n),
            WaitingRequest::WriteFile(p, l) => RequestView::WriteFile(p@, *l),
            WaitingRequest::SetFilePosition(p, l) => RequestView::SetFilePosition(p@, *l),
            WaitingRequest::StatFile(p) => RequestView::StatFile(p@),
            WaitingRequest::CloseFile(fd, p) => RequestView::CloseFile(*fd, p@),
            WaitingRequest::Remove(p) => RequestView::Remove(p@),
            WaitingRequest::Rename(a, b) => RequestView::Rename(a@, b@),
            WaitingRequest::QueryPath(q, p) => RequestView::QueryPath(*q, p@),
            WaitingRequest::ChangeOwner(p, u, g) => RequestView::ChangeOwner(p@, *u, *g),
            WaitingRequest::ChangeMode(p, m) => RequestView::ChangeMode(p@, m@),
            WaitingRequest::Ping(a, b, c, d) => RequestView::Ping(*a, *b, *c, *d),
            WaitingRequest::Unknown(d) => RequestView::Unknown(d@),
        }
    }
}

/// The decimal digits of `v`, with a `-` in front when it is negative.
pub open spec fn decimal(v: i32) -> Seq<u8> {
    if v < 0 {
        seq![45u8] + radix_text((-v) as nat, 10)
    } else {
        radix_text(v as nat, 10)
    }
}

/// The name the log gives a handle it does not know: `<Unknown; fd>`, or
/// `<Unknown fd>` for reads and writes.
pub open spec fn unknown_handle(fd: i32, semicolon: bool) -> Seq<char> {
    decode_utf8(
        seq![60u8, 85u8, 110u8, 107u8, 110u8, 111u8, 119u8, 110u8] + (if semicolon {
            seq![59u8, 32u8]
        } else {
            seq![32u8]
        }) + decimal(fd) + seq![62u8],
    )
}

/// The path the log knows for the handle `fd` among `handles`, or the name
/// it gives a handle it does not know.
pub open spec fn handle_name(handles: Map<i32, Seq<char>>, fd: i32, semicolon: bool) -> Seq<char> {
    if handles.contains_key(fd) {
        handles[fd]
    } else {
        unknown_handle(fd, semicolon)
    }
}

/// A read request whose body says to move the pointer first.
pub open spec fn moved_to(should_move: bool, l: MoveToFileLocation) -> Option<MoveToFileLocation> {
    if should_move {
        Some(l)
    } else {
        None
    }
}

/// A read request asks for a total that fits 32 bits, as the log computes
/// it.
pub open spec fn read_total_fits(command: u32, body: Seq<u8>) -> bool {
    command == 6 && body.len() == 20 ==> match decode_block_transfer(body) {
        Some(m) => m.block_count * m.block_size <= u32::MAX,
        None => true,
    }
}

/// What the log records for the request packet `packet`, whose header
/// carries the command code `command` and whose body is `body`, sent on a
/// connection whose log is `v`; a ping records the capabilities `caps` (fast
/// file I/O, combined send/receive) and the user `user` its header carries.
/// A body that does not parse, and a command whose body this log cannot
/// read (open folder, close file, change owner, change mode) or does not
/// know, is recorded as the packet's bytes.
pub open spec fn logged_request(
    v: StreamLogView,
    packet: Seq<u8>,
    command: u32,
    body: Seq<u8>,
    caps: (bool, bool),
    user: (u32, u32),
) -> RequestView {
    let field = body.subrange(0, 0x200);
    if command == 0x00 && body.len() == 0x204 && c_str_chars(field) is Some {
        RequestView::CreateFolder(c_str_chars(field)->0, u32_at(body, 0x200) & 0x222 != 0)
    } else if command == 0x02 && body.len() == 4 {
        RequestView::ReadFolder(handle_name(v.folders, i32_at(body, 0), true))
    } else if command == 0x03 && body.len() == 4 {
        RequestView::RewindFolder(handle_name(v.folders, i32_at(body, 0), true))
    } else if command == 0x04 && body.len() == 4 {
        RequestView::CloseFolder(i32_at(body, 0), handle_name(v.folders, i32_at(body, 0), true))
    } else if command == 0x05 && body.len() == 0x210 && c_str_chars(body.subrange(0, 0x10)) is Some
        && mode_ok(c_str_chars(body.subrange(0, 0x10))->0) && c_str_chars(body.subrange(0x10, 0x210)) is Some {
        RequestView::OpenFile(c_str_chars(body.subrange(0x10, 0x210))->0, c_str_chars(body.subrange(0, 0x10))->0)
    } else if command == 0x06 && body.len() == 20 && decode_block_transfer(body) is Some {
        let m = decode_block_transfer(body)->0;
        RequestView::ReadFile(
            handle_name(v.files, m.file_descriptor, false),
            moved_to(m.should_move, m.move_to),
            (m.block_count * m.block_size) as u32,
        )
    } else if command == 0x07 && body.len() == 20 && decode_block_transfer(body) is Some {
        let m = decode_block_transfer(body)->0;
        RequestView::WriteFile(handle_name(v.files, m.file_descriptor, false), moved_to(m.should_move, m.move_to))
    } else if command == 0x09 && 8 <= body.len() <= 12 && location_from_code(u32_at(body, 4)) is Some {
        RequestView::SetFilePosition(
            handle_name(v.files, i32_at(body, 0), true),
            location_from_code(u32_at(body, 4))->0,
        )
    } else if command == 0x0B && body.len() == 4 {
        RequestView::StatFile(handle_name(v.files, i32_at(body, 0), true))
    } else if command == 0x0E && body.len() == 0x200 && c_str_chars(body) is Some {
        RequestView::Remove(c_str_chars(body)->0)
    } else if command == 0x0F && body.len() == 0x400 && c_str_chars(field) is Some && c_str_chars(
        body.subrange(0x200, 0x400),
    ) is Some {
        RequestView::Rename(c_str_chars(field)->0, c_str_chars(body.subrange(0x200, 0x400))->0)
    } else if command == 0x10 && body.len() == 0x204 && c_str_chars(field) is Some && query_type_from_code(
        u32_at(body, 0x200),
    ) is Ok {
        RequestView::QueryPath(query_type_from_code(u32_at(body, 0x200))->Ok_0, c_str_chars(field)->0)
    } else if command == 0x14 && body.len() == 0 {
        RequestView::Ping(caps.0, caps.1, user.0, user.1)
    } else {
        RequestView::Unknown(packet)
    }
}

/// The decimal text of `fd`: see `decimal`.
fn decimal_bytes(fd: i32) -> (r: Vec<u8>)
    ensures
        r@ == decimal(fd),
        forall|i: int| 0 <= i < r@.len() ==> r@[i] < 128,
{
    let mut out: Vec<u8> = Vec::new();
    if fd < 0 {
        out.push(45u8);
        let magnitude: u128 = (0i64 - fd as i64) as u128;
        push_radix_text(&mut out, magnitude, 10);
        proof {
            lemma_radix_text((-fd) as nat, 10);
        }
        assert(out@ =~= decimal(fd));
    } else {
        push_radix_text(&mut out, fd as u128, 10);
        proof {
            lemma_radix_text(fd as nat, 10);
        }
        assert(out@ =~= decimal(fd));
    }
    out
}

/// The path known for `fd` among `handles`, or the name of an unknown
/// handle: see `handle_name`.
fn name_of_handle(handles: &HashMap<i32, String>, fd: i32, semicolon: bool) -> (r: String)
    ensures
        r@ == handle_name(handle_paths(handles@), fd, semicolon),
{
    match path_of(handles, fd) {
        Some(p) => p,
        None => {
            let mut b: Vec<u8> = vec![60u8, 85u8, 110u8, 107u8, 110u8, 111u8, 119u8, 110u8];
            let ghost head = b@;
            if semicolon {
                b.push(59u8);
            }
            b.push(32u8);
            let ghost mid = b@;
            let digits = decimal_bytes(fd);
            crate::wire::put_bytes(&mut b, digits.as_slice());
            b.push(62u8);
            let ghost expect = seq![60u8, 85u8, 110u8, 107u8, 110u8, 111u8, 119u8, 110u8] + (if semicolon {
                seq![59u8, 32u8]
            } else {
                seq![32u8]
            }) + decimal(fd) + seq![62u8];
            assert(b@ =~= expect);
            proof {
                lemma_ascii_valid_utf8(b@);
            }
            match string_from_utf8(b) {
                Ok(s) => s,
                Err(_) => unreached(),
            }
        },
    }
}

impl View for StreamLog {
    type V = StreamLogView;

    closed spec fn view(&self) -> StreamLogView {
        StreamLogView {
            waiting: self.waiting@,
            files: handle_paths(self.files@),
            folders: handle_paths(self.folders@),
            ffio: self.ffio_enabled,
            csr: self.csr_enabled,
        }
    }
}

/// What a response changes, given the request it answers: a file or folder
/// opened is known by its handle from then on, one closed with success is
/// forgotten, and the answer to a ping sets the connection's flags.
pub open spec fn after_response(v: StreamLogView, req: WaitingRequest, resp: WaitingResponse) -> StreamLogView {
    match resp {
        WaitingResponse::OpenFile(Ok(fd)) => match req {
            WaitingRequest::OpenFile(path, _) => StreamLogView { files: v.files.insert(fd, path@), ..v },
            _ => v,
        },
        WaitingResponse::OpenFolder(Ok(fd)) => match req {
            WaitingRequest::OpenFolder(path) => StreamLogView { folders: v.folders.insert(fd, path@), ..v },
            _ => v,
        },
        WaitingResponse::CloseFile(rc) => match req {
            WaitingRequest::CloseFile(fd, _) => if rc == 0 {
                StreamLogView { files: v.files.remove(fd), ..v }
            } else {
                v
            },
            _ => v,
        },
        WaitingResponse::CloseFolder(rc) => match req {
            WaitingRequest::CloseFolder(fd, _) => if rc == 0 {
                StreamLogView { folders: v.folders.remove(fd), ..v }
            } else {
                v
            },
            _ => v,
        },
        WaitingResponse::Pong(ffio, csr) => StreamLogView { ffio, csr, ..v },
        _ => v,
    }
}

impl StreamLog {
    /// The log of a connection just opened: nothing waits, nothing is open,
    /// and fast file I/O and combined send/receive are on.
    pub fn new() -> (r: Self)
        ensures
            r@ == (StreamLogView {
                waiting: Seq::empty(),
                files: Map::empty(),
                folders: Map::empty(),
                ffio: true,
                csr: true,
            }),
    {
        let r = StreamLog {
            waiting: Vec::new(),
            files: HashMap::new(),
            folders: HashMap::new(),
            ffio_enabled: true,
            csr_enabled: true,
        };
        assert(r@.files =~= Map::<i32, Seq<char>>::empty());
        assert(r@.folders =~= Map::<i32, Seq<char>>::empty());
        r
    }

    /// A request was sent: it waits behind those sent before it.
    pub fn record_request(&mut self, req: WaitingRequest)
        ensures
            final(self)@ == (StreamLogView { waiting: old(self)@.waiting.push(req), ..old(self)@ }),
    {
        self.waiting.push(req);
    }

    /// A response came: it answers the oldest waiting request, which stops
    /// waiting. None when no request waits.
    pub fn take_waiting(&mut self) -> (r: Option<WaitingRequest>)
        ensures
            old(self)@.waiting.len() == 0 ==> r is None && final(self)@ == old(self)@,
            old(self)@.waiting.len() > 0 ==> r == Some(old(self)@.waiting[0]) && final(self)@ == (
            StreamLogView { waiting: old(self)@.waiting.drop_first(), ..old(self)@ }),
    {
        if self.waiting.len() == 0 {
            return None;
        }
        let req = self.waiting.remove(0);
        assert(self.waiting@ =~= old(self)@.waiting.drop_first());
        Some(req)
    }

    /// Take in the response `resp` to the request `req`: see
    /// `after_response`.
    pub fn record_response(&mut self, req: &WaitingRequest, resp: &WaitingResponse)
        ensures
            final(self)@ == after_response(old(self)@, *req, *resp),
    {
        match resp {
            WaitingResponse::OpenFile(Ok(fd)) => {
                if let WaitingRequest::OpenFile(path, _) = req {
                    self.files.insert(*fd, path.clone());
                    assert(handle_paths(self.files@) =~= handle_paths(old(self).files@).insert(*fd, path@));
                }
            },
            WaitingResponse::OpenFolder(Ok(fd)) => {
                if let WaitingRequest::OpenFolder(path) = req {
                    self.folders.insert(*fd, path.clone());
                    assert(handle_paths(self.folders@) =~= handle_paths(old(self).folders@).insert(*fd, path@));
                }
            },
            WaitingResponse::CloseFile(rc) => {
                if let WaitingRequest::CloseFile(fd, _) = req {
                    if *rc == 0 {
                        self.files.remove(fd);
                        assert(handle_paths(self.files@) =~= handle_paths(old(self).files@).remove(*fd));
                    }
                }
            },
            WaitingResponse::CloseFolder(rc) => {
                if let WaitingRequest::CloseFolder(fd, _) = req {
                    if *rc == 0 {
                        self.folders.remove(fd);
                        assert(handle_paths(self.folders@) =~= handle_paths(old(self).folders@).remove(*fd));
                    }
                }
            },
            WaitingResponse::Pong(ffio, csr) => {
                self.ffio_enabled = *ffio;
                self.csr_enabled = *csr;
            },
            _ => {},
        }
    }

    /// The path of the open file `fd`, if the log knows it.
    pub fn file_path(&self, fd: i32) -> (r: Option<String>)
        ensures
            r is Some <==> self@.files.contains_key(fd),
            r matches Some(s) ==> s@ == self@.files[fd],
    {
        path_of(&self.files, fd)
    }

    /// The path of the open folder `fd`, if the log knows it.
    pub fn folder_path(&self, fd: i32) -> (r: Option<String>)
        ensures
            r is Some <==> self@.folders.contains_key(fd),
            r matches Some(s) ==> s@ == self@.folders[fd],
    {
        path_of(&self.folders, fd)
    }

    /// What the log records for the request packet `packet`, with the
    /// command code `command` and the body `body`, for a ping with the
    /// capabilities `caps` and the user `user` of its header: see
    /// `logged_request`.
    pub fn request_of(
        &self,
        packet: &[u8],
        command: u32,
        body: &[u8],
        caps: (bool, bool),
        user: (u32, u32),
    ) -> (r: WaitingRequest)
        requires
            read_total_fits(command, body@),
        ensures
            r@ == logged_request(self@, packet@, command, body@, caps, user),
    {
        let unknown = copy_range(packet, 0, packet.len());
        assert(packet@.subrange(0, packet@.len() as int) =~= packet@);
        if command == 0x00 {
            if let Ok(b) = SataCreateFolderPacketBody::try_from_bytes(body) {
                return WaitingRequest::CreateFolder(b.path().to_owned(), b.will_set_write_mode());
            }
        } else if command == 0x02 {
            if let Ok(b) = SataReadFolderPacketBody::try_from_bytes(body) {
                return WaitingRequest::ReadFolder(name_of_handle(&self.folders, b.file_descriptor(), true));
            }
        } else if command == 0x03 {
            if let Ok(b) = SataRewindFolderPacketBody::try_from_bytes(body) {
                return WaitingRequest::RewindFolder(name_of_handle(&self.folders, b.file_descriptor(), true));
            }
        } else if command == 0x04 {
            if let Ok(b) = SataCloseFolderPacketBody::try_from_bytes(body) {
                let fd = b.file_descriptor();
                return WaitingRequest::CloseFolder(fd, name_of_handle(&self.folders, fd, true));
            }
        } else if command == 0x05 {
            if let Ok(b) = SataOpenFilePacketBody::try_from_bytes(body) {
                return WaitingRequest::OpenFile(b.path().to_owned(), b.mode().to_owned());
            }
        } else if command == 0x06 {
            if let Ok(b) = SataReadFilePacketBody::try_from_bytes(body) {
                let to = if b.should_move() {
                    Some(b.move_to_pointer())
                } else {
                    None
                };
                let total = b.block_count() * b.block_size();
                return WaitingRequest::ReadFile(name_of_handle(&self.files, b.file_descriptor(), false), to, total);
            }
        } else if command == 0x07 {
            if let Ok(b) = SataWriteFilePacketBody::try_from_bytes(body) {
                let to = if b.should_move() {
                    Some(b.move_to_pointer())
                } else {
                    None
                };
                return WaitingRequest::WriteFile(name_of_handle(&self.files, b.file_descriptor(), false), to);
            }
        } else if command == 0x09 {
            if let Ok(b) = SataSetFilePositionPacketBody::try_from_bytes(body) {
                return WaitingRequest::SetFilePosition(
                    name_of_handle(&self.files, b.file_descriptor(), true),
                    b.move_to_pointer(),
                );
            }
        } else if command == 0x0B {
            if let Ok(b) = SataStatFilePacketBody::try_from_bytes(body) {
                return WaitingRequest::StatFile(name_of_handle(&self.files, b.file_descriptor(), true));
            }
        } else if command == 0x0E {
            if let Ok(b) = SataRemovePacketBody::try_from_bytes(body) {
                return WaitingRequest::Remove(b.path().to_owned());
            }
        } else if command == 0x0F {
            if let Ok(b) = SataRenamePacketBody::try_from_bytes(body) {
                return WaitingRequest::Rename(b.source_path().to_owned(), b.dest_path().to_owned());
            }
        } else if command == 0x10 {
            if let Ok(b) = SataGetInfoByQueryPacketBody::try_from_bytes(body) {
                return WaitingRequest::QueryPath(b.query_type(), b.path().to_owned());
            }
        } else if command == 0x14 {
            if SataPingPacketBody::try_from_bytes(body).is_ok() {
                return WaitingRequest::Ping(caps.0, caps.1, user.0, user.1);
            }
        }
        WaitingRequest::Unknown(unknown)
    }

    /// What the log records for the response `response` to the request
    /// `req`: see `logged_response`. The answer to a read is only read with
    /// fast file I/O on.
    pub fn response_of(&self, req: &WaitingRequest, response: &[u8]) -> (r: WaitingResponse)
        requires
            req@ is ReadFile ==> self@.ffio,
        ensures
            r@ == logged_response(req@, response@),
    {
        let unknown = copy_range(response, 0, response.len());
        assert(response@.subrange(0, response@.len() as int) =~= response@);
        if let WaitingRequest::ReadFile(_, _, _) = req {
            if response.len() < 0x24 {
                return WaitingResponse::Unknown(unknown);
            }
            let size = read_u32(response, 0x20);
            let header = copy_range(response, 0, 0x20);
            let chk = fnv_hash(READ_CHECKSUM_KEY, response);
            return WaitingResponse::ReadFile(Ok((size, response.len(), header, chk)));
        }
        if response.len() < 0x20 {
            return WaitingResponse::Unknown(unknown);
        }
        let body = &response[0x20..response.len()];
        let ghost b = response@.subrange(0x20, response@.len() as int);
        assert(body@ == b);
        match req {
            WaitingRequest::CreateFolder(_, _) => match code_of(body) {
                Some(rc) => WaitingResponse::CreateFolder(rc),
                None => WaitingResponse::Unknown(unknown),
            },
            WaitingRequest::RewindFolder(_) => match code_of(body) {
                Some(rc) => WaitingResponse::RewindFolder(rc),
                None => WaitingResponse::Unknown(unknown),
            },
            WaitingRequest::CloseFolder(_, _) => match code_of(body) {
                Some(rc) => WaitingResponse::CloseFolder(rc),
                None => WaitingResponse::Unknown(unknown),
            },
            WaitingRequest::WriteFile(_, _) => match code_of(body) {
                Some(rc) => WaitingResponse::WriteFile(rc),
                None => WaitingResponse::Unknown(unknown),
            },
            WaitingRequest::SetFilePosition(_, _) => match code_of(body) {
                Some(rc) => WaitingResponse::SetFilePosition(rc),
                None => WaitingResponse::Unknown(unknown),
            },
            WaitingRequest::CloseFile(_, _) => match code_of(body) {
                Some(rc) => WaitingResponse::CloseFile(rc),
                None => WaitingResponse::Unknown(unknown),
            },
            WaitingRequest::Remove(_) => match code_of(body) {
                Some(rc) => WaitingResponse::Remove(rc),
                None => WaitingResponse::Unknown(unknown),
            },
            WaitingRequest::Rename(_, _) => match code_of(body) {
                Some(rc) => WaitingResponse::Rename(rc),
                None => WaitingResponse::Unknown(unknown),
            },
            WaitingRequest::ChangeOwner(_, _, _) => match code_of(body) {
                Some(rc) => WaitingResponse::ChangeOwner(rc),
                None => WaitingResponse::Unknown(unknown),
            },
            WaitingRequest::ChangeMode(_, _) => match code_of(body) {
                Some(rc) => WaitingResponse::ChangeMode(rc),
                None => WaitingResponse::Unknown(unknown),
            },
            WaitingRequest::OpenFolder(_) => match handle_of(body) {
                Some(h) => WaitingResponse::OpenFolder(h),
                None => WaitingResponse::Unknown(unknown),
            },
            WaitingRequest::OpenFile(_, _) => match handle_of(body) {
                Some(h) => WaitingResponse::OpenFile(h),
                None => WaitingResponse::Unknown(unknown),
            },
            WaitingRequest::ReadFolder(_) => match folder_item_of(body) {
                Some((rc, name)) => WaitingResponse::ReadFolder(rc, name),
                None => WaitingResponse::Unknown(unknown),
            },
            WaitingRequest::StatFile(_) => match query_of(PCFSSataQueryType::FileDetails, body) {
                Some(Ok(PCFSSataQueryResponse::FDInfo(info))) => WaitingResponse::StatFile(Ok(info)),
                Some(Err(rc)) => WaitingResponse::StatFile(Err(rc)),
                _ => WaitingResponse::Unknown(unknown),
            },
            WaitingRequest::QueryPath(t, _) => match query_of(*t, body) {
                Some(q) => WaitingResponse::QueryPath(q),
                None => WaitingResponse::Unknown(unknown),
            },
            WaitingRequest::Ping(_, _, _, _) => match SataPongBody::try_from_bytes(body) {
                Ok(p) => WaitingResponse::Pong(p.ffio_enabled(), p.combined_send_recv_enabled()),
                Err(_) => WaitingResponse::Unknown(unknown),
            },
            _ => WaitingResponse::Unknown(unknown),
        }
    }

    /// Whether fast file I/O is on for the connection.
    pub fn ffio_enabled(&self) -> (r: bool)
        ensures
            r == self@.ffio,
    {
        self.ffio_enabled
    }

    /// Whether combined send/receive is on for the connection.
    pub fn csr_enabled(&self) -> (r: bool)
        ensures
            r == self@.csr,
    {
        self.csr_enabled
    }

    /// Whether the bytes a fast file write sends for the handle `fd` belong
    /// to the oldest waiting request: it must be a write to the path the log
    /// knows for `fd`, or, when it knows none, to the name it gives that
    /// handle in a write request.
    pub fn write_data_matches(&self, fd: i32) -> (r: bool)
        ensures
            r == (self@.waiting.len() > 0 && match self@.waiting[0] {
                WaitingRequest::WriteFile(path, _) => path@ == handle_name(self@.files, fd, false),
                _ => false,
            }),
    {
        if self.waiting.len() == 0 {
            return false;
        }
        match &self.waiting[0] {
            WaitingRequest::WriteFile(path, _) => {
                let expected = name_of_handle(&self.files, fd, false);
                let a = str_bytes(path.as_str());
                let b = str_bytes(expected.as_str());
                let same = same_text(a, b);
                proof {
                    encode_utf8_decode_utf8(path@);
                    encode_utf8_decode_utf8(expected@);
                }
                same
            },
            _ => false,
        }
    }
}

/// `a` and `b` hold the same bytes.
fn same_text(a: &[u8], b: &[u8]) -> (r: bool)
    ensures
        r == (a@ == b@),
{
    if a.len() != b.len() {
        return false;
    }
    let mut i: usize = 0;
    while i < a.len()
        invariant
            i <= a@.len() == b@.len(),
            forall|j: int| 0 <= j < i ==> a@[j] == b@[j],
        decreases a@.len() - i,
    {
        if a[i] != b[i] {
            return false;
        }
        i = i + 1;
    }
    assert(a@ =~= b@);
    true
}

/// What happens on one connection, in order: a request sent, or a response
/// received.
pub enum LogEvent {
    Request(WaitingRequest),
    Response,
}

/// The requests among `events`, in the order they were sent.
pub open spec fn requests_sent(events: Seq<LogEvent>) -> Seq<WaitingRequest>
    decreases events.len(),
{
    if events.len() == 0 {
        Seq::empty()
    } else {
        match events.last() {
            LogEvent::Request(r) => requests_sent(events.drop_last()).push(r),
            LogEvent::Response => requests_sent(events.drop_last()),
        }
    }
}

/// The queue of waiting requests after `events`, from `waiting`, and the
/// requests the responses among them were paired with, in order, as
/// `record_request` and `take_waiting` do it; a response while nothing
/// waits is paired with nothing.
pub open spec fn replay(waiting: Seq<WaitingRequest>, events: Seq<LogEvent>) -> (Seq<WaitingRequest>, Seq<WaitingRequest>)
    decreases events.len(),
{
    if events.len() == 0 {
        (waiting, Seq::empty())
    } else {
        let (q, paired) = replay(waiting, events.drop_last());
        match events.last() {
            LogEvent::Request(r) => (q.push(r), paired),
            LogEvent::Response => if q.len() > 0 {
                (q.drop_first(), paired.push(q[0]))
            } else {
                (q, paired)
            },
        }
    }
}

/// Law: on a connection whose log starts with nothing waiting, responses
/// are paired with requests first in, first out: the requests paired so
/// far, followed by those still waiting, are the requests sent, in the
/// order they were sent. So the i-th response paired is answered with the
/// i-th request sent.
pub proof fn lemma_responses_pair_in_order(events: Seq<LogEvent>)
    ensures
        replay(Seq::empty(), events).1 + replay(Seq::empty(), events).0 == requests_sent(events),
    decreases events.len(),
{
    if events.len() > 0 {
        lemma_responses_pair_in_order(events.drop_last());
        let (q, paired) = replay(Seq::empty(), events.drop_last());
        match events.last() {
            LogEvent::Request(r) => {
                assert(paired + q.push(r) =~= (paired + q).push(r));
            },
            LogEvent::Response => {
                if q.len() > 0 {
                    assert(paired.push(q[0]) + q.drop_first() =~= paired + q);
                }
            },
        }
    }
}
/// Law: once the open of a file is answered with the handle `fd`, the log
/// names `fd` by the opened path in the requests that follow; once a close
/// of `fd` is answered with success, it names `fd` as a handle it does not
/// know again.
pub proof fn lemma_handles_named_while_open(
    v: StreamLogView,
    open: WaitingRequest,
    close: WaitingRequest,
    fd: i32,
    semicolon: bool,
)
    requires
        open is OpenFile,
        close matches WaitingRequest::CloseFile(c, _) && c == fd,
    ensures
        handle_name(after_response(v, open, WaitingResponse::OpenFile(Ok(fd))).files, fd, semicolon)
            == open->OpenFile_0@,
        handle_name(
            after_response(
                after_response(v, open, WaitingResponse::OpenFile(Ok(fd))),
                close,
                WaitingResponse::CloseFile(0),
            ).files,
            fd,
            semicolon,
        ) == unknown_handle(fd, semicolon),
{
}

/// Law: a rename request is logged with the source path first and the
/// destination path second, as the rename body holds them.
pub proof fn lemma_rename_logged_in_order(
    v: StreamLogView,
    packet: Seq<u8>,
    source: Seq<char>,
    dest: Seq<char>,
    caps: (bool, bool),
    user: (u32, u32),
)
    requires
        path_fits(source),
        path_fits(dest),
        !source.contains('\0'),
        !dest.contains('\0'),
    ensures
        logged_request(v, packet, 0x0F, encode_rename((source, dest)), caps, user)
            == RequestView::Rename(source, dest),
{
    lemma_rename_roundtrip((source, dest));
}

} // verus!
