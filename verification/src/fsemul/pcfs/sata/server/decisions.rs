//! What a PCFS SATA server decides while answering requests, apart from
//! the filesystem work itself: which return code answers a request, which
//! open options a file mode asks for, the steps of removals, renames, mode
//! changes and folder creation, the answer for a folder entry, and the
//! bytes of fast file replies.

use crate::fsemul::pcfs::sata::proto::get_info_by_query::{FdInfoFields, PCFSSataFdInfo};
use crate::fsemul::pcfs::sata::proto::read_folder::{entry_path_fits, DirectoryItemResponse};
use crate::wire::{be_u32, put_bytes, put_u32, str_byte_len, u32_at, zeros};
use vstd::prelude::*;

verus! {

/// The return code of a filesystem error.
pub const FS_ERROR: u32 = 0xFFF0_FFE0;

/// The return code for a path that does not exist.
pub const PATH_NOT_EXIST_ERROR: u32 = 0xFFF0_FFE9;

/// The return code of success.
pub const SUCCESS: u32 = 0;

/// `mode` holds the character `c`.
pub open spec fn mode_has(mode: Seq<char>, c: char) -> bool {
    mode.contains(c)
}

/// Whether `mode` holds `c`.
fn has_char(mode: &str, c: char) -> (r: bool)
    ensures
        r == mode_has(mode@, c),
{
    let mut found = false;
    let ghost mut idx: int = 0;
    for car in it: mode.chars()
        invariant
            idx == it.index(),
            it.seq() == mode@,
            found == mode@.subrange(0, idx).contains(c),
    {
        let ghost before = mode@.subrange(0, idx);
        let ghost now = mode@.subrange(0, idx + 1);
        assert(now =~= before.push(car));
        assert(now[idx] == car);
        if car == c {
            found = true;
        } else {
            assert forall|j: int| 0 <= j < now.len() && #[trigger] now[j] == c implies before.contains(c) by {
                assert(before[j] == c);
            }
            assert forall|j: int| 0 <= j < before.len() && #[trigger] before[j] == c implies now.contains(c) by {
                assert(now[j] == c);
            }
        }
        proof {
            idx = idx + 1;
        }
    }
    assert(mode@.subrange(0, idx) =~= mode@);
    found
}

/// A file mode writes when it does not read, or also updates (`+`).
pub open spec fn mode_writes(mode: Seq<char>) -> bool {
    !mode_has(mode, 'r') || mode_has(mode, '+')
}

/// Opening a path that does not allow writes is refused for a mode that
/// writes.
pub fn open_refused_for_writes(mode: &str, path_allows_writes: bool) -> (r: bool)
    ensures
        r == (!path_allows_writes && mode_writes(mode@)),
{
    !path_allows_writes && (!has_char(mode, 'r') || has_char(mode, '+'))
}

/// Opening an existing read-only file is refused for a mode that does not
/// read, unless the client allows files to become writable: the first byte
/// of its second capability word is not zero.
pub fn open_refused_read_only(mode: &str, read_only: bool, capabilities: u32) -> (r: bool)
    ensures
        r == (read_only && !mode_has(mode@, 'r') && capabilities / 0x0100_0000 == 0),
{
    read_only && !has_char(mode, 'r') && capabilities / 0x0100_0000 == 0
}

/// The options a file is opened with.
#[derive(Clone, Copy, Debug, PartialEq, Eq)]
pub struct OpenOptionsPlan {
    pub read: bool,
    pub write: bool,
    pub truncate: bool,
    pub create: bool,
}

/// The options for a file mode: `r` reads; `w` writes, truncates and
/// creates; `a` writes and creates without truncating; `+` creates.
pub fn open_options(mode: &str) -> (r: OpenOptionsPlan)
    ensures
        r.read == mode_has(mode@, 'r'),
        r.write == (mode_has(mode@, 'w') || mode_has(mode@, 'a')),
        r.truncate == (mode_has(mode@, 'w') && !mode_has(mode@, 'a')),
        r.create == (mode_has(mode@, 'w') || mode_has(mode@, 'a') || mode_has(mode@, '+')),
{
    let r = has_char(mode, 'r');
    let w = has_char(mode, 'w');
    let a = has_char(mode, 'a');
    let plus = has_char(mode, '+');
    OpenOptionsPlan { read: r, write: w || a, truncate: w && !a, create: w || a || plus }
}

/// The answer for the next entry of a folder, once the host has read its
/// details (`info`, none when they could not be read) and its name: an
/// entry whose details could not be read, or whose name is longer than 255
/// bytes, is a filesystem error.
pub fn directory_item_answer(info: Option<PCFSSataFdInfo>, name: String) -> (r: DirectoryItemResponse)
    ensures
        match info {
            Some(i) => if entry_path_fits(name@) {
                r@ == (0u32, Some((i@, name@)))
            } else {
                r@ == (FS_ERROR, None::<(FdInfoFields, Seq<char>)>)
            },
            None => r@ == (FS_ERROR, None::<(FdInfoFields, Seq<char>)>),
        },
{
    match info {
        None => DirectoryItemResponse::new_error_code(FS_ERROR),
        Some(i) => {
            if str_byte_len(&name) > 255 {
                return DirectoryItemResponse::new_error_code(FS_ERROR);
            }
            match DirectoryItemResponse::new_next(i, name) {
                Ok(answer) => answer,
                Err(_) => unreached(),
            }
        },
    }
}

/// The next step of a removal.
#[derive(Clone, Copy, Debug, PartialEq, Eq)]
pub enum RemovalStep {
    /// Answer with this return code.
    Reply(u32),
    /// Rename the path aside, to where `removal_aside_path` in
    /// `host_filesystem` puts it, rather than remove it.
    RenameAside,
    /// Remove the file.
    RemoveFile,
    /// Remove the directory and all it holds.
    RemoveDir,
}

/// How a removal proceeds: a path that does not resolve or exist is
/// answered as missing; with real removal disabled it is renamed aside;
/// else a file or directory is removed; anything else is a filesystem
/// error.
pub fn removal_step(
    resolved: bool,
    exists: bool,
    disable_real_removal: bool,
    is_file: bool,
    is_dir: bool,
) -> (r: RemovalStep)
    ensures
        r == (if !resolved || !exists {
            RemovalStep::Reply(PATH_NOT_EXIST_ERROR)
        } else if disable_real_removal {
            RemovalStep::RenameAside
        } else if is_file {
            RemovalStep::RemoveFile
        } else if is_dir {
            RemovalStep::RemoveDir
        } else {
            RemovalStep::Reply(FS_ERROR)
        }),
{
    if !resolved || !exists {
        RemovalStep::Reply(PATH_NOT_EXIST_ERROR)
    } else if disable_real_removal {
        RemovalStep::RenameAside
    } else if is_file {
        RemovalStep::RemoveFile
    } else if is_dir {
        RemovalStep::RemoveDir
    } else {
        RemovalStep::Reply(FS_ERROR)
    }
}

/// The return code once filesystem work is done.
pub fn outcome_code(succeeded: bool) -> (r: u32)
    ensures
        r == (if succeeded {
            SUCCESS
        } else {
            FS_ERROR
        }),
{
    if succeeded {
        SUCCESS
    } else {
        FS_ERROR
    }
}

/// The next step of a folder creation.
#[derive(Clone, Copy, Debug, PartialEq, Eq)]
pub enum CreateFolderStep {
    /// Answer with this return code.
    Reply(u32),
    /// Create the folder and the folders above it, then mark it.
    Create,
    /// Record the folder as writable (`true`) or read-only; a folder is
    /// never made read-only on disk.
    Mark(bool),
}

/// How a folder creation proceeds: a path that does not resolve, or a
/// writable folder where writes are not allowed, is a filesystem error; a
/// missing folder is created; an existing one is marked writable when the
/// request sets write mode, else read-only.
pub fn create_folder_step(resolved: bool, will_set_write_mode: bool, path_allows_writes: bool, exists: bool) -> (r:
    CreateFolderStep)
    ensures
        r == (if !resolved || (will_set_write_mode && !path_allows_writes) {
            CreateFolderStep::Reply(FS_ERROR)
        } else if !exists {
            CreateFolderStep::Create
        } else {
            CreateFolderStep::Mark(will_set_write_mode)
        }),
{
    if !resolved || (will_set_write_mode && !path_allows_writes) {
        CreateFolderStep::Reply(FS_ERROR)
    } else if !exists {
        CreateFolderStep::Create
    } else {
        CreateFolderStep::Mark(will_set_write_mode)
    }
}

/// The next step of a rename.
#[derive(Clone, Copy, Debug, PartialEq, Eq)]
pub enum RenameStep {
    /// Answer with this return code.
    Reply(u32),
    /// Copy the source to the destination.
    Copy,
    /// Move the source to the destination.
    Rename,
}

/// The user a client names when it asks for a copy rather than a rename.
pub open spec fn copying_user() -> (u32, u32) {
    (0x1000_00F5u32, 0x1000_00FFu32)
}

/// How a rename proceeds: a source that does not resolve or exist, or a
/// destination that does not resolve, is answered as missing; else the
/// copying user copies, and everyone else renames.
pub fn rename_step(source_resolved: bool, source_exists: bool, dest_resolved: bool, user: (u32, u32)) -> (r:
    RenameStep)
    ensures
        r == (if !source_resolved || !source_exists || !dest_resolved {
            RenameStep::Reply(PATH_NOT_EXIST_ERROR)
        } else if user == copying_user() {
            RenameStep::Copy
        } else {
            RenameStep::Rename
        }),
{
    if !source_resolved || !source_exists || !dest_resolved {
        RenameStep::Reply(PATH_NOT_EXIST_ERROR)
    } else if user.0 == 0x1000_00F5u32 && user.1 == 0x1000_00FFu32 {
        RenameStep::Copy
    } else {
        RenameStep::Rename
    }
}

/// The return code a finished rename is answered with.
pub const RENAMED: u32 = 0xFFF0_FFEA;

/// The return code once a rename or copy is done: a failure is a
/// filesystem error, and a success is answered with `RENAMED`.
pub fn rename_outcome(succeeded: bool) -> (r: u32)
    ensures
        r == (if succeeded {
            RENAMED
        } else {
            FS_ERROR
        }),
{
    if succeeded {
        RENAMED
    } else {
        FS_ERROR
    }
}

/// The next step of a change of mode.
#[derive(Clone, Copy, Debug, PartialEq, Eq)]
pub enum ChangeModeStep {
    /// Answer with this return code.
    Reply(u32),
    /// A folder is only recorded as writable (`true`) or read-only, never
    /// made read-only on disk: the SDK creates files in folders it marked
    /// read-only.
    MarkFolder(bool),
    /// Set a file's read-only attribute to this.
    SetReadOnly(bool),
}

/// How a change of mode proceeds: a path that does not resolve, or does
/// not exist exactly, is answered as missing; unreadable metadata, or
/// making writable a path that does not allow writes, is a filesystem
/// error; else a folder is marked and a file's attribute set.
pub fn change_mode_step(
    resolved: bool,
    exists_exactly: bool,
    metadata_read: bool,
    set_writable: bool,
    path_allows_writes: bool,
    is_dir: bool,
) -> (r: ChangeModeStep)
    ensures
        r == (if !resolved || !exists_exactly {
            ChangeModeStep::Reply(PATH_NOT_EXIST_ERROR)
        } else if !metadata_read || (set_writable && !path_allows_writes) {
            ChangeModeStep::Reply(FS_ERROR)
        } else if is_dir {
            ChangeModeStep::MarkFolder(set_writable)
        } else {
            ChangeModeStep::SetReadOnly(!set_writable)
        }),
{
    if !resolved || !exists_exactly {
        ChangeModeStep::Reply(PATH_NOT_EXIST_ERROR)
    } else if !metadata_read || (set_writable && !path_allows_writes) {
        ChangeModeStep::Reply(FS_ERROR)
    } else if is_dir {
        ChangeModeStep::MarkFolder(set_writable)
    } else {
        ChangeModeStep::SetReadOnly(!set_writable)
    }
}

/// The eight bytes that start a fast file error reply.
pub open spec fn ffio_error_magic() -> Seq<u8> {
    seq![0xC4u8, 0x00u8, 0xFEu8, 0x00u8, 0x20u8, 0xEFu8, 0xFEu8, 0x00u8]
}

/// The eight bytes that start a fast file read reply that fits the first
/// read.
pub open spec fn ffio_read_magic() -> Seq<u8> {
    seq![0xC4u8, 0x00u8, 0x24u8, 0x02u8, 0xE8u8, 0xEFu8, 0x24u8, 0x02u8]
}

/// A fast file error reply carrying `code`.
pub open spec fn ffio_error_reply(code: u32) -> Seq<u8> {
    ffio_error_magic() + zeros(0x18) + be_u32(code)
}

/// `v` capped at `u32::MAX`.
pub open spec fn capped(v: nat) -> u32 {
    if v > u32::MAX {
        u32::MAX
    } else {
        v as u32
    }
}

/// `n` bytes of `0xCD`.
pub open spec fn fill_cd(n: nat) -> Seq<u8> {
    Seq::new(n, |_i: int| 0xCDu8)
}

/// The reply to a fast file read of `total` bytes that read `data`, from a
/// file `file_size` bytes long, on a connection whose first read size is
/// `first` and whose buffer has grown (`grew`): whether the buffer has
/// grown after it, and the reply. Once a read goes past the first read
/// size the buffer has grown, and replies start with 32 zero bytes and the
/// data length; before, they start with the read magic, 24 zero bytes and
/// the file size. A short read under the first read size is padded with
/// `0xCD` up to the smaller of the two.
pub open spec fn ffio_read_reply(
    data: Seq<u8>,
    total: nat,
    first: nat,
    file_size: nat,
    grew: bool,
) -> (Seq<u8>, bool) {
    let len = data.len();
    let grown = grew || len > first;
    let header = if (len < total && len > first) || grown {
        zeros(0x20) + be_u32(capped(len))
    } else {
        ffio_read_magic() + zeros(0x18) + be_u32(capped(file_size))
    };
    let pad = if len < total && len < first {
        fill_cd((if total < first { total } else { first } - len) as nat)
    } else {
        Seq::empty()
    };
    (header + data + pad, grown)
}

/// Law: once a connection's buffer has grown, every fast file read reply
/// starts with 32 zero bytes and the length of the data read (at most
/// `u32::MAX`), then the data, and the buffer stays grown; a read longer
/// than the first read size grows it.
pub proof fn lemma_grown_buffer_reply(data: Seq<u8>, total: nat, first: nat, file_size: nat, grew: bool)
    ensures
        grew || data.len() > first ==> ffio_read_reply(data, total, first, file_size, grew).1,
        grew ==> ffio_read_reply(data, total, first, file_size, grew).0.subrange(0, 0x20) == zeros(0x20),
        grew ==> u32_at(ffio_read_reply(data, total, first, file_size, grew).0, 0x20) == (if data.len()
            > u32::MAX {
            u32::MAX
        } else {
            data.len() as u32
        }),
        grew ==> ffio_read_reply(data, total, first, file_size, grew).0.subrange(
            0x24,
            0x24 + data.len() as int,
        ) == data,
{
    if grew {
        let reply = ffio_read_reply(data, total, first, file_size, grew).0;
        let c = capped(data.len());
        crate::wire::lemma_be_u32_roundtrip(c);
        let pad = if data.len() < total && data.len() < first {
            fill_cd((if total < first { total } else { first } - data.len()) as nat)
        } else {
            Seq::empty()
        };
        assert(reply == zeros(0x20) + be_u32(c) + data + pad);
        assert(reply.subrange(0, 0x20) =~= zeros(0x20));
        assert(reply.subrange(0x20, 0x24) =~= be_u32(c));
        assert(reply.subrange(0x24, 0x24 + data.len() as int) =~= data);
    }
}

/// Law: while a connection's buffer has not grown, a read of at most the
/// first read size is answered with the first read header (its magic, 24
/// zero bytes and the file size, at most `u32::MAX`), then the data, then,
/// when the read came short, 0xCD bytes up to the smaller of what was asked
/// and the first read size; the buffer stays as it was.
pub proof fn lemma_first_read_reply(data: Seq<u8>, total: nat, first: nat, file_size: nat)
    requires
        data.len() <= first,
    ensures
        !ffio_read_reply(data, total, first, file_size, false).1,
        ffio_read_reply(data, total, first, file_size, false).0.subrange(0, 8) == ffio_read_magic(),
        ffio_read_reply(data, total, first, file_size, false).0.subrange(8, 0x20) == zeros(0x18),
        u32_at(ffio_read_reply(data, total, first, file_size, false).0, 0x20) == (if file_size
            > u32::MAX {
            u32::MAX
        } else {
            file_size as u32
        }),
        ffio_read_reply(data, total, first, file_size, false).0.subrange(
            0x24,
            0x24 + data.len() as int,
        ) == data,
        ffio_read_reply(data, total, first, file_size, false).0.len() == 0x24 + if data.len() < total
            && data.len() < first {
            if total < first {
                total
            } else {
                first
            }
        } else {
            data.len()
        },
        forall|i: int|
            0x24 + data.len() <= i < ffio_read_reply(data, total, first, file_size, false).0.len()
                ==> #[trigger] ffio_read_reply(data, total, first, file_size, false).0[i] == 0xCDu8,
{
    let reply = ffio_read_reply(data, total, first, file_size, false).0;
    let c = capped(file_size);
    crate::wire::lemma_be_u32_roundtrip(c);
    let pad = if data.len() < total && data.len() < first {
        fill_cd((if total < first { total } else { first } - data.len()) as nat)
    } else {
        Seq::empty()
    };
    assert(reply == ffio_read_magic() + zeros(0x18) + be_u32(c) + data + pad);
    assert(reply.subrange(0, 8) =~= ffio_read_magic());
    assert(reply.subrange(8, 0x20) =~= zeros(0x18));
    assert(reply.subrange(0x20, 0x24) =~= be_u32(c));
    assert(reply.subrange(0x24, 0x24 + data.len() as int) =~= data);
    assert forall|i: int| 0x24 + data.len() <= i < reply.len() implies #[trigger] reply[i] == 0xCDu8 by {
        assert(reply[i] == pad[i - 0x24 - data.len()]);
    }
}

/// The fast file error reply carrying `code`.
pub fn make_ffio_error_reply(code: u32) -> (r: Vec<u8>)
    ensures
        r@ == ffio_error_reply(code),
{
    let mut out: Vec<u8> = Vec::new();
    out.push(0xC4u8);
    out.push(0x00u8);
    out.push(0xFEu8);
    out.push(0x00u8);
    out.push(0x20u8);
    out.push(0xEFu8);
    out.push(0xFEu8);
    out.push(0x00u8);
    crate::wire::put_zeros(&mut out, 0x18);
    put_u32(&mut out, code);
    assert(out@ =~= ffio_error_reply(code));
    out
}

/// The reply to a fast file read, and whether the buffer has grown after
/// it: see `ffio_read_reply`.
pub fn make_ffio_read_reply(
    data: &[u8],
    total: usize,
    first_read_size: u32,
    file_size: u64,
    grew: bool,
) -> (r: (Vec<u8>, bool))
    ensures
        (r.0@, r.1) == ffio_read_reply(data@, total as nat, first_read_size as nat, file_size as nat, grew),
{
    let len = data.len();
    let grown = grew || (len as u64) > (first_read_size as u64);
    let mut out: Vec<u8> = Vec::new();
    if (len < total && (len as u64) > (first_read_size as u64)) || grown {
        crate::wire::put_zeros(&mut out, 0x20);
        put_u32(&mut out, if len as u64 > u32::MAX as u64 {
            u32::MAX
        } else {
            len as u32
        });
    } else {
        out.push(0xC4u8);
        out.push(0x00u8);
        out.push(0x24u8);
        out.push(0x02u8);
        out.push(0xE8u8);
        out.push(0xEFu8);
        out.push(0x24u8);
        out.push(0x02u8);
        crate::wire::put_zeros(&mut out, 0x18);
        put_u32(&mut out, if file_size > u32::MAX as u64 {
            u32::MAX
        } else {
            file_size as u32
        });
    }
    let ghost header = out@;
    put_bytes(&mut out, data);
    let ghost with_data = out@;
    if len < total && (len as u64) < (first_read_size as u64) {
        let upto = if (total as u64) < (first_read_size as u64) {
            total
        } else {
            first_read_size as usize
        };
        let mut k: usize = len;
        while k < upto
            invariant
                len <= k <= upto,
                out@ == with_data + fill_cd((k - len) as nat),
            decreases upto - k,
        {
            out.push(0xCDu8);
            k = k + 1;
            assert(out@ =~= with_data + fill_cd((k - len) as nat));
        }
    } else {
        assert(out@ =~= with_data + Seq::<u8>::empty());
    }
    proof {
        let spec = ffio_read_reply(data@, total as nat, first_read_size as nat, file_size as nat, grew);
        assert(out@ =~= spec.0);
    }
    (out, grown)
}

} // verus!
