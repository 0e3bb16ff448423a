//! How a PCFS SATA server answers a `GetInfoByQuery` request, once the host
//! has looked at the path it names: which disk holds it, how much its
//! files weigh, how many entries a folder has.

use crate::fsemul::host_filesystem::{
    byte_views, component_count, path_components, path_starts_with, starts_with_components,
    FilesystemLocation, ResolvedLocation,
};
use crate::fsemul::pcfs::sata::proto::get_info_by_query::PCFSSataQueryResponse;
use crate::fsemul::pcfs::sata::server::decisions::PATH_NOT_EXIST_ERROR;
use crate::wire::{str_bytes, utf8_bytes};
use vstd::prelude::*;

verus! {

/// The return code for a query that needs a folder and was given a file.
pub const FOLDER_REQUIRED_ERROR: u32 = 0xFFF0_FFD7;

/// The return code for a count that does not fit 32 bits.
pub const SIZE_TOO_BIG_ERROR: u32 = 0xFFF0_FFE7;

/// The user a client names when it wants a missing folder created while
/// it asks about it.
pub open spec fn folder_creating_user() -> (u32, u32) {
    (0x1000_00FCu32, 0x1000_00FFu32)
}

/// Whether a query creates the folder it asks about first: only for the
/// folder creating user, on a path that may be written to, has no
/// extension and does not exist yet.
pub fn creates_missing_folder(user: (u32, u32), allows_writes: bool, has_extension: bool, exists: bool) -> (r: bool)
    ensures
        r == (user == folder_creating_user() && allows_writes && !has_extension && !exists),
{
    user.0 == 0x1000_00FCu32 && user.1 == 0x1000_00FFu32 && allows_writes && !has_extension && !exists
}

/// The disk `k` holds the path `closest`: its mount point, made canonical,
/// starts it.
pub open spec fn mount_holds(closest: Seq<u8>, canonical_mounts: Seq<Seq<u8>>, k: int) -> bool {
    path_starts_with(closest, canonical_mounts[k])
}

/// How many components the mount point of disk `k` has.
pub open spec fn mount_depth(mounts: Seq<Seq<u8>>, k: int) -> int {
    path_components(mounts[k]).len() as int
}

/// Disk `i`, among the first `n`, is the one that holds `closest`: it holds
/// it, no disk that holds it has a deeper mount point, and no later one an
/// equally deep one.
pub open spec fn holding_disk(
    closest: Seq<u8>,
    canonical_mounts: Seq<Seq<u8>>,
    mounts: Seq<Seq<u8>>,
    n: int,
    i: int,
) -> bool {
    &&& 0 <= i < n
    &&& mount_holds(closest, canonical_mounts, i)
    &&& forall|k: int|
        0 <= k < n && #[trigger] mount_holds(closest, canonical_mounts, k) ==> mount_depth(mounts, k)
            <= mount_depth(mounts, i) && (k > i ==> mount_depth(mounts, k) < mount_depth(mounts, i))
}

/// At most one disk holds a path.
pub proof fn lemma_holding_disk_unique(
    closest: Seq<u8>,
    canonical_mounts: Seq<Seq<u8>>,
    mounts: Seq<Seq<u8>>,
    n: int,
    i: int,
    j: int,
)
    requires
        holding_disk(closest, canonical_mounts, mounts, n, i),
        holding_disk(closest, canonical_mounts, mounts, n, j),
    ensures
        i == j,
{
    assert(mount_holds(closest, canonical_mounts, i));
    assert(mount_holds(closest, canonical_mounts, j));
}

/// The disk that holds the path `closest`, given each disk's mount point
/// as it is named (`mounts`) and made canonical (`canonical_mounts`): the
/// most specific mount point that starts the path, the last one listed
/// among equally specific ones. None when no disk holds it.
pub fn disk_holding_path(closest: &[u8], canonical_mounts: &[Vec<u8>], mounts: &[Vec<u8>]) -> (r: Option<usize>)
    requires
        canonical_mounts@.len() == mounts@.len(),
    ensures
        r is None <==> forall|k: int|
            0 <= k < mounts@.len() ==> !#[trigger] mount_holds(closest@, byte_views(canonical_mounts@), k),
        r matches Some(i) ==> holding_disk(
            closest@,
            byte_views(canonical_mounts@),
            byte_views(mounts@),
            mounts@.len() as int,
            i as int,
        ),
{
    let ghost cm = byte_views(canonical_mounts@);
    let ghost ms = byte_views(mounts@);
    let mut best: Option<usize> = None;
    let mut best_depth: usize = 0;
    let mut j: usize = 0;
    while j < mounts.len()
        invariant
            j <= mounts@.len() == canonical_mounts@.len(),
            cm == byte_views(canonical_mounts@),
            ms == byte_views(mounts@),
            best is None <==> forall|k: int| 0 <= k < j ==> !#[trigger] mount_holds(closest@, cm, k),
            best matches Some(i) ==> holding_disk(closest@, cm, ms, j as int, i as int) && best_depth
                == mount_depth(ms, i as int),
        decreases mounts@.len() - j,
    {
        if starts_with_components(closest, canonical_mounts[j].as_slice()) {
            assert(mount_holds(closest@, cm, j as int));
            let depth = component_count(mounts[j].as_slice());
            let take = match best {
                Some(_) => !(best_depth > depth),
                None => true,
            };
            if take {
                best = Some(j);
                best_depth = depth;
            }
        } else {
            assert(!mount_holds(closest@, cm, j as int));
        }
        j = j + 1;
    }
    best
}

/// How much free space the disk holding a location has. A network location,
/// or one no disk holds, is answered as missing.
pub fn disk_space_answer(
    location: &ResolvedLocation,
    canonical_mounts: &[Vec<u8>],
    mounts: &[Vec<u8>],
    available: &[u64],
) -> (r: PCFSSataQueryResponse)
    requires
        canonical_mounts@.len() == mounts@.len() == available@.len(),
    ensures
        match location {
            ResolvedLocation::Network => r == PCFSSataQueryResponse::ErrorCode(PATH_NOT_EXIST_ERROR),
            ResolvedLocation::Filesystem(f) => {
                let closest = utf8_bytes(f@.1);
                let cm = byte_views(canonical_mounts@);
                let ms = byte_views(mounts@);
                if forall|k: int| 0 <= k < mounts@.len() ==> !#[trigger] mount_holds(closest, cm, k) {
                    r == PCFSSataQueryResponse::ErrorCode(PATH_NOT_EXIST_ERROR)
                } else {
                    exists|i: int|
                        holding_disk(closest, cm, ms, mounts@.len() as int, i) && r
                            == PCFSSataQueryResponse::LargeSize(#[trigger] available@[i])
                }
            },
        },
{
    match location {
        ResolvedLocation::Network => PCFSSataQueryResponse::ErrorCode(PATH_NOT_EXIST_ERROR),
        ResolvedLocation::Filesystem(f) => {
            match disk_holding_path(str_bytes(f.closest_resolved_path().as_str()), canonical_mounts, mounts) {
                None => PCFSSataQueryResponse::ErrorCode(PATH_NOT_EXIST_ERROR),
                Some(i) => PCFSSataQueryResponse::LargeSize(available[i]),
            }
        },
    }
}

/// The total of `sizes`.
pub open spec fn total_size(sizes: Seq<u64>) -> nat
    decreases sizes.len(),
{
    if sizes.len() == 0 {
        0
    } else {
        total_size(sizes.drop_last()) + sizes.last() as nat
    }
}

/// `v`, or the largest 64 bit number when it is larger.
pub open spec fn saturated(v: nat) -> u64 {
    if v > u64::MAX {
        u64::MAX
    } else {
        v as u64
    }
}

/// The size of a folder: the total size of the files under it, given as
/// `file_sizes`, saturating at the largest 64 bit number. A location that
/// does not exist exactly is answered as missing.
pub fn folder_size_answer(location: &FilesystemLocation, file_sizes: &[u64]) -> (r: PCFSSataQueryResponse)
    ensures
        r == (if !location@.2 {
            PCFSSataQueryResponse::ErrorCode(PATH_NOT_EXIST_ERROR)
        } else {
            PCFSSataQueryResponse::LargeSize(saturated(total_size(file_sizes@)))
        }),
{
    if !location.canonicalized_is_exact() {
        return PCFSSataQueryResponse::ErrorCode(PATH_NOT_EXIST_ERROR);
    }
    let mut total: u64 = 0;
    let mut i: usize = 0;
    while i < file_sizes.len()
        invariant
            i <= file_sizes@.len(),
            total == saturated(total_size(file_sizes@.subrange(0, i as int))),
        decreases file_sizes@.len() - i,
    {
        assert(file_sizes@.subrange(0, i + 1).drop_last() =~= file_sizes@.subrange(0, i as int));
        total = total.saturating_add(file_sizes[i]);
        i = i + 1;
    }
    assert(file_sizes@.subrange(0, file_sizes@.len() as int) =~= file_sizes@);
    PCFSSataQueryResponse::LargeSize(total)
}

/// How many of `listed` are `true`.
pub open spec fn count_listed(listed: Seq<bool>) -> nat
    decreases listed.len(),
{
    if listed.len() == 0 {
        0
    } else {
        count_listed(listed.drop_last()) + if listed.last() {
            1nat
        } else {
            0nat
        }
    }
}

/// The number of entries of a folder, from `listing`: whether each entry
/// the folder listed could be read, or none when the folder could not be
/// listed. Entries that could not be read are not counted. A location that
/// does not exist exactly, or could not be listed, is answered as missing;
/// one that is not a folder as needing one; a count that does not fit 32
/// bits as too big.
pub fn file_count_answer(location: &FilesystemLocation, is_dir: bool, listing: Option<&[bool]>) -> (r:
    PCFSSataQueryResponse)
    ensures
        r == (if !location@.2 {
            PCFSSataQueryResponse::ErrorCode(PATH_NOT_EXIST_ERROR)
        } else if !is_dir {
            PCFSSataQueryResponse::ErrorCode(FOLDER_REQUIRED_ERROR)
        } else {
            match listing {
                None => PCFSSataQueryResponse::ErrorCode(PATH_NOT_EXIST_ERROR),
                Some(l) => if count_listed(l@) > u32::MAX {
                    PCFSSataQueryResponse::ErrorCode(SIZE_TOO_BIG_ERROR)
                } else {
                    PCFSSataQueryResponse::SmallSize(count_listed(l@) as u32)
                },
            }
        }),
{
    if !location.canonicalized_is_exact() {
        return PCFSSataQueryResponse::ErrorCode(PATH_NOT_EXIST_ERROR);
    }
    if !is_dir {
        return PCFSSataQueryResponse::ErrorCode(FOLDER_REQUIRED_ERROR);
    }
    let listed = match listing {
        None => {
            return PCFSSataQueryResponse::ErrorCode(PATH_NOT_EXIST_ERROR);
        },
        Some(l) => l,
    };
    let mut count: u32 = 0;
    let mut i: usize = 0;
    while i < listed.len()
        invariant
            i <= listed@.len(),
            count == count_listed(listed@.subrange(0, i as int)),
            listing == Some(listed),
            location@.2,
            is_dir,
        decreases listed@.len() - i,
    {
        assert(listed@.subrange(0, i + 1).drop_last() =~= listed@.subrange(0, i as int));
        if listed[i] {
            if count == u32::MAX {
                proof {
                    assert(listed@.subrange(0, i + 1).last() == listed@[i as int]);
                    assert(count_listed(listed@.subrange(0, i + 1)) == count + 1);
                    lemma_count_listed_grows(listed@, i as int + 1);
                }
                return PCFSSataQueryResponse::ErrorCode(SIZE_TOO_BIG_ERROR);
            }
            count = count + 1;
        }
        i = i + 1;
    }
    assert(listed@.subrange(0, listed@.len() as int) =~= listed@);
    PCFSSataQueryResponse::SmallSize(count)
}

/// Counting more of a listing never counts fewer.
proof fn lemma_count_listed_grows(listed: Seq<bool>, i: int)
    requires
        0 <= i <= listed.len(),
    ensures
        count_listed(listed.subrange(0, i)) <= count_listed(listed),
    decreases listed.len() - i,
{
    if i < listed.len() {
        lemma_count_listed_grows(listed, i + 1);
        assert(listed.subrange(0, i + 1).drop_last() =~= listed.subrange(0, i));
    } else {
        assert(listed.subrange(0, i) =~= listed);
    }
}

} // verus!
