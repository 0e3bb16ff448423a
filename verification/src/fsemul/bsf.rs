//! BOOT1 system files (`.bsf`): a 32 byte header that points the boot
//! process at its platform and package information, followed by a list of
//! data blocks.

use crate::errors::FSError;
use crate::wire::{be_u32, lemma_be_u32_roundtrip, put_u32, read_u32, u32_at};
use vstd::prelude::*;

verus! {

/// The smallest boot system file: its header.
pub const MIN_FILE_SIZE: usize = 32;

/// The largest boot system file.
pub const MAX_FILE_SIZE: usize = 1_048_576;

/// The magic number every boot system file starts with.
pub const BOOTOS_BOOT_BLOCK_MAGIC: u32 = 0xFD9B_5B7A;

/// The most data blocks a file of at most `MAX_FILE_SIZE` bytes holds.
pub const MAX_DATA_INFOS: u32 = 131_068;

/// The header of a boot system file.
#[derive(Clone, Debug, PartialEq, Eq)]
pub struct BootOSBootBlockHeader {
    platform_info_physical_address: u32,
    package_info_physical_address: u32,
    boot1_flags: u32,
    sticky_register_bits: u32,
}

/// The fields of a boot system file header.
pub struct HeaderFields {
    pub platform_info_physical_address: u32,
    pub package_info_physical_address: u32,
    pub boot1_flags: u32,
    pub sticky_register_bits: u32,
}

impl View for BootOSBootBlockHeader {
    type V = HeaderFields;

    closed spec fn view(&self) -> HeaderFields {
        HeaderFields {
            platform_info_physical_address: self.platform_info_physical_address,
            package_info_physical_address: self.package_info_physical_address,
            boot1_flags: self.boot1_flags,
            sticky_register_bits: self.sticky_register_bits,
        }
    }
}

impl BootOSBootBlockHeader {
    pub fn platform_info_physical_address(&self) -> (r: u32)
        ensures
            r == self@.platform_info_physical_address,
    {
        self.platform_info_physical_address
    }

    pub fn package_info_physical_address(&self) -> (r: u32)
        ensures
            r == self@.package_info_physical_address,
    {
        self.package_info_physical_address
    }

    pub fn boot1_flags(&self) -> (r: u32)
        ensures
            r == self@.boot1_flags,
    {
        self.boot1_flags
    }

    pub fn sticky_register_bits(&self) -> (r: u32)
        ensures
            r == self@.sticky_register_bits,
    {
        self.sticky_register_bits
    }
}

/// A data block of a boot system file.
#[derive(Clone, Debug, PartialEq, Eq)]
pub struct BootOSDataInfo {
    address: u32,
    length: u32,
}

impl View for BootOSDataInfo {
    /// (address, length)
    type V = (u32, u32);

    closed spec fn view(&self) -> (u32, u32) {
        (self.address, self.length)
    }
}

impl BootOSDataInfo {
    pub fn address(&self) -> (r: u32)
        ensures
            r == self@.0,
    {
        self.address
    }

    pub fn length(&self) -> (r: u32)
        ensures
            r == self@.1,
    {
        self.length
    }
}

/// A boot system file.
#[derive(Clone, Debug, PartialEq, Eq)]
pub struct BootSystemFile {
    header: BootOSBootBlockHeader,
    data_info: Vec<BootOSDataInfo>,
}

/// The contents of a boot system file.
pub struct BootSystemFileModel {
    pub header: HeaderFields,
    pub data_info: Seq<(u32, u32)>,
}

impl View for BootSystemFile {
    type V = BootSystemFileModel;

    closed spec fn view(&self) -> BootSystemFileModel {
        BootSystemFileModel {
            header: self.header@,
            data_info: self.data_info@.map_values(|d: BootOSDataInfo| d@),
        }
    }
}

/// The bytes of the data blocks `d`, each an address then a length.
pub open spec fn encode_data_infos(d: Seq<(u32, u32)>) -> Seq<u8>
    decreases d.len(),
{
    if d.len() == 0 {
        Seq::empty()
    } else {
        encode_data_infos(d.drop_last()) + be_u32(d.last().0) + be_u32(d.last().1)
    }
}

/// The number of data blocks a file announces for `n` blocks.
pub open spec fn announced_count(n: nat) -> u32 {
    if n <= 131_068 {
        n as u32
    } else {
        131_068
    }
}

/// The bytes of a boot system file: the magic number, the number of data
/// blocks (at most 131068), the four header fields, eight bytes of padding,
/// and that many data blocks.
pub open spec fn encode_bsf(m: BootSystemFileModel) -> Seq<u8> {
    let n = announced_count(m.data_info.len());
    be_u32(BOOTOS_BOOT_BLOCK_MAGIC) + be_u32(n) + be_u32(m.header.platform_info_physical_address)
        + be_u32(m.header.package_info_physical_address) + be_u32(m.header.boot1_flags) + be_u32(
        m.header.sticky_register_bits,
    ) + be_u32(0) + be_u32(0) + encode_data_infos(m.data_info.take(n as int))
}

/// The size a file announcing `count` data blocks must have.
pub open spec fn expected_size(count: u32) -> int {
    32 + 8 * count
}

/// `n`, or `usize::MAX` when `n` does not fit a `usize`.
pub open spec fn saturated_size(n: int) -> int {
    if n <= usize::MAX {
        n
    } else {
        usize::MAX as int
    }
}

/// The contents of a well-formed boot system file `s`.
pub open spec fn decode_bsf(s: Seq<u8>) -> BootSystemFileModel {
    BootSystemFileModel {
        header: HeaderFields {
            platform_info_physical_address: u32_at(s, 8),
            package_info_physical_address: u32_at(s, 12),
            boot1_flags: u32_at(s, 16),
            sticky_register_bits: u32_at(s, 20),
        },
        data_info: Seq::new(
            u32_at(s, 4) as nat,
            |i: int| (u32_at(s, 32 + 8 * i), u32_at(s, 36 + 8 * i)),
        ),
    }
}

/// What parsing the bytes `s` of a boot system file gives.
pub open spec fn bsf_parsed(r: Result<BootSystemFileModel, FSError>, s: Seq<u8>) -> bool {
    &&& s.len() < 32 ==> (r matches Err(FSError::TooSmall(a, b)) && a == 32 && b == s.len())
    &&& s.len() > MAX_FILE_SIZE ==> (r matches Err(FSError::TooLarge(a, b)) && a == MAX_FILE_SIZE
        && b == s.len())
    &&& 32 <= s.len() <= MAX_FILE_SIZE && u32_at(s, 0) != BOOTOS_BOOT_BLOCK_MAGIC ==> r == Err::<
        BootSystemFileModel,
        FSError,
    >(FSError::InvalidFileMagic(BOOTOS_BOOT_BLOCK_MAGIC, u32_at(s, 0)))
    &&& 32 <= s.len() <= MAX_FILE_SIZE && u32_at(s, 0) == BOOTOS_BOOT_BLOCK_MAGIC && s.len()
        != expected_size(u32_at(s, 4)) ==> (r matches Err(FSError::InvalidFileSize(a, b)) && a
        == saturated_size(expected_size(u32_at(s, 4))) && b == s.len())
    &&& 32 <= s.len() <= MAX_FILE_SIZE && u32_at(s, 0) == BOOTOS_BOOT_BLOCK_MAGIC && s.len()
        == expected_size(u32_at(s, 4)) ==> r == Ok::<BootSystemFileModel, FSError>(decode_bsf(s))
}

impl BootSystemFile {
    pub fn header(&self) -> (r: &BootOSBootBlockHeader)
        ensures
            r@ == self@.header,
    {
        &self.header
    }

    pub fn data_info(&self) -> (r: &Vec<BootOSDataInfo>)
        ensures
            r@.map_values(|d: BootOSDataInfo| d@) == self@.data_info,
    {
        &self.data_info
    }

    /// The bytes of the file; only the first 131068 data blocks are
    /// written.
    pub fn to_bytes(&self) -> (r: Vec<u8>)
        ensures
            r@ == encode_bsf(self@),
    {
        let ghost m = self@;
        let mut out: Vec<u8> = Vec::new();
        put_u32(&mut out, BOOTOS_BOOT_BLOCK_MAGIC);
        let actual_len: u32 = if self.data_info.len() <= MAX_DATA_INFOS as usize {
            self.data_info.len() as u32
        } else {
            MAX_DATA_INFOS
        };
        put_u32(&mut out, actual_len);
        put_u32(&mut out, self.header.platform_info_physical_address);
        put_u32(&mut out, self.header.package_info_physical_address);
        put_u32(&mut out, self.header.boot1_flags);
        put_u32(&mut out, self.header.sticky_register_bits);
        put_u32(&mut out, 0);
        put_u32(&mut out, 0);
        let ghost prefix = out@;
        let mut idx: usize = 0;
        while idx < actual_len as usize
            invariant
                actual_len as int <= self.data_info@.len(),
                actual_len == announced_count(m.data_info.len()),
                m == self@,
                idx <= actual_len,
                out@ == prefix + encode_data_infos(m.data_info.take(idx as int)),
            decreases actual_len - idx,
        {
            let d = &self.data_info[idx];
            put_u32(&mut out, d.address);
            put_u32(&mut out, d.length);
            proof {
                let t = m.data_info.take(idx + 1);
                assert(t.drop_last() =~= m.data_info.take(idx as int));
                assert(t.last() == d@);
            }
            idx = idx + 1;
        }
        out
    }

    /// Parse a boot system file: between 32 and 1048576 bytes, starting
    /// with the magic number, and exactly as long as its number of data
    /// blocks announces.
    pub fn try_from_bytes(value: &[u8]) -> (r: Result<Self, FSError>)
        ensures
            bsf_parsed(
                match r {
                    Ok(f) => Ok(f@),
                    Err(e) => Err(e),
                },
                value@,
            ),
    {
        if value.len() < MIN_FILE_SIZE {
            return Err(FSError::TooSmall(MIN_FILE_SIZE, value.len()));
        }
        if value.len() > MAX_FILE_SIZE {
            return Err(FSError::TooLarge(MAX_FILE_SIZE, value.len()));
        }
        let actual_magic = read_u32(value, 0);
        if actual_magic != BOOTOS_BOOT_BLOCK_MAGIC {
            return Err(FSError::InvalidFileMagic(BOOTOS_BOOT_BLOCK_MAGIC, actual_magic));
        }
        let data_info_count = read_u32(value, 4);
        let expected: u64 = 32 + (data_info_count as u64) * 8;
        if value.len() as u64 != expected {
            let expected_file_size: usize = if expected <= usize::MAX as u64 {
                expected as usize
            } else {
                usize::MAX
            };
            return Err(FSError::InvalidFileSize(expected_file_size, value.len()));
        }
        let platform_info_addr = read_u32(value, 8);
        let package_info_addr = read_u32(value, 12);
        let boot1_flags = read_u32(value, 16);
        let sticky_register_bits = read_u32(value, 20);
        let ghost target = decode_bsf(value@).data_info;
        let mut data_infos: Vec<BootOSDataInfo> = Vec::new();
        let mut i: u32 = 0;
        let mut index: usize = 32;
        while i < data_info_count
            invariant
                value@.len() == 32 + 8 * data_info_count,
                value@.len() <= MAX_FILE_SIZE,
                data_info_count == u32_at(value@, 4),
                target == decode_bsf(value@).data_info,
                i <= data_info_count,
                index == 32 + 8 * i,
                data_infos@.map_values(|d: BootOSDataInfo| d@) =~= target.take(i as int),
            decreases data_info_count - i,
        {
            let address = read_u32(value, index);
            let length = read_u32(value, index + 4);
            data_infos.push(BootOSDataInfo { address, length });
            proof {
                assert(target[i as int] == (address, length));
                assert(target.take(i + 1) =~= target.take(i as int).push((address, length)));
            }
            i = i + 1;
            index = index + 8;
        }
        assert(target.take(data_info_count as int) =~= target);
        Ok(
            Self {
                header: BootOSBootBlockHeader {
                    platform_info_physical_address: platform_info_addr,
                    package_info_physical_address: package_info_addr,
                    boot1_flags,
                    sticky_register_bits,
                },
                data_info: data_infos,
            },
        )
    }
}

impl Default for BootSystemFile {
    /// The default boot system file: platform information at `0x20008000`,
    /// package information at `0x20008800`, boot flags `0x80000000`, no
    /// sticky bits and no data blocks.
    fn default() -> (r: Self)
        ensures
            r@.header == (HeaderFields {
                platform_info_physical_address: 0x2000_8000,
                package_info_physical_address: 0x2000_8800,
                boot1_flags: 0x8000_0000,
                sticky_register_bits: 0,
            }),
            r@.data_info.len() == 0,
    {
        let r = Self {
            header: BootOSBootBlockHeader {
                platform_info_physical_address: 0x2000_8000,
                package_info_physical_address: 0x2000_8800,
                boot1_flags: 0x8000_0000,
                sticky_register_bits: 0,
            },
            data_info: Vec::new(),
        };
        assert(r@.data_info =~= Seq::<(u32, u32)>::empty());
        r
    }

}

/// A word inside the first part of a concatenation reads the same.
proof fn lemma_u32_at_prefix(e0: Seq<u8>, x: Seq<u8>, k: int)
    requires
        0 <= k,
        k + 4 <= e0.len(),
    ensures
        u32_at(e0 + x, k) == u32_at(e0, k),
{
    assert((e0 + x).subrange(k, k + 4) =~= e0.subrange(k, k + 4));
}

/// A word inside the second part of a concatenation reads as it does there.
proof fn lemma_u32_at_suffix(e0: Seq<u8>, x: Seq<u8>, k: int)
    requires
        0 <= k,
        k + 4 <= x.len(),
    ensures
        u32_at(e0 + x, e0.len() + k) == u32_at(x, k),
{
    assert((e0 + x).subrange(e0.len() + k, e0.len() + k + 4) =~= x.subrange(k, k + 4));
}

/// The data blocks are eight bytes each, and read back as themselves.
proof fn lemma_data_infos(d: Seq<(u32, u32)>, prefix: Seq<u8>)
    ensures
        encode_data_infos(d).len() == 8 * d.len(),
        forall|i: int|
            #![trigger d[i]]
            0 <= i < d.len() ==> u32_at(prefix + encode_data_infos(d), prefix.len() + 8 * i) == d[i].0
                && u32_at(prefix + encode_data_infos(d), prefix.len() + 8 * i + 4) == d[i].1,
    decreases d.len(),
{
    if d.len() > 0 {
        let init = d.drop_last();
        lemma_data_infos(init, prefix);
        let e = prefix + encode_data_infos(d);
        let e0 = prefix + encode_data_infos(init);
        let a = d.last().0;
        let b = d.last().1;
        let x = be_u32(a) + be_u32(b);
        lemma_be_u32_roundtrip(a);
        lemma_be_u32_roundtrip(b);
        assert(e =~= e0 + x);
        assert(u32_at(x, 0) == a) by {
            assert(x.subrange(0, 4) =~= be_u32(a));
        }
        assert(u32_at(x, 4) == b) by {
            assert(x.subrange(4, 8) =~= be_u32(b));
        }
        assert forall|i: int| #![trigger d[i]] 0 <= i < d.len() implies u32_at(
            e,
            prefix.len() + 8 * i,
        ) == d[i].0 && u32_at(e, prefix.len() + 8 * i + 4) == d[i].1 by {
            if i < init.len() {
                assert(8 * i + 8 <= 8 * init.len()) by (nonlinear_arith)
                    requires
                        i < init.len(),
                ;
                assert(init[i] == d[i]);
                lemma_u32_at_prefix(e0, x, prefix.len() + 8 * i);
                lemma_u32_at_prefix(e0, x, prefix.len() + 8 * i + 4);
            } else {
                assert(i == init.len());
                lemma_u32_at_suffix(e0, x, 0);
                lemma_u32_at_suffix(e0, x, 4);
            }
        }
    }
}

/// Parsing the bytes written for a boot system file gives the file back,
/// with its data blocks cut to the first 131068: the bytes are a well-formed
/// file (between 32 and 1048576 bytes, with the magic number and the size
/// they announce) whose contents are those of the file.
pub proof fn lemma_bsf_roundtrip(m: BootSystemFileModel)
    ensures
        32 <= encode_bsf(m).len() <= MAX_FILE_SIZE,
        u32_at(encode_bsf(m), 0) == BOOTOS_BOOT_BLOCK_MAGIC,
        encode_bsf(m).len() == expected_size(u32_at(encode_bsf(m), 4)),
        decode_bsf(encode_bsf(m)) == (BootSystemFileModel {
            header: m.header,
            data_info: m.data_info.take(announced_count(m.data_info.len()) as int),
        }),
{
    let n = announced_count(m.data_info.len());
    let d = m.data_info.take(n as int);
    let h = be_u32(BOOTOS_BOOT_BLOCK_MAGIC) + be_u32(n) + be_u32(
        m.header.platform_info_physical_address,
    ) + be_u32(m.header.package_info_physical_address) + be_u32(m.header.boot1_flags) + be_u32(
        m.header.sticky_register_bits,
    ) + be_u32(0) + be_u32(0);
    let s = encode_bsf(m);
    assert(s == h + encode_data_infos(d));
    lemma_data_infos(d, h);
    lemma_be_u32_roundtrip(BOOTOS_BOOT_BLOCK_MAGIC);
    lemma_be_u32_roundtrip(n);
    lemma_be_u32_roundtrip(m.header.platform_info_physical_address);
    lemma_be_u32_roundtrip(m.header.package_info_physical_address);
    lemma_be_u32_roundtrip(m.header.boot1_flags);
    lemma_be_u32_roundtrip(m.header.sticky_register_bits);
    assert(s.subrange(0, 4) =~= be_u32(BOOTOS_BOOT_BLOCK_MAGIC));
    assert(s.subrange(4, 8) =~= be_u32(n));
    assert(s.subrange(8, 12) =~= be_u32(m.header.platform_info_physical_address));
    assert(s.subrange(12, 16) =~= be_u32(m.header.package_info_physical_address));
    assert(s.subrange(16, 20) =~= be_u32(m.header.boot1_flags));
    assert(s.subrange(20, 24) =~= be_u32(m.header.sticky_register_bits));
    assert(decode_bsf(s).data_info =~= d);
}

} // verus!
