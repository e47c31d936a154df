//! The master boot record of a disk, and the primary partitions that it lists.
use vstd::prelude::*;
use crate::error::EPubError;
use crate::io::{InputFile, le_u16, le_u32, read_le_u16, read_le_u32, BLOCK_SIZE};

verus! {

/// The offset of the first entry of the partition table in the boot sector.
pub const PARTITION_TABLE_START: usize = 446;

/// The number of bytes of one entry of the partition table.
pub const PARTITION_INFO_LENGTH: usize = 16;

/// The number of entries of the partition table.
pub const PARTITION_COUNT: usize = 4;

/// The offset of the two bytes that end the boot sector.
pub const FOOTER_START: usize = 510;

/// The value of the two bytes that end a boot sector.
pub const FOOTER_VALUE: u16 = 0xAA55;

/// The offset in an entry of the byte that says whether the partition boots.
pub const PARTITION_INFO_STATUS_INDEX: usize = 0;

/// The offset in an entry of the type of the partition.
pub const PARTITION_INFO_TYPE_INDEX: usize = 4;

/// The offset in an entry of the first block of the partition.
pub const PARTITION_INFO_LBA_START_INDEX: usize = 8;

/// The offset in an entry of the number of blocks of the partition.
pub const PARTITION_INFO_NUM_BLOCKS_INDEX: usize = 12;

/// One block of a disk.
pub struct Block {
    /// the bytes in the block
    pub contents: [u8; 512],
}

impl Block {
    /// The number of bytes in a block.
    pub const LEN: usize = 512;

    /// The number of bytes in a block, as a `u32`.
    pub const LEN_U32: u32 = 512;

    /// A block of zeros.
    pub fn new() -> (block: Block)
        ensures
            forall|i: int| 0 <= i < 512 ==> block.contents[i] == 0,
    {
        Block { contents: [0u8; 512] }
    }
}

/// A `VolumeIdx` is a number which identifies a volume (or partition) on a
/// disk. `VolumeIdx(0)` is the first primary partition on an MBR partitioned
/// disk.
#[derive(Debug, PartialEq, Eq, Copy, Clone)]
pub struct VolumeIdx(pub usize);

/// The linear numeric address of a block (or sector). The first block on a
/// disk gets `BlockIdx(0)` (which usually contains the Master Boot Record).
#[derive(Debug, Copy, Clone, PartialEq, Eq, PartialOrd, Ord)]
pub struct BlockIdx(pub u32);

/// A number of blocks (or sectors). Add this to a `BlockIdx` to get an
/// actual address on disk.
#[derive(Debug, Copy, Clone, PartialEq, Eq, PartialOrd, Ord)]
pub struct BlockCount(pub u32);

impl BlockIdx {
    /// The offset in bytes of the block from the start of the disk.
    pub fn into_bytes(self) -> (bytes: u64)
        ensures
            bytes == self.0 * 512,
    {
        (self.0 as u64) * (Block::LEN as u64)
    }

    /// The block that lies `count` blocks behind this one, where the disk
    /// addresses go that far.
    pub fn checked_add(self, count: BlockCount) -> (r: Option<BlockIdx>)
        ensures
            r is Some <==> self.0 + count.0 <= u32::MAX,
            r matches Some(idx) ==> idx.0 == self.0 + count.0,
    {
        match self.0.checked_add(count.0) {
            Some(idx) => Some(BlockIdx(idx)),
            None => None,
        }
    }
}

impl core::ops::Add<BlockCount> for BlockIdx {
    type Output = BlockIdx;

    /// The block that lies `rhs` blocks behind this one.
    fn add(self, rhs: BlockCount) -> (sum: BlockIdx) {
        BlockIdx(self.0 + rhs.0)
    }
}

impl vstd::std_specs::ops::AddSpecImpl<BlockCount> for BlockIdx {
    open spec fn obeys_add_spec() -> bool {
        true
    }

    open spec fn add_req(self, rhs: BlockCount) -> bool {
        self.0 + rhs.0 <= u32::MAX
    }

    open spec fn add_spec(self, rhs: BlockCount) -> BlockIdx {
        BlockIdx((self.0 + rhs.0) as u32)
    }
}

/// One entry of the partition table.
#[derive(Debug, Copy, Clone, PartialEq, Eq)]
pub struct Partition {
    pub part_type: u8,
    pub lba_start: BlockIdx,
    pub num_blocks: BlockCount,
}

/// Why a boot sector does not give a partition.
pub enum PartitionFault {
    /// The sector does not end in the footer of a master boot record.
    BadFooter,
    /// The index is not one of the four primary partitions.
    NoSuchVolume,
    /// The status of the entry is neither bootable nor not bootable.
    BadStatus,
}

/// The boot sector at the start of `bytes`: their first 512 bytes, with
/// zeros where the bytes end before that.
pub open spec fn boot_sector(bytes: Seq<u8>) -> Seq<u8> {
    Seq::new(
        BLOCK_SIZE as nat,
        |i: int|
            if i < bytes.len() {
                bytes[i]
            } else {
                0u8
            },
    )
}

/// The partition that the boot sector `sector` lists at `idx`.
///
/// The footer is looked at first, then the index, then the entry's status,
/// of which only `0x00` and `0x80` are valid.
pub open spec fn partition_entry(sector: Seq<u8>, idx: nat) -> Result<Partition, PartitionFault>
    recommends
        sector.len() == BLOCK_SIZE,
{
    let start = PARTITION_TABLE_START + PARTITION_INFO_LENGTH * idx;
    if le_u16(sector.skip(FOOTER_START as int)) != FOOTER_VALUE {
        Err(PartitionFault::BadFooter)
    } else if idx >= PARTITION_COUNT {
        Err(PartitionFault::NoSuchVolume)
    } else if sector[start + PARTITION_INFO_STATUS_INDEX] & 0x7F != 0 {
        Err(PartitionFault::BadStatus)
    } else {
        Ok(
            Partition {
                part_type: sector[start + PARTITION_INFO_TYPE_INDEX],
                lba_start: BlockIdx(le_u32(sector.skip(start + PARTITION_INFO_LBA_START_INDEX))),
                num_blocks: BlockCount(
                    le_u32(sector.skip(start + PARTITION_INFO_NUM_BLOCKS_INDEX)),
                ),
            },
        )
    }
}

/// Whether `e` is the error that reports `fault`.
pub open spec fn reports_partition_fault(e: EPubError, fault: PartitionFault) -> bool {
    match fault {
        PartitionFault::BadFooter => e is FormatError,
        PartitionFault::NoSuchVolume => e == EPubError::NoSuchVolume,
        PartitionFault::BadStatus => e is FormatError,
    }
}

/// Get a volume (or partition) based on entries in the Master Boot Record.
///
/// GUID Partition Table disks are not supported, nor any concept of drive
/// letters: that is for a higher layer to handle.
///
/// One block is read from `file`. Where the read fails, that is the
/// error; else the result is that of [`partition_entry`] on the block.
pub fn get_partition(file: &mut InputFile, volume_idx: VolumeIdx) -> (r: Result<
    Partition,
    EPubError,
>)
    requires
        old(file).wf(),
    ensures
        final(file).wf(),
        final(file).faulty() == old(file).faulty(),
        old(file).faulty() && old(file).remaining().len() == 0 ==> r == Err::<
            Partition,
            EPubError,
        >(EPubError::IO) && final(file).remaining() == old(file).remaining(),
        !(old(file).faulty() && old(file).remaining().len() == 0) ==> {
            &&& final(file).remaining() == old(file).remaining().skip(
                vstd::math::min(BLOCK_SIZE as int, old(file).remaining().len() as int),
            )
            &&& match partition_entry(boot_sector(old(file).remaining()), volume_idx.0 as nat) {
                Ok(partition) => r == Ok::<Partition, EPubError>(partition),
                Err(fault) => r matches Err(e) && reports_partition_fault(e, fault),
            }
        },
{
    let mut block: Vec<u8> = vec![0u8; 512];
    let _ = file.read(&mut block)?;
    proof {
        assert(block@ =~= boot_sector(old(file).remaining()));
    }
    let footer = vstd::slice::slice_subrange(block.as_slice(), FOOTER_START, FOOTER_START + 2);
    // only Master Boot Record (MBR) partitioned disks are supported, not
    // GUID Partition Table (GPT)
    if read_le_u16(footer) != FOOTER_VALUE {
        proof {
            assert(footer@ =~= block@.skip(FOOTER_START as int));
        }
        return Err(EPubError::FormatError("Invalid MBR signature"));
    }
    proof {
        assert(footer@ =~= block@.skip(FOOTER_START as int));
    }
    if volume_idx.0 >= PARTITION_COUNT {
        return Err(EPubError::NoSuchVolume);
    }
    let start: usize = PARTITION_TABLE_START + PARTITION_INFO_LENGTH * volume_idx.0;
    let partition = vstd::slice::slice_subrange(
        block.as_slice(),
        start,
        start + PARTITION_INFO_LENGTH,
    );
    // only 0x80 and 0x00 are valid (bootable, and non-bootable)
    if (partition[PARTITION_INFO_STATUS_INDEX] & 0x7F) != 0x00 {
        return Err(EPubError::FormatError("Invalid partition status"));
    }
    let lba_start: u32 = read_le_u32(
        vstd::slice::slice_subrange(
            partition,
            PARTITION_INFO_LBA_START_INDEX,
            PARTITION_INFO_LBA_START_INDEX + 4,
        ),
    );
    let num_blocks: u32 = read_le_u32(
        vstd::slice::slice_subrange(
            partition,
            PARTITION_INFO_NUM_BLOCKS_INDEX,
            PARTITION_INFO_NUM_BLOCKS_INDEX + 4,
        ),
    );
    proof {
        let sector = block@;
        assert(le_u32(partition@.subrange(8, 12)) == le_u32(sector.skip(start + 8)));
        assert(le_u32(partition@.subrange(12, 16)) == le_u32(sector.skip(start + 12)));
    }
    Ok(
        Partition {
            part_type: partition[PARTITION_INFO_TYPE_INDEX],
            lba_start: BlockIdx(lba_start),
            num_blocks: BlockCount(num_blocks),
        },
    )
}

} // verus!
