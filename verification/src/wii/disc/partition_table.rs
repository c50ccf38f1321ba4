//! The table of the partitions of a disc.

use crate::endian::{get_u32, put_u32, u32_bytes, u32_of, Endian};
use crate::wii::error::{WiiError, WiiResult};
use vstd::prelude::*;

verus! {

/// What a partition is for.
#[derive(Debug, PartialEq, Eq, Clone, Copy, Structural)]
pub enum PartitionType {
    Data,
    Update,
    ChannelInstaller,
    Other(u32),
}

/// The kind of partition that a number stands for.
pub open spec fn partition_type_of(value: u32) -> PartitionType {
    if value == 0 {
        PartitionType::Data
    } else if value == 1 {
        PartitionType::Update
    } else if value == 2 {
        PartitionType::ChannelInstaller
    } else {
        PartitionType::Other(value)
    }
}

/// The number that stands for a kind of partition.
pub open spec fn partition_type_number(ty: PartitionType) -> u32 {
    match ty {
        PartitionType::Data => 0,
        PartitionType::Update => 1,
        PartitionType::ChannelInstaller => 2,
        PartitionType::Other(x) => x,
    }
}

impl From<u32> for PartitionType {
    fn from(value: u32) -> (r: Self) {
        match value {
            0 => PartitionType::Data,
            1 => PartitionType::Update,
            2 => PartitionType::ChannelInstaller,
            x => PartitionType::Other(x),
        }
    }
}

impl vstd::std_specs::convert::FromSpecImpl<u32> for PartitionType {
    open spec fn obeys_from_spec() -> bool {
        true
    }

    open spec fn from_spec(value: u32) -> Self {
        partition_type_of(value)
    }
}

impl From<PartitionType> for u32 {
    fn from(val: PartitionType) -> (r: Self) {
        match val {
            PartitionType::Data => 0,
            PartitionType::Update => 1,
            PartitionType::ChannelInstaller => 2,
            PartitionType::Other(x) => x,
        }
    }
}

impl vstd::std_specs::convert::FromSpecImpl<PartitionType> for u32 {
    open spec fn obeys_from_spec() -> bool {
        true
    }

    open spec fn from_spec(val: PartitionType) -> Self {
        partition_type_number(val)
    }
}

/// One partition: where it starts on the disc, and what it is for.
#[derive(Debug, PartialEq, Eq, Clone, Copy, Structural)]
pub struct PartitionTableEntry {
    pub offset: u32,
    pub ty: PartitionType,
}

/// A stored offset counts words of four bytes: the offset in bytes is four
/// times the stored value, as far as 32 bits hold it.
pub open spec fn shifted(x: int) -> u32 {
    ((x * 4) % 0x1_0000_0000) as u32
}

/// The entry that the eight bytes at `pos` hold.
pub open spec fn partition_entry_at(b: Seq<u8>, pos: int) -> WiiResult<PartitionTableEntry> {
    if pos < 0 || pos + 8 > b.len() {
        Err(WiiError::BadOffset)
    } else {
        Ok(
            PartitionTableEntry {
                offset: shifted(u32_of(Endian::Big, b.subrange(pos, pos + 4))),
                ty: partition_type_of(u32_of(Endian::Big, b.subrange(pos + 4, pos + 8)) as u32),
            },
        )
    }
}

/// The eight bytes of an entry.
pub open spec fn partition_entry_bytes(e: PartitionTableEntry) -> Seq<u8> {
    u32_bytes(Endian::Big, e.offset / 4) + u32_bytes(Endian::Big, partition_type_number(e.ty))
}

/// The entries of one of the four groups: `count` entries from `pos` on.
pub open spec fn partition_group(b: Seq<u8>, pos: int, count: int) -> WiiResult<Seq<PartitionTableEntry>>
    decreases count,
{
    if count <= 0 {
        Ok(Seq::empty())
    } else {
        match partition_group(b, pos, count - 1) {
            Err(e) => Err(e),
            Ok(s) => match partition_entry_at(b, pos + 8 * (count - 1)) {
                Err(e) => Err(e),
                Ok(x) => Ok(s.push(x)),
            },
        }
    }
}

/// The entries of the first `k` groups, whose counts and offsets stand at
/// 0x40000.
pub open spec fn partition_groups(b: Seq<u8>, k: int) -> WiiResult<Seq<PartitionTableEntry>>
    decreases k,
{
    if k <= 0 {
        Ok(Seq::empty())
    } else {
        match partition_groups(b, k - 1) {
            Err(e) => Err(e),
            Ok(s) => {
                let at = 0x40000 + 8 * (k - 1);
                let count = u32_of(Endian::Big, b.subrange(at, at + 4));
                let offset = shifted(u32_of(Endian::Big, b.subrange(at + 4, at + 8)));
                match partition_group(b, offset as int, count) {
                    Err(e) => Err(e),
                    Ok(g) => Ok(s + g),
                }
            },
        }
    }
}

/// The partition table of a disc image.
pub open spec fn partition_table_of(b: Seq<u8>) -> WiiResult<Seq<PartitionTableEntry>> {
    if b.len() < 0x40000 + 32 {
        Err(WiiError::BadOffset)
    } else {
        partition_groups(b, 4)
    }
}

/// Four times `x`, as far as 32 bits hold it.
fn shift_two(x: u32) -> (r: u32)
    ensures
        r == shifted(x as int),
{
    (((x as u64) * 4) % 0x1_0000_0000) as u32
}

impl PartitionTableEntry {
    /// Reads the entry at `pos`.
    pub fn read(buffer: &[u8], pos: usize) -> (r: WiiResult<PartitionTableEntry>)
        ensures
            r == partition_entry_at(buffer@, pos as int),
    {
        if pos > buffer.len() || buffer.len() - pos < 8 {
            return Err(WiiError::BadOffset);
        }
        let offset: u32 = shift_two(get_u32(Endian::Big, buffer, pos));
        let ty: PartitionType = PartitionType::from(get_u32(Endian::Big, buffer, pos + 4));
        Ok(PartitionTableEntry { offset, ty })
    }

    /// Appends the entry's eight bytes.
    pub fn save(&self, out: &mut Vec<u8>)
        ensures
            final(out)@ == old(out)@ + partition_entry_bytes(*self),
    {
        put_u32(Endian::Big, out, self.offset / 4);
        put_u32(Endian::Big, out, u32::from(self.ty));
        assert(out@ =~= old(out)@ + partition_entry_bytes(*self));
    }
}

/// Reads the `count` entries from `offset` on and appends them to `out`.
fn read_group(buffer: &[u8], offset: u32, count: u32, out: &mut Vec<PartitionTableEntry>) -> (r:
    WiiResult<()>)
    ensures
        match r {
            Ok(_) => partition_group(buffer@, offset as int, count as int).is_ok() && final(out)@
                == old(out)@ + partition_group(buffer@, offset as int, count as int).unwrap(),
            Err(e) => partition_group(buffer@, offset as int, count as int) == Err::<
                Seq<PartitionTableEntry>,
                WiiError,
            >(e),
        },
{
    let len: usize = buffer.len();
    let ghost mut g: Seq<PartitionTableEntry> = Seq::empty();
    let mut i: u32 = 0;
    assert(out@ =~= old(out)@ + g);
    while i < count
        invariant
            i <= count,
            len == buffer@.len(),
            partition_group(buffer@, offset as int, i as int) == Ok::<
                Seq<PartitionTableEntry>,
                WiiError,
            >(g),
            out@ == old(out)@ + g,
        decreases count - i,
    {
        let pos: u64 = offset as u64 + 8 * (i as u64);
        if pos > len as u64 {
            proof {
                lemma_group_fails(buffer@, offset as int, i + 1, count as int);
            }
            return Err(WiiError::BadOffset);
        }
        match PartitionTableEntry::read(buffer, pos as usize) {
            Ok(e) => {
                out.push(e);
                proof {
                    g = g.push(e);
                    assert(out@ =~= old(out)@ + g);
                }
            },
            Err(e) => {
                proof {
                    lemma_group_fails(buffer@, offset as int, i + 1, count as int);
                }
                return Err(e);
            },
        }
        i += 1;
    }
    Ok(())
}

/// Reads the partition table of a disc image: the entries of its four
/// groups, one group after another.
pub fn read_partition_table(buffer: &[u8]) -> (r: WiiResult<Vec<PartitionTableEntry>>)
    ensures
        match r {
            Ok(v) => partition_table_of(buffer@) == Ok::<Seq<PartitionTableEntry>, WiiError>(v@),
            Err(e) => partition_table_of(buffer@) == Err::<Seq<PartitionTableEntry>, WiiError>(e),
        },
{
    if buffer.len() < 0x40000 + 32 {
        return Err(WiiError::BadOffset);
    }
    let mut result: Vec<PartitionTableEntry> = Vec::new();
    let mut k: usize = 0;
    while k < 4
        invariant
            k <= 4,
            buffer@.len() >= 0x40000 + 32,
            partition_groups(buffer@, k as int) == Ok::<Seq<PartitionTableEntry>, WiiError>(result@),
        decreases 4 - k,
    {
        let at: usize = 0x40000 + 8 * k;
        let count: u32 = get_u32(Endian::Big, buffer, at);
        let offset: u32 = shift_two(get_u32(Endian::Big, buffer, at + 4));
        match read_group(buffer, offset, count, &mut result) {
            Ok(_) => {},
            Err(e) => {
                proof {
                    lemma_groups_fail(buffer@, k + 1, e);
                }
                return Err(e);
            },
        }
        k += 1;
    }
    Ok(result)
}

/// Where one of the groups cannot be read, the table cannot be read.
proof fn lemma_groups_fail(b: Seq<u8>, k: int, e: WiiError)
    requires
        0 < k <= 4,
        partition_groups(b, k) == Err::<Seq<PartitionTableEntry>, WiiError>(e),
    ensures
        partition_groups(b, 4) == Err::<Seq<PartitionTableEntry>, WiiError>(e),
    decreases 4 - k,
{
    if k < 4 {
        lemma_groups_fail(b, k + 1, e);
    }
}

/// A group whose first `i` entries cannot be read cannot be read.
proof fn lemma_group_fails(b: Seq<u8>, pos: int, i: int, count: int)
    requires
        0 < i <= count,
        partition_group(b, pos, i).is_err(),
        partition_group(b, pos, i) == Err::<Seq<PartitionTableEntry>, WiiError>(WiiError::BadOffset),
    ensures
        partition_group(b, pos, count) == Err::<Seq<PartitionTableEntry>, WiiError>(
            WiiError::BadOffset,
        ),
    decreases count - i,
{
    if i < count {
        lemma_group_fails(b, pos, i, count - 1);
    }
}

} // verus!
