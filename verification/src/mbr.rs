//! The four partition entries of a DOS/MBR boot sector.

use vstd::prelude::*;

use crate::errors::MbrError;
use crate::le::{le_u32, read_u32};
use crate::{views, Attributes, AttributesView, Partition, PartitionView};

verus! {

/// The size of the boot sector, and of the sectors that its entries count in.
pub const SECTOR_SIZE: usize = 512;

/// Where in the boot sector the entry of slot `slot` starts.
pub open spec fn entry_offset(slot: int) -> int {
    446 + 16 * slot
}

/// The status byte of a slot.
pub open spec fn status(sector: Seq<u8>, slot: int) -> u8 {
    sector[entry_offset(slot)]
}

/// The type code of a slot; zero marks the slot as empty.
pub open spec fn type_code(sector: Seq<u8>, slot: int) -> u8 {
    sector[entry_offset(slot) + 4]
}

/// A status byte says either "bootable" or "not bootable".
pub open spec fn status_is_valid(status: u8) -> bool {
    status == 0x00 || status == 0x80
}

/// The partition that a slot with a valid status and a type code describes.
pub open spec fn slot_partition(sector: Seq<u8>, slot: int) -> PartitionView {
    PartitionView {
        id: slot as nat,
        first_byte: (le_u32(sector.skip(entry_offset(slot) + 8)) * 512) as nat,
        len: (le_u32(sector.skip(entry_offset(slot) + 12)) * 512) as nat,
        attributes: AttributesView::MBR {
            bootable: status(sector, slot) == 0x80,
            type_code: type_code(sector, slot),
        },
    }
}

/// What the first `slots` slots of the boot sector decode to: the partitions
/// of the slots in use, in slot order, or the error of the first slot whose
/// status byte is invalid.
pub open spec fn partition_table(sector: Seq<u8>, slots: nat) -> Result<Seq<PartitionView>, MbrError>
    decreases slots,
{
    if slots == 0 {
        Ok(Seq::empty())
    } else {
        let slot = slots - 1;
        match partition_table(sector, slot as nat) {
            Err(e) => Err(e),
            Ok(before) => if !status_is_valid(status(sector, slot)) {
                Err(MbrError::InvalidStatusCode { entry_id: slot as usize, status: status(sector, slot) })
            } else if type_code(sector, slot) == 0 {
                Ok(before)
            } else {
                Ok(before.push(slot_partition(sector, slot)))
            },
        }
    }
}

/// Once a slot has failed, the slots behind it do not change the outcome.
pub proof fn lemma_error_stays(sector: Seq<u8>, failed: nat, slots: nat)
    requires
        failed <= slots,
        partition_table(sector, failed) is Err,
    ensures
        partition_table(sector, slots) == partition_table(sector, failed),
    decreases slots,
{
    if failed < slots {
        lemma_error_stays(sector, failed, (slots - 1) as nat);
    }
}

/// Read a DOS/MBR partition table from a 512-byte boot sector.
pub fn parse_partition_table(sector: &[u8; 512]) -> (table: Result<Vec<Partition>, MbrError>)
    ensures
        match table {
            Ok(partitions) => partition_table(sector@, 4) == Ok::<_, MbrError>(views(partitions@)),
            Err(e) => partition_table(sector@, 4) == Err::<Seq<PartitionView>, _>(e),
        },
{
    let mut partitions: Vec<Partition> = Vec::with_capacity(4);
    let mut entry_id: usize = 0;
    assert(views(partitions@) =~= Seq::empty());
    while entry_id < 4
        invariant
            entry_id <= 4,
            partition_table(sector@, entry_id as nat) == Ok::<_, MbrError>(views(partitions@)),
        decreases 4 - entry_id,
    {
        let entry_offset: usize = 446 + entry_id * 16;
        let status = sector[entry_offset];
        let bootable = if status == 0x00 {
            false
        } else if status == 0x80 {
            true
        } else {
            proof {
                lemma_error_stays(sector@, (entry_id + 1) as nat, 4);
            }
            return Err(MbrError::InvalidStatusCode { entry_id, status });
        };
        let type_code = sector[entry_offset + 4];
        if type_code != 0 {
            let entry = vstd::array::array_as_slice(sector);
            let first_lba = read_u32(vstd::slice::slice_subrange(entry, entry_offset + 8, 512));
            let sectors = read_u32(vstd::slice::slice_subrange(entry, entry_offset + 12, 512));
            let partition = Partition {
                id: entry_id,
                first_byte: first_lba as u64 * 512,
                len: sectors as u64 * 512,
                attributes: Attributes::MBR { type_code, bootable },
            };
            proof {
                let e = entry_offset as int;
                assert(sector@.subrange(e + 8, 512) =~= sector@.skip(e + 8));
                assert(sector@.subrange(e + 12, 512) =~= sector@.skip(e + 12));
                assert(partition@ == slot_partition(sector@, entry_id as int));
                assert(views(partitions@.push(partition)) =~= views(partitions@).push(partition@));
            }
            partitions.push(partition);
        }
        entry_id += 1;
    }
    Ok(partitions)
}

/// How many of the first `slots` slots are in use.
pub open spec fn slots_in_use(sector: Seq<u8>, slots: nat) -> nat
    decreases slots,
{
    if slots == 0 {
        0
    } else if type_code(sector, slots - 1) != 0 {
        slots_in_use(sector, (slots - 1) as nat) + 1
    } else {
        slots_in_use(sector, (slots - 1) as nat)
    }
}

/// Whether `partitions` holds, in slot order, the partition of each slot in
/// use among the first `slots`, numbered by its slot, and nothing else.
pub open spec fn lists_slots_in_use(
    sector: Seq<u8>,
    slots: nat,
    partitions: Seq<PartitionView>,
) -> bool {
    &&& partitions.len() == slots_in_use(sector, slots)
    &&& forall|j: int|
        #![trigger partitions[j]]
        0 <= j < partitions.len() ==> {
            &&& partitions[j].id < slots
            &&& type_code(sector, partitions[j].id as int) != 0
            &&& partitions[j] == slot_partition(sector, partitions[j].id as int)
            &&& partitions[j].wf()
        }
    &&& forall|j: int, k: int|
        #![trigger partitions[j], partitions[k]]
        0 <= j < k < partitions.len() ==> partitions[j].id < partitions[k].id
    &&& forall|slot: int|
        #![trigger type_code(sector, slot)]
        0 <= slot < slots && type_code(sector, slot) != 0 ==> exists|j: int|
            0 <= j < partitions.len() && #[trigger] partitions[j].id == slot
}

/// A boot sector whose first `slots` entries all have a valid status decodes
/// to exactly one partition for each of them that is in use, in slot order,
/// each with its slot as its id.
pub proof fn lemma_one_partition_per_slot_in_use(sector: Seq<u8>, slots: nat)
    requires
        sector.len() == 512,
        slots <= 4,
        forall|slot: int| 0 <= slot < slots ==> status_is_valid(#[trigger] status(sector, slot)),
    ensures
        partition_table(sector, slots) is Ok,
        lists_slots_in_use(sector, slots, partition_table(sector, slots)->Ok_0),
    decreases slots,
{
    if slots > 0 {
        let slot = (slots - 1) as nat;
        lemma_one_partition_per_slot_in_use(sector, slot);
        let before = partition_table(sector, slot)->Ok_0;
        let after = partition_table(sector, slots)->Ok_0;
        assert(status_is_valid(status(sector, slot as int)));
        if type_code(sector, slot as int) != 0 {
            let added = slot_partition(sector, slot as int);
            assert(after == before.push(added));
            assert(added == after[after.len() - 1]);
            assert forall|j: int| 0 <= j < after.len() implies {
                &&& (#[trigger] after[j]).id < slots
                &&& type_code(sector, after[j].id as int) != 0
                &&& after[j] == slot_partition(sector, after[j].id as int)
                &&& after[j].wf()
            } by {
                if j < before.len() {
                    assert(after[j] == before[j]);
                }
            }
            assert forall|j: int, k: int| 0 <= j < k < after.len() implies (#[trigger] after[j]).id
                < (#[trigger] after[k]).id by {
                assert(after[j] == before[j]);
                if k < before.len() {
                    assert(after[k] == before[k]);
                }
            }
            assert forall|s: int| 0 <= s < slots && #[trigger] type_code(sector, s) != 0 implies exists|
                j: int,
            |
                0 <= j < after.len() && #[trigger] after[j].id == s by {
                if s < slot {
                    let j = choose|j: int| 0 <= j < before.len() && #[trigger] before[j].id == s;
                    assert(after[j] == before[j]);
                } else {
                    assert(after[after.len() - 1].id == s);
                }
            }
        } else {
            assert(after == before);
            assert forall|s: int| 0 <= s < slots && #[trigger] type_code(sector, s) != 0 implies exists|
                j: int,
            |
                0 <= j < after.len() && #[trigger] after[j].id == s by {
                let j = choose|j: int| 0 <= j < before.len() && #[trigger] before[j].id == s;
                assert(after[j].id == s);
            }
        }
    }
}

/// A boot sector is accepted only if the status of each of its entries is
/// valid.
pub proof fn lemma_accepted_statuses_are_valid(sector: Seq<u8>, slots: nat)
    requires
        partition_table(sector, slots) is Ok,
    ensures
        forall|slot: int| 0 <= slot < slots ==> status_is_valid(#[trigger] status(sector, slot)),
    decreases slots,
{
    if slots > 0 {
        lemma_accepted_statuses_are_valid(sector, (slots - 1) as nat);
    }
}

} // verus!
