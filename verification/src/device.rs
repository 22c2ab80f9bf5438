//! Device identity: PCI-id and platform-name lookup tables.
//!
//! The trace's device-info event carries a PCI device id; the
//! `--gen` flag carries a three-letter platform short name. Both are
//! resolved against tables supplied by the caller (the tables
//! themselves come from the hardware database collaborator, which is
//! the sole source of truth for them). Lookup returns the first
//! matching entry, or nothing when the table does not know the key.

use vstd::prelude::*;

verus! {

/// What decode needs to know about the traced device.
#[derive(Debug, Clone, Copy, PartialEq, Eq, Structural)]
pub struct DeviceDescriptor {
    /// The PCI device id this descriptor belongs to.
    pub pci_id: i32,
    /// The hardware generation, which selects the decode tables.
    pub generation: u32,
}

/// One platform short name (as `--gen` accepts it) and the PCI id it
/// stands for.
#[derive(Debug, Clone)]
pub struct PlatformName {
    pub name: String,
    pub pci_id: i32,
}

/// The first descriptor in `s` whose PCI id is `pci_id`, if any.
pub open spec fn device_lookup(s: Seq<DeviceDescriptor>, pci_id: i32) -> Option<DeviceDescriptor>
    decreases s.len(),
{
    if s.len() == 0 {
        None
    } else if s[0].pci_id == pci_id {
        Some(s[0])
    } else {
        device_lookup(s.drop_first(), pci_id)
    }
}

/// The PCI id of the first entry in `s` named `name`, if any.
pub open spec fn name_lookup(s: Seq<PlatformName>, name: Seq<char>) -> Option<i32>
    decreases s.len(),
{
    if s.len() == 0 {
        None
    } else if s[0].name@ == name {
        Some(s[0].pci_id)
    } else {
        name_lookup(s.drop_first(), name)
    }
}

/// Find the descriptor for a PCI device id: `Some` exactly when the
/// table holds an entry with that id, and then the first such entry.
pub fn lookup_device(table: &Vec<DeviceDescriptor>, pci_id: i32) -> (r: Option<DeviceDescriptor>)
    ensures
        r == device_lookup(table@, pci_id),
{
    let mut i: usize = 0;
    proof {
        assert(table@.skip(0) =~= table@);
    }
    while i < table.len()
        invariant
            i <= table.len(),
            device_lookup(table@, pci_id) == device_lookup(table@.skip(i as int), pci_id),
        decreases table.len() - i,
    {
        proof {
            assert(table@.skip(i as int)[0] == table@[i as int]);
        }
        if table[i].pci_id == pci_id {
            return Some(table[i]);
        }
        proof {
            assert(table@.skip(i as int).drop_first() =~= table@.skip(i as int + 1));
        }
        i = i + 1;
    }
    proof {
        assert(table@.skip(i as int).len() == 0);
    }
    None
}

/// Find the PCI id for a platform short name: `Some` exactly when the
/// table holds an entry with that name, and then the first such entry.
pub fn pci_id_for_name(table: &Vec<PlatformName>, name: &String) -> (r: Option<i32>)
    ensures
        r == name_lookup(table@, name@),
{
    let mut i: usize = 0;
    proof {
        assert(table@.skip(0) =~= table@);
    }
    while i < table.len()
        invariant
            i <= table.len(),
            name_lookup(table@, name@) == name_lookup(table@.skip(i as int), name@),
        decreases table.len() - i,
    {
        proof {
            assert(table@.skip(i as int)[0] == table@[i as int]);
        }
        if table[i].name == *name {
            return Some(table[i].pci_id);
        }
        proof {
            assert(table@.skip(i as int).drop_first() =~= table@.skip(i as int + 1));
        }
        i = i + 1;
    }
    proof {
        assert(table@.skip(i as int).len() == 0);
    }
    None
}

} // verus!
