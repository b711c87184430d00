//! A device on the bus, as the master sees it.

use crate::pdi::IoRanges;
use vstd::prelude::*;

verus! {

/// `heapless::String`, named so that a slave can carry its name. Nothing here reads a name: it
/// is kept for the caller.
#[verifier::external_type_specification]
#[verifier::external_body]
pub struct ExHeaplessString<const N: usize>(heapless::String<N>);

/// Who made a slave, and what it is.
#[derive(Debug, Clone, Copy, PartialEq, Eq, Default)]
pub struct SlaveIdentity {
    pub vendor_id: u32,
    pub product_id: u32,
    pub revision: u32,
    pub serial: u32,
}

/// What the configuration of a group has settled for a slave.
#[derive(Debug, PartialEq, Eq)]
pub struct SlaveConfig {
    pub io: IoRanges,
}

/// One slave. It is made when the bus is scanned, changed while its group is configured, and
/// only read from then on.
#[derive(Debug)]
pub struct Slave {
    /// The station address given to the slave when the bus was initialised.
    pub configured_address: u16,
    /// The name that the slave's EEPROM reports.
    pub name: heapless::String<64>,
    pub identity: SlaveIdentity,
    pub config: SlaveConfig,
}

impl Slave {
    /// The same slave without any process data assigned to it.
    pub open spec fn unconfigured(self) -> Slave {
        Slave { config: SlaveConfig { io: IoRanges::unassigned() }, ..self }
    }

    /// The same slave with its process data at `io`.
    pub open spec fn with_io(self, io: IoRanges) -> Slave {
        Slave { config: SlaveConfig { io }, ..self }
    }

    /// A slave as the bus scan found it: no process data is assigned to it yet.
    pub fn new(configured_address: u16, name: heapless::String<64>, identity: SlaveIdentity) -> (slave:
        Slave)
        ensures
            slave == (Slave {
                configured_address,
                name,
                identity,
                config: SlaveConfig { io: IoRanges::unassigned() },
            }),
    {
        Slave { configured_address, name, identity, config: SlaveConfig { io: IoRanges::new() } }
    }

    /// Where the slave's inputs and outputs lie in its group's process data image.
    pub fn io_segments(&self) -> (io: &IoRanges)
        ensures
            *io == self.config.io,
    {
        &self.config.io
    }
}

/// The process data ranges of a sequence of slaves, slave by slave.
pub open spec fn io_ranges(slaves: Seq<Slave>) -> Seq<IoRanges> {
    slaves.map_values(|s: Slave| s.config.io)
}

} // verus!
