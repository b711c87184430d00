//! The process-data core of an EtherCAT master.
//!
//! Slaves found on the bus are collected into groups. Every group owns one process data image
//! and lays its slaves' inputs and outputs out in it, back to back, while the slaves are brought
//! to SAFE-OP. Once a group is configured, one logical read-write per cycle exchanges the whole
//! image, and the working counter of the response is held against the one the group expects.
//! Requests on the wire are matched with their responses through a fixed pool of frame slots.
//!
//! Nothing here performs I/O: the functions take what arrived from the network and say what to
//! do next. Every function carries a contract, and every contract is proved but those of the
//! few functions in [`slave_list`] that call into `heapless`.

pub mod configure;
pub mod drive;
pub mod error;
pub mod pdi;
pub mod pdu_loop;
pub mod slave;
pub mod slave_group;
pub mod slave_list;

pub use configure::{ConfigureAction, ConfigureEvent, WalkPhase};
pub use drive::{ControlWord, StatusWord};
pub use error::{Error, PduError};
pub use pdi::{IoRanges, PdiOffset, PdiSegment};
pub use pdu_loop::{Command, FrameState, PduLoop};
pub use slave::{Slave, SlaveConfig, SlaveIdentity};
pub use slave_group::{SlaveGroup, SlaveGroupContainer, SlaveGroupRef};
pub use slave_list::MAX_SLAVES;
