//! The control word and the status word of a servo drive, as they travel in its process data:
//! two bytes each, low byte first.
//!
//! All sixteen bits of a word are kept as they are, whether they have a name here or not: no
//! combination of bits is refused.

use crate::error::Error;
use vstd::prelude::*;

verus! {

/// The two bytes at the start of `bytes` as one word, low byte first.
pub open spec fn word_at_start(bytes: Seq<u8>) -> int {
    bytes[0] + 256 * bytes[1]
}

/// The word that a drive reports at the start of its inputs.
#[derive(Debug, Clone, Copy, PartialEq, Eq)]
pub struct StatusWord {
    bits: u16,
}

impl StatusWord {
    /// Ready to switch on
    pub const READY_TO_SWITCH_ON: u16 = 0x0001;

    /// Switched on
    pub const SWITCHED_ON: u16 = 0x0002;

    /// Operation enabled
    pub const OP_ENABLED: u16 = 0x0004;

    /// Fault
    pub const FAULT: u16 = 0x0008;

    /// Voltage enabled
    pub const VOLTAGE_ENABLED: u16 = 0x0010;

    /// Quick stop
    pub const QUICK_STOP: u16 = 0x0020;

    /// Switch on disabled
    pub const SWITCH_ON_DISABLED: u16 = 0x0040;

    /// Warning
    pub const WARNING: u16 = 0x0080;

    /// Safe torque off
    pub const STO: u16 = 0x0100;

    /// Remote
    pub const REMOTE: u16 = 0x0200;

    /// Target reached
    pub const TARGET_REACHED: u16 = 0x0400;

    /// Internal limit active
    pub const INTERNAL_LIMIT: u16 = 0x0800;

    /// Specific to the mode of operation
    pub const OP_SPECIFIC_1: u16 = 0x1000;

    /// Specific to the mode of operation
    pub const OP_SPECIFIC_2: u16 = 0x2000;

    /// Specific to the manufacturer
    pub const MAN_SPECIFIC_1: u16 = 0x4000;

    /// Specific to the manufacturer
    pub const MAN_SPECIFIC_2: u16 = 0x8000;

    /// The sixteen bits of the word.
    pub closed spec fn view(&self) -> u16 {
        self.bits
    }

    /// The word with exactly these bits.
    pub fn from_bits(bits: u16) -> (word: StatusWord)
        ensures
            word@ == bits,
    {
        StatusWord { bits }
    }

    /// The sixteen bits of the word.
    pub fn bits(&self) -> (bits: u16)
        ensures
            bits == self@,
    {
        self.bits
    }

    /// Whether every bit of `flags` is set in the word.
    pub fn contains(&self, flags: u16) -> (all: bool)
        ensures
            all == (self@ & flags == flags),
    {
        self.bits & flags == flags
    }

    /// An error where the drive reports a fault.
    pub fn fault(&self) -> (r: Result<(), Error>)
        ensures
            r == (if self@ & 0x0008 == 0x0008 {
                Err::<(), Error>(Error::Internal)
            } else {
                Ok::<(), Error>(())
            }),
    {
        if self.contains(StatusWord::FAULT) {
            Err(Error::Internal)
        } else {
            Ok(())
        }
    }

    /// Reads the word from the start of a slave's inputs. There is no word in inputs of fewer
    /// than two bytes.
    pub fn decode(inputs: &[u8]) -> (word: Option<StatusWord>)
        ensures
            word is Some <==> inputs@.len() >= 2,
            word matches Some(w) ==> w@ == word_at_start(inputs@),
    {
        if inputs.len() < 2 {
            None
        } else {
            Some(StatusWord { bits: inputs[0] as u16 + 256 * (inputs[1] as u16) })
        }
    }
}

/// The word that commands a drive, at the start of its outputs.
#[derive(Debug, Clone, Copy, PartialEq, Eq)]
pub struct ControlWord {
    bits: u16,
}

impl ControlWord {
    /// Switch on
    pub const SWITCH_ON: u16 = 0x0001;

    /// Disable voltage
    pub const DISABLE_VOLTAGE: u16 = 0x0002;

    /// Quick stop
    pub const QUICK_STOP: u16 = 0x0004;

    /// Enable operation
    pub const ENABLE_OP: u16 = 0x0008;

    /// Specific to the mode of operation
    pub const OP_SPECIFIC_1: u16 = 0x0010;

    /// Specific to the mode of operation
    pub const OP_SPECIFIC_2: u16 = 0x0020;

    /// Specific to the mode of operation
    pub const OP_SPECIFIC_3: u16 = 0x0040;

    /// Reset a fault
    pub const RESET_FAULT: u16 = 0x0080;

    /// Pause
    pub const PAUSE: u16 = 0x0100;

    /// Shut down: disable voltage and quick stop
    pub const SHUTDOWN: u16 = 0x0006;

    /// The sixteen bits of the word.
    pub closed spec fn view(&self) -> u16 {
        self.bits
    }

    /// The word with exactly these bits.
    pub fn from_bits(bits: u16) -> (word: ControlWord)
        ensures
            word@ == bits,
    {
        ControlWord { bits }
    }

    /// The sixteen bits of the word.
    pub fn bits(&self) -> (bits: u16)
        ensures
            bits == self@,
    {
        self.bits
    }

    /// Whether every bit of `flags` is set in the word.
    pub fn contains(&self, flags: u16) -> (all: bool)
        ensures
            all == (self@ & flags == flags),
    {
        self.bits & flags == flags
    }

    /// Writes the word to the start of a slave's outputs and leaves the bytes behind it as they
    /// are. Outputs of fewer than two bytes have no room for the word and stay as they are.
    pub fn encode(&self, outputs: &mut [u8]) -> (written: bool)
        ensures
            written <==> old(outputs)@.len() >= 2,
            !written ==> final(outputs)@ == old(outputs)@,
            written ==> {
                &&& final(outputs)@.len() == old(outputs)@.len()
                &&& word_at_start(final(outputs)@) == self@
                &&& final(outputs)@.skip(2) == old(outputs)@.skip(2)
            },
    {
        if outputs.len() < 2 {
            false
        } else {
            outputs[0] = (self.bits % 256) as u8;
            outputs[1] = (self.bits / 256) as u8;
            assert(outputs@.skip(2) =~= old(outputs)@.skip(2));
            true
        }
    }
}

} // verus!
