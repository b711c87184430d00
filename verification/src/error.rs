use vstd::prelude::*;

verus! {

/// What went wrong with a single frame.
#[derive(Debug, Clone, Copy, PartialEq, Eq)]
pub enum PduError {
    /// The response does not have the shape of the request it answers.
    Decode,
    /// The payload does not fit into a frame slot.
    TooLong,
    /// The index names no frame slot.
    InvalidIndex,
    /// The frame slot is not in the state the operation needs.
    InvalidFrameState,
}

/// What a call of this library can fail with.
#[derive(Debug, Clone, Copy, PartialEq, Eq)]
pub enum Error {
    /// Every frame slot is in flight. The caller may try again after yielding.
    NoAvailableFrames,
    /// No response arrived in time.
    Timeout,
    /// A frame could not be built, matched or decoded.
    Pdu(PduError),
    /// The network answered, but not as many slaves took part as expected.
    WorkingCounter { expected: u16, received: u16, context: Option<&'static str> },
    /// The group holds as many slaves as it has room for.
    TooManySlaves,
    /// The slaves of a group need more process data than the group's image holds.
    PdiTooLong { desired: usize, required: usize },
    /// The group's image does not fit into the logical address space at the offset given.
    AddressOverflow,
    /// A slave did not reach the state asked of it.
    StateTransition,
    /// A rule of the protocol between the library and its driver was broken.
    Internal,
}

/// What a working counter amounts to when held against the one expected: nothing where they
/// agree, and else an error that names both.
pub open spec fn working_counter_checked(
    expected: u16,
    received: u16,
    context: Option<&'static str>,
) -> Result<(), Error> {
    if received == expected {
        Ok(())
    } else {
        Err(Error::WorkingCounter { expected, received, context })
    }
}

/// Holds the working counter of a response against the one that the caller expects. A
/// difference is a fault of the topology or the wiring, not a lost frame, and is reported as
/// such.
pub fn check_working_counter(expected: u16, received: u16, context: Option<&'static str>) -> (r:
    Result<(), Error>)
    ensures
        r == working_counter_checked(expected, received, context),
{
    if received == expected {
        Ok(())
    } else {
        Err(Error::WorkingCounter { expected, received, context })
    }
}

} // verus!
