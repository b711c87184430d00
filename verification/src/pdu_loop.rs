//! The frame slots through which requests on the wire are matched with their responses.
//!
//! A request takes a free slot, and the position of that slot is the index that travels with
//! the frame. The slot then goes from hand to hand: the requester builds the frame, the sender
//! puts it on the wire, the receiver stores the response in it, and the requester takes the
//! response, which frees the slot. A request that gets no response in time gives its slot up,
//! and a response that arrives for a slot that is not waiting for one is dropped.
//!
//! The pool has `MAX_FRAMES` slots of `MAX_PDU_DATA` bytes each and never allocates.

use crate::error::{Error, PduError};
use crate::pdi::copy_bytes;
use vstd::prelude::*;
use vstd::slice::slice_subrange;

verus! {

/// What a PDU asks of the slaves it addresses.
#[derive(Debug, Clone, Copy, PartialEq, Eq)]
pub enum Command {
    /// The slaves put their data into the frame.
    Read,
    /// The slaves take their data from the frame.
    Write,
    /// The slaves take their outputs from the frame and put their inputs into it.
    ReadWrite,
}

/// In whose hands a slot is.
#[derive(Debug, Clone, Copy, PartialEq, Eq)]
pub enum FrameState {
    /// Nobody's: the slot can be taken.
    Free,
    /// The requester's: the frame is built and waits to be sent.
    Building,
    /// The network's: the frame is on the wire and its response is awaited.
    Sent,
    /// The requester's again: the response is there to be taken.
    Received,
}

/// A PDU as the contracts see it.
pub struct Pdu {
    pub command: Command,
    pub address: u32,
    pub data: Seq<u8>,
}

/// A slot as the contracts see it. A free slot holds nothing.
pub enum Slot {
    Free,
    /// The request waits to be sent.
    Building(Pdu),
    /// The request is on the wire.
    Sent(Pdu),
    /// The response, and the working counter that came with it.
    Received(Pdu, u16),
}

impl Slot {
    /// A request holds the slot: its index must not be given to another.
    pub open spec fn in_flight(self) -> bool {
        !(self is Free)
    }
}

/// The pool as the contracts see it.
#[verifier::ext_equal]
pub struct PduLoopState {
    pub slots: Seq<Slot>,
    /// Where the search for a free slot starts.
    pub next: nat,
}

/// The slot that lies `k` slots behind `next` in a ring of `n` slots.
pub open spec fn slot_after(next: nat, k: nat, n: nat) -> nat {
    if next + k < n {
        next + k
    } else {
        (next + k - n) as nat
    }
}

/// How far behind `next` the slot `slot` lies in a ring of `n` slots.
pub open spec fn distance(next: nat, slot: nat, n: nat) -> nat {
    if slot >= next {
        (slot - next) as nat
    } else {
        (slot + n - next) as nat
    }
}

impl PduLoopState {
    /// The search for a free slot starts at a slot of the pool.
    pub open spec fn wf(self) -> bool {
        &&& self.slots.len() <= usize::MAX
        &&& self.next < self.slots.len() || (self.slots.len() == 0 && self.next == 0)
    }

    /// Every slot is held by a request.
    pub open spec fn full(self) -> bool {
        forall|i: int| 0 <= i < self.slots.len() ==> (#[trigger] self.slots[i]).in_flight()
    }

    /// The first free slot among those that lie `k` or more slots behind `next`, going round
    /// the ring once.
    pub open spec fn free_slot_from(self, k: nat) -> Option<nat>
        decreases self.slots.len() - k,
    {
        if k >= self.slots.len() {
            None
        } else if self.slots[slot_after(self.next, k, self.slots.len()) as int] is Free {
            Some(slot_after(self.next, k, self.slots.len()))
        } else {
            self.free_slot_from(k + 1)
        }
    }

    /// The slot that the next request gets: the first free one from `next` on.
    pub open spec fn free_slot(self) -> Option<nat> {
        self.free_slot_from(0)
    }

    /// A request for a slot. Data that does not fit into a slot is refused, and so is any
    /// request while the pool is full; neither changes the pool. Else the request gets the
    /// first free slot, and the search for the next one starts behind it.
    pub open spec fn alloc_frame(self, pdu: Pdu, max_pdu_data: nat) -> (PduLoopState, Result<
        usize,
        Error,
    >) {
        if pdu.data.len() > max_pdu_data {
            (self, Err(Error::Pdu(PduError::TooLong)))
        } else {
            match self.free_slot() {
                None => (self, Err(Error::NoAvailableFrames)),
                Some(index) => (
                    PduLoopState {
                        slots: self.slots.update(index as int, Slot::Building(pdu)),
                        next: slot_after(index, 1, self.slots.len()),
                    },
                    Ok(index as usize),
                ),
            }
        }
    }

    /// The lowest slot whose frame waits to be sent.
    pub open spec fn building_slot_from(self, from: nat) -> Option<nat>
        decreases self.slots.len() - from,
    {
        if from >= self.slots.len() {
            None
        } else if self.slots[from as int] is Building {
            Some(from)
        } else {
            self.building_slot_from(from + 1)
        }
    }

    /// The frame at `index` goes onto the wire.
    pub open spec fn sent(self, index: nat) -> PduLoopState {
        match self.slots[index as int] {
            Slot::Building(pdu) => PduLoopState {
                slots: self.slots.update(index as int, Slot::Sent(pdu)),
                ..self
            },
            _ => self,
        }
    }

    /// A response arrives for the slot at `index`. It is stored where the slot waits for it.
    /// Else it is stale, or no response to anything, and the pool stays as it is.
    pub open spec fn receive(
        self,
        index: usize,
        data: Seq<u8>,
        working_counter: u16,
        max_pdu_data: nat,
    ) -> (PduLoopState, Result<(), Error>) {
        if index >= self.slots.len() {
            (self, Err(Error::Pdu(PduError::InvalidIndex)))
        } else {
            match self.slots[index as int] {
                Slot::Sent(pdu) => if data.len() > max_pdu_data {
                    (self, Err(Error::Pdu(PduError::TooLong)))
                } else {
                    (
                        PduLoopState {
                            slots: self.slots.update(
                                index as int,
                                Slot::Received(Pdu { data, ..pdu }, working_counter),
                            ),
                            ..self
                        },
                        Ok(()),
                    )
                },
                _ => (self, Err(Error::Pdu(PduError::InvalidFrameState))),
            }
        }
    }

    /// The request that holds the slot at `index` has waited long enough. Unless its response
    /// is there already, the request ends with `Error::Timeout` and gives the slot up.
    pub open spec fn timeout(self, index: usize) -> (PduLoopState, Result<(), Error>) {
        if index >= self.slots.len() {
            (self, Err(Error::Pdu(PduError::InvalidIndex)))
        } else {
            match self.slots[index as int] {
                Slot::Free => (self, Err(Error::Pdu(PduError::InvalidFrameState))),
                Slot::Received(_, _) => (self, Ok(())),
                _ => (self.released(index), Err(Error::Timeout)),
            }
        }
    }

    /// The slot at `index` is free, whatever it held.
    pub open spec fn released(self, index: usize) -> PduLoopState {
        if index < self.slots.len() {
            PduLoopState { slots: self.slots.update(index as int, Slot::Free), ..self }
        } else {
            self
        }
    }

    /// The requester takes the response out of the slot at `index` into a buffer of `len`
    /// bytes. A response frees its slot when it is taken, also where it does not have the
    /// length of the buffer. What is returned is the buffer afterwards, where it changes, and
    /// the working counter of the response.
    pub open spec fn take_response(self, index: usize, len: nat) -> (
        PduLoopState,
        Result<(Seq<u8>, u16), Error>,
    ) {
        if index >= self.slots.len() {
            (self, Err(Error::Pdu(PduError::InvalidIndex)))
        } else {
            match self.slots[index as int] {
                Slot::Received(pdu, working_counter) => (
                    self.released(index),
                    if pdu.data.len() == len {
                        Ok((pdu.data, working_counter))
                    } else {
                        Err(Error::Pdu(PduError::Decode))
                    },
                ),
                _ => (self, Err(Error::Pdu(PduError::InvalidFrameState))),
            }
        }
    }
}

/// Where the search from the `k`-th slot behind `next` finds nothing, no slot from there on is
/// free; where it finds a slot, that slot is free and none between is.
pub proof fn lemma_free_slot_from(state: PduLoopState, k: nat)
    requires
        state.wf(),
    ensures
        state.free_slot_from(k) matches Some(index) ==> {
            &&& index < state.slots.len()
            &&& state.slots[index as int] is Free
            &&& k <= distance(state.next, index, state.slots.len())
            &&& forall|j: nat|
                k <= j < distance(state.next, index, state.slots.len()) ==> (
                #[trigger] state.slots[slot_after(state.next, j, state.slots.len()) as int]).in_flight()
        },
        state.free_slot_from(k) is None ==> forall|j: nat|
            k <= j < state.slots.len() ==> (#[trigger] state.slots[slot_after(
                state.next,
                j,
                state.slots.len(),
            ) as int]).in_flight(),
    decreases state.slots.len() - k,
{
    if k < state.slots.len() {
        if !(state.slots[slot_after(state.next, k, state.slots.len()) as int] is Free) {
            lemma_free_slot_from(state, k + 1);
        }
    }
}

/// A request is turned away for want of a slot exactly when every slot is held.
pub proof fn lemma_free_slot_none_iff_full(state: PduLoopState)
    requires
        state.wf(),
    ensures
        state.free_slot() is None <==> state.full(),
        state.free_slot() matches Some(index) ==> index < state.slots.len()
            && !state.slots[index as int].in_flight(),
{
    lemma_free_slot_from(state, 0);
    let n = state.slots.len();
    if state.free_slot() is None {
        assert forall|i: int| 0 <= i < n implies (#[trigger] state.slots[i]).in_flight() by {
            let j = distance(state.next, i as nat, n);
            assert(slot_after(state.next, j, n) == i);
            assert(state.slots[slot_after(state.next, j, n) as int].in_flight());
        }
    }
}

/// No request is given an index that another request holds: the slot of a new request was
/// free, and every slot that was held is held as before.
pub proof fn lemma_alloc_keeps_in_flight(state: PduLoopState, pdu: Pdu, max_pdu_data: nat)
    requires
        state.wf(),
    ensures
        state.alloc_frame(pdu, max_pdu_data).0.wf(),
        state.alloc_frame(pdu, max_pdu_data).1 matches Ok(index) ==> {
            &&& index < state.slots.len()
            &&& !state.slots[index as int].in_flight()
            &&& state.alloc_frame(pdu, max_pdu_data).0.slots[index as int] == Slot::Building(pdu)
            &&& forall|i: int|
                0 <= i < state.slots.len() && i != index ==> #[trigger] state.alloc_frame(
                    pdu,
                    max_pdu_data,
                ).0.slots[i] == state.slots[i]
        },
        state.alloc_frame(pdu, max_pdu_data).1 is Err ==> state.alloc_frame(pdu, max_pdu_data).0 == state,
        state.alloc_frame(pdu, max_pdu_data).1 == Err::<usize, Error>(Error::NoAvailableFrames) <==> (
        pdu.data.len() <= max_pdu_data && state.full()),
{
    lemma_free_slot_none_iff_full(state);
}

/// A response reaches the request that holds its index, and no other: a slot other than the
/// one named stays as it is, whatever arrives.
pub proof fn lemma_receive_touches_one_slot(
    state: PduLoopState,
    index: usize,
    data: Seq<u8>,
    working_counter: u16,
    max_pdu_data: nat,
    other: int,
)
    requires
        0 <= other < state.slots.len(),
        other != index,
    ensures
        state.receive(index, data, working_counter, max_pdu_data).0.slots.len()
            == state.slots.len(),
        state.receive(index, data, working_counter, max_pdu_data).0.slots[other]
            == state.slots[other],
        state.receive(index, data, working_counter, max_pdu_data).1 is Ok <==> (index
            < state.slots.len() && state.slots[index as int] is Sent && data.len()
            <= max_pdu_data),
{
}

/// A request that timed out leaves nothing behind. Its slot is free, so the pool is not full
/// and the next request gets a slot. A response that arrives late for the old request is
/// dropped. And when a new request gets the slot, the slot holds that request and no more.
pub proof fn lemma_timeout_frees_slot(
    state: PduLoopState,
    index: usize,
    pdu: Pdu,
    max_pdu_data: nat,
    late: Seq<u8>,
    working_counter: u16,
)
    requires
        state.wf(),
        index < state.slots.len(),
        state.slots[index as int] is Sent || state.slots[index as int] is Building,
        pdu.data.len() <= max_pdu_data,
    ensures
        state.timeout(index).1 == Err::<(), Error>(Error::Timeout),
        state.timeout(index).0.wf(),
        state.timeout(index).0.slots[index as int] == Slot::Free,
        state.timeout(index).0.receive(index, late, working_counter, max_pdu_data) == (
            state.timeout(index).0,
            Err::<(), Error>(Error::Pdu(PduError::InvalidFrameState)),
        ),
        state.timeout(index).0.alloc_frame(pdu, max_pdu_data).1 is Ok,
        state.timeout(index).0.alloc_frame(pdu, max_pdu_data).1 == Ok::<usize, Error>(index)
            ==> state.timeout(index).0.alloc_frame(pdu, max_pdu_data).0.slots[index as int]
            == Slot::Building(pdu),
{
    let after = state.timeout(index).0;
    lemma_free_slot_none_iff_full(after);
    assert(!after.slots[index as int].in_flight());
    lemma_alloc_keeps_in_flight(after, pdu, max_pdu_data);
}

/// One slot of the pool.
#[derive(Clone, Copy)]
struct Frame<const MAX_PDU_DATA: usize> {
    state: FrameState,
    command: Command,
    address: u32,
    /// The bytes of `data` that are in use.
    len: usize,
    data: [u8; MAX_PDU_DATA],
    working_counter: u16,
}

impl<const MAX_PDU_DATA: usize> View for Frame<MAX_PDU_DATA> {
    type V = Slot;

    closed spec fn view(&self) -> Slot {
        let pdu = Pdu {
            command: self.command,
            address: self.address,
            data: self.data@.take(self.len as int),
        };
        match self.state {
            FrameState::Free => Slot::Free,
            FrameState::Building => Slot::Building(pdu),
            FrameState::Sent => Slot::Sent(pdu),
            FrameState::Received => Slot::Received(pdu, self.working_counter),
        }
    }
}

impl<const MAX_PDU_DATA: usize> Frame<MAX_PDU_DATA> {
    spec fn wf(&self) -> bool {
        self.len <= MAX_PDU_DATA
    }

    /// Puts `data` at the start of the frame's buffer.
    fn fill(&mut self, data: &[u8])
        requires
            data@.len() <= MAX_PDU_DATA,
        ensures
            final(self).wf(),
            final(self).len == data@.len(),
            final(self).data@.take(data@.len() as int) == data@,
            final(self).state == old(self).state,
            final(self).command == old(self).command,
            final(self).address == old(self).address,
            final(self).working_counter == old(self).working_counter,
    {
        let n = data.len();
        let mut i: usize = 0;
        while i < n
            invariant
                i <= n,
                n == data@.len(),
                n <= MAX_PDU_DATA,
                forall|j: int| 0 <= j < i ==> self.data@[j] == data@[j],
                self.state == old(self).state,
                self.command == old(self).command,
                self.address == old(self).address,
                self.working_counter == old(self).working_counter,
            decreases n - i,
        {
            self.data[i] = data[i];
            i += 1;
        }
        self.len = n;
        assert(self.data@.take(n as int) =~= data@);
    }
}

/// The pool of frame slots.
pub struct PduLoop<const MAX_FRAMES: usize, const MAX_PDU_DATA: usize> {
    frames: [Frame<MAX_PDU_DATA>; MAX_FRAMES],
    next: usize,
}

impl<const MAX_FRAMES: usize, const MAX_PDU_DATA: usize> View for PduLoop<
    MAX_FRAMES,
    MAX_PDU_DATA,
> {
    type V = PduLoopState;

    closed spec fn view(&self) -> PduLoopState {
        PduLoopState {
            slots: Seq::new(MAX_FRAMES as nat, |i: int| self.frames[i]@),
            next: self.next as nat,
        }
    }
}

impl<const MAX_FRAMES: usize, const MAX_PDU_DATA: usize> PduLoop<MAX_FRAMES, MAX_PDU_DATA> {
    /// The pool is well formed, and no slot holds more bytes than it has room for.
    pub closed spec fn wf(&self) -> bool {
        &&& self@.wf()
        &&& forall|i: int| 0 <= i < MAX_FRAMES ==> (#[trigger] self.frames[i]).wf()
    }

    /// What a well-formed pool is known to be.
    pub proof fn lemma_wf(&self)
        requires
            self.wf(),
        ensures
            self@.wf(),
            self@.slots.len() == MAX_FRAMES,
    {
    }

    /// A pool in which every slot is free.
    pub fn new() -> (pool: Self)
        ensures
            pool.wf(),
            pool@ == (PduLoopState {
                slots: Seq::new(MAX_FRAMES as nat, |i: int| Slot::Free),
                next: 0,
            }),
    {
        let free = Frame {
            state: FrameState::Free,
            command: Command::Read,
            address: 0,
            len: 0,
            data: [0u8;MAX_PDU_DATA],
            working_counter: 0,
        };
        let pool = PduLoop { frames: [free;MAX_FRAMES], next: 0 };
        assert(pool@.slots =~= Seq::new(MAX_FRAMES as nat, |i: int| Slot::Free));
        pool
    }

    /// In whose hands the slot at `index` is, where there is such a slot.
    pub fn frame_state(&self, index: usize) -> (state: Option<FrameState>)
        ensures
            state is Some <==> index < self@.slots.len(),
            state matches Some(s) ==> match self@.slots[index as int] {
                Slot::Free => s is Free,
                Slot::Building(_) => s is Building,
                Slot::Sent(_) => s is Sent,
                Slot::Received(_, _) => s is Received,
            },
    {
        if index < MAX_FRAMES {
            Some(self.frames[index].state)
        } else {
            None
        }
    }

    /// Takes a slot for a request and builds the request's frame in it. The index returned is
    /// the one that travels with the frame. [`PduLoopState::alloc_frame`] is the rule.
    pub fn alloc_frame(&mut self, command: Command, address: u32, data: &[u8]) -> (r: Result<
        usize,
        Error,
    >)
        requires
            old(self).wf(),
        ensures
            final(self).wf(),
            (final(self)@, r) == old(self)@.alloc_frame(
                Pdu { command, address, data: data@ },
                MAX_PDU_DATA as nat,
            ),
    {
        if data.len() > MAX_PDU_DATA {
            return Err(Error::Pdu(PduError::TooLong));
        }
        let room = MAX_FRAMES - self.next;
        let mut k: usize = 0;
        while k < MAX_FRAMES
            invariant
                k <= MAX_FRAMES,
                *self == *old(self),
                self.wf(),
                room == MAX_FRAMES - self.next,
                data@.len() <= MAX_PDU_DATA,
                self@.free_slot_from(0) == self@.free_slot_from(k as nat),
            decreases MAX_FRAMES - k,
        {
            let index = if k < room {
                self.next + k
            } else {
                k - room
            };
            assert(index == slot_after(self.next as nat, k as nat, MAX_FRAMES as nat));
            if let FrameState::Free = self.frames[index].state {
                self.frames[index].fill(data);
                self.frames[index].state = FrameState::Building;
                self.frames[index].command = command;
                self.frames[index].address = address;
                self.frames[index].working_counter = 0;
                self.next = if index + 1 < MAX_FRAMES {
                    index + 1
                } else {
                    0
                };
                assert(self@.slots =~= old(self)@.slots.update(
                    index as int,
                    Slot::Building(Pdu { command, address, data: data@ }),
                ));
                return Ok(index);
            }
            k += 1;
        }
        Err(Error::NoAvailableFrames)
    }

    /// Hands the sender the next frame that waits to be sent: the one in the lowest slot. The
    /// frame counts as sent from now on. There is nothing to send where no slot holds a frame
    /// that waits.
    pub fn send_next(&mut self) -> (r: Option<(usize, Command, u32, &[u8])>)
        requires
            old(self).wf(),
        ensures
            final(self).wf(),
            match old(self)@.building_slot_from(0) {
                None => r is None && final(self)@ == old(self)@,
                Some(index) => {
                    &&& final(self)@ == old(self)@.sent(index)
                    &&& r matches Some((i, command, address, data))
                    &&& old(self)@.slots[index as int] == Slot::Building(
                        Pdu { command, address, data: data@ },
                    )
                    &&& i == index
                },
            },
    {
        let mut index: usize = 0;
        while index < MAX_FRAMES
            invariant
                index <= MAX_FRAMES,
                *self == *old(self),
                self.wf(),
                self@.building_slot_from(0) == self@.building_slot_from(index as nat),
            decreases MAX_FRAMES - index,
        {
            if let FrameState::Building = self.frames[index].state {
                self.frames[index].state = FrameState::Sent;
                assert(self@.slots =~= old(self)@.sent(index as nat).slots);
                let frame = &self.frames[index];
                let data = slice_subrange(frame.data.as_slice(), 0, frame.len);
                return Some((index, frame.command, frame.address, data));
            }
            index += 1;
        }
        None
    }

    /// Stores a response that came off the wire with `index`. [`PduLoopState::receive`] is the
    /// rule: only a slot whose frame is on the wire takes a response.
    pub fn receive(&mut self, index: usize, data: &[u8], working_counter: u16) -> (r: Result<
        (),
        Error,
    >)
        requires
            old(self).wf(),
        ensures
            final(self).wf(),
            (final(self)@, r) == old(self)@.receive(
                index,
                data@,
                working_counter,
                MAX_PDU_DATA as nat,
            ),
    {
        if index >= MAX_FRAMES {
            return Err(Error::Pdu(PduError::InvalidIndex));
        }
        match self.frames[index].state {
            FrameState::Sent => {
                if data.len() > MAX_PDU_DATA {
                    return Err(Error::Pdu(PduError::TooLong));
                }
                self.frames[index].fill(data);
                self.frames[index].state = FrameState::Received;
                self.frames[index].working_counter = working_counter;
                assert(self@.slots =~= old(self)@.receive(
                    index,
                    data@,
                    working_counter,
                    MAX_PDU_DATA as nat,
                ).0.slots);
                Ok(())
            },
            _ => Err(Error::Pdu(PduError::InvalidFrameState)),
        }
    }

    /// Ends the wait of the request that holds the slot at `index`.
    /// [`PduLoopState::timeout`] is the rule: the request fails with `Error::Timeout` and its
    /// slot is free again, unless the response is there already.
    pub fn timeout(&mut self, index: usize) -> (r: Result<(), Error>)
        requires
            old(self).wf(),
        ensures
            final(self).wf(),
            (final(self)@, r) == old(self)@.timeout(index),
    {
        if index >= MAX_FRAMES {
            return Err(Error::Pdu(PduError::InvalidIndex));
        }
        match self.frames[index].state {
            FrameState::Free => Err(Error::Pdu(PduError::InvalidFrameState)),
            FrameState::Received => Ok(()),
            _ => {
                self.frames[index].state = FrameState::Free;
                assert(self@.slots =~= old(self)@.released(index).slots);
                Err(Error::Timeout)
            },
        }
    }

    /// Frees the slot at `index`, whatever it holds: for a requester that gives up its request.
    pub fn release(&mut self, index: usize)
        requires
            old(self).wf(),
        ensures
            final(self).wf(),
            final(self)@ == old(self)@.released(index),
    {
        if index < MAX_FRAMES {
            self.frames[index].state = FrameState::Free;
            assert(self@.slots =~= old(self)@.released(index).slots);
        }
    }

    /// Takes the response out of the slot at `index` into `buf` and returns its working
    /// counter. [`PduLoopState::take_response`] is the rule. Where there is an error, `buf`
    /// stays as it is.
    pub fn take_response(&mut self, index: usize, buf: &mut [u8]) -> (r: Result<u16, Error>)
        requires
            old(self).wf(),
        ensures
            final(self).wf(),
            final(self)@ == old(self)@.take_response(index, old(buf)@.len()).0,
            match old(self)@.take_response(index, old(buf)@.len()).1 {
                Ok((data, working_counter)) => r == Ok::<u16, Error>(working_counter)
                    && final(buf)@ == data,
                Err(error) => r == Err::<u16, Error>(error) && final(buf)@ == old(buf)@,
            },
    {
        if index >= MAX_FRAMES {
            return Err(Error::Pdu(PduError::InvalidIndex));
        }
        match self.frames[index].state {
            FrameState::Received => {
                self.frames[index].state = FrameState::Free;
                assert(self@.slots =~= old(self)@.released(index).slots);
                let frame = &self.frames[index];
                if frame.len != buf.len() {
                    return Err(Error::Pdu(PduError::Decode));
                }
                let data = slice_subrange(frame.data.as_slice(), 0, frame.len);
                copy_bytes(buf, data);
                Ok(frame.working_counter)
            },
            _ => Err(Error::Pdu(PduError::InvalidFrameState)),
        }
    }
}

} // verus!
