//! Groups of slaves that share one process data image.
//!
//! A group collects the slaves that were found on the bus, is configured by a walk over them
//! (see [`crate::configure`]), and from then on exchanges its whole image with the slaves once
//! per cycle. Between two exchanges the caller reads each slave's inputs and writes its outputs
//! in place, through slices of the image that never overlap.

use crate::configure::{
    lemma_assigned, lemma_cleared_wf, ConfigureAction, ConfigureEvent, GroupState, WalkPhase,
};
use crate::error::{check_working_counter, working_counter_checked, Error, PduError};
use crate::pdi::{
    copy_bytes, lemma_packed_slave_within, lemma_packed_slaves_disjoint, lemma_push_unassigned,
    lemma_segment_bytes_kept, lemma_segment_bytes_put_back, lemma_segment_bytes_written,
    lemma_unassigned_is_packed, lemma_working_counter_total_bound, segment_bytes, total_len,
    with_segment_bytes, IoRanges, PdiOffset,
};
use crate::pdu_loop::Command;
use crate::slave::Slave;
use crate::slave_list::{
    slave_items, slave_list_as_mut_slice, slave_list_as_slice, slave_list_new, slave_list_push,
    MAX_SLAVES,
};
use vstd::prelude::*;
use vstd::slice::slice_subrange;

verus! {

/// Takes the process data away from every slave.
fn clear_io(slaves: &mut [Slave])
    ensures
        final(slaves)@ == old(slaves)@.map_values(|s: Slave| s.unconfigured()),
{
    let n = slaves.len();
    let mut i: usize = 0;
    while i < n
        invariant
            i <= n,
            slaves@.len() == n,
            old(slaves)@.len() == n,
            forall|j: int| 0 <= j < i ==> slaves@[j] == old(slaves)@[j].unconfigured(),
            forall|j: int| i <= j < n ==> slaves@[j] == old(slaves)@[j],
        decreases n - i,
    {
        slaves[i].config.io = IoRanges::new();
        i += 1;
    }
    assert(slaves@ =~= old(slaves)@.map_values(|s: Slave| s.unconfigured()));
}

/// All of a group but its image: what a [`SlaveGroupRef`] borrows. Its fields are its own, and
/// it changes only through the functions of this module.
pub struct GroupCore<H> {
    slaves: heapless::Vec<Slave, MAX_SLAVES>,
    preop_safeop_hook: Option<H>,
    max_pdi_len: usize,
    pdi_len: usize,
    start_address: u32,
    group_working_counter: u16,
    configured: bool,
    phase: WalkPhase,
    index: usize,
    /// The bytes that the slaves' data takes so far.
    cursor: usize,
}

impl<H> View for GroupCore<H> {
    type V = GroupState;

    closed spec fn view(&self) -> GroupState {
        GroupState {
            slaves: slave_items(self.slaves),
            has_hook: self.preop_safeop_hook is Some,
            max_pdi_len: self.max_pdi_len as nat,
            pdi_len: self.pdi_len as nat,
            start_address: self.start_address,
            group_working_counter: self.group_working_counter,
            configured: self.configured,
            phase: self.phase,
            index: self.index as nat,
        }
    }
}

impl<H> GroupCore<H> {
    /// The state is well formed, and the bytes counted so far are those that the slaves need.
    pub closed spec fn wf(&self) -> bool {
        &&& self@.wf()
        &&& self.cursor == total_len(self@.io())
    }

    /// The hook, where the group has one.
    pub closed spec fn hook_view(&self) -> Option<H> {
        self.preop_safeop_hook
    }

    /// What a well-formed group is known to be.
    pub proof fn lemma_wf(&self)
        requires
            self.wf(),
        ensures
            self@.wf(),
            self@.has_hook == (self.hook_view() is Some),
    {
    }

    pub(crate) fn new(preop_safeop_hook: Option<H>, max_pdi_len: usize) -> (core: Self)
        ensures
            core.wf(),
            core@ == GroupState::empty(max_pdi_len as nat, preop_safeop_hook is Some),
            core.hook_view() == preop_safeop_hook,
    {
        let core = GroupCore {
            slaves: slave_list_new(),
            preop_safeop_hook,
            max_pdi_len,
            pdi_len: 0,
            start_address: 0,
            group_working_counter: 0,
            configured: false,
            phase: WalkPhase::Idle,
            index: 0,
            cursor: 0,
        };
        proof {
            assert(core@.io() =~= Seq::<IoRanges>::empty());
            lemma_unassigned_is_packed(core@.io());
        }
        core
    }

    fn push(&mut self, slave: Slave) -> (r: Result<(), Error>)
        requires
            old(self).wf(),
        ensures
            final(self).wf(),
            final(self).hook_view() == old(self).hook_view(),
            old(self)@.slaves.len() < MAX_SLAVES ==> r is Ok && final(self)@ == (GroupState {
                slaves: old(self)@.slaves.push(slave.unconfigured()),
                ..old(self)@
            }),
            old(self)@.slaves.len() >= MAX_SLAVES ==> r == Err::<(), Error>(Error::TooManySlaves)
                && final(self)@ == old(self)@,
    {
        let mut slave = slave;
        slave.config.io = IoRanges::new();
        match slave_list_push(&mut self.slaves, slave) {
            Ok(()) => {
                proof {
                    let before = old(self)@.io();
                    lemma_push_unassigned(before);
                    assert(self@.io() =~= before.push(IoRanges::unassigned()));
                }
                Ok(())
            },
            Err(_) => Err(Error::TooManySlaves),
        }
    }

    fn slaves(&self) -> (slaves: &[Slave])
        ensures
            slaves@ == self@.slaves,
    {
        slave_list_as_slice(&self.slaves)
    }

    /// Leaves nothing of any configuration.
    fn clear(&mut self)
        requires
            old(self)@.slaves.len() <= MAX_SLAVES,
        ensures
            final(self).wf(),
            final(self)@ == old(self)@.cleared(),
            final(self).hook_view() == old(self).hook_view(),
    {
        clear_io(slave_list_as_mut_slice(&mut self.slaves));
        self.pdi_len = 0;
        self.group_working_counter = 0;
        self.configured = false;
        self.phase = WalkPhase::Idle;
        self.index = 0;
        self.cursor = 0;
        proof {
            lemma_cleared_wf(old(self)@);
            lemma_unassigned_is_packed(self@.io());
        }
    }

    /// The walk's step after the sizes of the slave at hand were read back.
    fn assign_next(&mut self, input_len: u16, output_len: u16) -> (action: ConfigureAction)
        requires
            old(self).wf(),
            old(self)@.phase is PdoSizes,
        ensures
            final(self).wf(),
            final(self).hook_view() == old(self).hook_view(),
            final(self)@ == old(self)@.configure_step(
                ConfigureEvent::PdoSizes { input_len, output_len },
            ).0,
            action == old(self)@.configure_step(
                ConfigureEvent::PdoSizes { input_len, output_len },
            ).1,
    {
        let index = self.index;
        let at = self.cursor;
        let count = slave_list_as_slice(&self.slaves).len();
        let ghost next = old(self)@.assigned(input_len, output_len);
        proof {
            lemma_assigned(old(self)@, input_len, output_len);
            lemma_working_counter_total_bound(next.io());
        }
        let io = IoRanges::assign(at, input_len, output_len);
        let contribution = io.working_counter_sum();
        let slaves = slave_list_as_mut_slice(&mut self.slaves);
        slaves[index].config.io = io;
        self.group_working_counter = self.group_working_counter + contribution;
        self.cursor = at + input_len as usize + output_len as usize;
        assert(self@.slaves =~= next.slaves);
        if index + 1 < count {
            self.index = index + 1;
            self.phase = WalkPhase::SafeOp;
            ConfigureAction::RequestSafeOp { slave: index + 1 }
        } else if self.cursor > self.max_pdi_len {
            let required = self.cursor;
            let desired = self.max_pdi_len;
            self.clear();
            assert(self@.slaves =~= old(self)@.cleared().slaves);
            ConfigureAction::Failed(Error::PdiTooLong { desired, required })
        } else {
            self.pdi_len = self.cursor;
            self.configured = true;
            self.phase = WalkPhase::Idle;
            self.index = 0;
            ConfigureAction::Done(
                PdiOffset { start_address: self.start_address + self.cursor as u32 },
            )
        }
    }

    /// One step of the configuration walk.
    fn configure_step(&mut self, event: ConfigureEvent) -> (action: ConfigureAction)
        requires
            old(self).wf(),
        ensures
            final(self).wf(),
            final(self).hook_view() == old(self).hook_view(),
            final(self)@ == old(self)@.configure_step(event).0,
            action == old(self)@.configure_step(event).1,
    {
        if let ConfigureEvent::Start(offset) = event {
            let room: u32 = u32::MAX - offset.start_address;
            if self.max_pdi_len > room as usize {
                self.clear();
                return ConfigureAction::Failed(Error::AddressOverflow);
            }
            let count = slave_list_as_slice(&self.slaves).len();
            self.clear();
            self.start_address = offset.start_address;
            if count == 0 {
                self.configured = true;
                return ConfigureAction::Done(offset);
            }
            self.phase = WalkPhase::SafeOp;
            return ConfigureAction::RequestSafeOp { slave: 0 };
        }
        match (self.phase, event) {
            (WalkPhase::Idle, _) => ConfigureAction::Failed(Error::Internal),
            (WalkPhase::SafeOp, ConfigureEvent::SafeOpReached) => {
                if self.preop_safeop_hook.is_some() {
                    self.phase = WalkPhase::Hook;
                    ConfigureAction::RunHook { slave: self.index }
                } else {
                    self.phase = WalkPhase::PdoSizes;
                    ConfigureAction::ReadPdoSizes { slave: self.index }
                }
            },
            (WalkPhase::Hook, ConfigureEvent::HookDone) => {
                self.phase = WalkPhase::PdoSizes;
                ConfigureAction::ReadPdoSizes { slave: self.index }
            },
            (WalkPhase::PdoSizes, ConfigureEvent::PdoSizes { input_len, output_len }) => {
                self.assign_next(input_len, output_len)
            },
            (_, ConfigureEvent::Failed(error)) => {
                self.clear();
                ConfigureAction::Failed(error)
            },
            _ => {
                self.clear();
                ConfigureAction::Failed(Error::Internal)
            },
        }
    }
}

/// A group without the size of its image in its type, for code that configures groups of
/// different sizes alike. It borrows the group and owns nothing.
pub struct SlaveGroupRef<'a, H> {
    /// The group that is borrowed. Contracts speak of it as it is when the borrow ends.
    pub core: &'a mut GroupCore<H>,
}

impl<'a, H> View for SlaveGroupRef<'a, H> {
    type V = GroupState;

    open spec fn view(&self) -> GroupState {
        (*self.core)@
    }
}

impl<'a, H> SlaveGroupRef<'a, H> {
    /// The group that is borrowed is well formed.
    pub open spec fn wf(&self) -> bool {
        self.core.wf()
    }

    /// The hook, where the group has one.
    pub open spec fn hook_view(&self) -> Option<H> {
        self.core.hook_view()
    }

    /// Moves the configuration walk of the group on by one step: takes what the driver reports
    /// and says what the driver is to do next. [`GroupState::configure_step`] is the rule.
    pub fn configure_from_eeprom(&mut self, event: ConfigureEvent) -> (action: ConfigureAction)
        requires
            old(self).wf(),
        ensures
            final(self).wf(),
            final(self).hook_view() == old(self).hook_view(),
            final(self)@ == old(self)@.configure_step(event).0,
            action == old(self)@.configure_step(event).1,
            *final(final(self).core) == *final(old(self).core),
    {
        self.core.configure_step(event)
    }

    /// The slaves of the group, in the order in which they were found.
    pub fn slaves(&self) -> (slaves: &[Slave])
        ensures
            slaves@ == self@.slaves,
    {
        self.core.slaves()
    }

    /// The hook that the driver runs when the walk asks for it.
    pub fn hook(&self) -> (hook: Option<&H>)
        ensures
            hook is Some <==> self.hook_view() is Some,
            hook matches Some(h) ==> self.hook_view() == Some(*h),
    {
        self.core.preop_safeop_hook.as_ref()
    }
}

/// What one cyclic exchange makes of a group's image: the image afterwards, and what the caller
/// is told.
///
/// A response that is as long as the image replaces it, whatever its working counter says: a
/// wrong working counter tells that not every slave took part, not that the data is garbled. A
/// failed exchange, or a response of another length, leaves the image as it was.
pub open spec fn exchanged(
    pdi: Seq<u8>,
    expected: u16,
    response: Result<(Seq<u8>, u16), Error>,
) -> (Seq<u8>, Result<(), Error>) {
    match response {
        Err(error) => (pdi, Err(error)),
        Ok((data, working_counter)) => if data.len() != pdi.len() {
            (pdi, Err(Error::Pdu(PduError::Decode)))
        } else {
            (
                data,
                working_counter_checked(expected, working_counter, Some("group working counter")),
            )
        },
    }
}

/// The segments of the slave at `idx` that a group hands out: those of the slave where the
/// group is configured, and none where it is not.
pub open spec fn usable_io(state: GroupState, idx: int) -> IoRanges {
    if state.configured {
        state.slaves[idx].config.io
    } else {
        IoRanges::unassigned()
    }
}

/// Reading a slave's data twice in a row gives the same bytes: handing out the slices changes
/// nothing, and outputs that are left as they were found leave the image as it was.
pub proof fn lemma_io_idempotent(state: GroupState, pdi: Seq<u8>, idx: int)
    requires
        state.wf(),
        pdi.len() == state.max_pdi_len,
        0 <= idx < state.slaves.len(),
    ensures
        with_segment_bytes(
            pdi,
            usable_io(state, idx).output,
            segment_bytes(pdi, usable_io(state, idx).output),
        ) == pdi,
{
    if state.configured {
        lemma_packed_slave_within(state.io(), idx);
    }
    lemma_segment_bytes_put_back(pdi, usable_io(state, idx).output);
}

/// What is written to a slave's outputs is read back from them, and changes neither the inputs
/// of any slave nor the outputs of another.
pub proof fn lemma_io_written_in_place(
    state: GroupState,
    pdi: Seq<u8>,
    idx: int,
    bytes: Seq<u8>,
    other: int,
)
    requires
        state.wf(),
        pdi.len() == state.max_pdi_len,
        0 <= idx < state.slaves.len(),
        0 <= other < state.slaves.len(),
        usable_io(state, idx).output matches Some(segment) && bytes.len() == segment.spec_len(),
    ensures
        ({
            let written = with_segment_bytes(pdi, usable_io(state, idx).output, Some(bytes));
            &&& written.len() == pdi.len()
            &&& segment_bytes(written, usable_io(state, idx).output) == Some(bytes)
            &&& segment_bytes(written, usable_io(state, other).input) == segment_bytes(
                pdi,
                usable_io(state, other).input,
            )
            &&& other != idx ==> segment_bytes(written, usable_io(state, other).output)
                == segment_bytes(pdi, usable_io(state, other).output)
        }),
{
    let segment = usable_io(state, idx).output->0;
    lemma_packed_slave_within(state.io(), idx);
    lemma_packed_slave_within(state.io(), other);
    if other < idx {
        lemma_packed_slaves_disjoint(state.io(), other, idx);
    } else if idx < other {
        lemma_packed_slaves_disjoint(state.io(), idx, other);
    }
    lemma_segment_bytes_written(pdi, segment, bytes);
    if let Some(input) = usable_io(state, other).input {
        lemma_segment_bytes_kept(pdi, segment, bytes, input);
    }
    if other != idx {
        if let Some(output) = usable_io(state, other).output {
            lemma_segment_bytes_kept(pdi, segment, bytes, output);
        }
    }
}

/// Two runs of bytes of one image that do not overlap, the first to read and the second to
/// write. What is written to the second is all that changes in the image.
fn split_io(pdi: &mut [u8], a: usize, b: usize, c: usize, d: usize) -> (r: (&[u8], &mut [u8]))
    requires
        a <= b <= c <= d <= old(pdi)@.len(),
    ensures
        r.0@ == old(pdi)@.subrange(a as int, b as int),
        r.1@ == old(pdi)@.subrange(c as int, d as int),
        final(pdi)@ == old(pdi)@.subrange(0, c as int) + final(r.1)@ + old(pdi)@.subrange(
            d as int,
            old(pdi)@.len() as int,
        ),
{
    let (left, right) = pdi.split_at_mut(c);
    let (_, input) = left.split_at_mut(a);
    let (input, _) = input.split_at_mut(b - a);
    let (output, _) = right.split_at_mut(d - c);
    (input, output)
}

/// A group of slaves and the process data image that they share. The image holds `MAX_PDI`
/// bytes. `H` is the hook that the driver runs for every slave while the group is configured;
/// the group keeps it and never calls it.
pub struct SlaveGroup<H, const MAX_PDI: usize> {
    core: GroupCore<H>,
    pdi: [u8; MAX_PDI],
}

impl<H, const MAX_PDI: usize> View for SlaveGroup<H, MAX_PDI> {
    type V = GroupState;

    closed spec fn view(&self) -> GroupState {
        self.core@
    }
}

impl<H, const MAX_PDI: usize> Default for SlaveGroup<H, MAX_PDI> {
    /// A group without slaves and without a hook. Its image is all zero.
    fn default() -> (group: Self)
        ensures
            group.wf(),
            group@ == GroupState::empty(MAX_PDI as nat, false),
            group.hook_view() is None,
            group.pdi_view() == Seq::new(MAX_PDI as nat, |i: int| 0u8),
    {
        let group = SlaveGroup { core: GroupCore::new(None, MAX_PDI), pdi: [0u8;MAX_PDI] };
        assert(group.pdi@ =~= Seq::new(MAX_PDI as nat, |i: int| 0u8));
        group
    }
}

impl<H, const MAX_PDI: usize> SlaveGroup<H, MAX_PDI> {
    /// The group is well formed, and its image has the size that its type names.
    pub closed spec fn wf(&self) -> bool {
        &&& self.core.wf()
        &&& self.core@.max_pdi_len == MAX_PDI
    }

    /// The bytes of the image.
    pub closed spec fn pdi_view(&self) -> Seq<u8> {
        self.pdi@
    }

    /// The hook, where the group has one.
    pub closed spec fn hook_view(&self) -> Option<H> {
        self.core.hook_view()
    }

    /// What a well-formed group is known to be.
    pub proof fn lemma_wf(&self)
        requires
            self.wf(),
        ensures
            self@.wf(),
            self@.max_pdi_len == MAX_PDI,
            self@.has_hook == (self.hook_view() is Some),
            self.pdi_view().len() == MAX_PDI,
    {
        self.core.lemma_wf();
    }

    /// A group without slaves whose hook is `preop_safeop_hook`. Its image is all zero.
    pub fn new(preop_safeop_hook: H) -> (group: Self)
        ensures
            group.wf(),
            group@ == GroupState::empty(MAX_PDI as nat, true),
            group.hook_view() == Some(preop_safeop_hook),
            group.pdi_view() == Seq::new(MAX_PDI as nat, |i: int| 0u8),
    {
        let group = SlaveGroup {
            core: GroupCore::new(Some(preop_safeop_hook), MAX_PDI),
            pdi: [0u8;MAX_PDI],
        };
        assert(group.pdi@ =~= Seq::new(MAX_PDI as nat, |i: int| 0u8));
        group
    }

    /// Puts a slave behind those that the group holds. The slave joins without process data,
    /// whatever it brings. A group that is full stays as it is.
    pub fn push(&mut self, slave: Slave) -> (r: Result<(), Error>)
        requires
            old(self).wf(),
        ensures
            final(self).wf(),
            final(self).hook_view() == old(self).hook_view(),
            final(self).pdi_view() == old(self).pdi_view(),
            old(self)@.slaves.len() < MAX_SLAVES ==> r is Ok && final(self)@ == (GroupState {
                slaves: old(self)@.slaves.push(slave.unconfigured()),
                ..old(self)@
            }),
            old(self)@.slaves.len() >= MAX_SLAVES ==> r == Err::<(), Error>(Error::TooManySlaves)
                && final(self)@ == old(self)@,
    {
        self.core.push(slave)
    }

    /// The slaves of the group, in the order in which they were found.
    pub fn slaves(&self) -> (slaves: &[Slave])
        ensures
            slaves@ == self@.slaves,
    {
        self.core.slaves()
    }

    /// The hook that the driver runs for every slave while the group is configured.
    pub fn hook(&self) -> (hook: Option<&H>)
        ensures
            hook is Some <==> self.hook_view() is Some,
            hook matches Some(h) ==> self.hook_view() == Some(*h),
    {
        self.core.preop_safeop_hook.as_ref()
    }

    /// Whether the group's last configuration walk came to a good end.
    pub fn is_configured(&self) -> (configured: bool)
        ensures
            configured == self@.configured,
    {
        self.core.configured
    }

    /// The bytes of the image that the slaves' data takes.
    pub fn pdi_len(&self) -> (len: usize)
        ensures
            len == self@.pdi_len,
    {
        self.core.pdi_len
    }

    /// The logical address at which the image starts.
    pub fn start_address(&self) -> (address: u32)
        ensures
            address == self@.start_address,
    {
        self.core.start_address
    }

    /// The working counter that every exchange of the image must bring back.
    pub fn group_working_counter(&self) -> (working_counter: u16)
        ensures
            working_counter == self@.group_working_counter,
    {
        self.core.group_working_counter
    }

    /// What one cyclic exchange puts on the wire: a single logical read-write of the whole
    /// image, at the group's start address.
    pub fn lrw_request(&self) -> (request: (Command, u32, &[u8]))
        ensures
            request.0 == Command::ReadWrite,
            request.1 == self@.start_address,
            request.2@ == self.pdi_view(),
    {
        (Command::ReadWrite, self.core.start_address, &self.pdi)
    }

    /// The whole image.
    pub fn pdi(&self) -> (pdi: &[u8])
        ensures
            pdi@ == self.pdi_view(),
    {
        &self.pdi
    }

    /// The group without the size of its image in its type. What is done through the reference
    /// is done to the group.
    pub fn as_mut_ref(&mut self) -> (group: SlaveGroupRef<'_, H>)
        requires
            old(self).wf(),
        ensures
            group.wf(),
            group@ == old(self)@,
            group.hook_view() == old(self).hook_view(),
            final(self)@ == final(group.core)@,
            final(self).hook_view() == final(group.core).hook_view(),
            final(self).pdi_view() == old(self).pdi_view(),
            final(group.core).wf() && final(group.core)@.max_pdi_len == MAX_PDI ==> final(self).wf(),
    {
        SlaveGroupRef { core: &mut self.core }
    }

    /// The inputs and the outputs of the slave at `idx`, as slices of the group's image: the
    /// inputs to read, the outputs to write in place for the next exchange.
    ///
    /// There is no such pair for an `idx` that names no slave. A direction in which the slave
    /// has no data has no slice, and neither has any slave of a group that is not configured.
    /// The group changes in nothing but the bytes written through the slice of outputs.
    pub fn io(&mut self, idx: usize) -> (r: Option<(Option<&[u8]>, Option<&mut [u8]>)>)
        requires
            old(self).wf(),
        ensures
            final(self).wf(),
            final(self)@ == old(self)@,
            final(self).hook_view() == old(self).hook_view(),
            r is Some <==> idx < old(self)@.slaves.len(),
            r is None ==> final(self).pdi_view() == old(self).pdi_view(),
            r matches Some((input, output)) ==> {
                let io = usable_io(old(self)@, idx as int);
                &&& match input {
                    Some(i) => Some(i@),
                    None => None,
                } == segment_bytes(old(self).pdi_view(), io.input)
                &&& match output {
                    Some(o) => Some(o@),
                    None => None,
                } == segment_bytes(old(self).pdi_view(), io.output)
                &&& final(self).pdi_view() == with_segment_bytes(
                    old(self).pdi_view(),
                    io.output,
                    match output {
                        Some(o) => Some(final(o)@),
                        None => None,
                    },
                )
            },
    {
        let slaves = self.core.slaves();
        if idx >= slaves.len() {
            return None;
        }
        if !self.core.configured {
            return Some((None, None));
        }
        proof {
            lemma_packed_slave_within(self@.io(), idx as int);
        }
        let io = slaves[idx].io_segments();
        match (&io.input, &io.output) {
            (None, None) => Some((None, None)),
            (Some(i), None) => {
                let input = slice_subrange(self.pdi.as_slice(), i.bytes.start, i.bytes.end);
                Some((Some(input), None))
            },
            (None, Some(o)) => {
                let (_, output) = split_io(&mut self.pdi, 0, 0, o.bytes.start, o.bytes.end);
                Some((None, Some(output)))
            },
            (Some(i), Some(o)) => {
                let (input, output) = split_io(
                    &mut self.pdi,
                    i.bytes.start,
                    i.bytes.end,
                    o.bytes.start,
                    o.bytes.end,
                );
                Some((Some(input), Some(output)))
            },
        }
    }

    /// Ends one cyclic exchange: takes what the logical read-write of the whole image brought
    /// back, the data and the working counter, or the error with which it failed.
    ///
    /// [`exchanged`] says what becomes of the image and what is returned. Nothing else of the
    /// group changes.
    pub fn tx_rx(&mut self, response: Result<(&[u8], u16), Error>) -> (r: Result<(), Error>)
        requires
            old(self).wf(),
        ensures
            final(self).wf(),
            final(self)@ == old(self)@,
            final(self).hook_view() == old(self).hook_view(),
            (final(self).pdi_view(), r) == exchanged(
                old(self).pdi_view(),
                old(self)@.group_working_counter,
                match response {
                    Ok((data, working_counter)) => Ok((data@, working_counter)),
                    Err(error) => Err(error),
                },
            ),
    {
        match response {
            Err(error) => Err(error),
            Ok((data, working_counter)) => {
                if data.len() != MAX_PDI {
                    return Err(Error::Pdu(PduError::Decode));
                }
                copy_bytes(&mut self.pdi, data);
                check_working_counter(
                    self.core.group_working_counter,
                    working_counter,
                    Some("group working counter"),
                )
            },
        }
    }
}

/// Groups that are configured and driven together, in a fixed order.
pub trait SlaveGroupContainer<H> {
    /// The groups, in order.
    spec fn groups(&self) -> Seq<GroupState>;

    /// The hook of each group, where it has one.
    spec fn hooks(&self) -> Seq<Option<H>>;

    /// Every group of the container is well formed.
    spec fn wf(&self) -> bool;

    fn num_groups(&self) -> (count: usize)
        ensures
            count == self.groups().len(),
    ;

    /// The group at `index`, where there is one. What is done through the reference is done to
    /// that group, and the other groups stay as they are.
    fn group(&mut self, index: usize) -> (group: Option<SlaveGroupRef<'_, H>>)
        requires
            old(self).wf(),
        ensures
            group is Some <==> index < old(self).groups().len(),
            group is None ==> final(self).wf() && final(self).groups() == old(self).groups()
                && final(self).hooks() == old(self).hooks(),
            group matches Some(g) ==> {
                &&& g.wf()
                &&& g@ == old(self).groups()[index as int]
                &&& g.hook_view() == old(self).hooks()[index as int]
                &&& final(self).hooks() == old(self).hooks().update(
                    index as int,
                    final(g.core).hook_view(),
                )
                &&& final(self).groups() == old(self).groups().update(
                    index as int,
                    final(g.core)@,
                )
                &&& final(g.core).wf() && final(g.core)@.max_pdi_len == g@.max_pdi_len
                    ==> final(self).wf()
            },
    ;
}

impl<H, const MAX_PDI: usize, const N: usize> SlaveGroupContainer<H> for [SlaveGroup<H, MAX_PDI>; N] {
    open spec fn groups(&self) -> Seq<GroupState> {
        Seq::new(N as nat, |i: int| self[i]@)
    }

    open spec fn hooks(&self) -> Seq<Option<H>> {
        Seq::new(N as nat, |i: int| self[i].hook_view())
    }

    open spec fn wf(&self) -> bool {
        forall|i: int| 0 <= i < N ==> (#[trigger] self[i]).wf()
    }

    fn num_groups(&self) -> (count: usize) {
        N
    }

    fn group(&mut self, index: usize) -> (group: Option<SlaveGroupRef<'_, H>>) {
        if index < N {
            Some(self[index].as_mut_ref())
        } else {
            None
        }
    }
}

} // verus!
