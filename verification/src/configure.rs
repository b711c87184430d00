//! The walk that configures a group.
//!
//! A group is configured by a walk over its slaves, in the order in which they were found. The
//! walk is a state machine: the driver tells it what happened on the bus
//! ([`ConfigureEvent`]) and is told what to do next ([`ConfigureAction`]). For every slave the
//! driver brings the slave to SAFE-OP, runs the group's hook where it has one, and reads back
//! how many bytes of inputs and outputs the slave has. The walk then gives the slave its place
//! in the image, behind the slaves before it. When the last slave has its place, the walk
//! ends: well where all the data fits into the image, and else with nothing left of it.

use crate::error::Error;
use crate::pdi::{
    bounded, lemma_assign_next, lemma_assigned_at, lemma_packed_slave_within,
    lemma_packed_slaves_disjoint, lemma_total_len_bound, lemma_total_len_take_next,
    lemma_unassigned_is_packed, lemma_unassigned_tail, lemma_working_counter_total_bound,
    max_slave_len, packed, total_len, unassigned_from, working_counter_total, IoRanges, PdiOffset,
};
use crate::slave::{io_ranges, Slave};
use crate::slave_list::MAX_SLAVES;
use vstd::prelude::*;

verus! {

/// What the walk over a group's slaves waits for.
#[derive(Debug, Clone, Copy, PartialEq, Eq)]
pub enum WalkPhase {
    /// No walk is under way.
    Idle,
    /// The slave at hand was asked to go to SAFE-OP.
    SafeOp,
    /// The group's hook runs for the slave at hand.
    Hook,
    /// The sizes of the inputs and outputs of the slave at hand are read back.
    PdoSizes,
}

/// What the driver reports to the walk.
#[derive(Debug, Clone, Copy, PartialEq, Eq)]
pub enum ConfigureEvent {
    /// Configure the group anew. Its image starts at the offset given.
    Start(PdiOffset),
    /// The slave at hand reached SAFE-OP.
    SafeOpReached,
    /// The hook returned without an error.
    HookDone,
    /// The slave at hand has this many bytes of inputs and of outputs.
    PdoSizes { input_len: u16, output_len: u16 },
    /// What the walk asked for could not be done.
    Failed(Error),
}

/// What the walk asks of the driver, or how it ended.
#[derive(Debug, Clone, Copy, PartialEq, Eq)]
pub enum ConfigureAction {
    /// Bring the slave at this position of the group to SAFE-OP.
    RequestSafeOp { slave: usize },
    /// Run the group's hook for the slave at this position.
    RunHook { slave: usize },
    /// Read back the sizes of the slave's inputs and outputs.
    ReadPdoSizes { slave: usize },
    /// The group is configured. The image of the next group starts at the offset given.
    Done(PdiOffset),
    /// The group is not configured.
    Failed(Error),
}

/// A group as the contracts see it.
#[verifier::ext_equal]
pub struct GroupState {
    /// The slaves, in the order in which they were found.
    pub slaves: Seq<Slave>,
    /// Whether a hook runs for every slave while the group is configured.
    pub has_hook: bool,
    /// The bytes that the group's image can hold.
    pub max_pdi_len: nat,
    /// The bytes of the image that are in use.
    pub pdi_len: nat,
    /// The logical address at which the image starts.
    pub start_address: u32,
    /// The working counter expected of every exchange of the image.
    pub group_working_counter: u16,
    /// Whether the group's last configuration walk came to a good end.
    pub configured: bool,
    /// What the walk waits for.
    pub phase: WalkPhase,
    /// The position of the slave that the walk is at.
    pub index: nat,
}

impl GroupState {
    /// Where the slaves' data lies, slave by slave.
    pub open spec fn io(self) -> Seq<IoRanges> {
        io_ranges(self.slaves)
    }

    /// What holds of a group at all times.
    ///
    /// The slaves' data is packed from the start of the image, and the expected working counter
    /// is the sum of what the slaves contribute. A configured group uses exactly the bytes that
    /// its slaves need, and they fit into the image. A group that is neither configured nor
    /// being configured has no data assigned to any slave. During a walk the slaves from the
    /// one at hand on have no data yet.
    pub open spec fn wf(self) -> bool {
        &&& self.slaves.len() <= MAX_SLAVES
        &&& self.max_pdi_len <= usize::MAX
        &&& packed(self.io())
        &&& bounded(self.io())
        &&& self.group_working_counter == working_counter_total(self.io())
        &&& self.configured ==> {
            &&& self.phase is Idle
            &&& self.pdi_len == total_len(self.io())
            &&& self.pdi_len <= self.max_pdi_len
            &&& self.start_address + self.max_pdi_len <= u32::MAX
        }
        &&& !self.configured ==> self.pdi_len == 0
        &&& self.phase is Idle ==> {
            &&& self.index == 0
            &&& !self.configured ==> unassigned_from(self.io(), 0)
        }
        &&& !(self.phase is Idle) ==> {
            &&& self.index < self.slaves.len()
            &&& unassigned_from(self.io(), self.index as int)
            &&& self.start_address + self.max_pdi_len <= u32::MAX
        }
    }

    /// A group with room for `max_pdi_len` bytes, without slaves.
    pub open spec fn empty(max_pdi_len: nat, has_hook: bool) -> GroupState {
        GroupState {
            slaves: Seq::empty(),
            has_hook,
            max_pdi_len,
            pdi_len: 0,
            start_address: 0,
            group_working_counter: 0,
            configured: false,
            phase: WalkPhase::Idle,
            index: 0,
        }
    }

    /// The group with nothing left of any configuration: no slave has data assigned, no walk is
    /// under way, and the group is not configured.
    pub open spec fn cleared(self) -> GroupState {
        GroupState {
            slaves: self.slaves.map_values(|s: Slave| s.unconfigured()),
            pdi_len: 0,
            group_working_counter: 0,
            configured: false,
            phase: WalkPhase::Idle,
            index: 0,
            ..self
        }
    }

    /// The group after the slave at hand was given its place in the image.
    pub open spec fn assigned(self, input_len: u16, output_len: u16) -> GroupState {
        let io = IoRanges::assigned_at(total_len(self.io()), input_len as nat, output_len as nat);
        GroupState {
            slaves: self.slaves.update(
                self.index as int,
                self.slaves[self.index as int].with_io(io),
            ),
            group_working_counter: (self.group_working_counter
                + io.spec_working_counter_sum()) as u16,
            ..self
        }
    }

    /// One step of the configuration walk: the group after the event, and what the driver is to
    /// do next.
    ///
    /// `Start` clears the group and begins a walk at the first slave; a group without slaves is
    /// configured at once, with an empty image. The events `SafeOpReached`, `HookDone` and
    /// `PdoSizes` move the walk on where it waits for them. With the sizes of the last slave the
    /// walk ends: the group is configured where the data of all slaves fits into the image, and
    /// cleared where it does not. `Failed`, and any event that the walk does not wait for, ends
    /// a walk and clears the group. Where no walk is under way, only `Start` changes the group.
    pub open spec fn configure_step(self, event: ConfigureEvent) -> (GroupState, ConfigureAction) {
        match (self.phase, event) {
            (_, ConfigureEvent::Start(offset)) => {
                if offset.start_address + self.max_pdi_len > u32::MAX {
                    (self.cleared(), ConfigureAction::Failed(Error::AddressOverflow))
                } else if self.slaves.len() == 0 {
                    (
                        GroupState {
                            start_address: offset.start_address,
                            configured: true,
                            ..self.cleared()
                        },
                        ConfigureAction::Done(offset),
                    )
                } else {
                    (
                        GroupState {
                            start_address: offset.start_address,
                            phase: WalkPhase::SafeOp,
                            ..self.cleared()
                        },
                        ConfigureAction::RequestSafeOp { slave: 0 },
                    )
                }
            },
            (WalkPhase::Idle, _) => (self, ConfigureAction::Failed(Error::Internal)),
            (WalkPhase::SafeOp, ConfigureEvent::SafeOpReached) => if self.has_hook {
                (
                    GroupState { phase: WalkPhase::Hook, ..self },
                    ConfigureAction::RunHook { slave: self.index as usize },
                )
            } else {
                (
                    GroupState { phase: WalkPhase::PdoSizes, ..self },
                    ConfigureAction::ReadPdoSizes { slave: self.index as usize },
                )
            },
            (WalkPhase::Hook, ConfigureEvent::HookDone) => (
                GroupState { phase: WalkPhase::PdoSizes, ..self },
                ConfigureAction::ReadPdoSizes { slave: self.index as usize },
            ),
            (WalkPhase::PdoSizes, ConfigureEvent::PdoSizes { input_len, output_len }) => {
                let required = total_len(self.io()) + input_len + output_len;
                if self.index + 1 < self.slaves.len() {
                    (
                        GroupState {
                            phase: WalkPhase::SafeOp,
                            index: self.index + 1,
                            ..self.assigned(input_len, output_len)
                        },
                        ConfigureAction::RequestSafeOp { slave: (self.index + 1) as usize },
                    )
                } else if required > self.max_pdi_len {
                    (
                        self.cleared(),
                        ConfigureAction::Failed(
                            Error::PdiTooLong {
                                desired: self.max_pdi_len as usize,
                                required: required as usize,
                            },
                        ),
                    )
                } else {
                    (
                        GroupState {
                            pdi_len: required as nat,
                            configured: true,
                            phase: WalkPhase::Idle,
                            index: 0,
                            ..self.assigned(input_len, output_len)
                        },
                        ConfigureAction::Done(
                            PdiOffset { start_address: (self.start_address + required) as u32 },
                        ),
                    )
                }
            },
            (_, ConfigureEvent::Failed(error)) => (self.cleared(), ConfigureAction::Failed(error)),
            _ => (self.cleared(), ConfigureAction::Failed(Error::Internal)),
        }
    }
}

/// A cleared group is well formed.
pub proof fn lemma_cleared_wf(state: GroupState)
    requires
        state.slaves.len() <= MAX_SLAVES,
        state.max_pdi_len <= usize::MAX,
    ensures
        state.cleared().wf(),
        unassigned_from(state.cleared().io(), 0),
{
    let ios = state.cleared().io();
    assert forall|i: int| 0 <= i < ios.len() implies (#[trigger] ios[i]).is_unassigned() by {}
    lemma_unassigned_is_packed(ios);
}

/// What the walk knows once the slave at hand has its place: the slaves before it keep
/// theirs, those behind it have none yet, and the bytes and the working counter have grown by
/// what the slave adds.
pub proof fn lemma_assigned(state: GroupState, input_len: u16, output_len: u16)
    requires
        state.wf(),
        !(state.phase is Idle),
    ensures
        ({
            let next = state.assigned(input_len, output_len);
            let io = IoRanges::assigned_at(
                total_len(state.io()),
                input_len as nat,
                output_len as nat,
            );
            &&& next.io() == state.io().update(state.index as int, io)
            &&& packed(next.io())
            &&& bounded(next.io())
            &&& unassigned_from(next.io(), state.index as int + 1)
            &&& total_len(next.io()) == total_len(state.io()) + input_len + output_len
            &&& total_len(next.io()) <= MAX_SLAVES * max_slave_len()
            &&& next.group_working_counter == working_counter_total(next.io())
            &&& next.group_working_counter == state.group_working_counter
                + io.spec_working_counter_sum()
            &&& io.input_len() == input_len
            &&& io.output_len() == output_len
            &&& io.spec_working_counter_sum() == (if input_len > 0 {
                1nat
            } else {
                0nat
            }) + (if output_len > 0 {
                2nat
            } else {
                0nat
            })
        }),
{
    let ios = state.io();
    let index = state.index as int;
    let next = state.assigned(input_len, output_len);
    lemma_unassigned_tail(ios, index);
    lemma_total_len_bound(ios.take(index));
    assert(index * max_slave_len() <= 15 * max_slave_len()) by (nonlinear_arith)
        requires
            0 <= index <= 15,
    ;
    lemma_assign_next(ios, index, input_len as nat, output_len as nat);
    lemma_assigned_at(total_len(ios), input_len as nat, output_len as nat);
    assert(next.io() =~= ios.update(
        index,
        IoRanges::assigned_at(total_len(ios), input_len as nat, output_len as nat),
    ));
    lemma_working_counter_total_bound(next.io());
}

/// Every step of the walk leaves the group well formed. It keeps the slaves themselves, the
/// hook, and the size of the image.
pub proof fn lemma_configure_step_wf(state: GroupState, event: ConfigureEvent)
    requires
        state.wf(),
    ensures
        state.configure_step(event).0.wf(),
        state.configure_step(event).0.slaves.len() == state.slaves.len(),
        state.configure_step(event).0.has_hook == state.has_hook,
        state.configure_step(event).0.max_pdi_len == state.max_pdi_len,
{
    lemma_cleared_wf(state);
    if !(state.phase is Idle) {
        if let ConfigureEvent::PdoSizes { input_len, output_len } = event {
            lemma_assigned(state, input_len, output_len);
        }
    }
}

/// A step that fails leaves nothing of a walk. Where no walk was under way and none was asked
/// for, the group is as before. Else the group is cleared: it is not configured, no slave has
/// data, no byte is in use and no working counter is expected. And a step ends well only by
/// leaving the group configured.
pub proof fn lemma_failed_walk_leaves_nothing(state: GroupState, event: ConfigureEvent)
    requires
        state.wf(),
    ensures
        ({
            let (next, action) = state.configure_step(event);
            &&& action is Failed ==> next == (if state.phase is Idle && !(event is Start) {
                state
            } else {
                state.cleared()
            })
            &&& action is Done <==> next.configured && (event is Start || !(state.phase is Idle))
        }),
        !state.cleared().configured,
        state.cleared().pdi_len == 0,
        state.cleared().group_working_counter == 0,
        unassigned_from(state.cleared().io(), 0),
{
    lemma_cleared_wf(state);
    lemma_configure_step_wf(state, event);
}

/// With the sizes of the last slave the walk ends. Where the slaves need more bytes than the
/// image holds, it fails with the size of the image and the bytes needed, and the group is
/// cleared. Else the group is configured and uses the bytes needed.
pub proof fn lemma_last_slave_ends_walk(state: GroupState, input_len: u16, output_len: u16)
    requires
        state.wf(),
        state.phase is PdoSizes,
        state.index + 1 == state.slaves.len(),
    ensures
        ({
            let (next, action) = state.configure_step(
                ConfigureEvent::PdoSizes { input_len, output_len },
            );
            let required = total_len(state.io()) + input_len + output_len;
            &&& required <= usize::MAX
            &&& required > state.max_pdi_len ==> next == state.cleared() && action
                == ConfigureAction::Failed(
                Error::PdiTooLong {
                    desired: state.max_pdi_len as usize,
                    required: required as usize,
                },
            )
            &&& required <= state.max_pdi_len ==> next.configured && next.pdi_len == required
                && action == ConfigureAction::Done(
                PdiOffset { start_address: (state.start_address + required) as u32 },
            ) && state.start_address + required <= u32::MAX
        }),
{
    lemma_assigned(state, input_len, output_len);
}

/// In a configured group the bytes in use are the bytes that the slaves need together, the
/// expected working counter is the sum of what the slaves contribute, every slave's data lies
/// within the bytes in use, and no two segments overlap.
pub proof fn lemma_configured_layout(state: GroupState, i: int, j: int)
    requires
        state.wf(),
        state.configured,
        0 <= i < j < state.slaves.len(),
    ensures
        state.pdi_len == total_len(state.io()),
        state.pdi_len <= state.max_pdi_len,
        state.group_working_counter == working_counter_total(state.io()),
        state.io()[i].input matches Some(a) ==> a.bytes.start < a.bytes.end <= state.pdi_len,
        state.io()[i].output matches Some(a) ==> a.bytes.start < a.bytes.end <= state.pdi_len,
        state.io()[i].input matches Some(a) ==> (state.io()[i].output matches Some(b)
            ==> a.bytes.end <= b.bytes.start),
        state.io()[i].input matches Some(a) ==> (state.io()[j].input matches Some(b)
            ==> a.bytes.end <= b.bytes.start),
        state.io()[i].input matches Some(a) ==> (state.io()[j].output matches Some(b)
            ==> a.bytes.end <= b.bytes.start),
        state.io()[i].output matches Some(a) ==> (state.io()[j].input matches Some(b)
            ==> a.bytes.end <= b.bytes.start),
        state.io()[i].output matches Some(a) ==> (state.io()[j].output matches Some(b)
            ==> a.bytes.end <= b.bytes.start),
{
    lemma_packed_slave_within(state.io(), i);
    lemma_packed_slaves_disjoint(state.io(), i, j);
}

/// The bytes that slaves with these sizes of inputs and outputs need together.
pub open spec fn sizes_total(sizes: Seq<(u16, u16)>) -> nat
    decreases sizes.len(),
{
    if sizes.len() == 0 {
        0
    } else {
        sizes_total(sizes.drop_last()) + sizes.last().0 as nat + sizes.last().1 as nat
    }
}

/// The working counter that slaves with these sizes bring back: each counts one if it has
/// inputs and two more if it has outputs.
pub open spec fn sizes_working_counter(sizes: Seq<(u16, u16)>) -> nat
    decreases sizes.len(),
{
    if sizes.len() == 0 {
        0
    } else {
        sizes_working_counter(sizes.drop_last()) + (if sizes.last().0 > 0 {
            1nat
        } else {
            0nat
        }) + (if sizes.last().1 > 0 {
            2nat
        } else {
            0nat
        })
    }
}

/// Where the data of slaves with these sizes lies: each slave's data behind that of the slaves
/// before it.
pub open spec fn layout(sizes: Seq<(u16, u16)>) -> Seq<IoRanges> {
    Seq::new(
        sizes.len(),
        |i: int| IoRanges::assigned_at(sizes_total(sizes.take(i)), sizes[i].0 as nat, sizes[i].1 as nat),
    )
}

impl GroupState {
    /// What the walk makes of the slave at hand where nothing fails on the bus: the slave
    /// reaches SAFE-OP, the hook runs where there is one, and the sizes are read back.
    pub open spec fn slave_walked(self, sizes: (u16, u16)) -> (GroupState, ConfigureAction) {
        let reached = self.configure_step(ConfigureEvent::SafeOpReached).0;
        let hooked = if self.has_hook {
            reached.configure_step(ConfigureEvent::HookDone).0
        } else {
            reached
        };
        hooked.configure_step(ConfigureEvent::PdoSizes { input_len: sizes.0, output_len: sizes.1 })
    }

    /// The rest of such a walk, from the slave at `from` on.
    pub open spec fn walked_from(self, sizes: Seq<(u16, u16)>, from: nat) -> (
        GroupState,
        ConfigureAction,
    )
        decreases sizes.len() - from,
    {
        if from >= sizes.len() {
            (self, ConfigureAction::Failed(Error::Internal))
        } else if from + 1 == sizes.len() {
            self.slave_walked(sizes[from as int])
        } else {
            self.slave_walked(sizes[from as int]).0.walked_from(sizes, from + 1)
        }
    }

    /// A whole walk in which nothing fails on the bus, over slaves with the sizes given: the
    /// group at its end, and how it ended.
    pub open spec fn walked(self, offset: PdiOffset, sizes: Seq<(u16, u16)>) -> (
        GroupState,
        ConfigureAction,
    ) {
        let (started, action) = self.configure_step(ConfigureEvent::Start(offset));
        if action is RequestSafeOp {
            started.walked_from(sizes, 0)
        } else {
            (started, action)
        }
    }

    /// The group as a walk that fits leaves it.
    pub open spec fn configured_with(self, offset: PdiOffset, sizes: Seq<(u16, u16)>) -> GroupState {
        GroupState {
            slaves: Seq::new(
                self.slaves.len(),
                |i: int| self.slaves[i].with_io(layout(sizes)[i]),
            ),
            pdi_len: sizes_total(sizes),
            start_address: offset.start_address,
            group_working_counter: sizes_working_counter(sizes) as u16,
            configured: true,
            phase: WalkPhase::Idle,
            index: 0,
            ..self
        }
    }
}

/// One more slave adds its sizes to those before it.
pub proof fn lemma_sizes_take_next(sizes: Seq<(u16, u16)>, i: int)
    requires
        0 <= i < sizes.len(),
    ensures
        sizes_total(sizes.take(i + 1)) == sizes_total(sizes.take(i)) + sizes[i].0 + sizes[i].1,
        sizes_working_counter(sizes.take(i + 1)) == sizes_working_counter(sizes.take(i)) + (
        if sizes[i].0 > 0 {
            1nat
        } else {
            0nat
        }) + (if sizes[i].1 > 0 {
            2nat
        } else {
            0nat
        }),
{
    assert(sizes.take(i + 1).drop_last() =~= sizes.take(i));
}

/// The layout of any sizes is packed: it takes as many bytes as the sizes add up to, brings
/// back the working counter that the sizes tell, and none of its segments overlap.
pub proof fn lemma_layout_packed(sizes: Seq<(u16, u16)>)
    requires
        sizes_total(sizes) <= usize::MAX,
    ensures
        packed(layout(sizes)),
        total_len(layout(sizes)) == sizes_total(sizes),
        working_counter_total(layout(sizes)) == sizes_working_counter(sizes),
        forall|i: int|
            0 <= i < sizes.len() ==> (#[trigger] layout(sizes)[i]).input_len() == sizes[i].0 && layout(
                sizes,
            )[i].output_len() == sizes[i].1,
{
    reveal(packed);
    lemma_layout_prefix(sizes, sizes.len());
    assert(sizes.take(sizes.len() as int) =~= sizes);
    assert(layout(sizes).take(sizes.len() as int) =~= layout(sizes));
    assert forall|i: int| 0 <= i < sizes.len() implies (#[trigger] layout(sizes)[i]).placed_at(
        total_len(layout(sizes).take(i)),
    ) && layout(sizes)[i].input_len() == sizes[i].0 && layout(sizes)[i].output_len()
        == sizes[i].1 by {
        lemma_layout_prefix(sizes, i as nat);
        lemma_layout_prefix(sizes, (i + 1) as nat);
        lemma_sizes_take_next(sizes, i);
        lemma_sizes_take_monotonic(sizes, i + 1, sizes.len() as int);
        lemma_assigned_at(
            sizes_total(sizes.take(i)),
            sizes[i].0 as nat,
            sizes[i].1 as nat,
        );
    }
}

/// The sizes of the first slaves add up to no more than those of all.
pub proof fn lemma_sizes_take_monotonic(sizes: Seq<(u16, u16)>, i: int, j: int)
    requires
        0 <= i <= j <= sizes.len(),
    ensures
        sizes_total(sizes.take(i)) <= sizes_total(sizes.take(j)),
    decreases j - i,
{
    if i < j {
        lemma_sizes_take_monotonic(sizes, i, j - 1);
        lemma_sizes_take_next(sizes, j - 1);
    } else {
    }
    assert(sizes.take(sizes.len() as int) =~= sizes);
}

/// The first `n` slaves of a layout take the bytes that their sizes add up to.
pub proof fn lemma_layout_prefix(sizes: Seq<(u16, u16)>, n: nat)
    requires
        n <= sizes.len(),
        sizes_total(sizes) <= usize::MAX,
    ensures
        total_len(layout(sizes).take(n as int)) == sizes_total(sizes.take(n as int)),
        working_counter_total(layout(sizes).take(n as int)) == sizes_working_counter(
            sizes.take(n as int),
        ),
    decreases n,
{
    if n == 0 {
        assert(sizes.take(0) =~= Seq::<(u16, u16)>::empty());
        assert(layout(sizes).take(0) =~= Seq::<IoRanges>::empty());
    } else {
        let i = (n - 1) as int;
        lemma_layout_prefix(sizes, (n - 1) as nat);
        lemma_sizes_take_next(sizes, i);
        lemma_total_len_take_next(layout(sizes), i);
        lemma_sizes_take_monotonic(sizes, n as int, sizes.len() as int);
        assert(sizes.take(sizes.len() as int) =~= sizes);
        lemma_assigned_at(
            sizes_total(sizes.take(i)),
            sizes[i].0 as nat,
            sizes[i].1 as nat,
        );
    }
}

impl GroupState {
    /// How a walk in which nothing fails on the bus ends, told from the sizes alone.
    ///
    /// An image that does not fit into the logical address space fails the walk at its start.
    /// Data that does not fit into the image fails it at its end, with the size of the image
    /// and the bytes that the slaves need; nothing is left of the walk but the start address.
    /// Else the group is configured: the bytes in use are the sum of the sizes, every slave
    /// has its place in the layout of the sizes, the working counter is the one that the sizes
    /// tell, and the next group starts behind the bytes in use.
    pub open spec fn walk_outcome(self, offset: PdiOffset, sizes: Seq<(u16, u16)>) -> (
        GroupState,
        ConfigureAction,
    ) {
        if offset.start_address + self.max_pdi_len > u32::MAX {
            (self.cleared(), ConfigureAction::Failed(Error::AddressOverflow))
        } else if sizes_total(sizes) > self.max_pdi_len {
            (
                GroupState { start_address: offset.start_address, ..self.cleared() },
                ConfigureAction::Failed(
                    Error::PdiTooLong {
                        desired: self.max_pdi_len as usize,
                        required: sizes_total(sizes) as usize,
                    },
                ),
            )
        } else {
            (
                self.configured_with(offset, sizes),
                ConfigureAction::Done(
                    PdiOffset { start_address: (offset.start_address + sizes_total(sizes)) as u32 },
                ),
            )
        }
    }

    /// The group in the middle of a walk that began at `self`: the slaves before `from` have
    /// their place in the layout of `sizes`, the others have none.
    pub open spec fn walking(self, state: GroupState, offset: PdiOffset, sizes: Seq<(u16, u16)>, from: nat) -> bool {
        &&& state.slaves == Seq::new(
            self.slaves.len(),
            |i: int|
                if i < from {
                    self.slaves[i].with_io(layout(sizes)[i])
                } else {
                    self.slaves[i].unconfigured()
                },
        )
        &&& state.has_hook == self.has_hook
        &&& state.max_pdi_len == self.max_pdi_len
        &&& state.pdi_len == 0
        &&& state.start_address == offset.start_address
        &&& state.group_working_counter == sizes_working_counter(sizes.take(from as int))
        &&& !state.configured
        &&& state.phase is SafeOp
        &&& state.index == from
        &&& total_len(state.io()) == sizes_total(sizes.take(from as int))
    }
}

/// Up to the sizes, the walk's steps for one slave change nothing but what the walk waits for.
proof fn lemma_slave_walked(state: GroupState, sizes: (u16, u16))
    requires
        state.wf(),
        state.phase is SafeOp,
    ensures
        (GroupState { phase: WalkPhase::PdoSizes, ..state }).wf(),
        state.slave_walked(sizes) == (GroupState { phase: WalkPhase::PdoSizes, ..state }).configure_step(
            ConfigureEvent::PdoSizes { input_len: sizes.0, output_len: sizes.1 },
        ),
{
}

/// A slave that is not the last gets its place, and the walk goes on to the next.
proof fn lemma_walked_on(
    start: GroupState,
    state: GroupState,
    offset: PdiOffset,
    sizes: Seq<(u16, u16)>,
    from: nat,
)
    requires
        start.wf(),
        state.wf(),
        sizes.len() == start.slaves.len(),
        from + 1 < sizes.len(),
        start.walking(state, offset, sizes, from),
    ensures
        state.slave_walked(sizes[from as int]).0.wf(),
        start.walking(state.slave_walked(sizes[from as int]).0, offset, sizes, from + 1),
{
    let (input_len, output_len) = sizes[from as int];
    let hooked = GroupState { phase: WalkPhase::PdoSizes, ..state };
    lemma_slave_walked(state, sizes[from as int]);
    let event = ConfigureEvent::PdoSizes { input_len, output_len };
    let next = hooked.configure_step(event).0;
    lemma_configure_step_wf(hooked, event);
    lemma_assigned(hooked, input_len, output_len);
    lemma_sizes_take_next(sizes, from as int);
    assert(next == GroupState {
        phase: WalkPhase::SafeOp,
        index: from + 1,
        ..hooked.assigned(input_len, output_len)
    });
    assert(next.slaves =~= Seq::new(
        start.slaves.len(),
        |i: int|
            if i < from + 1 {
                start.slaves[i].with_io(layout(sizes)[i])
            } else {
                start.slaves[i].unconfigured()
            },
    ));
}

/// The last slave gets its place, and the walk ends as the sizes tell.
proof fn lemma_walked_out(
    start: GroupState,
    state: GroupState,
    offset: PdiOffset,
    sizes: Seq<(u16, u16)>,
    from: nat,
)
    requires
        start.wf(),
        state.wf(),
        sizes.len() == start.slaves.len(),
        offset.start_address + start.max_pdi_len <= u32::MAX,
        from + 1 == sizes.len(),
        start.walking(state, offset, sizes, from),
    ensures
        state.slave_walked(sizes[from as int]) == start.walk_outcome(offset, sizes),
{
    let (input_len, output_len) = sizes[from as int];
    let hooked = GroupState { phase: WalkPhase::PdoSizes, ..state };
    lemma_slave_walked(state, sizes[from as int]);
    let event = ConfigureEvent::PdoSizes { input_len, output_len };
    let (next, action) = hooked.configure_step(event);
    lemma_assigned(hooked, input_len, output_len);
    lemma_sizes_take_next(sizes, from as int);
    assert(sizes.take(sizes.len() as int) =~= sizes);
    assert(total_len(hooked.io()) + input_len + output_len == sizes_total(sizes));
    if sizes_total(sizes) > start.max_pdi_len {
        assert(next == hooked.cleared());
        assert(hooked.cleared().slaves =~= start.cleared().slaves);
        assert(next =~= GroupState { start_address: offset.start_address, ..start.cleared() });
    } else {
        assert(next == GroupState {
            pdi_len: sizes_total(sizes),
            configured: true,
            phase: WalkPhase::Idle,
            index: 0,
            ..hooked.assigned(input_len, output_len)
        });
        assert(next.slaves =~= start.configured_with(offset, sizes).slaves);
        assert(next =~= start.configured_with(offset, sizes));
    }
}

proof fn lemma_walked_from(
    start: GroupState,
    state: GroupState,
    offset: PdiOffset,
    sizes: Seq<(u16, u16)>,
    from: nat,
)
    requires
        start.wf(),
        state.wf(),
        sizes.len() == start.slaves.len(),
        offset.start_address + start.max_pdi_len <= u32::MAX,
        from < sizes.len(),
        start.walking(state, offset, sizes, from),
    ensures
        state.walked_from(sizes, from) == start.walk_outcome(offset, sizes),
    decreases sizes.len() - from,
{
    if from + 1 == sizes.len() {
        lemma_walked_out(start, state, offset, sizes, from);
    } else {
        lemma_walked_on(start, state, offset, sizes, from);
        lemma_walked_from(
            start,
            state.slave_walked(sizes[from as int]).0,
            offset,
            sizes,
            from + 1,
        );
    }
}

/// The walk as a whole. Whatever state the group is in, a walk over its slaves in which nothing
/// fails on the bus ends as [`GroupState::walk_outcome`] tells from the sizes of the slaves:
/// the bytes in use are the sum of the sizes, the working counter is the sum of what the
/// slaves contribute, and too much data leaves nothing behind.
pub proof fn lemma_walk(state: GroupState, offset: PdiOffset, sizes: Seq<(u16, u16)>)
    requires
        state.wf(),
        sizes.len() == state.slaves.len(),
    ensures
        state.walked(offset, sizes) == state.walk_outcome(offset, sizes),
        state.walked(offset, sizes).0.wf(),
{
    lemma_cleared_wf(state);
    let (started, action) = state.configure_step(ConfigureEvent::Start(offset));
    lemma_configure_step_wf(state, ConfigureEvent::Start(offset));
    if offset.start_address + state.max_pdi_len > u32::MAX {
    } else if state.slaves.len() == 0 {
        assert(sizes =~= Seq::<(u16, u16)>::empty());
        assert(started.slaves =~= state.configured_with(offset, sizes).slaves);
        assert(started =~= state.configured_with(offset, sizes));
    } else {
        assert(sizes.take(0) =~= Seq::<(u16, u16)>::empty());
        lemma_unassigned_is_packed(started.io());
        assert(started.slaves =~= Seq::new(
            state.slaves.len(),
            |i: int|
                if i < 0 {
                    state.slaves[i].with_io(layout(sizes)[i])
                } else {
                    state.slaves[i].unconfigured()
                },
        ));
        lemma_walked_from(state, started, offset, sizes, 0);
    }
    if state.walk_outcome(offset, sizes).1 is Done {
        lemma_walk_outcome_wf(state, offset, sizes);
    }
}

/// A walk that fits leaves the group well formed, with the layout of the sizes.
pub proof fn lemma_walk_outcome_wf(state: GroupState, offset: PdiOffset, sizes: Seq<(u16, u16)>)
    requires
        state.wf(),
        sizes.len() == state.slaves.len(),
        offset.start_address + state.max_pdi_len <= u32::MAX,
        sizes_total(sizes) <= state.max_pdi_len,
    ensures
        state.configured_with(offset, sizes).io() == layout(sizes),
        state.configured_with(offset, sizes).wf(),
        state.configured_with(offset, sizes).group_working_counter == sizes_working_counter(sizes),
{
    let end = state.configured_with(offset, sizes);
    assert(end.io() =~= layout(sizes));
    lemma_layout_packed(sizes);
    lemma_working_counter_total_bound(layout(sizes));
    assert forall|i: int| 0 <= i < layout(sizes).len() implies (#[trigger] layout(sizes)[i]).total_len()
        <= max_slave_len() by {}
}

} // verus!
