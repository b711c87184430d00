//! The layout of a process data image: where in a group's buffer each slave's inputs and
//! outputs lie.
//!
//! Slaves are given their bytes in the order in which they were found, back to back: a slave's
//! inputs start where the slave before it ended, its outputs follow its inputs. A direction in
//! which a slave has no data gets no segment at all.

use core::ops::Range;
use vstd::prelude::*;

verus! {

/// A position in the logical address space, handed from one group to the next.
#[derive(Debug, Clone, Copy, PartialEq, Eq, Default)]
pub struct PdiOffset {
    pub start_address: u32,
}

/// A run of bytes in a group's process data image, counted from the start of the image.
#[derive(Debug, PartialEq, Eq)]
pub struct PdiSegment {
    pub bytes: Range<usize>,
}

impl PdiSegment {
    /// The number of bytes in the segment.
    pub open spec fn spec_len(&self) -> nat {
        if self.bytes.start <= self.bytes.end {
            (self.bytes.end - self.bytes.start) as nat
        } else {
            0
        }
    }

    /// The number of bytes in the segment.
    pub fn len(&self) -> (n: usize)
        ensures
            n == self.spec_len(),
    {
        if self.bytes.start <= self.bytes.end {
            self.bytes.end - self.bytes.start
        } else {
            0
        }
    }
}

/// The bytes a segment that may be absent covers: none where it is absent.
pub open spec fn segment_len(segment: Option<PdiSegment>) -> nat {
    match segment {
        Some(s) => s.spec_len(),
        None => 0,
    }
}

/// Where one slave's inputs and outputs lie in its group's image.
#[derive(Debug, PartialEq, Eq)]
pub struct IoRanges {
    pub input: Option<PdiSegment>,
    pub output: Option<PdiSegment>,
}

impl IoRanges {
    /// No inputs and no outputs.
    pub open spec fn unassigned() -> IoRanges {
        IoRanges { input: None, output: None }
    }

    /// The slave has no segment in either direction.
    pub open spec fn is_unassigned(&self) -> bool {
        self.input is None && self.output is None
    }

    /// The bytes of the slave's inputs.
    pub open spec fn input_len(&self) -> nat {
        segment_len(self.input)
    }

    /// The bytes of the slave's outputs.
    pub open spec fn output_len(&self) -> nat {
        segment_len(self.output)
    }

    /// The bytes of both directions together.
    pub open spec fn total_len(&self) -> nat {
        self.input_len() + self.output_len()
    }

    /// What the slave adds to the working counter of a logical read-write: one for being read,
    /// two for being written.
    pub open spec fn spec_working_counter_sum(&self) -> nat {
        (if self.input is Some { 1nat } else { 0nat }) + (if self.output is Some { 2nat } else { 0nat })
    }

    /// The ranges of a slave with `input_len` bytes of inputs and `output_len` bytes of outputs
    /// whose data starts at byte `at`: inputs first, outputs behind them, and no segment for a
    /// direction without data.
    pub open spec fn assigned_at(at: nat, input_len: nat, output_len: nat) -> IoRanges {
        IoRanges {
            input: if input_len > 0 {
                Some(PdiSegment { bytes: (at as usize)..((at + input_len) as usize) })
            } else {
                None
            },
            output: if output_len > 0 {
                Some(
                    PdiSegment {
                        bytes: ((at + input_len) as usize)..((at + input_len + output_len) as usize),
                    },
                )
            } else {
                None
            },
        }
    }

    /// The slave's data starts at byte `at`, and every segment it has holds at least one byte.
    pub open spec fn placed_at(&self, at: nat) -> bool {
        &&& self.input matches Some(s) ==> s.bytes.start == at && s.bytes.start < s.bytes.end
        &&& self.output matches Some(s) ==> s.bytes.start == at + self.input_len() && s.bytes.start
            < s.bytes.end
    }

    /// The ranges of a slave that has no place in an image yet.
    pub fn new() -> (io: IoRanges)
        ensures
            io == IoRanges::unassigned(),
    {
        IoRanges { input: None, output: None }
    }

    /// What the slave adds to the working counter of a logical read-write.
    pub fn working_counter_sum(&self) -> (sum: u16)
        ensures
            sum == self.spec_working_counter_sum(),
    {
        let read: u16 = if self.input.is_some() {
            1
        } else {
            0
        };
        let written: u16 = if self.output.is_some() {
            2
        } else {
            0
        };
        read + written
    }

    /// Lays a slave's data out from byte `at` on.
    pub fn assign(at: usize, input_len: u16, output_len: u16) -> (io: IoRanges)
        requires
            at + input_len + output_len <= usize::MAX,
        ensures
            io == IoRanges::assigned_at(at as nat, input_len as nat, output_len as nat),
    {
        let input_end: usize = at + input_len as usize;
        let output_end: usize = input_end + output_len as usize;
        let input = if input_len > 0 {
            Some(PdiSegment { bytes: at..input_end })
        } else {
            None
        };
        let output = if output_len > 0 {
            Some(PdiSegment { bytes: input_end..output_end })
        } else {
            None
        };
        IoRanges { input, output }
    }
}

/// The bytes that all the slaves of `ios` need together.
pub open spec fn total_len(ios: Seq<IoRanges>) -> nat
    decreases ios.len(),
{
    if ios.len() == 0 {
        0
    } else {
        total_len(ios.drop_last()) + ios.last().total_len()
    }
}

/// The working counter of a logical read-write that reaches all the slaves of `ios`.
pub open spec fn working_counter_total(ios: Seq<IoRanges>) -> nat
    decreases ios.len(),
{
    if ios.len() == 0 {
        0
    } else {
        working_counter_total(ios.drop_last()) + ios.last().spec_working_counter_sum()
    }
}

/// Every slave's data starts where the data of the slaves before it ends.
#[verifier::opaque]
pub open spec fn packed(ios: Seq<IoRanges>) -> bool {
    forall|i: int| 0 <= i < ios.len() ==> (#[trigger] ios[i]).placed_at(total_len(ios.take(i)))
}

/// No slave of `ios` from position `from` on has a segment.
pub open spec fn unassigned_from(ios: Seq<IoRanges>, from: int) -> bool {
    forall|i: int| 0 <= i && from <= i < ios.len() ==> (#[trigger] ios[i]).is_unassigned()
}

/// The ranges laid out from a byte on start there and have the sizes asked for.
pub proof fn lemma_assigned_at(at: nat, input_len: nat, output_len: nat)
    requires
        at + input_len + output_len <= usize::MAX,
    ensures
        IoRanges::assigned_at(at, input_len, output_len).placed_at(at),
        IoRanges::assigned_at(at, input_len, output_len).input_len() == input_len,
        IoRanges::assigned_at(at, input_len, output_len).output_len() == output_len,
        IoRanges::assigned_at(at, input_len, output_len).spec_working_counter_sum() == (if input_len
            > 0 {
            1nat
        } else {
            0nat
        }) + (if output_len > 0 {
            2nat
        } else {
            0nat
        }),
{
}

/// The bytes that the first `n` slaves need do not shrink as `n` grows.
pub proof fn lemma_total_len_take_monotonic(ios: Seq<IoRanges>, i: int, j: int)
    requires
        0 <= i <= j <= ios.len(),
    ensures
        total_len(ios.take(i)) <= total_len(ios.take(j)),
    decreases j - i,
{
    if i < j {
        lemma_total_len_take_monotonic(ios, i, j - 1);
        assert(ios.take(j).drop_last() =~= ios.take(j - 1));
    }
}

/// One more slave adds its own bytes to those of the slaves before it.
pub proof fn lemma_total_len_take_next(ios: Seq<IoRanges>, i: int)
    requires
        0 <= i < ios.len(),
    ensures
        total_len(ios.take(i + 1)) == total_len(ios.take(i)) + ios[i].total_len(),
        working_counter_total(ios.take(i + 1)) == working_counter_total(ios.take(i))
            + ios[i].spec_working_counter_sum(),
{
    assert(ios.take(i + 1).drop_last() =~= ios.take(i));
}

/// Slaves without segments add nothing.
pub proof fn lemma_unassigned_tail(ios: Seq<IoRanges>, from: int)
    requires
        0 <= from <= ios.len(),
        unassigned_from(ios, from),
    ensures
        total_len(ios) == total_len(ios.take(from)),
        working_counter_total(ios) == working_counter_total(ios.take(from)),
    decreases ios.len() - from,
{
    if from < ios.len() {
        lemma_total_len_take_next(ios, from);
        lemma_unassigned_tail(ios, from + 1);
    } else {
        assert(ios.take(from) =~= ios);
    }
}

/// Where no slave has a segment, nothing is needed, and the slaves are packed.
pub proof fn lemma_unassigned_is_packed(ios: Seq<IoRanges>)
    requires
        unassigned_from(ios, 0),
    ensures
        total_len(ios) == 0,
        working_counter_total(ios) == 0,
        packed(ios),
{
    reveal(packed);
    lemma_unassigned_tail(ios, 0);
    assert(ios.take(0) =~= Seq::<IoRanges>::empty());
}

/// Every slave contributes at most three to the working counter.
pub proof fn lemma_working_counter_total_bound(ios: Seq<IoRanges>)
    ensures
        working_counter_total(ios) <= 3 * ios.len(),
    decreases ios.len(),
{
    if ios.len() > 0 {
        lemma_working_counter_total_bound(ios.drop_last());
    }
}

/// The most bytes that the data of one slave can take: both directions at their largest.
pub open spec fn max_slave_len() -> nat {
    2 * 0xffff
}

/// No slave of `ios` holds more data than a slave can have.
pub open spec fn bounded(ios: Seq<IoRanges>) -> bool {
    forall|i: int| 0 <= i < ios.len() ==> (#[trigger] ios[i]).total_len() <= max_slave_len()
}

/// The slaves of a bounded image need no more together than each could need alone.
pub proof fn lemma_total_len_bound(ios: Seq<IoRanges>)
    requires
        bounded(ios),
    ensures
        total_len(ios) <= ios.len() * max_slave_len(),
    decreases ios.len(),
{
    if ios.len() > 0 {
        assert(ios.drop_last().len() == ios.len() - 1);
        assert forall|i: int| 0 <= i < ios.drop_last().len() implies (#[trigger] ios.drop_last()[i]).total_len()
            <= max_slave_len() by {
            assert(ios.drop_last()[i] == ios[i]);
        }
        lemma_total_len_bound(ios.drop_last());
        assert(ios.last() == ios[ios.len() - 1]);
        assert(total_len(ios) <= (ios.len() - 1) * max_slave_len() + max_slave_len());
        assert((ios.len() - 1) * max_slave_len() + max_slave_len() == ios.len() * max_slave_len())
            by (nonlinear_arith);
    }
}

/// A slave that joins without segments leaves the layout as it is.
pub proof fn lemma_push_unassigned(ios: Seq<IoRanges>)
    ensures
        total_len(ios.push(IoRanges::unassigned())) == total_len(ios),
        working_counter_total(ios.push(IoRanges::unassigned())) == working_counter_total(ios),
        packed(ios) ==> packed(ios.push(IoRanges::unassigned())),
        bounded(ios) ==> bounded(ios.push(IoRanges::unassigned())),
        forall|from: int|
            unassigned_from(ios, from) ==> #[trigger] unassigned_from(
                ios.push(IoRanges::unassigned()),
                from,
            ),
{
    reveal(packed);
    let pushed = ios.push(IoRanges::unassigned());
    assert(pushed.drop_last() =~= ios);
    if packed(ios) {
        assert forall|i: int| 0 <= i < pushed.len() implies (#[trigger] pushed[i]).placed_at(
            total_len(pushed.take(i)),
        ) by {
            if i < ios.len() {
                assert(pushed.take(i) =~= ios.take(i));
                assert(ios[i].placed_at(total_len(ios.take(i))));
            }
        }
    }
    if bounded(ios) {
        assert forall|i: int| 0 <= i < pushed.len() implies (#[trigger] pushed[i]).total_len()
            <= max_slave_len() by {
            if i < ios.len() {
                assert(pushed[i] == ios[i]);
            }
        }
    }
    assert forall|from: int| unassigned_from(ios, from) implies #[trigger] unassigned_from(
        pushed,
        from,
    ) by {
        assert forall|i: int| 0 <= i && from <= i < pushed.len() implies (#[trigger] pushed[i]).is_unassigned() by {
            if i < ios.len() {
                assert(pushed[i] == ios[i]);
            }
        }
    }
}

/// The step of the layout: the first slave without segments gets its data behind all that is
/// assigned so far.
pub proof fn lemma_assign_next(ios: Seq<IoRanges>, index: int, input_len: nat, output_len: nat)
    requires
        0 <= index < ios.len(),
        packed(ios),
        bounded(ios),
        unassigned_from(ios, index),
        input_len <= 0xffff,
        output_len <= 0xffff,
        total_len(ios) + input_len + output_len <= usize::MAX,
    ensures
        ({
            let next = ios.update(index, IoRanges::assigned_at(total_len(ios), input_len, output_len));
            &&& packed(next)
            &&& bounded(next)
            &&& unassigned_from(next, index + 1)
            &&& total_len(next) == total_len(ios) + input_len + output_len
            &&& working_counter_total(next) == working_counter_total(ios) + next[index].spec_working_counter_sum()
        }),
{
    reveal(packed);
    let at = total_len(ios);
    let io = IoRanges::assigned_at(at, input_len, output_len);
    let next = ios.update(index, io);
    lemma_assigned_at(at, input_len, output_len);
    lemma_unassigned_tail(ios, index);
    assert(next.take(index) =~= ios.take(index));
    assert forall|i: int| 0 <= i < next.len() implies (#[trigger] next[i]).placed_at(
        total_len(next.take(i)),
    ) by {
        if i < index {
            assert(next.take(i) =~= ios.take(i));
            assert(ios[i].placed_at(total_len(ios.take(i))));
        } else if i > index {
            assert(ios[i].is_unassigned());
        }
    }
    assert forall|i: int| 0 <= i < next.len() implies (#[trigger] next[i]).total_len()
        <= max_slave_len() by {
        if i != index {
            assert(next[i] == ios[i]);
        }
    }
    assert forall|i: int| index + 1 <= i < next.len() implies (#[trigger] next[i]).is_unassigned() by {
        assert(next[i] == ios[i]);
    }
    lemma_total_len_take_next(next, index);
    lemma_unassigned_tail(next, index + 1);
}

/// In a packed image the segments of different slaves do not overlap, and the data of a slave
/// found later lies behind the data of one found earlier.
pub proof fn lemma_packed_slaves_disjoint(ios: Seq<IoRanges>, i: int, j: int)
    requires
        packed(ios),
        0 <= i < j < ios.len(),
    ensures
        ios[i].input matches Some(a) ==> (ios[j].input matches Some(b) ==> a.bytes.end
            <= b.bytes.start),
        ios[i].input matches Some(a) ==> (ios[j].output matches Some(b) ==> a.bytes.end
            <= b.bytes.start),
        ios[i].output matches Some(a) ==> (ios[j].input matches Some(b) ==> a.bytes.end
            <= b.bytes.start),
        ios[i].output matches Some(a) ==> (ios[j].output matches Some(b) ==> a.bytes.end
            <= b.bytes.start),
{
    reveal(packed);
    lemma_total_len_take_next(ios, i);
    lemma_total_len_take_monotonic(ios, i + 1, j);
    assert(ios[i].placed_at(total_len(ios.take(i))));
    assert(ios[j].placed_at(total_len(ios.take(j))));
}

/// In a packed image a slave's inputs end where its outputs start or before, and all its data
/// lies within the bytes that the slaves need together.
pub proof fn lemma_packed_slave_within(ios: Seq<IoRanges>, i: int)
    requires
        packed(ios),
        0 <= i < ios.len(),
    ensures
        ios[i].input matches Some(a) ==> (ios[i].output matches Some(b) ==> a.bytes.end
            <= b.bytes.start),
        ios[i].input matches Some(a) ==> a.bytes.start < a.bytes.end <= total_len(ios),
        ios[i].output matches Some(b) ==> b.bytes.start < b.bytes.end <= total_len(ios),
{
    reveal(packed);
    lemma_total_len_take_next(ios, i);
    lemma_total_len_take_monotonic(ios, i + 1, ios.len() as int);
    assert(ios.take(ios.len() as int) =~= ios);
    assert(ios[i].placed_at(total_len(ios.take(i))));
}

/// The bytes of an image that a segment covers, where there is a segment.
pub open spec fn segment_bytes(pdi: Seq<u8>, segment: Option<PdiSegment>) -> Option<Seq<u8>> {
    match segment {
        Some(s) => Some(pdi.subrange(s.bytes.start as int, s.bytes.end as int)),
        None => None,
    }
}

/// The image with the bytes that a segment covers replaced. Without a segment, or without
/// bytes to put there, the image stays.
pub open spec fn with_segment_bytes(
    pdi: Seq<u8>,
    segment: Option<PdiSegment>,
    bytes: Option<Seq<u8>>,
) -> Seq<u8> {
    match (segment, bytes) {
        (Some(s), Some(b)) => pdi.subrange(0, s.bytes.start as int) + b + pdi.subrange(
            s.bytes.end as int,
            pdi.len() as int,
        ),
        _ => pdi,
    }
}

/// Putting back the bytes that a segment holds changes nothing: what is read from an image
/// twice in a row, with nothing written in between, is the same both times.
pub proof fn lemma_segment_bytes_put_back(pdi: Seq<u8>, segment: Option<PdiSegment>)
    requires
        segment matches Some(s) ==> s.bytes.start <= s.bytes.end <= pdi.len(),
    ensures
        with_segment_bytes(pdi, segment, segment_bytes(pdi, segment)) == pdi,
{
    assert(with_segment_bytes(pdi, segment, segment_bytes(pdi, segment)) =~= pdi);
}

/// What is written to a segment is what is read from it afterwards.
pub proof fn lemma_segment_bytes_written(pdi: Seq<u8>, segment: PdiSegment, bytes: Seq<u8>)
    requires
        segment.bytes.start <= segment.bytes.end <= pdi.len(),
        bytes.len() == segment.spec_len(),
    ensures
        with_segment_bytes(pdi, Some(segment), Some(bytes)).len() == pdi.len(),
        segment_bytes(with_segment_bytes(pdi, Some(segment), Some(bytes)), Some(segment)) == Some(
            bytes,
        ),
{
    let written = with_segment_bytes(pdi, Some(segment), Some(bytes));
    assert(written.subrange(segment.bytes.start as int, segment.bytes.end as int) =~= bytes);
}

/// What is written to a segment leaves the bytes of a segment that does not overlap it as they
/// were.
pub proof fn lemma_segment_bytes_kept(
    pdi: Seq<u8>,
    segment: PdiSegment,
    bytes: Seq<u8>,
    other: PdiSegment,
)
    requires
        segment.bytes.start <= segment.bytes.end <= pdi.len(),
        bytes.len() == segment.spec_len(),
        other.bytes.start <= other.bytes.end <= pdi.len(),
        other.bytes.end <= segment.bytes.start || segment.bytes.end <= other.bytes.start,
    ensures
        segment_bytes(with_segment_bytes(pdi, Some(segment), Some(bytes)), Some(other))
            == segment_bytes(pdi, Some(other)),
{
    let written = with_segment_bytes(pdi, Some(segment), Some(bytes));
    assert(written.subrange(other.bytes.start as int, other.bytes.end as int) =~= pdi.subrange(
        other.bytes.start as int,
        other.bytes.end as int,
    ));
}

/// Copies `src` over `dst`, which has the same length.
pub(crate) fn copy_bytes(dst: &mut [u8], src: &[u8])
    requires
        old(dst)@.len() == src@.len(),
    ensures
        final(dst)@ == src@,
{
    let n = src.len();
    let mut i: usize = 0;
    while i < n
        invariant
            i <= n,
            n == src@.len(),
            dst@.len() == n,
            forall|j: int| 0 <= j < i ==> dst@[j] == src@[j],
        decreases n - i,
    {
        dst[i] = src[i];
        i += 1;
    }
    assert(dst@ =~= src@);
}

} // verus!
