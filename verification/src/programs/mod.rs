//! The capture plane: what the three tracepoint programs do to the state
//! that they share, the ring of event frames and the two side maps.
//!
//! A program runs in the context of the task that fired the tracepoint. What
//! it reads of that task is handed to it as plain values; what it does is a
//! change of the shared state.

use crate::bytes::le_i32_at;
use crate::common::{
    crash_signal, CrashTracerEvent, EventType, SignalDeliverEvent, StackDump, StackDumpKey,
};
use crate::programs::side_map::{entry_value, without_entry, Entry, SideMap};
use std::collections::VecDeque;
use vstd::prelude::*;

pub mod sched_process_exec;
pub mod sched_process_exit;
pub mod side_map;
pub mod signal_deliver;

verus! {

/// What a program returns where a read fails: the negated error number of
/// a bad address.
pub const READ_FAULT: i64 = -14;

/// Bytes in the ring of event frames.
pub const RING_BYTES: usize = 524288;

/// How many frames a ring of `ring_bytes` bytes holds.
pub fn ring_frames(ring_bytes: usize) -> (frames: usize)
    ensures
        frames == ring_bytes / crate::common::FRAME_SIZE,
{
    ring_bytes / crate::common::FRAME_SIZE
}

/// Offset of the signal number in the record of the signal tracepoint.
pub const SIGNAL_OFFSET: usize = 8;

/// Offset of the signal code in the record of the signal tracepoint.
pub const SI_CODE_OFFSET: usize = 16;

/// What a program reads of the task in whose context it runs.
#[derive(Clone, Copy, Debug, PartialEq, Eq)]
pub struct TaskInfo {
    /// The id of the process: the thread group of the task.
    pub pid: u32,
    /// The id of the thread: the task itself.
    pub tid: u32,
    /// The monotonic start time of the task.
    pub boottime: u64,
    /// The exit code of the task, once it exits.
    pub exit_code: u32,
    /// The address of the last page fault of the task, or 0.
    pub fault_addr: u64,
    /// The command name, NUL-padded.
    pub comm: [u8; 16],
}

impl TaskInfo {
    /// The key under which the side maps hold what belongs to the task.
    pub open spec fn spec_key(self) -> StackDumpKey {
        StackDumpKey { pid: self.pid, tid: self.tid, boottime: self.boottime }
    }

    /// The key under which the side maps hold what belongs to the task.
    pub fn key(&self) -> (k: StackDumpKey)
        ensures
            k == self.spec_key(),
    {
        StackDumpKey { pid: self.pid, tid: self.tid, boottime: self.boottime }
    }
}

/// The process id and the thread id in the combined identifier of a task:
/// the process id in the upper half, the thread id in the lower.
pub open spec fn split_ids(pid_tgid: u64) -> (u32, u32) {
    ((pid_tgid / 0x1_0000_0000) as u32, (pid_tgid % 0x1_0000_0000) as u32)
}

/// Splits the combined identifier of a task into process id and thread id.
pub fn split_pid_tgid(pid_tgid: u64) -> (ids: (u32, u32))
    ensures
        ids == split_ids(pid_tgid),
{
    ((pid_tgid / 0x1_0000_0000) as u32, (pid_tgid % 0x1_0000_0000) as u32)
}

/// The state that the three programs share, as a value.
pub struct CaptureView {
    /// The frames submitted and not yet consumed, oldest first.
    pub ring: Seq<CrashTracerEvent>,
    /// How many frames the ring holds.
    pub ring_capacity: usize,
    /// The signal records that wait for the exit of their task.
    pub pending_signals: Seq<Entry<SignalDeliverEvent>>,
    /// The raw stack captures that wait to be drained.
    pub stack_dumps: Seq<Entry<StackDump>>,
}

/// The signal number that a signal frame carries.
pub open spec fn frame_signal(frame: CrashTracerEvent) -> i32 {
    le_i32_at(frame.payload@, 32)
}

impl CaptureView {
    /// The ring is within its capacity; a pending signal is a crash signal
    /// and stands under the key of its own task; a stack capture has one of
    /// the lengths that a capture can have; a signal frame in the ring
    /// carries a crash signal.
    pub open spec fn contents_wf(self) -> bool {
        &&& self.ring.len() <= self.ring_capacity
        &&& forall|i: int|
            0 <= i < self.pending_signals.len() ==> crash_signal(
                (#[trigger] self.pending_signals[i]).value.signal as int,
            )
        &&& forall|i: int|
            0 <= i < self.stack_dumps.len() ==> (#[trigger] self.stack_dumps[i]).value.wf()
        &&& forall|i: int|
            0 <= i < self.ring.len() && (#[trigger] self.ring[i]).tag == EventType::SignalDeliver
                ==> crash_signal(frame_signal(self.ring[i]) as int)
    }
}

/// The state that the three programs share.
pub struct CaptureState {
    ring: VecDeque<CrashTracerEvent>,
    ring_capacity: usize,
    pending_signals: SideMap<SignalDeliverEvent>,
    stack_dumps: SideMap<StackDump>,
}

impl View for CaptureState {
    type V = CaptureView;

    /// The ring and the two side maps.
    closed spec fn view(&self) -> CaptureView {
        CaptureView {
            ring: self.ring@,
            ring_capacity: self.ring_capacity,
            pending_signals: self.pending_signals@,
            stack_dumps: self.stack_dumps@,
        }
    }
}

impl CaptureState {
    /// The invariant of the shared state.
    #[verifier::type_invariant]
    spec fn contents(self) -> bool {
        (CaptureView {
            ring: self.ring@,
            ring_capacity: self.ring_capacity,
            pending_signals: self.pending_signals@,
            stack_dumps: self.stack_dumps@,
        }).contents_wf()
    }

    /// Empty maps and an empty ring that holds `ring_capacity` frames.
    pub fn new(ring_capacity: usize) -> (state: CaptureState)
        ensures
            state@.ring == Seq::<CrashTracerEvent>::empty(),
            state@.ring_capacity == ring_capacity,
            state@.pending_signals == Seq::<Entry<SignalDeliverEvent>>::empty(),
            state@.stack_dumps == Seq::<Entry<StackDump>>::empty(),
    {
        CaptureState {
            ring: VecDeque::new(),
            ring_capacity,
            pending_signals: SideMap::new(),
            stack_dumps: SideMap::new(),
        }
    }

    /// How many frames wait in the ring.
    pub fn ring_len(&self) -> (n: usize)
        ensures
            n == self@.ring.len(),
            self@.contents_wf(),
    {
        proof {
            use_type_invariant(self);
        }
        self.ring.len()
    }

    /// How many signal records wait for the exit of their task.
    pub fn pending_len(&self) -> (n: usize)
        ensures
            n == self@.pending_signals.len(),
            n <= side_map::SIDE_MAP_CAPACITY,
    {
        self.pending_signals.len()
    }

    /// How many stack captures wait to be drained.
    pub fn dump_len(&self) -> (n: usize)
        ensures
            n == self@.stack_dumps.len(),
            n <= side_map::SIDE_MAP_CAPACITY,
    {
        self.stack_dumps.len()
    }

    /// Whether the ring has room for one more frame.
    pub(crate) fn has_room(&self) -> (r: bool)
        ensures
            r == (self@.ring.len() < self@.ring_capacity),
    {
        self.ring.len() < self.ring_capacity
    }

    /// Submits `frame` to the ring, which has room for it.
    pub(crate) fn submit(&mut self, frame: CrashTracerEvent)
        requires
            old(self)@.ring.len() < old(self)@.ring_capacity,
            frame.tag == EventType::SignalDeliver ==> crash_signal(frame_signal(frame) as int),
        ensures
            final(self)@ == (CaptureView { ring: old(self)@.ring.push(frame), ..old(self)@ }),
            final(self)@.contents_wf(),
    {
        proof {
            use_type_invariant(&*self);
        }
        let mut ring: VecDeque<CrashTracerEvent> = VecDeque::new();
        assert((CaptureView { ring: ring@, ..self@ }).contents_wf());
        core::mem::swap(&mut ring, &mut self.ring);
        ring.push_back(frame);
        proof {
            let before = old(self)@;
            assert forall|i: int|
                0 <= i < ring@.len() && (#[trigger] ring@[i]).tag
                    == EventType::SignalDeliver implies crash_signal(
                frame_signal(ring@[i]) as int,
            ) by {
                if i < before.ring.len() {
                    assert(ring@[i] == before.ring[i]);
                }
            }
        }
        assert((CaptureView { ring: ring@, ..self@ }).contents_wf());
        self.ring = ring;
    }

    /// The signal record that waits under `key`, if there is one.
    pub(crate) fn pending_signal(&self, key: &StackDumpKey) -> (r: Option<SignalDeliverEvent>)
        ensures
            r == entry_value(self@.pending_signals, *key),
            r is Some ==> crash_signal(r->0.signal as int),
    {
        proof {
            use_type_invariant(self);
        }
        let r = self.pending_signals.get(key);
        proof {
            if r is Some {
                lemma_value_is_entry(self@.pending_signals, *key);
            }
        }
        r
    }

    /// Writes the signal record `event`, of a crash signal, under `key`.
    pub(crate) fn put_pending(&mut self, key: StackDumpKey, event: SignalDeliverEvent)
        requires
            crash_signal(event.signal as int),
        ensures
            final(self)@ == (CaptureView {
                pending_signals: side_map::with_entry(old(self)@.pending_signals, key, event),
                ..old(self)@
            }),
            final(self)@.contents_wf(),
    {
        proof {
            use_type_invariant(&*self);
        }
        let ghost before = self.pending_signals@;
        let mut pending: SideMap<SignalDeliverEvent> = SideMap::new();
        assert((CaptureView { pending_signals: pending@, ..self@ }).contents_wf());
        core::mem::swap(&mut pending, &mut self.pending_signals);
        pending.insert(key, event);
        proof {
            lemma_with_entry_members(before, key, event);
        }
        assert((CaptureView { pending_signals: pending@, ..self@ }).contents_wf());
        self.pending_signals = pending;
    }

    /// Writes the stack capture `dump` under `key`.
    pub(crate) fn put_dump(&mut self, key: StackDumpKey, dump: StackDump)
        requires
            dump.wf(),
        ensures
            final(self)@ == (CaptureView {
                stack_dumps: side_map::with_entry(old(self)@.stack_dumps, key, dump),
                ..old(self)@
            }),
            final(self)@.contents_wf(),
    {
        proof {
            use_type_invariant(&*self);
        }
        let ghost before = self.stack_dumps@;
        let mut dumps: SideMap<StackDump> = SideMap::new();
        assert((CaptureView { stack_dumps: dumps@, ..self@ }).contents_wf());
        core::mem::swap(&mut dumps, &mut self.stack_dumps);
        dumps.insert(key, dump);
        proof {
            lemma_with_entry_members(before, key, dump);
        }
        assert((CaptureView { stack_dumps: dumps@, ..self@ }).contents_wf());
        self.stack_dumps = dumps;
    }

    /// Removes the signal record under `key`.
    pub(crate) fn drop_pending(&mut self, key: &StackDumpKey)
        ensures
            final(self)@ == (CaptureView {
                pending_signals: without_entry(old(self)@.pending_signals, *key),
                ..old(self)@
            }),
            final(self)@.contents_wf(),
    {
        proof {
            use_type_invariant(&*self);
        }
        let ghost before = self.pending_signals@;
        let mut pending: SideMap<SignalDeliverEvent> = SideMap::new();
        assert((CaptureView { pending_signals: pending@, ..self@ }).contents_wf());
        core::mem::swap(&mut pending, &mut self.pending_signals);
        let _ = pending.remove(key);
        proof {
            lemma_without_entry_members(before, *key);
        }
        assert((CaptureView { pending_signals: pending@, ..self@ }).contents_wf());
        self.pending_signals = pending;
    }

    /// Removes the stack capture under `key`.
    pub(crate) fn drop_dump(&mut self, key: &StackDumpKey)
        ensures
            final(self)@ == (CaptureView {
                stack_dumps: without_entry(old(self)@.stack_dumps, *key),
                ..old(self)@
            }),
            final(self)@.contents_wf(),
    {
        proof {
            use_type_invariant(&*self);
        }
        let ghost before = self.stack_dumps@;
        let mut dumps: SideMap<StackDump> = SideMap::new();
        assert((CaptureView { stack_dumps: dumps@, ..self@ }).contents_wf());
        core::mem::swap(&mut dumps, &mut self.stack_dumps);
        let _ = dumps.remove(key);
        proof {
            lemma_without_entry_members(before, *key);
        }
        assert((CaptureView { stack_dumps: dumps@, ..self@ }).contents_wf());
        self.stack_dumps = dumps;
    }

    /// Consumes the oldest frame of the ring, if there is one.
    pub fn take_frame(&mut self) -> (r: Option<CrashTracerEvent>)
        ensures
            old(self)@.ring.len() == 0 ==> r is None && final(self)@ == old(self)@,
            old(self)@.ring.len() > 0 ==> r == Some(old(self)@.ring[0]) && final(self)@ == (
            CaptureView { ring: old(self)@.ring.drop_first(), ..old(self)@ }),
            r is Some && r->0.tag == EventType::SignalDeliver ==> crash_signal(
                frame_signal(r->0) as int,
            ),
            final(self)@.contents_wf(),
    {
        proof {
            use_type_invariant(&*self);
        }
        let mut ring: VecDeque<CrashTracerEvent> = VecDeque::new();
        assert((CaptureView { ring: ring@, ..self@ }).contents_wf());
        core::mem::swap(&mut ring, &mut self.ring);
        let r = ring.pop_front();
        proof {
            let before = old(self)@;
            if before.ring.len() > 0 {
                assert(ring@ =~= before.ring.drop_first());
                assert forall|i: int|
                    0 <= i < ring@.len() && (#[trigger] ring@[i]).tag
                        == EventType::SignalDeliver implies crash_signal(
                    frame_signal(ring@[i]) as int,
                ) by {
                    assert(ring@[i] == before.ring[i + 1]);
                }
                assert(before.ring[0] == r->0);
            }
        }
        assert((CaptureView { ring: ring@, ..self@ }).contents_wf());
        self.ring = ring;
        r
    }

    /// Drains the stack capture under `key`: reads it and removes it.
    pub fn take_stack_dump(&mut self, key: &StackDumpKey) -> (r: Option<StackDump>)
        ensures
            r == entry_value(old(self)@.stack_dumps, *key),
            r is Some ==> r->0.wf(),
            final(self)@ == (CaptureView {
                stack_dumps: without_entry(old(self)@.stack_dumps, *key),
                ..old(self)@
            }),
            final(self)@.contents_wf(),
    {
        proof {
            use_type_invariant(&*self);
        }
        let r = self.stack_dumps.get(key);
        proof {
            if r is Some {
                lemma_value_is_entry(self@.stack_dumps, *key);
            }
        }
        self.drop_dump(key);
        r
    }
}

/// A value that a map holds under a key is the value of one of its entries.
pub proof fn lemma_value_is_entry<V>(s: Seq<Entry<V>>, key: StackDumpKey)
    requires
        entry_value(s, key) is Some,
    ensures
        exists|i: int| 0 <= i < s.len() && (#[trigger] s[i]).value == entry_value(s, key)->0,
    decreases s.len(),
{
    if s.len() > 0 {
        if s[0].key == key {
            assert(s[0].value == entry_value(s, key)->0);
        } else {
            let t = s.drop_first();
            lemma_value_is_entry(t, key);
            let i = choose|i: int|
                0 <= i < t.len() && (#[trigger] t[i]).value == entry_value(t, key)->0;
            assert(s[i + 1].value == entry_value(s, key)->0);
        }
    }
}

/// An entry of a map after a write is the entry written or an entry that the
/// map held before.
pub proof fn lemma_with_entry_members<V>(s: Seq<Entry<V>>, key: StackDumpKey, value: V)
    ensures
        forall|i: int|
            0 <= i < side_map::with_entry(s, key, value).len() ==> (#[trigger] side_map::with_entry(
                s,
                key,
                value,
            )[i]) == (Entry { key, value }) || s.contains(side_map::with_entry(s, key, value)[i]),
{
    let rest = without_entry(s, key);
    let r = side_map::with_entry(s, key, value);
    lemma_without_entry_members(s, key);
    assert forall|i: int| 0 <= i < r.len() implies (#[trigger] r[i]) == (Entry { key, value })
        || s.contains(r[i]) by {
        if i < r.len() - 1 {
            if rest.len() >= side_map::SIDE_MAP_CAPACITY {
                assert(r[i] == rest[i + 1]);
            } else {
                assert(r[i] == rest[i]);
            }
        }
    }
}

/// An entry of a map after a removal is an entry that the map held before.
pub proof fn lemma_without_entry_members<V>(s: Seq<Entry<V>>, key: StackDumpKey)
    ensures
        forall|i: int|
            0 <= i < without_entry(s, key).len() ==> s.contains(
                #[trigger] without_entry(s, key)[i],
            ),
{
    let p = |e: Entry<V>| e.key != key;
    assert forall|i: int| 0 <= i < without_entry(s, key).len() implies s.contains(
        #[trigger] without_entry(s, key)[i],
    ) by {
        crate::seqs::lemma_filter_member(s, p, i);
    }
}

} // verus!
