//! The event-loop correlator: the single consumer that joins exec, signal
//! and exit events into crash records.
//!
//! For each event the caller does what only it can do, reading the process
//! files, draining the kernel maps, writing files, and the correlator
//! decides what becomes of the process cache and the crash store.

use crate::common::{SchedExecEvent, SchedExitEvent, SignalDeliverEvent, StackDump};
use crate::db::laws::{
    at_most_one_pending, lemma_pending_after_cleanup, lemma_pending_after_complete,
    lemma_pending_after_insert,
};
use crate::db::rows::column_of;
use crate::db::tables::{
    cleanup_outcome, completed_row, completion_outcome, crash_outcome, first_pending,
    has_crash_id, has_pending, has_process, process_outcome, process_row_id, report_data_of,
    without_process, Tables,
};
use crate::db::{CrashDb, CrashReportData, StoreError};
use crate::report::{
    console_text, db_report_text, deref_opt, frames_of, print_to_console, report_file_name_bytes,
    save_from_db, SavedReport,
};
use crate::state::map::{
    describes, lookup, pruned_if_full, without_key, MemoryMap, ProcSnapshot, ProcessInfo,
};
use crate::text::utf8;
use vstd::prelude::*;

verus! {

/// What became of an exec event.
#[derive(Clone, Copy, Debug, PartialEq, Eq)]
pub enum ExecOutcome {
    /// The memory map of the process could not be read: nothing was cached
    /// or stored.
    Skipped,
    /// The process is cached and stored under this row id.
    Stored(i64),
    /// The process is cached; the store has no row id left for it.
    StoreFull,
}

/// What became of a signal event.
#[derive(Debug, PartialEq, Eq)]
pub struct SignalOutcome {
    /// The id of the pending crash; `None` where the process is not known,
    /// because its exec was missed; an error where the store is full.
    pub stored: Result<Option<i64>, StoreError>,
    /// The summary to print on the console.
    pub console: Vec<u8>,
}

/// What became of an exit event.
#[derive(Clone, Debug, PartialEq, Eq)]
pub struct ExitOutcome {
    /// The id of the crash that the exit completed, if there was one.
    pub completed: Option<i64>,
    /// The report to write for the completed crash.
    pub report: Option<SavedReport>,
}

/// The stack trace that is stored with a signal record: the one found, where
/// the record has a handle for it.
pub open spec fn used_trace<'a>(event: SignalDeliverEvent, stack_trace: Option<&'a Vec<u64>>)
    -> Option<&'a Vec<u64>> {
    if event.user_stack_id >= 0 {
        stack_trace
    } else {
        None
    }
}

/// The stack dump that is stored with a signal record: the one drained,
/// where the record has a stack pointer.
pub open spec fn used_dump<'a>(event: SignalDeliverEvent, stack_dump: Option<&'a StackDump>)
    -> Option<&'a StackDump> {
    if event.rsp != 0 {
        stack_dump
    } else {
        None
    }
}

/// Whether `saved` is the report file of the crash `data`.
pub open spec fn is_report_file(saved: SavedReport, data: CrashReportData) -> bool {
    &&& exists|generated: Seq<char>| saved.contents@ == #[trigger] db_report_text(data, generated)
    &&& exists|stamp: Seq<char>|
        saved.file_name@ == #[trigger] report_file_name_bytes(utf8(data.cmd@), data.pid, stamp)
}

/// The correlator: the process cache and the crash store.
pub struct Correlator {
    pub cache: MemoryMap,
    pub db: CrashDb,
}

impl Correlator {
    /// A correlator that knows no process.
    pub fn new() -> (c: Correlator)
        ensures
            c.cache@ == Seq::<ProcessInfo>::empty(),
            c.db@ == Tables::empty(),
    {
        Correlator { cache: MemoryMap::new(), db: CrashDb::new() }
    }

    /// Whether an exec event needs the liveness probe: the cache is full, so
    /// the pids of `MemoryMap::tracked_pids` whose process directory is gone
    /// have to be named.
    pub fn needs_liveness_probe(&self) -> (r: bool)
        ensures
            r == (self.cache@.len() >= crate::state::map::MAX_TRACKED_PROCESSES),
    {
        self.cache.is_full()
    }

    /// The handle of the user stack trace to look up for a signal record, if
    /// it has one.
    pub fn wanted_stack_trace(event: &SignalDeliverEvent) -> (r: Option<u32>)
        ensures
            r is Some <==> event.user_stack_id >= 0,
            r is Some ==> r->0 == event.user_stack_id as u32,
    {
        if event.user_stack_id >= 0 {
            Some(#[verifier::truncate] (event.user_stack_id as u32))
        } else {
            None
        }
    }

    /// An exec event: the process is cached by what was read about it, and
    /// stored. Without a memory map the event is skipped.
    pub fn handle_sched_exec_event(
        &mut self,
        exec: &SchedExecEvent,
        snapshot: ProcSnapshot,
        vanished: &Vec<u32>,
    ) -> (outcome: ExecOutcome)
        ensures
            outcome == ExecOutcome::Skipped <==> snapshot.maps is None,
            snapshot.maps is None ==> final(self).cache@ == pruned_if_full(
                old(self).cache@,
                vanished@,
            ) && final(self).db@ == old(self).db@,
            snapshot.maps is Some ==> ({
                let base = without_key(
                    pruned_if_full(old(self).cache@, vanished@),
                    exec.pid,
                    exec.boottime,
                );
                &&& final(self).cache@.len() == base.len() + 1
                &&& final(self).cache@.drop_last() == base
                &&& describes(
                    final(self).cache@.last(),
                    exec.pid,
                    exec.boottime,
                    snapshot.maps->0,
                    snapshot.cwd,
                    snapshot.cmdline,
                )
                &&& process_outcome(
                    old(self).db@,
                    final(self).cache@.last(),
                    final(self).db@,
                    match outcome {
                        ExecOutcome::Stored(id) => Ok(id),
                        _ => Err(StoreError::Full),
                    },
                )
            }),
            at_most_one_pending(old(self).db@) ==> at_most_one_pending(final(self).db@),
    {
        let inserted: bool = self.cache.insert(exec.pid, exec.boottime, snapshot, vanished);
        if !inserted {
            return ExecOutcome::Skipped;
        }
        let ghost cached = self.cache@;
        match self.cache.get(exec.pid, exec.boottime) {
            None => {
                proof {
                    assert(cached[cached.len() - 1].pid == exec.pid);
                    assert(crate::state::map::has_key(cached, exec.pid, exec.boottime));
                }
                ExecOutcome::Skipped
            },
            Some(info) => {
                proof {
                    let i = choose|i: int| 0 <= i < cached.len() && cached[i] == *info;
                    if i < cached.len() - 1 {
                        assert(cached[i].pid == cached[cached.len() - 1].pid);
                    }
                    assert(*info == cached.last());
                }
                match self.db.insert_process(info) {
                    Ok(id) => ExecOutcome::Stored(id),
                    Err(_) => ExecOutcome::StoreFull,
                }
            },
        }
    }

    /// A signal event: the crash is stored as pending with the frames of its
    /// user stack and its raw stack dump, and summed up for the console. The
    /// frames are stored where the record has a handle for them, the dump
    /// where the record has a stack pointer. Without a process row, because
    /// the exec was missed, nothing is stored.
    pub fn handle_signal_deliver_event(
        &mut self,
        event: &SignalDeliverEvent,
        stack_trace: Option<&Vec<u64>>,
        stack_dump: Option<&StackDump>,
    ) -> (outcome: SignalOutcome)
        ensures
            final(self).cache@ == old(self).cache@,
            crash_outcome(
                old(self).db@,
                *event,
                used_trace(*event, stack_trace),
                used_dump(*event, stack_dump),
                final(self).db@,
                outcome.stored,
            ),
            exists|generated: Seq<char>|
                outcome.console@ == #[trigger] console_text(
                    *event,
                    frames_of(used_trace(*event, stack_trace)),
                    lookup(old(self).cache@, event.pid, event.boottime),
                    generated,
                ),
            at_most_one_pending(old(self).db@) && (forall|p: i64| #[trigger]
                process_row_id(
                    old(self).db@.processes,
                    event.pid as i64,
                    column_of(event.boottime),
                    p,
                ) ==> !has_pending(old(self).db@.crashes, p)) ==> at_most_one_pending(
                final(self).db@,
            ),
    {
        let trace: Option<&Vec<u64>> = if event.user_stack_id >= 0 {
            stack_trace
        } else {
            None
        };
        let dump: Option<&StackDump> = if event.rsp != 0 {
            stack_dump
        } else {
            None
        };
        let stored = self.db.insert_crash(event, trace, dump);
        proof {
            if at_most_one_pending(old(self).db@) && (forall|p: i64| #[trigger]
                process_row_id(
                    old(self).db@.processes,
                    event.pid as i64,
                    column_of(event.boottime),
                    p,
                ) ==> !has_pending(old(self).db@.crashes, p)) {
                lemma_pending_after_insert(old(self).db@, *event, trace, dump, self.db@, stored);
            }
        }
        let info: Option<&ProcessInfo> = self.cache.get(event.pid, event.boottime);
        let console: Vec<u8> = print_to_console(event, trace, info);
        assert(deref_opt(info) == lookup(self.cache@, event.pid, event.boottime));
        SignalOutcome { stored, console }
    }

    /// An exit event: the pending crash of the process is completed with the
    /// exit code and its report is made ready; a process without a pending
    /// crash is removed from the store with everything that belongs to it.
    /// The process leaves the cache in any case.
    pub fn handle_sched_exit_event(&mut self, exit: &SchedExitEvent) -> (outcome: ExitOutcome)
        ensures
            final(self).cache@ == without_key(old(self).cache@, exit.pid, exit.boottime),
            match outcome.completed {
                Some(id) => {
                    &&& completion_outcome(
                        old(self).db@,
                        exit.pid,
                        exit.boottime,
                        exit.exit_code,
                        final(self).db@,
                        outcome.completed,
                    )
                    &&& outcome.report is Some
                    &&& exists|data: CrashReportData| #[trigger]
                        report_data_of(data, final(self).db@, id) && is_report_file(
                            outcome.report->0,
                            data,
                        )
                },
                None => {
                    &&& completion_outcome(
                        old(self).db@,
                        exit.pid,
                        exit.boottime,
                        exit.exit_code,
                        old(self).db@,
                        outcome.completed,
                    )
                    &&& outcome.report is None
                    &&& cleanup_outcome(old(self).db@, exit.pid, exit.boottime, final(self).db@)
                },
            },
            at_most_one_pending(old(self).db@) ==> at_most_one_pending(final(self).db@),
    {
        let ghost before = self.db@;
        let completed: Option<i64> = self.db.complete_crash(
            exit.pid,
            exit.boottime,
            exit.exit_code,
        );
        proof {
            if at_most_one_pending(before) {
                lemma_pending_after_complete(
                    before,
                    exit.pid,
                    exit.boottime,
                    exit.exit_code,
                    self.db@,
                    completed,
                );
            }
        }
        let ghost mut shown: Option<CrashReportData> = None;
        let report: Option<SavedReport> = match completed {
            Some(id) => {
                proof {
                    let (p, i) = choose|p: i64, i: int|
                        {
                            &&& process_row_id(
                                before.processes,
                                exit.pid as i64,
                                column_of(exit.boottime),
                                p,
                            )
                            &&& #[trigger] first_pending(before.crashes, p, i)
                            &&& before.crashes[i].id == id
                            &&& self.db@.crashes == before.crashes.update(
                                i,
                                completed_row(before.crashes[i], exit.exit_code),
                            )
                        };
                    assert(self.db@.crashes[i].id == id);
                    assert(has_crash_id(self.db@.crashes, id));
                }
                match self.db.get_crash_report_data(id) {
                    Ok(data) => {
                        let saved = save_from_db(&data);
                        proof {
                            shown = Some(data);
                        }
                        Some(saved)
                    },
                    Err(_) => {
                        assert(false);
                        None
                    },
                }
            },
            None => {
                self.db.cleanup_process(exit.pid, exit.boottime);
                proof {
                    if at_most_one_pending(before) {
                        if has_process(
                            before.processes,
                            exit.pid as i64,
                            column_of(exit.boottime),
                        ) {
                            let p = choose|p: i64| #[trigger]
                                process_row_id(
                                    before.processes,
                                    exit.pid as i64,
                                    column_of(exit.boottime),
                                    p,
                                ) && self.db@ == without_process(before, p);
                            lemma_pending_after_cleanup(before, p);
                        }
                    }
                }
                None
            },
        };
        assert(completed is Some ==> report is Some && shown is Some && report_data_of(
            shown->0,
            self.db@,
            completed->0,
        ) && is_report_file(report->0, shown->0));
        let ghost stored = self.db@;
        self.cache.remove(exit.pid, exit.boottime);
        assert(self.db@ == stored);
        assert(completed is Some ==> report_data_of(shown->0, self.db@, completed->0));
        ExitOutcome { completed, report }
    }
}

} // verus!
