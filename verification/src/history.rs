//! What is known of the helper processes after any history of operations.

use crate::fx;
use crate::fx::{FxEvent, FxState};
use vstd::prelude::*;

verus! {

/// One operation on the helper processes, together with what the caller did
/// about it.
pub enum FxStep {
    /// Somebody else is told from now on.
    SetHandler(u64),
    /// A chain was asked for, or to go. `pid` is the process that was started
    /// for it, if one was to be started and that succeeded.
    EnsureChain { id: u64, conf: Option<Seq<char>>, pid: Option<i32> },
    /// A rack was asked for. `pid` is as for chains.
    EnsureCarla { id: u64, pid: Option<i32> },
    /// A rack was asked for with its window. `pid` is as for chains.
    OpenCarlaGui { id: u64, pid: Option<i32> },
    /// A rack was let go.
    KillCarla(u64),
    /// Linking a rack was started.
    StartLinks(u64),
    /// Linking a rack was tried.
    LinkTick { id: u64, number: u64 },
    /// The script that links a rack printed something.
    LinkOutput { id: u64, number: u64, output: Seq<char> },
    /// A process exited.
    Exited { event: FxEvent, pid: i32, uptime_secs: u64 },
    /// The processes of a channel were let go.
    RemoveChannel(u64),
    /// All processes were let go, in some order.
    ShutdownAll { chains: Seq<u64>, racks: Seq<u64> },
}

impl FxState {
    /// The state after an operation.
    pub open spec fn after(self, step: FxStep) -> FxState {
        match step {
            FxStep::SetHandler(handler) => FxState { handler: Some(handler), ..self },
            FxStep::EnsureChain { id, conf, pid } => match conf {
                None => self.chain_stopped(id),
                Some(conf) => if self.chain_settled(id, conf) {
                    self
                } else {
                    match pid {
                        None => self.chain_stopped(id),
                        Some(pid) => self.chain_ensured(id, conf, pid),
                    }
                },
            },
            FxStep::EnsureCarla { id, pid } => if self.carla_runs(id) {
                self
            } else {
                match pid {
                    None => self.carla_stopped(id),
                    Some(pid) => self.carla_stopped(id).carla_launched(id, false, pid),
                }
            },
            FxStep::OpenCarlaGui { id, pid } => if self.window_open(id) {
                self
            } else {
                match pid {
                    None => self.carla_stopped(id),
                    Some(pid) => self.carla_stopped(id).carla_launched(id, true, pid),
                }
            },
            FxStep::KillCarla(id) => self.carla_stopped(id),
            FxStep::StartLinks(id) => self.links_started(id),
            FxStep::LinkTick { id, number } => self.link_ticked(id, number),
            FxStep::LinkOutput { id, number, output } => self.link_heard(id, number, output),
            FxStep::Exited { event, pid, uptime_secs } => self.after_exit(event, pid, uptime_secs),
            FxStep::RemoveChannel(id) => self.chain_stopped(id).carla_stopped(id),
            FxStep::ShutdownAll { chains, racks } => self.chains_stopped(chains).carlas_stopped(
                racks,
            ),
        }
    }

    /// Whether the rack of a channel runs with its window.
    pub open spec fn window_open(self, id: u64) -> bool {
        self.carla_runs(id) && self.carlas[id].gui
    }

    /// Whether an operation can come next: processes are started where they
    /// are to be, and none gets the number of one that is still alive; there is
    /// a number left for linking; and everything goes when all goes.
    pub open spec fn allows(self, step: FxStep) -> bool {
        match step {
            FxStep::EnsureChain { id, conf, pid } => pid matches Some(pid) ==> {
                &&& conf matches Some(conf) && !self.chain_settled(id, conf)
                &&& !self.chain_stopped(id).was_stopped(FxEvent::ChainDied(id), pid)
            },
            FxStep::EnsureCarla { id, pid } => pid matches Some(pid) ==> {
                &&& !self.carla_runs(id)
                &&& !self.carla_stopped(id).was_stopped(FxEvent::CarlaDied(id), pid)
            },
            FxStep::OpenCarlaGui { id, pid } => pid matches Some(pid) ==> {
                &&& !self.window_open(id)
                &&& !self.carla_stopped(id).was_stopped(FxEvent::CarlaDied(id), pid)
            },
            FxStep::StartLinks(id) => self.next_poll < u64::MAX,
            FxStep::ShutdownAll { chains, racks } => {
                &&& chains.to_set() == self.chains.dom()
                &&& racks.to_set() == self.carlas.dom()
            },
            _ => true,
        }
    }

    /// The state after some operations, from the start.
    pub open spec fn at(steps: Seq<FxStep>) -> FxState
        decreases steps.len(),
    {
        if steps.len() == 0 {
            FxState::initial()
        } else {
            FxState::at(steps.drop_last()).after(steps.last())
        }
    }
}

/// Whether some operations can follow each other, from the start.
pub open spec fn history(steps: Seq<FxStep>) -> bool
    decreases steps.len(),
{
    steps.len() == 0 || (history(steps.drop_last()) && FxState::at(steps.drop_last()).allows(
        steps.last(),
    ))
}

/// A failed process is not alive.
pub open spec fn dead_if_failed(state: FxState) -> bool {
    &&& forall|id: u64|
        #[trigger] state.chains.contains_key(id) && state.chains[id].slot.failed
            ==> !state.chains[id].slot.alive
    &&& forall|id: u64|
        #[trigger] state.carlas.contains_key(id) ==> !state.carlas[id].slot.failed
}

proof fn lemma_step_sound(state: FxState, step: FxStep)
    requires
        state.sound(),
        dead_if_failed(state),
        state.allows(step),
    ensures
        state.after(step).sound(),
        dead_if_failed(state.after(step)),
{
    match step {
        FxStep::ShutdownAll { chains, racks } => {
            state.lemma_chains_stopped(chains);
            lemma_chains_stopped_sound(state, chains);
            let between = state.chains_stopped(chains);
            between.lemma_carlas_stopped(racks);
            lemma_carlas_stopped_sound(between, racks);
        },
        FxStep::Exited { event, pid, uptime_secs } => {
            if state.was_stopped(event, pid) {
                lemma_exit_of_stopped(state, event, pid, uptime_secs);
            }
        },
        _ => {},
    }
}

proof fn lemma_chains_stopped_sound(state: FxState, ids: Seq<u64>)
    requires
        state.sound(),
        dead_if_failed(state),
    ensures
        state.chains_stopped(ids).sound(),
        dead_if_failed(state.chains_stopped(ids)),
    decreases ids.len(),
{
    if ids.len() > 0 {
        lemma_chains_stopped_sound(state, ids.drop_last());
    }
}

proof fn lemma_carlas_stopped_sound(state: FxState, ids: Seq<u64>)
    requires
        state.sound(),
        dead_if_failed(state),
    ensures
        state.carlas_stopped(ids).sound(),
        dead_if_failed(state.carlas_stopped(ids)),
    decreases ids.len(),
{
    if ids.len() > 0 {
        lemma_carlas_stopped_sound(state, ids.drop_last());
    }
}

/// When a process exits that was asked to, the others that were asked to stay.
proof fn lemma_exit_of_stopped(state: FxState, event: FxEvent, pid: i32, uptime_secs: u64)
    requires
        state.was_stopped(event, pid),
    ensures
        ({
            let after = state.after_exit(event, pid, uptime_secs);
            &&& after == (FxState { stopped: after.stopped, ..state })
            &&& forall|k: int|
                0 <= k < after.stopped.len() ==> state.stopped.contains(#[trigger] after.stopped[k])
        }),
{
    fx::lemma_has_first_process(state.stopped, event, pid);
    let i = choose|i: int| fx::first_process(state.stopped, event, pid, i);
    assert(fx::first_process(state.stopped, event, pid, i));
    let out = state.after_exit(event, pid, uptime_secs).stopped;
    assert forall|k: int| 0 <= k < out.len() implies state.stopped.contains(#[trigger] out[k]) by {
        let from = if k < i { k } else { k + 1 };
        assert(out[k] == state.stopped[from]);
    }
}

proof fn lemma_history_sound(steps: Seq<FxStep>)
    requires
        history(steps),
    ensures
        FxState::at(steps).sound(),
        dead_if_failed(FxState::at(steps)),
    decreases steps.len(),
{
    if steps.len() > 0 {
        lemma_history_sound(steps.drop_last());
        lemma_step_sound(FxState::at(steps.drop_last()), steps.last());
    }
}

// ---- What runs ---------------------------------------------------------------------------

/// A process that was started: what it runs, if it is a chain, whether it shows
/// a window, if it is a rack, and its number.
pub struct Process {
    pub conf: Seq<char>,
    pub gui: bool,
    pub pid: i32,
}

/// Whether the process runs whose death an event tells of: the chain or the
/// rack of a channel.
pub open spec fn runs(state: FxState, event: FxEvent) -> bool {
    match event {
        FxEvent::ChainDied(id) => state.chain_runs(id),
        FxEvent::CarlaDied(id) => state.carla_runs(id),
    }
}

/// The process that an operation starts, as the chain or as the rack of a
/// channel.
pub open spec fn started(step: FxStep, event: FxEvent) -> Option<Process> {
    match (step, event) {
        (
            FxStep::EnsureChain { id, conf: Some(conf), pid: Some(pid) },
            FxEvent::ChainDied(i),
        ) if i == id => Some(Process { conf, gui: false, pid }),
        (FxStep::EnsureCarla { id, pid: Some(pid) }, FxEvent::CarlaDied(i)) if i == id => Some(
            Process { conf: Seq::empty(), gui: false, pid },
        ),
        (FxStep::OpenCarlaGui { id, pid: Some(pid) }, FxEvent::CarlaDied(i)) if i == id => Some(
            Process { conf: Seq::empty(), gui: true, pid },
        ),
        _ => None,
    }
}

/// Whether an operation ends a process that was started as the chain or as the
/// rack of a channel: it exits, or it is given up. A chain is given up when the
/// channel is to have no chain, or one with another configuration. A rack is
/// given up when it is let go, or when it is to have a window and has none.
pub open spec fn ends(step: FxStep, event: FxEvent, process: Process) -> bool {
    match (step, event) {
        (FxStep::Exited { event: e, pid, .. }, _) => e == event && pid == process.pid,
        (FxStep::EnsureChain { id, conf, .. }, FxEvent::ChainDied(i)) => i == id && conf != Some(
            process.conf,
        ),
        (FxStep::OpenCarlaGui { id, .. }, FxEvent::CarlaDied(i)) => i == id && !process.gui,
        (FxStep::KillCarla(id), FxEvent::CarlaDied(i)) => i == id,
        (FxStep::RemoveChannel(id), FxEvent::ChainDied(i)) => i == id,
        (FxStep::RemoveChannel(id), FxEvent::CarlaDied(i)) => i == id,
        (FxStep::ShutdownAll { .. }, _) => true,
        _ => false,
    }
}

/// Whether the operation at `k` started a process, as the chain or as the rack
/// of a channel, that no later operation ended.
pub open spec fn unended(steps: Seq<FxStep>, event: FxEvent, k: int) -> bool {
    &&& 0 <= k < steps.len()
    &&& started(steps[k], event) matches Some(process) && forall|m: int|
        k < m < steps.len() ==> !ends(#[trigger] steps[m], event, process)
}

/// The process after an operation, from the one before it.
spec fn next_live(live: Option<Process>, step: FxStep, event: FxEvent) -> Option<Process> {
    match started(step, event) {
        Some(process) => Some(process),
        None => match live {
            Some(process) if ends(step, event, process) => None,
            _ => live,
        },
    }
}

/// The process after some operations.
spec fn live(steps: Seq<FxStep>, event: FxEvent) -> Option<Process>
    decreases steps.len(),
{
    if steps.len() == 0 {
        None
    } else {
        next_live(live(steps.drop_last(), event), steps.last(), event)
    }
}

/// Whether a state is one in which a process runs, or none.
spec fn agrees(state: FxState, event: FxEvent, live: Option<Process>) -> bool {
    match live {
        None => !runs(state, event),
        Some(process) => {
            &&& runs(state, event)
            &&& !state.was_stopped(event, process.pid)
            &&& match event {
                FxEvent::ChainDied(id) => state.chains[id].conf == process.conf
                    && state.chains[id].slot.pid == process.pid,
                FxEvent::CarlaDied(id) => state.carlas[id].gui == process.gui
                    && state.carlas[id].slot.pid == process.pid,
            }
        },
    }
}

/// A process that was not asked to exit is still not asked to after an
/// operation that asks no such process to exit.
proof fn lemma_still_wanted(state: FxState, after: FxState, event: FxEvent, pid: i32)
    requires
        !state.was_stopped(event, pid),
        forall|k: int|
            0 <= k < after.stopped.len() ==> state.stopped.contains(#[trigger] after.stopped[k])
                || after.stopped[k].event != event,
    ensures
        !after.was_stopped(event, pid),
{
    if after.was_stopped(event, pid) {
        let k = choose|k: int|
            0 <= k < after.stopped.len() && fx::is_process(
                #[trigger] after.stopped[k],
                event,
                pid,
            );
        let j = choose|j: int| 0 <= j < state.stopped.len() && state.stopped[j] == after.stopped[k];
        assert(fx::is_process(state.stopped[j], event, pid));
    }
}

proof fn lemma_agrees_step(state: FxState, step: FxStep, event: FxEvent, live: Option<Process>)
    requires
        state.sound(),
        dead_if_failed(state),
        state.allows(step),
        agrees(state, event, live),
    ensures
        agrees(state.after(step), event, next_live(live, step, event)),
{
    let after = state.after(step);
    match step {
        FxStep::ShutdownAll { chains, racks } => {
            state.lemma_chains_stopped(chains);
            let between = state.chains_stopped(chains);
            between.lemma_carlas_stopped(racks);
            assert forall|id: u64| !after.chains.contains_key(id) && !after.carlas.contains_key(
                id,
            ) by {
                assert(state.chains.contains_key(id) ==> chains.to_set().contains(id));
                assert(state.carlas.contains_key(id) ==> racks.to_set().contains(id));
            }
        },
        FxStep::Exited { event: e, pid, uptime_secs } => {
            if state.was_stopped(e, pid) {
                lemma_exit_of_stopped(state, e, pid, uptime_secs);
            }
            if let Some(process) = live {
                assert forall|k: int| 0 <= k < after.stopped.len() implies state.stopped.contains(
                    #[trigger] after.stopped[k],
                ) by {}
                lemma_still_wanted(state, after, event, process.pid);
            }
        },
        _ => {
            if let Some(process) = live {
                if started(step, event) is None && !ends(step, event, process) {
                    assert forall|k: int| 0 <= k < after.stopped.len() implies
                        state.stopped.contains(#[trigger] after.stopped[k])
                        || after.stopped[k].event != event by {
                        if k < state.stopped.len() {
                            assert(after.stopped[k] == state.stopped[k]);
                        }
                    }
                    lemma_still_wanted(state, after, event, process.pid);
                }
            }
        },
    }
}

proof fn lemma_agrees(steps: Seq<FxStep>, event: FxEvent)
    requires
        history(steps),
    ensures
        agrees(FxState::at(steps), event, live(steps, event)),
    decreases steps.len(),
{
    if steps.len() > 0 {
        let before = steps.drop_last();
        lemma_agrees(before, event);
        lemma_history_sound(before);
        lemma_agrees_step(FxState::at(before), steps.last(), event, live(before, event));
    }
}

/// The process after some operations was started by one of them, and not
/// ended since.
proof fn lemma_live_unended(steps: Seq<FxStep>, event: FxEvent)
    requires
        live(steps, event) is Some,
    ensures
        exists|k: int|
            unended(steps, event, k) && started(steps[k], event) == live(steps, event),
    decreases steps.len(),
{
    let n = steps.len() as int - 1;
    let before = steps.drop_last();
    if started(steps.last(), event) is Some {
        assert(unended(steps, event, n) && started(steps[n], event) == live(steps, event));
    } else {
        lemma_live_unended(before, event);
        let k = choose|k: int|
            unended(before, event, k) && started(before[k], event) == live(before, event);
        assert forall|m: int| k < m < steps.len() implies !ends(
            #[trigger] steps[m],
            event,
            live(before, event)->0,
        ) by {
            if m < n {
                assert(steps[m] == before[m]);
            }
        }
        assert(steps[k] == before[k]);
        assert(unended(steps, event, k) && started(steps[k], event) == live(steps, event));
    }
}

/// A process that was started, and not ended since, is the one after those
/// operations.
proof fn lemma_unended_lives(steps: Seq<FxStep>, event: FxEvent, k: int)
    requires
        history(steps),
        unended(steps, event, k),
    ensures
        live(steps, event) == started(steps[k], event),
    decreases steps.len(),
{
    let n = steps.len() as int - 1;
    if k < n {
        let before = steps.drop_last();
        let process = started(steps[k], event)->0;
        assert(before[k] == steps[k]);
        assert forall|m: int| k < m < before.len() implies !ends(
            #[trigger] before[m],
            event,
            process,
        ) by {
            assert(before[m] == steps[m]);
        }
        lemma_unended_lives(before, event, k);
        lemma_agrees(before, event);
        // Where a process runs, no other is started in its place unless the
        // operation ends it.
        assert(!ends(steps[n], event, process));
    }
}

proof fn lemma_runs(steps: Seq<FxStep>, event: FxEvent)
    requires
        history(steps),
    ensures
        runs(FxState::at(steps), event) <==> exists|k: int| unended(steps, event, k),
{
    lemma_agrees(steps, event);
    if runs(FxState::at(steps), event) {
        lemma_live_unended(steps, event);
    }
    if exists|k: int| unended(steps, event, k) {
        let k = choose|k: int| unended(steps, event, k);
        lemma_unended_lives(steps, event, k);
    }
}

// ---- Laws -----------------------------------------------------------------------------------

/// Reporting the process that an operation asked for completes the operation:
/// the state is the one after the operation with that process.
pub proof fn law_started_step(state: FxState, id: u64, conf: Seq<char>, pid: i32)
    ensures
        !state.chain_settled(id, conf) ==> state.after(
            FxStep::EnsureChain { id, conf: Some(conf), pid: None },
        ).chain_launched(id, conf, state.fails_with(id, conf), pid) == state.after(
            FxStep::EnsureChain { id, conf: Some(conf), pid: Some(pid) },
        ),
        !state.carla_runs(id) ==> state.after(
            FxStep::EnsureCarla { id, pid: None },
        ).carla_launched(id, false, pid) == state.after(
            FxStep::EnsureCarla { id, pid: Some(pid) },
        ),
        !state.window_open(id) ==> state.after(
            FxStep::OpenCarlaGui { id, pid: None },
        ).carla_launched(id, true, pid) == state.after(
            FxStep::OpenCarlaGui { id, pid: Some(pid) },
        ),
{
}

/// What holds of the processes at all times holds after any history.
pub proof fn law_always_sound(steps: Seq<FxStep>)
    requires
        history(steps),
    ensures
        FxState::at(steps).sound(),
{
    lemma_history_sound(steps);
}

/// A chain runs, after any history, exactly if a process was started for it
/// that has not exited and was not given up since: by asking for no chain or
/// for one with another configuration, by removing the channel, or by letting
/// everything go. What is done about other channels, and about racks, does not
/// matter.
pub proof fn law_chain_running(steps: Seq<FxStep>, id: u64)
    requires
        history(steps),
    ensures
        FxState::at(steps).chain_runs(id) <==> exists|k: int|
            unended(steps, FxEvent::ChainDied(id), k),
{
    lemma_runs(steps, FxEvent::ChainDied(id));
}

/// A rack runs, after any history, exactly if a process was started for it,
/// with a window or without, that has not exited and was not given up since: by
/// letting the rack go, by asking for a window that it has not, by removing the
/// channel, or by letting everything go. What is done about other channels, and
/// about chains, does not matter.
pub proof fn law_carla_running(steps: Seq<FxStep>, id: u64)
    requires
        history(steps),
    ensures
        FxState::at(steps).carla_runs(id) <==> exists|k: int|
            unended(steps, FxEvent::CarlaDied(id), k),
{
    lemma_runs(steps, FxEvent::CarlaDied(id));
}

} // verus!
