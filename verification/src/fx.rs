//! Helper processes for per-channel effects, and what becomes of them.
//!
//! Two kinds of processes are managed here: the LV2 chain of a channel, which
//! hosts a filter chain, and its VST rack. Starting and signalling processes is
//! left to the caller: every operation says what to do, and the caller reports
//! what happened.

use crate::pushes::Push;
use crate::{names, text};
use std::collections::HashMap;
use vstd::prelude::*;
use vstd::string::*;

verus! {

broadcast use vstd::std_specs::hash::group_hash_axioms;

/// What happened to a helper process.
#[derive(Clone, Copy, Debug, PartialEq, Eq, Structural)]
pub enum FxEvent {
    /// The chain process for a channel exited without being asked to.
    ChainDied(u64),
    /// The Carla rack for a channel exited (user closed the window, crash)
    /// or never became linkable.
    CarlaDied(u64),
}

/// An event and the handler that is to receive it.
#[derive(Clone, Copy, Debug, PartialEq, Eq, Structural)]
pub struct Report {
    pub handler: u64,
    pub event: FxEvent,
}

/// How long a chain has to run, in seconds, to count as started.
pub const MIN_UPTIME: u64 = 5;

/// How often linking a rack is tried before it is given up.
pub const LINK_TRIES: u32 = 40;

// ---- One process ------------------------------------------------------------------

/// A helper process.
#[derive(Clone, Copy, Debug, PartialEq, Eq)]
pub struct Slot {
    pub pid: i32,
    pub alive: bool,
    pub expect_exit: bool,
    /// Set when the process died shortly after spawning (bad plugin, bad
    /// conf) so callers stop waiting for its nodes.
    pub failed: bool,
    /// Who is told when the process exits on its own.
    pub handler: Option<u64>,
    /// What is told then.
    pub event: FxEvent,
}

impl Slot {
    /// A process that was just started.
    pub open spec fn started(pid: i32, handler: Option<u64>, event: FxEvent) -> Slot {
        Slot { pid, alive: true, expect_exit: false, failed: false, handler, event }
    }

    /// Whether the process runs and has not failed.
    pub open spec fn is_running(self) -> bool {
        self.alive && !self.failed
    }

    /// The process after it was asked to exit.
    pub open spec fn asked_to_exit(self) -> Slot {
        Slot { expect_exit: self.expect_exit || self.alive, ..self }
    }

    /// The process after it exited.
    pub open spec fn gone(self, uptime_secs: u64) -> Slot {
        Slot {
            alive: false,
            failed: self.failed || (!self.expect_exit && self.event is ChainDied && uptime_secs
                < MIN_UPTIME),
            ..self
        }
    }

    /// What is told when the process exits.
    pub open spec fn report(self) -> Option<Report> {
        match self.handler {
            Some(handler) if !self.expect_exit => Some(Report { handler, event: self.event }),
            _ => None,
        }
    }

    /// Whether the process runs and has not failed.
    pub fn running(&self) -> (yes: bool)
        ensures
            yes == self.is_running(),
    {
        self.alive && !self.failed
    }

    /// Asks the process to exit. Returns the process group to signal, if the
    /// process is alive.
    pub fn kill(&mut self) -> (signal: Option<i32>)
        ensures
            *final(self) == old(self).asked_to_exit(),
            signal == if old(self).alive {
                Some(old(self).pid)
            } else {
                None
            },
    {
        if self.alive {
            self.expect_exit = true;
            Some(self.pid)
        } else {
            None
        }
    }

    /// The process exited. Returns what is told about it: nothing if it was
    /// asked to exit. A chain that dies shortly after it was started failed.
    pub fn exited(&mut self, uptime_secs: u64) -> (told: Option<Report>)
        ensures
            *final(self) == old(self).gone(uptime_secs),
            told == old(self).report(),
    {
        self.alive = false;
        if self.expect_exit {
            return None;
        }
        let chain = matches!(self.event, FxEvent::ChainDied(_));
        if chain && uptime_secs < MIN_UPTIME {
            self.failed = true;
        }
        match self.handler {
            Some(handler) => Some(Report { handler, event: self.event }),
            None => None,
        }
    }
}

// ---- State --------------------------------------------------------------------------

/// The chain process of a channel.
struct ChainSlot {
    slot: Slot,
    conf: String,
    /// Consecutive quick deaths with this exact conf; at 2 we stop
    /// respawning so a plugin that crashes on load can't cause a loop.
    fails: u32,
}

/// An attempt to link a rack, repeated until it succeeds.
#[derive(Clone, Copy, Debug, PartialEq, Eq)]
pub struct LinkPoll {
    /// Tells the attempt from earlier ones for the same channel.
    pub number: u64,
    pub tries: u32,
    pub done: bool,
    /// Who is told when it is given up.
    pub handler: Option<u64>,
}

/// The rack process of a channel.
#[derive(Clone, Copy, Debug, PartialEq, Eq)]
pub struct CarlaSlot {
    pub slot: Slot,
    pub gui: bool,
    pub link: Option<LinkPoll>,
}

/// The helper processes of all channels.
pub struct FxManager {
    chains: HashMap<u64, ChainSlot>,
    carlas: HashMap<u64, CarlaSlot>,
    /// Processes that were asked to exit and have not yet.
    stopped: Vec<Slot>,
    handler: Option<u64>,
    next_poll: u64,
}

/// The chain process of a channel, as a value.
pub struct ChainState {
    pub slot: Slot,
    pub conf: Seq<char>,
    pub fails: u32,
}

/// The helper processes of all channels, as a value.
#[verifier::ext_equal]
pub struct FxState {
    pub chains: Map<u64, ChainState>,
    pub carlas: Map<u64, CarlaSlot>,
    pub stopped: Seq<Slot>,
    pub handler: Option<u64>,
    pub next_poll: u64,
}

impl ChainSlot {
    spec fn state(self) -> ChainState {
        ChainState { slot: self.slot, conf: self.conf@, fails: self.fails }
    }
}

impl View for FxManager {
    type V = FxState;

    closed spec fn view(&self) -> FxState {
        FxState {
            chains: self.chains@.map_values(|c: ChainSlot| c.state()),
            carlas: self.carlas@,
            stopped: self.stopped@,
            handler: self.handler,
            next_poll: self.next_poll,
        }
    }
}

impl FxState {
    /// No processes, and nobody to tell.
    pub open spec fn initial() -> FxState {
        FxState {
            chains: Map::empty(),
            carlas: Map::empty(),
            stopped: Seq::empty(),
            handler: None,
            next_poll: 0,
        }
    }

    /// What holds at all times: the processes in use were not asked to exit
    /// and report for their channel, those that were asked to exit are still
    /// alive, and a chain failed once at most.
    pub open spec fn sound(self) -> bool {
        &&& forall|id: u64|
            #[trigger] self.chains.contains_key(id) ==> !self.chains[id].slot.expect_exit
                && self.chains[id].slot.event == FxEvent::ChainDied(id) && self.chains[id].fails
                <= 1
        &&& forall|id: u64|
            #[trigger] self.carlas.contains_key(id) ==> !self.carlas[id].slot.expect_exit
                && self.carlas[id].slot.event == FxEvent::CarlaDied(id) && (
            self.carlas[id].link matches Some(poll) ==> poll.tries <= LINK_TRIES && poll.number
                < self.next_poll)
        &&& forall|i: int|
            0 <= i < self.stopped.len() ==> (#[trigger] self.stopped[i]).expect_exit
                && self.stopped[i].alive
    }

    /// Whether the chain of a channel runs.
    pub open spec fn chain_runs(self, id: u64) -> bool {
        self.chains.contains_key(id) && self.chains[id].slot.is_running()
    }

    /// Whether the rack of a channel runs.
    pub open spec fn carla_runs(self, id: u64) -> bool {
        self.carlas.contains_key(id) && self.carlas[id].slot.is_running()
    }

    /// The chain process to signal when the chain of a channel is to go.
    pub open spec fn chain_signal(self, id: u64) -> Option<i32> {
        if self.chains.contains_key(id) && self.chains[id].slot.alive {
            Some(self.chains[id].slot.pid)
        } else {
            None
        }
    }

    /// The state without the chain of a channel.
    pub open spec fn chain_stopped(self, id: u64) -> FxState {
        FxState {
            chains: self.chains.remove(id),
            stopped: if self.chain_signal(id) is Some {
                self.stopped.push(self.chains[id].slot.asked_to_exit())
            } else {
                self.stopped
            },
            ..self
        }
    }

    /// The state with a chain process that was just started.
    pub open spec fn chain_launched(
        self,
        id: u64,
        conf: Seq<char>,
        fails: u32,
        pid: i32,
    ) -> FxState {
        let slot = Slot::started(pid, self.handler, FxEvent::ChainDied(id));
        FxState { chains: self.chains.insert(id, ChainState { slot, conf, fails }), ..self }
    }

    /// The state with a rack process that was just started.
    pub open spec fn carla_launched(self, id: u64, gui: bool, pid: i32) -> FxState {
        let slot = Slot::started(pid, self.handler, FxEvent::CarlaDied(id));
        FxState { carlas: self.carlas.insert(id, CarlaSlot { slot, gui, link: None }), ..self }
    }

    /// The rack process to signal when the rack of a channel is to go.
    pub open spec fn carla_signal(self, id: u64) -> Option<i32> {
        if self.carlas.contains_key(id) && self.carlas[id].slot.alive {
            Some(self.carlas[id].slot.pid)
        } else {
            None
        }
    }

    /// The state without the rack of a channel.
    pub open spec fn carla_stopped(self, id: u64) -> FxState {
        FxState {
            carlas: self.carlas.remove(id),
            stopped: if self.carla_signal(id) is Some {
                self.stopped.push(self.carlas[id].slot.asked_to_exit())
            } else {
                self.stopped
            },
            ..self
        }
    }

    /// Whether the chain process of a channel was started with a
    /// configuration.
    pub open spec fn chain_has(self, id: u64, conf: Seq<char>) -> bool {
        self.chains.contains_key(id) && self.chains[id].conf == conf
    }

    /// How often a configuration would have failed in a row if it were
    /// started once more.
    pub open spec fn fails_with(self, id: u64, conf: Seq<char>) -> u32 {
        if self.chain_has(id, conf) && self.chains[id].slot.failed {
            (self.chains[id].fails + 1) as u32
        } else {
            0
        }
    }

    /// Whether the chain process of a channel is left as it is: it runs the
    /// configuration, or that is known to be bad.
    pub open spec fn chain_settled(self, id: u64, conf: Seq<char>) -> bool {
        self.chain_has(id, conf) && (self.chains[id].slot.is_running() || self.fails_with(id, conf)
            >= 2)
    }
}

impl Default for FxManager {
    /// No processes, and nobody to tell.
    fn default() -> (out: FxManager)
        ensures
            out@.sound(),
            out@ == FxState::initial(),
    {
        let out = FxManager {
            chains: HashMap::new(),
            carlas: HashMap::new(),
            stopped: Vec::new(),
            handler: None,
            next_poll: 0,
        };
        assert(out@.chains =~= Map::<u64, ChainState>::empty());
        out
    }
}

/// What to do so that a chain runs its configuration.
#[derive(Debug, PartialEq, Eq)]
pub struct ChainPlan {
    /// The process group to signal.
    pub signal: Option<i32>,
    /// The process to start.
    pub launch: Option<ChainLaunch>,
}

/// A chain process to start, and to report with [`FxManager::chain_started`].
#[derive(Debug, PartialEq, Eq)]
pub struct ChainLaunch {
    pub conf: String,
    pub fails: u32,
}

impl FxManager {
    /// Sets who is told about processes that are started, and about links that
    /// are tried, from now on.
    pub fn set_event_handler(&mut self, handler: u64)
        ensures
            final(self)@ == (FxState { handler: Some(handler), ..old(self)@ }),
    {
        self.handler = Some(handler);
    }

    fn stop_chain(&mut self, id: u64) -> (signal: Option<i32>)
        requires
            old(self)@.sound(),
        ensures
            final(self)@.sound(),
            final(self)@ == old(self)@.chain_stopped(id),
            signal == old(self)@.chain_signal(id),
    {
        let ghost before = self@;
        let signal = match self.chains.remove(&id) {
            Some(c) => {
                let mut slot = c.slot;
                let signal = slot.kill();
                if signal.is_some() {
                    self.stopped.push(slot);
                }
                signal
            },
            None => None,
        };
        assert(self@.chains =~= before.chains.remove(id));
        assert(self@ =~= before.chain_stopped(id));
        signal
    }

    // ---- LV2 chain ---------------------------------------------------------------

    /// Make sure the chain process for this channel runs `conf` (respawning
    /// on content changes), or kill it when `conf` is None.
    pub fn ensure_chain(&mut self, id: u64, conf: Option<String>) -> (plan: ChainPlan)
        requires
            old(self)@.sound(),
        ensures
            final(self)@.sound(),
            match conf {
                None => {
                    &&& final(self)@ == old(self)@.chain_stopped(id)
                    &&& plan.signal == old(self)@.chain_signal(id)
                    &&& plan.launch is None
                },
                Some(conf) => if old(self)@.chain_settled(id, conf@) {
                    &&& final(self)@ == old(self)@
                    &&& plan.signal is None
                    &&& plan.launch is None
                } else {
                    &&& final(self)@ == old(self)@.chain_stopped(id)
                    &&& plan.signal == old(self)@.chain_signal(id)
                    &&& plan.launch matches Some(launch) && launch.conf@ == conf@ && launch.fails
                        == old(self)@.fails_with(id, conf@)
                },
            },
            signalled(old(self)@, final(self)@, plan.signal),
            conf is None ==> !final(self)@.chains.contains_key(id),
            plan.launch matches Some(launch) ==> {
                &&& conf matches Some(conf) && launch.conf@ == conf@
                &&& launch.fails <= 1
                &&& !final(self)@.chains.contains_key(id)
            },
            conf matches Some(wanted) ==> (plan.launch is None ==> {
                &&& final(self)@.chains.contains_key(id)
                &&& final(self)@.chains[id].conf == wanted@
                &&& final(self)@.chain_runs(id) || final(self)@.chains[id].slot.failed
            }),
    {
        proof {
            law_stop_signals(self@, id);
        }
        let conf = match conf {
            Some(conf) => conf,
            None => {
                let signal = self.stop_chain(id);
                return ChainPlan { signal, launch: None };
            },
        };
        let mut fails: u32 = 0;
        assert(self@.chains.contains_key(id) == self.chains@.contains_key(id));
        if let Some(c) = self.chains.get(&id) {
            assert(self@.chains[id] == c.state());
            if c.conf == conf {
                if c.slot.running() {
                    return ChainPlan { signal: None, launch: None };
                }
                if c.slot.failed {
                    fails = c.fails + 1;
                    if fails >= 2 {
                        // Known-bad conf; keep the dead slot as a marker.
                        return ChainPlan { signal: None, launch: None };
                    }
                }
            }
        }
        let signal = self.stop_chain(id);
        ChainPlan { signal, launch: Some(ChainLaunch { conf, fails }) }
    }

    /// A chain process was started as planned.
    pub fn chain_started(&mut self, id: u64, launch: ChainLaunch, pid: i32)
        requires
            old(self)@.sound(),
            launch.fails <= 1,
        ensures
            final(self)@.sound(),
            final(self)@ == old(self)@.chain_launched(id, launch.conf@, launch.fails, pid),
    {
        let ghost before = self@;
        let slot = Slot {
            pid,
            alive: true,
            expect_exit: false,
            failed: false,
            handler: self.handler,
            event: FxEvent::ChainDied(id),
        };
        let chain = ChainSlot { slot, conf: launch.conf, fails: launch.fails };
        let ghost state = chain.state();
        self.chains.insert(id, chain);
        assert(self@.chains =~= before.chains.insert(id, state));
    }

    /// Whether the chain of a channel runs.
    pub fn chain_running(&self, id: u64) -> (yes: bool)
        ensures
            yes == self@.chain_runs(id),
    {
        match self.chains.get(&id) {
            Some(c) => {
                assert(self@.chains[id] == c.state());
                c.slot.running()
            },
            None => false,
        }
    }

    /// The chain died right after spawning; callers waiting for its nodes
    /// should wire the channel without it.
    pub fn chain_failed(&self, id: u64) -> (yes: bool)
        ensures
            yes == !self@.chain_runs(id),
    {
        !self.chain_running(id)
    }

    /// The command that applies a control-port value, written with six
    /// decimals, to the live chain of a channel; `None` if no chain runs.
    pub fn set_controls(
        &self,
        channel: u64,
        labels: &Vec<String>,
        symbol: &str,
        value: &str,
    ) -> (command: Option<String>)
        ensures
            match command {
                Some(command) => self@.chain_runs(channel) && command@ == control_command(
                    channel,
                    text::texts(labels@),
                    symbol@,
                    value@,
                ),
                None => !self@.chain_runs(channel),
            },
    {
        if !self.chain_running(channel) {
            return None;
        }
        let clean = text::sanitize_token(symbol);
        let ghost all = text::texts(labels@);
        let ghost entry = |label: Seq<char>| param_entry(label, symbol@, value@);
        let mut entries = String::new();
        let mut i: usize = 0;
        assert(all.take(0).map_values(entry) =~= Seq::empty());
        while i < labels.len()
            invariant
                i <= labels@.len(),
                clean@ == text::token(symbol@),
                all == text::texts(labels@),
                entry == (|label: Seq<char>| param_entry(label, symbol@, value@)),
                entries@ == text::joined(all.take(i as int).map_values(entry)),
            decreases labels@.len() - i,
        {
            let mut piece = "\"".to_owned();
            piece.append(text::sanitize_token(labels[i].as_str()).as_str());
            piece.append(":");
            piece.append(clean.as_str());
            piece.append("\" ");
            piece.append(value);
            piece.append(" ");
            proof {
                assert(all[i as int] == labels@[i as int]@);
                assert(all.take(i + 1).map_values(entry) =~= all.take(i as int).map_values(
                    entry,
                ).push(entry(all[i as int])));
                text::lemma_joined_push(
                    all.take(i as int).map_values(entry),
                    entry(all[i as int]),
                );
            }
            entries.append(piece.as_str());
            i += 1;
        }
        assert(all.take(i as int) =~= all);
        let mut command = "pw-cli set-param ".to_owned();
        command.append(names::chain_sink_name(channel).as_str());
        command.append(" Props '{ params = [ ");
        command.append(entries.as_str());
        command.append("] }'");
        Some(command)
    }

    /// The command that pushes a changed parameter into the live chain of its
    /// channel; `None` if no chain runs.
    pub fn push_control(&self, push: &Push) -> (command: Option<String>)
        ensures
            match command {
                Some(command) => self@.chain_runs(push@.channel) && command@ == control_command(
                    push@.channel,
                    names::label_list(push@.effect, push@.mono),
                    push@.parameter.symbol,
                    push@.parameter.text,
                ),
                None => !self@.chain_runs(push@.channel),
            },
    {
        let labels = names::effect_labels(push.effect, push.mono);
        self.set_controls(
            push.channel,
            &labels,
            push.parameter.symbol.as_str(),
            push.parameter.text.as_str(),
        )
    }

    // ---- Carla rack --------------------------------------------------------------

    /// Whether the rack of a channel runs.
    pub fn carla_running(&self, id: u64) -> (yes: bool)
        ensures
            yes == self@.carla_runs(id),
    {
        match self.carlas.get(&id) {
            Some(c) => c.slot.running(),
            None => false,
        }
    }

    /// Lets the rack of a channel go. Returns the process group to signal.
    pub fn kill_carla(&mut self, id: u64) -> (signal: Option<i32>)
        requires
            old(self)@.sound(),
        ensures
            final(self)@.sound(),
            final(self)@ == old(self)@.carla_stopped(id),
            signal == old(self)@.carla_signal(id),
            signalled(old(self)@, final(self)@, signal),
            !final(self)@.carlas.contains_key(id),
    {
        let ghost before = self@;
        proof {
            law_stop_signals(before, id);
        }
        let signal = match self.carlas.remove(&id) {
            Some(c) => {
                let mut slot = c.slot;
                let signal = slot.kill();
                if signal.is_some() {
                    self.stopped.push(slot);
                }
                signal
            },
            None => None,
        };
        assert(self@ =~= before.carla_stopped(id));
        signal
    }

    /// Ensure a (headless) rack process exists. Returns `None` if one runs,
    /// else what to do: a rack has to be started, and reported with
    /// [`FxManager::carla_started`], behind the signal to the process group, if
    /// there is one.
    pub fn ensure_carla(&mut self, id: u64) -> (plan: Option<CarlaLaunch>)
        requires
            old(self)@.sound(),
        ensures
            final(self)@.sound(),
            match plan {
                None => old(self)@.carla_runs(id) && final(self)@ == old(self)@,
                Some(launch) => {
                    &&& !old(self)@.carla_runs(id)
                    &&& final(self)@ == old(self)@.carla_stopped(id)
                    &&& launch.signal == old(self)@.carla_signal(id)
                    &&& !launch.gui
                },
            },
            match plan {
                None => final(self)@.carla_runs(id),
                Some(launch) => signalled(old(self)@, final(self)@, launch.signal)
                    && !final(self)@.carlas.contains_key(id),
            },
    {
        if self.carla_running(id) {
            return None;
        }
        let signal = self.kill_carla(id);
        Some(CarlaLaunch { signal, gui: false })
    }

    /// Bring up the rack with its editor window. A headless instance is
    /// restarted with the GUI (it reloads the saved project). Returns whether
    /// the rack was already running before the call, and what to do unless its
    /// window is open already.
    pub fn open_carla_gui(&mut self, id: u64) -> (out: (bool, Option<CarlaLaunch>))
        requires
            old(self)@.sound(),
        ensures
            final(self)@.sound(),
            out.0 == old(self)@.carla_runs(id),
            match out.1 {
                None => {
                    &&& old(self)@.carla_runs(id)
                    &&& old(self)@.carlas[id].gui
                    &&& final(self)@ == old(self)@
                },
                Some(launch) => {
                    &&& !(old(self)@.carla_runs(id) && old(self)@.carlas[id].gui)
                    &&& final(self)@ == old(self)@.carla_stopped(id)
                    &&& launch.signal == old(self)@.carla_signal(id)
                    &&& launch.gui
                },
            },
            match out.1 {
                None => final(self)@.carla_runs(id),
                Some(launch) => signalled(old(self)@, final(self)@, launch.signal)
                    && !final(self)@.carlas.contains_key(id),
            },
    {
        if let Some(c) = self.carlas.get(&id) {
            if c.slot.running() && c.gui {
                return (true, None);
            }
        }
        let was_running = self.carla_running(id);
        let signal = self.kill_carla(id);
        (was_running, Some(CarlaLaunch { signal, gui: true }))
    }

    /// A rack process was started as planned.
    pub fn carla_started(&mut self, id: u64, gui: bool, pid: i32)
        requires
            old(self)@.sound(),
        ensures
            final(self)@.sound(),
            final(self)@ == old(self)@.carla_launched(id, gui, pid),
    {
        let slot = Slot {
            pid,
            alive: true,
            expect_exit: false,
            failed: false,
            handler: self.handler,
            event: FxEvent::CarlaDied(id),
        };
        self.carlas.insert(id, CarlaSlot { slot, gui, link: None });
    }

    /// Whether there is a number left for another attempt to link a rack.
    pub fn can_start_links(&self) -> (yes: bool)
        ensures
            yes == (self@.next_poll < u64::MAX),
    {
        self.next_poll < u64::MAX
    }

    /// Starts linking the rack of a channel, instead of any earlier attempt.
    /// Returns the number of the attempt and the script to run at every try;
    /// `None` if the channel has no rack.
    pub fn start_carla_links(&mut self, id: u64) -> (out: Option<(u64, String)>)
        requires
            old(self)@.sound(),
            old(self)@.carlas.contains_key(id) ==> old(self)@.next_poll < u64::MAX,
        ensures
            final(self)@.sound(),
            match out {
                None => !old(self)@.carlas.contains_key(id) && final(self)@ == old(self)@,
                Some((number, script)) => {
                    &&& old(self)@.carlas.contains_key(id)
                    &&& number == old(self)@.next_poll
                    &&& script@ == link_script(id)
                    &&& final(self)@ == old(self)@.links_started(id)
                },
            },
    {
        let mut c = match self.carlas.get(&id) {
            Some(c) => *c,
            None => {
                return None;
            },
        };
        let number: u64 = self.next_poll;
        c.link = Some(LinkPoll { number, tries: 0, done: false, handler: self.handler });
        self.carlas.insert(id, c);
        self.next_poll = number + 1;
        Some((number, make_link_script(id)))
    }

    /// What the next try of an attempt to link a rack does.
    pub fn link_tick(&mut self, id: u64, number: u64) -> (step: LinkStep)
        requires
            old(self)@.sound(),
        ensures
            final(self)@.sound(),
            step == old(self)@.link_step(id, number),
            final(self)@ == old(self)@.link_ticked(id, number),
    {
        let ghost before = self@;
        let mut c = match self.carlas.get(&id) {
            Some(c) => *c,
            None => {
                return LinkStep::Stop;
            },
        };
        let mut poll = match c.link {
            Some(poll) => poll,
            None => {
                return LinkStep::Stop;
            },
        };
        if poll.number != number || poll.done || !c.slot.alive {
            return LinkStep::Stop;
        }
        if poll.tries >= LINK_TRIES {
            // The node never became linkable; give up so the channel can be
            // rewired without the rack.
            c.link = None;
            self.carlas.insert(id, c);
            let told = match poll.handler {
                Some(handler) => Some(Report { handler, event: FxEvent::CarlaDied(id) }),
                None => None,
            };
            return LinkStep::GiveUp(told);
        }
        poll.tries = poll.tries + 1;
        c.link = Some(poll);
        self.carlas.insert(id, c);
        LinkStep::Run
    }

    /// What the script of an attempt to link a rack printed. The links are up
    /// unless it says that a node is missing.
    pub fn link_output(&mut self, id: u64, number: u64, output: &str)
        requires
            old(self)@.sound(),
        ensures
            final(self)@.sound(),
            final(self)@ == old(self)@.link_heard(id, number, output@),
    {
        let mut c = match self.carlas.get(&id) {
            Some(c) => *c,
            None => {
                return;
            },
        };
        let mut poll = match c.link {
            Some(poll) => poll,
            None => {
                return;
            },
        };
        if poll.number == number && !text::contains_text(output, "No such object") {
            poll.done = true;
            c.link = Some(poll);
            self.carlas.insert(id, c);
        }
    }

    // ---- Lifecycle ---------------------------------------------------------------

    /// A helper process exited. Returns what is told about it: nothing if it
    /// was asked to exit.
    pub fn child_exited(&mut self, event: FxEvent, pid: i32, uptime_secs: u64) -> (told: Option<
        Report,
    >)
        requires
            old(self)@.sound(),
        ensures
            final(self)@.sound(),
            final(self)@ == old(self)@.after_exit(event, pid, uptime_secs),
            told == old(self)@.exit_report(event, pid),
    {
        let ghost before = self@;
        let mut i: usize = 0;
        while i < self.stopped.len()
            invariant
                self@ == before,
                before == old(self)@,
                i <= self.stopped@.len(),
                before.sound(),
                forall|j: int|
                    0 <= j < i ==> !is_process(#[trigger] before.stopped[j], event, pid),
            decreases self.stopped@.len() - i,
        {
            if self.stopped[i].pid == pid && self.stopped[i].event == event {
                let mut slot = self.stopped.remove(i);
                proof {
                    assert(slot == before.stopped[i as int]);
                    assert(first_process(before.stopped, event, pid, i as int));
                    lemma_first_process(before.stopped, event, pid, i as int);
                }
                let told = slot.exited(uptime_secs);
                proof {
                    assert(self@.chains == before.chains);
                    assert forall|k: int| 0 <= k < self@.stopped.len() implies (
                    #[trigger] self@.stopped[k]).expect_exit && self@.stopped[k].alive by {
                        let from = if k < i { k } else { k + 1 };
                        assert(self@.stopped[k] == before.stopped[from]);
                    }
                }
                return told;
            }
            i += 1;
        }
        assert(!before.was_stopped(event, pid));
        match event {
            FxEvent::ChainDied(id) => {
                assert(self@.chains.contains_key(id) == self.chains@.contains_key(id));
                match self.chains.remove(&id) {
                    Some(c) => {
                        assert(before.chains[id] == c.state());
                        let mut c = c;
                        let told = if c.slot.pid == pid {
                            c.slot.exited(uptime_secs)
                        } else {
                            None
                        };
                        let ghost state = c.state();
                        self.chains.insert(id, c);
                        assert(self@.chains =~= before.chains.insert(id, state));
                        assert(self@ =~= before.after_exit(event, pid, uptime_secs));
                        told
                    },
                    None => {
                        assert(self@.chains =~= before.chains);
                        None
                    },
                }
            },
            FxEvent::CarlaDied(id) => {
                match self.carlas.get(&id) {
                    Some(c) => {
                        let mut c = *c;
                        if c.slot.pid != pid {
                            return None;
                        }
                        let told = c.slot.exited(uptime_secs);
                        self.carlas.insert(id, c);
                        told
                    },
                    None => None,
                }
            },
        }
    }

    /// Lets the processes of a channel go. Returns the process groups to
    /// signal: that of the chain, then that of the rack.
    pub fn remove_channel(&mut self, id: u64) -> (signals: (Option<i32>, Option<i32>))
        requires
            old(self)@.sound(),
        ensures
            final(self)@.sound(),
            final(self)@ == old(self)@.chain_stopped(id).carla_stopped(id),
            signals.0 == old(self)@.chain_signal(id),
            signals.1 == old(self)@.carla_signal(id),
    {
        let chain = self.stop_chain(id);
        let carla = self.kill_carla(id);
        (chain, carla)
    }

    /// Lets all processes go: the chains in some order, then the racks in some
    /// order. Returns the process groups to signal.
    pub fn shutdown_all(&mut self) -> (signals: Vec<i32>)
        requires
            old(self)@.sound(),
        ensures
            final(self)@.sound(),
            final(self)@.chains == Map::<u64, ChainState>::empty(),
            final(self)@.carlas == Map::<u64, CarlaSlot>::empty(),
            exists|chains: Seq<u64>, racks: Seq<u64>|
                #![trigger old(self)@.chains_stopped(chains).carlas_stopped(racks)]
                {
                    &&& chains.no_duplicates() && chains.to_set() == old(self)@.chains.dom()
                    &&& racks.no_duplicates() && racks.to_set() == old(self)@.carlas.dom()
                    &&& final(self)@ == old(self)@.chains_stopped(chains).carlas_stopped(racks)
                    &&& signals@ == old(self)@.chain_signals(chains) + old(self)@.chains_stopped(
                        chains,
                    ).carla_signals(racks)
                },
    {
        let ghost before = self@;
        let mut signals: Vec<i32> = Vec::new();
        let chains = keys_of(&self.chains);
        let racks = keys_of(&self.carlas);
        let mut i: usize = 0;
        assert(self.chains@.dom() =~= before.chains.dom());
        assert(chains@.take(0) =~= Seq::<u64>::empty());
        while i < chains.len()
            invariant
                i <= chains@.len(),
                self@.sound(),
                self@ == before.chains_stopped(chains@.take(i as int)),
                signals@ == before.chain_signals(chains@.take(i as int)),
            decreases chains@.len() - i,
        {
            proof {
                assert(chains@.take(i + 1).drop_last() =~= chains@.take(i as int));
                assert(chains@.take(i + 1).last() == chains@[i as int]);
            }
            if let Some(group) = self.stop_chain(chains[i]) {
                signals.push(group);
            }
            i += 1;
        }
        assert(chains@.take(i as int) =~= chains@);
        let ghost between = self@;
        let ghost sent = signals@;
        assert(sent =~= sent + between.carla_signals(racks@.take(0)));
        i = 0;
        while i < racks.len()
            invariant
                i <= racks@.len(),
                self@.sound(),
                self@ == between.carlas_stopped(racks@.take(i as int)),
                signals@ == sent + between.carla_signals(racks@.take(i as int)),
            decreases racks@.len() - i,
        {
            proof {
                assert(racks@.take(i + 1).drop_last() =~= racks@.take(i as int));
                assert(racks@.take(i + 1).last() == racks@[i as int]);
            }
            if let Some(group) = self.kill_carla(racks[i]) {
                signals.push(group);
            }
            i += 1;
        }
        proof {
            assert(racks@.take(i as int) =~= racks@);
            before.lemma_chains_stopped(chains@);
            between.lemma_carlas_stopped(racks@);
            assert(self@.chains =~= Map::empty());
            assert(self@.carlas =~= Map::empty());
        }
        signals
    }
}

/// The keys of a table, each once, in some order.
fn keys_of<V>(table: &HashMap<u64, V>) -> (out: Vec<u64>)
    ensures
        out@.no_duplicates(),
        out@.to_set() == table@.dom(),
{
    let mut out: Vec<u64> = Vec::new();
    for key in keys: table.keys()
        invariant
            out@ =~= keys.seq().unref().take(keys.index()),
            keys.index() == keys.seq().len() ==> out@ =~= keys.seq().unref(),
            keys.seq().unref().to_set() == table@.dom(),
            keys.seq().no_duplicates(),
    {
        out.push(*key);
    }
    out
}

/// A rack process to start.
#[derive(Clone, Copy, Debug, PartialEq, Eq)]
pub struct CarlaLaunch {
    /// The process group to signal first.
    pub signal: Option<i32>,
    /// Whether the editor window is to be shown.
    pub gui: bool,
}

/// What a try to link a rack does.
#[derive(Clone, Copy, Debug, PartialEq, Eq)]
pub enum LinkStep {
    /// Run the script, and try again later.
    Run,
    /// Try no more.
    Stop,
    /// Try no more, and tell about it.
    GiveUp(Option<Report>),
}

/// Whether a process is the one that an exit is reported of.
pub open spec fn is_process(slot: Slot, event: FxEvent, pid: i32) -> bool {
    slot.pid == pid && slot.event == event
}

/// Whether the process at `i` is the first that an exit can be reported of.
pub open spec fn first_process(slots: Seq<Slot>, event: FxEvent, pid: i32, i: int) -> bool {
    &&& 0 <= i < slots.len()
    &&& is_process(slots[i], event, pid)
    &&& forall|j: int| 0 <= j < i ==> !is_process(#[trigger] slots[j], event, pid)
}

/// There is a first process that an exit can be reported of where there is any.
pub proof fn lemma_has_first_process(slots: Seq<Slot>, event: FxEvent, pid: i32)
    requires
        exists|i: int| 0 <= i < slots.len() && is_process(#[trigger] slots[i], event, pid),
    ensures
        exists|i: int| first_process(slots, event, pid, i),
    decreases slots.len(),
{
    let rest = slots.drop_last();
    if exists|i: int| 0 <= i < rest.len() && is_process(#[trigger] rest[i], event, pid) {
        lemma_has_first_process(rest, event, pid);
        let i = choose|i: int| first_process(rest, event, pid, i);
        assert forall|j: int| 0 <= j < i implies !is_process(
            #[trigger] slots[j],
            event,
            pid,
        ) by {
            assert(slots[j] == rest[j]);
        }
        assert(first_process(slots, event, pid, i));
    } else {
        assert forall|j: int| 0 <= j < slots.len() - 1 implies !is_process(
            #[trigger] slots[j],
            event,
            pid,
        ) by {
            assert(slots[j] == rest[j]);
        }
        assert(first_process(slots, event, pid, slots.len() - 1));
    }
}

proof fn lemma_first_process(slots: Seq<Slot>, event: FxEvent, pid: i32, i: int)
    requires
        first_process(slots, event, pid, i),
    ensures
        (choose|k: int| first_process(slots, event, pid, k)) == i,
{
    let k = choose|k: int| first_process(slots, event, pid, k);
    assert(first_process(slots, event, pid, k));
    assert(is_process(slots[i], event, pid) && is_process(slots[k], event, pid));
}

impl FxState {
    /// The state without the chains of some channels, which go one by one.
    pub open spec fn chains_stopped(self, ids: Seq<u64>) -> FxState
        decreases ids.len(),
    {
        if ids.len() == 0 {
            self
        } else {
            self.chains_stopped(ids.drop_last()).chain_stopped(ids.last())
        }
    }

    /// The process groups to signal when the chains of some channels go.
    pub open spec fn chain_signals(self, ids: Seq<u64>) -> Seq<i32>
        decreases ids.len(),
    {
        if ids.len() == 0 {
            Seq::empty()
        } else {
            let sent = self.chain_signals(ids.drop_last());
            match self.chains_stopped(ids.drop_last()).chain_signal(ids.last()) {
                Some(group) => sent.push(group),
                None => sent,
            }
        }
    }

    /// The state without the racks of some channels, which go one by one.
    pub open spec fn carlas_stopped(self, ids: Seq<u64>) -> FxState
        decreases ids.len(),
    {
        if ids.len() == 0 {
            self
        } else {
            self.carlas_stopped(ids.drop_last()).carla_stopped(ids.last())
        }
    }

    /// The process groups to signal when the racks of some channels go.
    pub open spec fn carla_signals(self, ids: Seq<u64>) -> Seq<i32>
        decreases ids.len(),
    {
        if ids.len() == 0 {
            Seq::empty()
        } else {
            let sent = self.carla_signals(ids.drop_last());
            match self.carlas_stopped(ids.drop_last()).carla_signal(ids.last()) {
                Some(group) => sent.push(group),
                None => sent,
            }
        }
    }

    /// What letting the chains of some channels go leaves.
    pub proof fn lemma_chains_stopped(self, ids: Seq<u64>)
        ensures
            self.chains_stopped(ids).carlas == self.carlas,
            self.chains_stopped(ids).chains == self.chains.remove_keys(ids.to_set()),
        decreases ids.len(),
    {
        if ids.len() > 0 {
            self.lemma_chains_stopped(ids.drop_last());
            ids.drop_last().lemma_push_to_set_commute(ids.last());
            assert(ids =~= ids.drop_last().push(ids.last()));
        }
        assert(self.chains_stopped(ids).chains =~= self.chains.remove_keys(ids.to_set()));
    }

    /// What letting the racks of some channels go leaves.
    pub proof fn lemma_carlas_stopped(self, ids: Seq<u64>)
        ensures
            self.carlas_stopped(ids).chains == self.chains,
            self.carlas_stopped(ids).carlas == self.carlas.remove_keys(ids.to_set()),
        decreases ids.len(),
    {
        if ids.len() > 0 {
            self.lemma_carlas_stopped(ids.drop_last());
            ids.drop_last().lemma_push_to_set_commute(ids.last());
            assert(ids =~= ids.drop_last().push(ids.last()));
        }
        assert(self.carlas_stopped(ids).carlas =~= self.carlas.remove_keys(ids.to_set()));
    }

    /// Whether a process was asked to exit and has not yet.
    pub open spec fn was_stopped(self, event: FxEvent, pid: i32) -> bool {
        exists|i: int| 0 <= i < self.stopped.len() && is_process(
            #[trigger] self.stopped[i],
            event,
            pid,
        )
    }

    /// What is told when a process exits.
    pub open spec fn exit_report(self, event: FxEvent, pid: i32) -> Option<Report> {
        if self.was_stopped(event, pid) {
            None
        } else {
            match event {
                FxEvent::ChainDied(id) => if self.chains.contains_key(id)
                    && self.chains[id].slot.pid == pid {
                    self.chains[id].slot.report()
                } else {
                    None
                },
                FxEvent::CarlaDied(id) => if self.carlas.contains_key(id)
                    && self.carlas[id].slot.pid == pid {
                    self.carlas[id].slot.report()
                } else {
                    None
                },
            }
        }
    }

    /// The state after a process exited: the processes that were asked to
    /// exit come first.
    pub open spec fn after_exit(self, event: FxEvent, pid: i32, uptime_secs: u64) -> FxState {
        if self.was_stopped(event, pid) {
            let i = choose|i: int| first_process(self.stopped, event, pid, i);
            FxState { stopped: self.stopped.remove(i), ..self }
        } else {
            match event {
                FxEvent::ChainDied(id) => if self.chains.contains_key(id)
                    && self.chains[id].slot.pid == pid {
                    FxState {
                        chains: self.chains.insert(
                            id,
                            ChainState {
                                slot: self.chains[id].slot.gone(uptime_secs),
                                ..self.chains[id]
                            },
                        ),
                        ..self
                    }
                } else {
                    self
                },
                FxEvent::CarlaDied(id) => if self.carlas.contains_key(id)
                    && self.carlas[id].slot.pid == pid {
                    FxState {
                        carlas: self.carlas.insert(
                            id,
                            CarlaSlot {
                                slot: self.carlas[id].slot.gone(uptime_secs),
                                ..self.carlas[id]
                            },
                        ),
                        ..self
                    }
                } else {
                    self
                },
            }
        }
    }

    /// Whether an attempt to link a rack is the current one.
    pub open spec fn linking(self, id: u64, number: u64) -> bool {
        self.carlas.contains_key(id) && (self.carlas[id].link matches Some(poll) && poll.number
            == number)
    }

    /// The state after linking a rack was started, if there is one.
    pub open spec fn links_started(self, id: u64) -> FxState {
        if self.carlas.contains_key(id) {
            let poll = LinkPoll {
                number: self.next_poll,
                tries: 0,
                done: false,
                handler: self.handler,
            };
            FxState {
                carlas: self.carlas.insert(
                    id,
                    CarlaSlot { link: Some(poll), ..self.carlas[id] },
                ),
                next_poll: (self.next_poll + 1) as u64,
                ..self
            }
        } else {
            self
        }
    }

    /// The state after the script of an attempt to link a rack printed
    /// something.
    pub open spec fn link_heard(self, id: u64, number: u64, output: Seq<char>) -> FxState {
        if self.linking(id, number) && !text::holds_text(output, "No such object"@) {
            let c = self.carlas[id];
            FxState {
                carlas: self.carlas.insert(
                    id,
                    CarlaSlot { link: Some(LinkPoll { done: true, ..c.link->0 }), ..c },
                ),
                ..self
            }
        } else {
            self
        }
    }

    /// Whether an attempt to link a rack goes on: it is the current one, it
    /// has not succeeded, and the rack is alive.
    pub open spec fn link_goes_on(self, id: u64, number: u64) -> bool {
        self.linking(id, number) && !self.carlas[id].link->0.done && self.carlas[id].slot.alive
    }

    /// What the next try of an attempt to link a rack does.
    pub open spec fn link_step(self, id: u64, number: u64) -> LinkStep {
        if !self.link_goes_on(id, number) {
            LinkStep::Stop
        } else if self.carlas[id].link->0.tries < LINK_TRIES {
            LinkStep::Run
        } else {
            LinkStep::GiveUp(
                match self.carlas[id].link->0.handler {
                    Some(handler) => Some(Report { handler, event: FxEvent::CarlaDied(id) }),
                    None => None,
                },
            )
        }
    }

    /// The state after a try of an attempt to link a rack.
    pub open spec fn link_ticked(self, id: u64, number: u64) -> FxState {
        if !self.link_goes_on(id, number) {
            self
        } else {
            let c = self.carlas[id];
            let poll = c.link->0;
            FxState {
                carlas: self.carlas.insert(
                    id,
                    CarlaSlot {
                        link: if poll.tries < LINK_TRIES {
                            Some(LinkPoll { tries: (poll.tries + 1) as u32, ..poll })
                        } else {
                            None
                        },
                        ..c
                    },
                ),
                ..self
            }
        }
    }
}

// ---- Laws -------------------------------------------------------------------------

impl FxState {
    /// The state after the chain that is to run a configuration was seen to:
    /// where a process has to be started, it is, under `pid`.
    pub open spec fn chain_ensured(self, id: u64, conf: Seq<char>, pid: i32) -> FxState {
        if self.chain_settled(id, conf) {
            self
        } else {
            self.chain_stopped(id).chain_launched(id, conf, self.fails_with(id, conf), pid)
        }
    }
}

/// A configuration that dies quickly is started twice at most: when both
/// processes die quickly, further attempts to run the same configuration leave
/// everything as it is, and the chain counts as failed.
pub proof fn law_no_respawn_loop(
    state: FxState,
    id: u64,
    conf: Seq<char>,
    first: i32,
    second: i32,
    third: i32,
    first_uptime: u64,
    second_uptime: u64,
)
    requires
        state.sound(),
        !state.chain_has(id, conf),
        first_uptime < MIN_UPTIME,
        second_uptime < MIN_UPTIME,
        !state.chain_stopped(id).was_stopped(FxEvent::ChainDied(id), first),
        !state.chain_stopped(id).was_stopped(FxEvent::ChainDied(id), second),
    ensures
        ({
            let started = state.chain_ensured(id, conf, first);
            let died = started.after_exit(FxEvent::ChainDied(id), first, first_uptime);
            let again = died.chain_ensured(id, conf, second);
            let over = again.after_exit(FxEvent::ChainDied(id), second, second_uptime);
            &&& started.chain_runs(id)
            &&& !died.chain_runs(id)
            &&& again.chain_runs(id)
            &&& over.chain_settled(id, conf)
            &&& over.chain_ensured(id, conf, third) == over
            &&& !over.chain_runs(id)
        }),
{
}

/// A chain that runs its configuration is left alone.
pub proof fn law_running_chain_kept(state: FxState, id: u64, conf: Seq<char>, pid: i32, next: i32)
    requires
        state.sound(),
        !state.chain_settled(id, conf),
    ensures
        state.chain_ensured(id, conf, pid).chain_runs(id),
        state.chain_ensured(id, conf, pid).chain_ensured(id, conf, next) == state.chain_ensured(
            id,
            conf,
            pid,
        ),
{
}

/// A process that was asked to exit is never told about, however its exit is
/// reported later.
pub proof fn law_stopped_is_silent(state: FxState, id: u64)
    requires
        state.sound(),
    ensures
        state.chain_signal(id) matches Some(pid) ==> state.chain_stopped(id).exit_report(
            FxEvent::ChainDied(id),
            pid,
        ) is None,
        state.carla_signal(id) matches Some(pid) ==> state.carla_stopped(id).exit_report(
            FxEvent::CarlaDied(id),
            pid,
        ) is None,
{
    if state.chain_signal(id) is Some {
        let after = state.chain_stopped(id);
        assert(is_process(
            after.stopped[after.stopped.len() - 1],
            FxEvent::ChainDied(id),
            state.chain_signal(id)->0,
        ));
    }
    if state.carla_signal(id) is Some {
        let after = state.carla_stopped(id);
        assert(is_process(
            after.stopped[after.stopped.len() - 1],
            FxEvent::CarlaDied(id),
            state.carla_signal(id)->0,
        ));
    }
}

/// What happens to the processes of one channel does not touch those of
/// another.
pub proof fn law_channels_apart(
    state: FxState,
    id: u64,
    other: u64,
    pid: i32,
    conf: Seq<char>,
    uptime_secs: u64,
    number: u64,
)
    requires
        id != other,
    ensures
        ({
            let same = |after: FxState|
                {
                    &&& after.chains.contains_key(other) == state.chains.contains_key(other)
                    &&& after.chains.contains_key(other) ==> after.chains[other]
                        == state.chains[other]
                    &&& after.carlas.contains_key(other) == state.carlas.contains_key(other)
                    &&& after.carlas.contains_key(other) ==> after.carlas[other]
                        == state.carlas[other]
                };
            &&& same(state.chain_ensured(id, conf, pid))
            &&& same(state.chain_stopped(id))
            &&& same(state.carla_stopped(id))
            &&& same(state.after_exit(FxEvent::ChainDied(id), pid, uptime_secs))
            &&& same(state.after_exit(FxEvent::CarlaDied(id), pid, uptime_secs))
            &&& same(state.link_ticked(id, number))
        }),
{
}

impl FxState {
    /// The state after a number of tries to link a rack, none of which
    /// succeeded.
    pub open spec fn link_tried(self, id: u64, number: u64, times: nat) -> FxState
        decreases times,
    {
        if times == 0 {
            self
        } else {
            self.link_tried(id, number, (times - 1) as nat).link_ticked(id, number)
        }
    }
}

/// Linking a rack that stays alive is tried [`LINK_TRIES`] times. When none of
/// the tries succeeds, it is given up once, and whoever is to know is told that
/// the rack died.
pub proof fn law_links_bounded(state: FxState, id: u64, number: u64, times: nat)
    requires
        state.link_goes_on(id, number),
        state.carlas[id].link->0.tries == 0,
    ensures
        times < LINK_TRIES ==> state.link_tried(id, number, times).link_step(id, number)
            == LinkStep::Run,
        times == LINK_TRIES ==> state.link_tried(id, number, times).link_step(id, number)
            == LinkStep::GiveUp(
            match state.carlas[id].link->0.handler {
                Some(handler) => Some(Report { handler, event: FxEvent::CarlaDied(id) }),
                None => None,
            },
        ),
        times > LINK_TRIES ==> state.link_tried(id, number, times).link_step(id, number)
            == LinkStep::Stop,
{
    lemma_links_bounded(state, id, number, times);
}

proof fn lemma_links_bounded(state: FxState, id: u64, number: u64, times: nat)
    requires
        state.link_goes_on(id, number),
        state.carlas[id].link->0.tries == 0,
    ensures
        ({
            let after = state.link_tried(id, number, times);
            &&& after.carlas.contains_key(id)
            &&& after.carlas[id] == (CarlaSlot {
                link: if times <= LINK_TRIES {
                    Some(LinkPoll { tries: times as u32, ..state.carlas[id].link->0 })
                } else {
                    None
                },
                ..state.carlas[id]
            })
        }),
    decreases times,
{
    if times > 0 {
        lemma_links_bounded(state, id, number, (times - 1) as nat);
    }
}

/// When the chains of some channels go, every process of theirs that is alive
/// is signalled.
pub proof fn law_chains_signalled(state: FxState, ids: Seq<u64>, id: u64)
    requires
        ids.contains(id),
    ensures
        state.chain_signal(id) matches Some(group) ==> state.chain_signals(ids).contains(group),
    decreases ids.len(),
{
    let rest = ids.drop_last();
    state.lemma_chains_stopped(rest);
    if let Some(group) = state.chain_signal(id) {
        let sent = state.chain_signals(rest);
        if rest.contains(id) {
            law_chains_signalled(state, rest, id);
            let k = sent.index_of(group);
            assert(state.chain_signals(ids)[k] == group);
        } else {
            let k = ids.index_of(id);
            assert(k < rest.len() ==> rest[k] == id);
            assert(state.chain_signals(ids)[sent.len() as int] == group);
        }
    }
}

/// When the racks of some channels go, every process of theirs that is alive
/// is signalled.
pub proof fn law_racks_signalled(state: FxState, ids: Seq<u64>, id: u64)
    requires
        ids.contains(id),
    ensures
        state.carla_signal(id) matches Some(group) ==> state.carla_signals(ids).contains(group),
    decreases ids.len(),
{
    let rest = ids.drop_last();
    state.lemma_carlas_stopped(rest);
    if let Some(group) = state.carla_signal(id) {
        let sent = state.carla_signals(rest);
        if rest.contains(id) {
            law_racks_signalled(state, rest, id);
            let k = sent.index_of(group);
            assert(state.carla_signals(ids)[k] == group);
        } else {
            let k = ids.index_of(id);
            assert(k < rest.len() ==> rest[k] == id);
            assert(state.carla_signals(ids)[sent.len() as int] == group);
        }
    }
}

/// After everything was let go, nothing runs and nothing can be told about
/// any more: every process that is still alive was asked to exit.
pub proof fn law_shutdown_is_quiet(state: FxState, event: FxEvent, pid: i32)
    requires
        state.sound(),
        state.chains == Map::<u64, ChainState>::empty(),
        state.carlas == Map::<u64, CarlaSlot>::empty(),
    ensures
        forall|id: u64| !state.chain_runs(id) && !state.carla_runs(id),
        state.exit_report(event, pid) is None,
        forall|i: int| 0 <= i < state.stopped.len() ==> (#[trigger] state.stopped[i]).expect_exit,
{
}

// ---- Commands -------------------------------------------------------------------------

/// A parameter of a node, as a command sets it.
pub open spec fn param_entry(label: Seq<char>, symbol: Seq<char>, value: Seq<char>) -> Seq<char> {
    "\""@ + text::token(label) + ":"@ + text::token(symbol) + "\" "@ + value + " "@
}

/// The command that sets a parameter on the nodes of an effect.
pub open spec fn control_command(
    channel: u64,
    labels: Seq<Seq<char>>,
    symbol: Seq<char>,
    value: Seq<char>,
) -> Seq<char> {
    "pw-cli set-param "@ + names::channel_node(channel, "_FX"@) + " Props '{ params = [ "@
        + text::joined(labels.map_values(|label: Seq<char>| param_entry(label, symbol, value)))
        + "] }'"@
}

/// The script that connects the sink in front of a rack, the rack, and the
/// chain behind it.
pub open spec fn link_script(id: u64) -> Seq<char> {
    let vstin = names::channel_node(id, "_VSTIn"@);
    let carla = names::channel_node(id, "_VST"@);
    let sink = names::channel_node(id, "_FX"@);
    "pw-link '"@ + vstin + ":monitor_FL' '"@ + carla + ":audio-in1' 2>&1; pw-link '"@ + vstin
        + ":monitor_FR' '"@ + carla + ":audio-in2' 2>&1; pw-link '"@ + carla + ":audio-out1' '"@
        + sink + ":playback_FL' 2>&1; pw-link '"@ + carla + ":audio-out2' '"@ + sink
        + ":playback_FR' 2>&1; exit 0"@
}

fn make_link_script(id: u64) -> (out: String)
    ensures
        out@ == link_script(id),
{
    let vstin = names::vstin_sink_name(id);
    let carla = names::carla_node_name(id);
    let sink = names::chain_sink_name(id);
    let mut out = "pw-link '".to_owned();
    out.append(vstin.as_str());
    out.append(":monitor_FL' '");
    out.append(carla.as_str());
    out.append(":audio-in1' 2>&1; pw-link '");
    out.append(vstin.as_str());
    out.append(":monitor_FR' '");
    out.append(carla.as_str());
    out.append(":audio-in2' 2>&1; pw-link '");
    out.append(carla.as_str());
    out.append(":audio-out1' '");
    out.append(sink.as_str());
    out.append(":playback_FL' 2>&1; pw-link '");
    out.append(carla.as_str());
    out.append(":audio-out2' '");
    out.append(sink.as_str());
    out.append(":playback_FR' 2>&1; exit 0");
    out
}

/// Whether the process that was let go by an operation, if any, is the one to
/// signal: exactly that one is waited for from then on.
pub open spec fn signalled(before: FxState, after: FxState, signal: Option<i32>) -> bool {
    match signal {
        Some(pid) => {
            &&& after.stopped.len() == before.stopped.len() + 1
            &&& after.stopped.drop_last() == before.stopped
            &&& after.stopped.last().pid == pid
            &&& after.stopped.last().expect_exit
        },
        None => after.stopped == before.stopped,
    }
}

// ---- Laws on single processes and commands ----------------------------------------------

/// Letting a chain or a rack go signals its process if that is alive, which is
/// then waited for; the channel has none afterwards. Nothing else changes.
pub proof fn law_stop_signals(state: FxState, id: u64)
    ensures
        ({
            let after = state.chain_stopped(id);
            let alive = state.chains.contains_key(id) && state.chains[id].slot.alive;
            &&& !after.chains.contains_key(id)
            &&& state.chain_signal(id) == if alive {
                Some(state.chains[id].slot.pid)
            } else {
                None
            }
            &&& !alive ==> after.stopped == state.stopped
            &&& alive ==> {
                &&& after.stopped.drop_last() == state.stopped
                &&& after.stopped.last().pid == state.chains[id].slot.pid
                &&& after.stopped.last().event == state.chains[id].slot.event
                &&& after.stopped.last().expect_exit
            }
            &&& after.carlas == state.carlas && after.handler == state.handler
                && after.next_poll == state.next_poll
        }),
        ({
            let after = state.carla_stopped(id);
            let alive = state.carlas.contains_key(id) && state.carlas[id].slot.alive;
            &&& !after.carlas.contains_key(id)
            &&& state.carla_signal(id) == if alive {
                Some(state.carlas[id].slot.pid)
            } else {
                None
            }
            &&& !alive ==> after.stopped == state.stopped
            &&& alive ==> {
                &&& after.stopped.drop_last() == state.stopped
                &&& after.stopped.last().pid == state.carlas[id].slot.pid
                &&& after.stopped.last().event == state.carlas[id].slot.event
                &&& after.stopped.last().expect_exit
            }
            &&& after.chains == state.chains && after.handler == state.handler && after.next_poll
                == state.next_poll
        }),
{
    assert(state.chain_signal(id) is Some ==> state.chain_stopped(id).stopped.drop_last()
        =~= state.stopped);
    assert(state.carla_signal(id) is Some ==> state.carla_stopped(id).stopped.drop_last()
        =~= state.stopped);
}

/// A process that was started runs, under its number and for whoever is to be
/// told; a chain with its configuration, a rack with its window or without, and
/// not linked yet.
pub proof fn law_launched_runs(
    state: FxState,
    id: u64,
    conf: Seq<char>,
    fails: u32,
    gui: bool,
    pid: i32,
)
    ensures
        ({
            let after = state.chain_launched(id, conf, fails, pid);
            &&& after.chain_runs(id)
            &&& after.chains[id].slot.pid == pid
            &&& after.chains[id].slot.handler == state.handler
            &&& after.chains[id].slot.event == FxEvent::ChainDied(id)
            &&& after.chains[id].conf == conf
            &&& after.chains[id].fails == fails
            &&& after == (FxState { chains: after.chains, ..state })
        }),
        ({
            let after = state.carla_launched(id, gui, pid);
            &&& after.carla_runs(id)
            &&& after.carlas[id].slot.pid == pid
            &&& after.carlas[id].slot.handler == state.handler
            &&& after.carlas[id].slot.event == FxEvent::CarlaDied(id)
            &&& after.carlas[id].gui == gui
            &&& after.carlas[id].link is None
            &&& after == (FxState { carlas: after.carlas, ..state })
        }),
{
}

/// A chain that is asked for with a configuration it does not run, and that is
/// not known to be bad, runs it afterwards, in the process that was started.
pub proof fn law_configuration_runs(state: FxState, id: u64, conf: Seq<char>, pid: i32)
    requires
        state.sound(),
        state.chains.contains_key(id) ==> state.chains[id].conf != conf,
    ensures
        ({
            let after = state.chain_ensured(id, conf, pid);
            &&& after.chain_runs(id)
            &&& after.chains[id].conf == conf
            &&& after.chains[id].slot.pid == pid
            &&& after.chains[id].fails == 0
        }),
{
}

/// A process that exits on its own does not run any more, and whoever was to be
/// told when it was started is told so. Exits of processes that are not known
/// tell nothing and change nothing.
pub proof fn law_death_told(state: FxState, id: u64, pid: i32, uptime_secs: u64)
    requires
        state.sound(),
        !state.was_stopped(FxEvent::ChainDied(id), pid),
        !state.was_stopped(FxEvent::CarlaDied(id), pid),
    ensures
        state.chains.contains_key(id) && state.chains[id].slot.pid == pid ==> {
            &&& !state.after_exit(FxEvent::ChainDied(id), pid, uptime_secs).chain_runs(id)
            &&& state.exit_report(FxEvent::ChainDied(id), pid) == match state.chains[id].slot.handler {
                Some(handler) => Some(Report { handler, event: FxEvent::ChainDied(id) }),
                None => None,
            }
        },
        !(state.chains.contains_key(id) && state.chains[id].slot.pid == pid) ==> {
            &&& state.after_exit(FxEvent::ChainDied(id), pid, uptime_secs) == state
            &&& state.exit_report(FxEvent::ChainDied(id), pid) is None
        },
        state.carlas.contains_key(id) && state.carlas[id].slot.pid == pid ==> {
            &&& !state.after_exit(FxEvent::CarlaDied(id), pid, uptime_secs).carla_runs(id)
            &&& state.exit_report(FxEvent::CarlaDied(id), pid) == match state.carlas[id].slot.handler {
                Some(handler) => Some(Report { handler, event: FxEvent::CarlaDied(id) }),
                None => None,
            }
        },
        !(state.carlas.contains_key(id) && state.carlas[id].slot.pid == pid) ==> {
            &&& state.after_exit(FxEvent::CarlaDied(id), pid, uptime_secs) == state
            &&& state.exit_report(FxEvent::CarlaDied(id), pid) is None
        },
{
}

/// A chain counts as failed exactly if it died within five seconds. One that
/// ran longer is started again with the same configuration, as often as it
/// takes. A rack never counts as failed.
pub proof fn law_only_quick_deaths_fail(
    state: FxState,
    id: u64,
    pid: i32,
    uptime_secs: u64,
    next: i32,
)
    requires
        state.sound(),
        !state.was_stopped(FxEvent::ChainDied(id), pid),
        !state.was_stopped(FxEvent::CarlaDied(id), pid),
    ensures
        state.chain_runs(id) && state.chains[id].slot.pid == pid ==> {
            let conf = state.chains[id].conf;
            let after = state.after_exit(FxEvent::ChainDied(id), pid, uptime_secs);
            let again = after.chain_ensured(id, conf, next);
            &&& after.chains[id].slot.failed == (uptime_secs < 5)
            &&& after.chains[id].conf == conf
            &&& uptime_secs >= 5 ==> again.chain_runs(id) && again.chains[id].slot.pid == next
                && again.chains[id].fails == 0
        },
        state.carla_runs(id) && state.carlas[id].slot.pid == pid ==> !state.after_exit(
            FxEvent::CarlaDied(id),
            pid,
            uptime_secs,
        ).carlas[id].slot.failed,
{
}

/// Starting to link a rack ends any earlier attempt, and starts over under a
/// number that no attempt had. A rack that is not there is not linked.
pub proof fn law_linking_starts_over(state: FxState, id: u64, number: u64)
    requires
        state.sound(),
        state.next_poll < u64::MAX,
    ensures
        !state.carlas.contains_key(id) ==> state.links_started(id) == state,
        state.carlas.contains_key(id) ==> {
            let after = state.links_started(id);
            let fresh = state.next_poll;
            &&& !state.linking(id, fresh)
            &&& after.next_poll > fresh
            &&& after.linking(id, number) == (number == fresh)
            &&& after.link_step(id, number) == if number == fresh && state.carlas[id].slot.alive {
                LinkStep::Run
            } else {
                LinkStep::Stop
            }
            &&& after.carlas[id].link->0.tries == 0
            &&& after.carlas[id].link->0.handler == state.handler
            &&& after.carlas[id].slot == state.carlas[id].slot
            &&& after.carlas[id].gui == state.carlas[id].gui
        },
{
}

/// Linking a rack ends with the first output of its script that does not tell
/// of a missing object; an output that does, or one of an earlier attempt, ends
/// nothing.
pub proof fn law_links_up(state: FxState, id: u64, number: u64, output: Seq<char>)
    requires
        state.linking(id, number),
    ensures
        text::holds_text(output, "No such object"@) ==> state.link_heard(id, number, output)
            == state,
        !text::holds_text(output, "No such object"@) ==> state.link_heard(
            id,
            number,
            output,
        ).link_step(id, number) == LinkStep::Stop,
        forall|other: u64|
            other != number ==> #[trigger] state.link_heard(id, other, output) == state,
        state.link_heard(id, number, output).carlas[id].slot == state.carlas[id].slot,
{
}

/// Linking a rack is tried forty times, and given up when none of them
/// succeeded.
pub proof fn law_forty_tries(state: FxState, id: u64, number: u64)
    requires
        state.link_goes_on(id, number),
        state.carlas[id].link->0.tries == 0,
    ensures
        state.link_tried(id, number, 39).link_step(id, number) == LinkStep::Run,
        state.link_tried(id, number, 40).link_step(id, number) is GiveUp,
        state.link_tried(id, number, 41).link_step(id, number) == LinkStep::Stop,
{
    law_links_bounded(state, id, number, 39);
    law_links_bounded(state, id, number, 40);
    law_links_bounded(state, id, number, 41);
}

/// A command sets a parameter on the sink of the chain of its channel, for each
/// node of the effect, to the value.
pub proof fn law_command_sets(
    channel: u64,
    labels: Seq<Seq<char>>,
    symbol: Seq<char>,
    value: Seq<char>,
    i: int,
)
    requires
        0 <= i < labels.len(),
    ensures
        ({
            let command = control_command(channel, labels, symbol, value);
            let node = "OpenWave_Ch"@ + text::decimal(channel as nat) + "_FX"@;
            let start = "pw-cli set-param "@ + node + " Props '{ params = [ "@;
            &&& command.len() >= start.len()
            &&& command.take(start.len() as int) == start
            &&& text::holds_text(
                command,
                "\""@ + text::token(labels[i]) + ":"@ + text::token(symbol) + "\" "@ + value + " "@,
            )
        }),
{
    let command = control_command(channel, labels, symbol, value);
    let node = names::channel_node(channel, "_FX"@);
    let start = "pw-cli set-param "@ + node + " Props '{ params = [ "@;
    let parts = labels.map_values(|label: Seq<char>| param_entry(label, symbol, value));
    let set = text::joined(parts);
    let end = "] }'"@;
    assert(command =~= start + set + end);
    assert(command.take(start.len() as int) =~= start);
    text::lemma_holds_middle(start, set, end);
    text::lemma_holds_joined(parts, i);
    text::lemma_holds_transitive(command, set, parts[i]);
}

/// A command sets nothing but the parameter on the nodes it is given: one more
/// node adds one more setting.
pub proof fn law_command_sets_no_more(
    labels: Seq<Seq<char>>,
    label: Seq<char>,
    symbol: Seq<char>,
    value: Seq<char>,
)
    ensures
        ({
            let entry = |label: Seq<char>| param_entry(label, symbol, value);
            text::joined(labels.push(label).map_values(entry)) == text::joined(
                labels.map_values(entry),
            ) + ("\""@ + text::token(label) + ":"@ + text::token(symbol) + "\" "@ + value + " "@)
        }),
{
    let entry = |label: Seq<char>| param_entry(label, symbol, value);
    assert(labels.push(label).map_values(entry) =~= labels.map_values(entry).push(entry(label)));
    text::lemma_joined_push(labels.map_values(entry), entry(label));
}

/// The script of a rack connects the sink in front of it to the rack, and the
/// rack to the sink of the chain, left to left and right to right.
pub proof fn law_script_connects(id: u64)
    ensures
        ({
            let script = link_script(id);
            let channel = "OpenWave_Ch"@ + text::decimal(id as nat);
            let front = channel + "_VSTIn"@;
            let rack = channel + "_VST"@;
            let chain = channel + "_FX"@;
            &&& text::holds_text(script, front + ":monitor_FL' '"@ + rack + ":audio-in1' 2>&1; pw-link '"@)
            &&& text::holds_text(script, front + ":monitor_FR' '"@ + rack + ":audio-in2' 2>&1; pw-link '"@)
            &&& text::holds_text(script, rack + ":audio-out1' '"@ + chain + ":playback_FL' 2>&1; pw-link '"@)
            &&& text::holds_text(script, rack + ":audio-out2' '"@ + chain + ":playback_FR' 2>&1; exit 0"@)
        }),
{
    let script = link_script(id);
    let front = names::channel_node(id, "_VSTIn"@);
    let rack = names::channel_node(id, "_VST"@);
    let chain = names::channel_node(id, "_FX"@);
    let start = "pw-link '"@;
    let one = front + ":monitor_FL' '"@ + rack + ":audio-in1' 2>&1; pw-link '"@;
    let two = front + ":monitor_FR' '"@ + rack + ":audio-in2' 2>&1; pw-link '"@;
    let three = rack + ":audio-out1' '"@ + chain + ":playback_FL' 2>&1; pw-link '"@;
    let four = rack + ":audio-out2' '"@ + chain + ":playback_FR' 2>&1; exit 0"@;
    assert(script =~= start + one + two + three + four);
    text::lemma_holds_middle(start, one, two + three + four);
    assert(script =~= start + one + (two + three + four));
    text::lemma_holds_middle(start + one, two, three + four);
    assert(script =~= (start + one) + two + (three + four));
    text::lemma_holds_middle(start + one + two, three, four);
    assert(script =~= (start + one + two) + three + four);
    text::lemma_holds_middle(start + one + two + three, four, Seq::empty());
    assert(script =~= (start + one + two + three) + four + Seq::<char>::empty());
}

/// When a process exits that was asked to, it is not waited for any more, which
/// nobody is told; the other processes stay as they are.
pub proof fn law_asked_exit(
    state: FxState,
    event: FxEvent,
    pid: i32,
    uptime_secs: u64,
    i: int,
)
    requires
        0 <= i < state.stopped.len(),
        state.stopped[i].pid == pid,
        state.stopped[i].event == event,
        forall|j: int|
            0 <= j < i ==> (#[trigger] state.stopped[j]).pid != pid || state.stopped[j].event
                != event,
    ensures
        state.after_exit(event, pid, uptime_secs) == (FxState {
            stopped: state.stopped.remove(i),
            ..state
        }),
        state.exit_report(event, pid) is None,
{
    assert(is_process(state.stopped[i], event, pid));
    assert(first_process(state.stopped, event, pid, i));
    lemma_first_process(state.stopped, event, pid, i);
}

} // verus!
