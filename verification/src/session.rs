//! A running mixer: what each edit and each event of the audio server does to
//! the configuration, and what has to be done about it.
//!
//! Widgets, timers and the audio server are left to the caller. Every operation
//! returns what the caller has to do, in order.

use crate::config::{
    Assignment, AssignmentModel, ChannelModel, Config, ConfigModel, EffectModel, MasterModel, Mix,
    Parameter, WaveXlrConfig,
};
use crate::number::Real64;
use crate::pushes::{Push, PushModel};
use crate::{channels, config, effects, loading, pushes};
use std::collections::HashMap;
use vstd::prelude::*;
use vstd::string::*;

verus! {

broadcast use vstd::std_specs::hash::group_hash_axioms;

/// The pages of the window.
#[derive(Clone, Copy, Debug, PartialEq, Eq, Structural)]
pub enum Page {
    Connecting,
    Error,
    Mixer,
}

/// Something the caller has to do.
#[derive(Clone, Copy, Debug, PartialEq, Eq, Structural)]
pub enum Action {
    /// Build the routing of a channel anew.
    RebuildChannel(u64),
    /// Apply the volume and the mute switch of a channel in a mix.
    ApplyChannel(u64, Mix),
    /// Apply the master volume and the mute switch of a mix.
    ApplyMaster(Mix),
    /// Route the monitor mix to its device.
    RouteMonitor,
    /// Bring up the VOD mix, or take it down.
    ApplyVodMix,
    /// Set the volume of the Wave XLR microphone, in percent.
    SetSourceVolume(Real64),
    /// Set the volume of the Wave XLR output, in percent.
    SetSinkVolume(Real64),
    /// Call [`Session::save_due`] and save, after a moment.
    AwaitSave,
    /// Call [`Session::rename_due`] with the channel and the number, after a
    /// moment.
    AwaitRename(u64, u64),
    /// Call [`Session::control_due`] with the number after a moment, and push
    /// what it returns into the running chains.
    AwaitControl(u64),
    /// Call [`Session::check_setup`] after a moment.
    AwaitSetupCheck,
    /// Show a fader of a channel at a volume.
    ShowFader(u64, Mix, Real64),
    /// Recreate the strips of all channels.
    RebuildStrips,
    /// Fill the menu for new channels again.
    RebuildAddMenu,
    /// Fill the sidebar again.
    UpdateSidebar,
    /// Fill the drop-downs for devices again.
    RefreshDevices,
    /// Check the stored volumes of the Wave XLR.
    RestoreWaveXlr,
    /// Show on the strip of a channel which effects are in use.
    ShowEffects(u64),
    /// Fill the effects dialog again.
    RebuildEffects,
    /// Make the button that opens the rack usable, or not.
    ShowRackButton(bool),
    /// Show the faders of the VOD mix, or hide them.
    ShowVod(bool),
    /// Show a page of the window.
    ShowPage(Page),
    /// Show the message of the audio server on the error page.
    ShowError,
    /// Open the setup assistant.
    OpenSetup,
    /// Tell that the setup of the system needs attention.
    NoticeSetup,
    /// Refresh the open setup assistant.
    RefreshSetup,
    /// Refresh the open effects dialog.
    RefreshDialog,
    /// Show changed parameters in the open effects dialog.
    SyncDialog,
    /// Show measured levels on the strip of a channel.
    ShowLevels(u64),
    /// Show measured levels of a mix.
    ShowMixLevels(Mix),
}

/// What a level was measured of.
#[derive(Clone, Copy, Debug, PartialEq, Eq, Structural)]
pub enum LevelTarget {
    Channel(u64),
    MonitorMix,
    StreamMix,
    VodMix,
}

/// What the audio server tells.
#[derive(Clone, Copy, Debug, PartialEq, Eq, Structural)]
pub enum AudioEvent {
    Ready,
    Failed,
    DevicesChanged,
    Level(LevelTarget),
    /// The rack of a channel finished loading, or failed to.
    VstChanged(u64),
    /// Parameters of the rack of a channel were changed in its own window.
    VstParams(u64),
}

/// How long the stored Wave XLR startup volumes are enforced after startup
/// or a device (re)appearance, in nanoseconds. A single write is not enough:
/// the device's node suspends/resumes while the channels wire up, WirePlumber
/// re-applies its own stored route volumes on activation, and the firmware
/// itself occasionally resets to 100% — whichever write lands last wins, so
/// during this window every refresh that shows a drifted volume re-applies
/// ours (each reset raises a change event, so no polling is needed).
/// Afterwards the device's physical controls are left alone.
pub const XLR_ENFORCE_WINDOW: u64 = 15_000_000_000;

/// A running mixer.
pub struct Session {
    config: Config,
    save_pending: bool,
    /// Per-channel edit counter used to debounce rename → sink rebuild.
    rename_epoch: HashMap<u64, u64>,
    /// Changed parameters that wait to be pushed into running chains.
    pending: Vec<Push>,
    /// How often a parameter was changed, used to debounce the pushes.
    control_epoch: u64,
    /// The channel whose effects dialog is open.
    dialog: Option<u64>,
    setup_open: bool,
    /// First-run dialog / misconfiguration notice already handled this
    /// session.
    setup_prompted: bool,
    /// Enforcement deadlines for the stored Wave XLR startup volumes; None
    /// while the device is absent, set on each appearance.
    mic_hold: Option<u64>,
    out_hold: Option<u64>,
    /// The user was told that closing the window does not quit.
    close_notified: bool,
}

/// What a [`Session`] is at.
#[verifier::ext_equal]
pub struct SessionModel {
    pub config: ConfigModel,
    pub save_pending: bool,
    pub rename_epoch: Map<u64, u64>,
    pub pending: Seq<PushModel>,
    pub control_epoch: u64,
    pub dialog: Option<u64>,
    pub setup_open: bool,
    pub setup_prompted: bool,
    pub mic_hold: Option<u64>,
    pub out_hold: Option<u64>,
    pub close_notified: bool,
}

impl View for Session {
    type V = SessionModel;

    closed spec fn view(&self) -> SessionModel {
        SessionModel {
            config: self.config@,
            save_pending: self.save_pending,
            rename_epoch: self.rename_epoch@,
            pending: pushes::push_models(self.pending@),
            control_epoch: self.control_epoch,
            dialog: self.dialog,
            setup_open: self.setup_open,
            setup_prompted: self.setup_prompted,
            mic_hold: self.mic_hold,
            out_hold: self.out_hold,
            close_notified: self.close_notified,
        }
    }
}

impl SessionModel {
    /// The state with another configuration.
    pub open spec fn with_config(self, config: ConfigModel) -> SessionModel {
        SessionModel { config, ..self }
    }

    /// The state with a changed channel.
    pub open spec fn with_edit(
        self,
        id: u64,
        change: spec_fn(ChannelModel) -> ChannelModel,
    ) -> SessionModel {
        self.with_config(channels::with_edit(self.config, id, change))
    }

    /// The state after a save was asked for.
    pub open spec fn saving(self) -> SessionModel {
        SessionModel { save_pending: true, ..self }
    }

    /// What to do when a save is asked for: nothing if one is pending.
    pub open spec fn save_actions(self) -> Seq<Action> {
        if self.save_pending {
            Seq::empty()
        } else {
            seq![Action::AwaitSave]
        }
    }

    /// Whether there is a channel.
    pub open spec fn has_channel(self, id: u64) -> bool {
        config::has_channel(self.config.channels, id)
    }

    /// A channel.
    pub open spec fn channel(self, id: u64) -> ChannelModel {
        channels::channel_of(self.config.channels, id)
    }

    /// How often a channel was renamed.
    pub open spec fn epoch(self, id: u64) -> u64 {
        if self.rename_epoch.contains_key(id) {
            self.rename_epoch[id]
        } else {
            0
        }
    }

    /// What to do after the routing of a channel changed by its effects.
    pub open spec fn structure_actions(self, id: u64) -> Seq<Action> {
        let shown = if self.has_channel(id) {
            seq![Action::ShowEffects(id)]
        } else {
            Seq::empty()
        };
        seq![Action::RebuildChannel(id)] + self.save_actions() + seq![Action::UpdateSidebar]
            + shown
    }

    /// What to do after the effects of a channel were edited in the dialog:
    /// nothing if there is no such channel.
    pub open spec fn effect_actions(self, id: u64) -> Seq<Action> {
        if self.has_channel(id) {
            self.structure_actions(id).push(Action::RebuildEffects)
        } else {
            Seq::empty()
        }
    }

    /// The state after the effects of a channel were edited in the dialog.
    pub open spec fn with_effects(
        self,
        id: u64,
        change: spec_fn(ChannelModel) -> ChannelModel,
    ) -> SessionModel {
        if self.has_channel(id) {
            self.with_edit(id, change).saving()
        } else {
            self
        }
    }

    /// The state after a channel was renamed.
    pub open spec fn renamed(self, id: u64, name: Seq<char>) -> SessionModel {
        if self.has_channel(id) {
            SessionModel {
                rename_epoch: self.rename_epoch.insert(id, (self.epoch(id) + 1) as u64),
                ..self.with_edit(id, |c: ChannelModel| ChannelModel { name, ..c }).saving()
            }
        } else {
            self
        }
    }

    /// The state after a parameter was changed.
    pub open spec fn controlled(self, change: PushModel) -> SessionModel {
        SessionModel {
            pending: pushes::queued(self.pending, change),
            control_epoch: (self.control_epoch + 1) as u64,
            ..self.with_edit(
                change.channel,
                |c: ChannelModel|
                    ChannelModel {
                        effects: effects::adjusted(c.effects, change.effect, change.parameter),
                        ..c
                    },
            ).saving()
        }
    }

    /// The state after some parameters were changed.
    pub open spec fn controlled_all(self, changes: Seq<PushModel>) -> SessionModel
        decreases changes.len(),
    {
        if changes.len() == 0 {
            self
        } else {
            self.controlled_all(changes.drop_last()).controlled(changes.last())
        }
    }

    /// What is pushed in the moment after a parameter was changed: everything
    /// that waits, unless another parameter was changed since.
    pub open spec fn due(self, number: u64) -> Seq<PushModel> {
        if number == self.control_epoch {
            self.pending
        } else {
            Seq::empty()
        }
    }

    /// Whether the moment after a rename counts: the channel was not renamed
    /// again, and it has a device that is named after it.
    pub open spec fn rename_counts(self, id: u64, number: u64) -> bool {
        &&& self.rename_epoch.contains_key(id)
        &&& self.rename_epoch[id] == number
        &&& self.has_channel(id)
        &&& channels::exposes_device(self.channel(id).assignment)
    }

    /// What the setup check does: at most once per session, and only while the
    /// mixer is visible.
    pub open spec fn setup_actions(self, visible: bool, mixer_shown: bool, all_ok: bool) -> Seq<
        Action,
    > {
        if self.setup_prompted || !visible || !mixer_shown {
            Seq::empty()
        } else if !self.config.setup_done {
            self.save_actions().push(Action::OpenSetup)
        } else if !all_ok {
            seq![Action::NoticeSetup]
        } else {
            Seq::empty()
        }
    }

    /// The state after the setup check.
    pub open spec fn setup_checked(self, visible: bool, mixer_shown: bool) -> SessionModel {
        if self.setup_prompted || !visible || !mixer_shown {
            self
        } else if !self.config.setup_done {
            SessionModel {
                setup_prompted: true,
                ..self.with_config(ConfigModel { setup_done: true, ..self.config }).saving()
            }
        } else {
            SessionModel { setup_prompted: true, ..self }
        }
    }
}

// ---- Faders ---------------------------------------------------------------------------

/// The volume of a channel in a mix.
pub open spec fn volume_in(c: ChannelModel, mix: Mix) -> Real64 {
    match mix {
        Mix::Monitor => c.monitor_volume,
        Mix::Stream => c.stream_volume,
        Mix::Vod => c.vod_volume,
    }
}

/// What to do about a fader that follows another: nothing if it stands there
/// already.
pub open spec fn follow(id: u64, c: ChannelModel, mix: Mix, volume: Real64) -> Seq<Action> {
    if volume_in(c, mix) == volume {
        Seq::empty()
    } else {
        seq![Action::ShowFader(id, mix, volume), Action::ApplyChannel(id, mix)]
    }
}

/// What to do about the faders that follow one that was moved.
pub open spec fn follow_others(id: u64, c: ChannelModel, mix: Mix, volume: Real64) -> Seq<Action> {
    match mix {
        Mix::Monitor => follow(id, c, Mix::Stream, volume) + follow(id, c, Mix::Vod, volume),
        Mix::Stream => follow(id, c, Mix::Monitor, volume) + follow(id, c, Mix::Vod, volume),
        Mix::Vod => follow(id, c, Mix::Monitor, volume) + follow(id, c, Mix::Stream, volume),
    }
}

fn push_follow(actions: &mut Vec<Action>, id: u64, current: Real64, mix: Mix, volume: Real64)
    ensures
        final(actions)@ == old(actions)@ + if current == volume {
            Seq::<Action>::empty()
        } else {
            seq![Action::ShowFader(id, mix, volume), Action::ApplyChannel(id, mix)]
        },
{
    if current != volume {
        actions.push(Action::ShowFader(id, mix, volume));
        actions.push(Action::ApplyChannel(id, mix));
    }
}

// ---- Operations ----------------------------------------------------------------------

impl Session {
    /// A session that starts with a configuration.
    pub fn new(config: Config) -> (out: Session)
        ensures
            out@ == (SessionModel {
                config: config@,
                save_pending: false,
                rename_epoch: Map::empty(),
                pending: Seq::empty(),
                control_epoch: 0,
                dialog: None,
                setup_open: false,
                setup_prompted: false,
                mic_hold: None,
                out_hold: None,
                close_notified: false,
            }),
    {
        let out = Session {
            config,
            save_pending: false,
            rename_epoch: HashMap::new(),
            pending: Vec::new(),
            control_epoch: 0,
            dialog: None,
            setup_open: false,
            setup_prompted: false,
            mic_hold: None,
            out_hold: None,
            close_notified: false,
        };
        assert(out@.pending =~= Seq::empty());
        out
    }

    /// The configuration.
    pub fn config(&self) -> (out: &Config)
        ensures
            out@ == self@.config,
    {
        &self.config
    }

    fn schedule_save(&mut self, actions: &mut Vec<Action>)
        ensures
            final(self)@ == old(self)@.saving(),
            final(actions)@ == old(actions)@ + old(self)@.save_actions(),
    {
        if !self.save_pending {
            self.save_pending = true;
            actions.push(Action::AwaitSave);
        }
    }

    /// The moment after a save was asked for: the configuration has to be
    /// saved now.
    pub fn save_due(&mut self)
        ensures
            final(self)@ == (SessionModel { save_pending: false, ..old(self)@ }),
    {
        self.save_pending = false;
    }

    // ---- Strips ----------------------------------------------------------------------

    /// A channel was renamed.
    pub fn rename(&mut self, id: u64, name: String) -> (actions: Vec<Action>)
        requires
            old(self)@.epoch(id) < u64::MAX,
        ensures
            final(self)@ == old(self)@.renamed(id, name@),
            actions@ == if old(self)@.has_channel(id) {
                old(self)@.save_actions() + seq![
                    Action::UpdateSidebar,
                    Action::RebuildAddMenu,
                    Action::AwaitRename(id, (old(self)@.epoch(id) + 1) as u64),
                ]
            } else {
                Seq::empty()
            },
            keeps_up(old(self)@, final(self)@, actions@),
            others_stay(old(self)@, final(self)@, id),
            old(self)@.has_channel(id) ==> final(self)@.channel(id) == (ChannelModel {
                name: name@,
                ..old(self)@.channel(id)
            }),
    {
        let ghost before = self@;
        let mut actions: Vec<Action> = Vec::new();
        proof {
            lemma_nothing_kept_up(old(self)@);
            if old(self)@.has_channel(id) {
                law_renamed(old(self)@, id, name@);
            }
        }
        proof {
            channels::lemma_edit(
                before.config.channels,
                id,
                |c: ChannelModel| ChannelModel { name: name@, ..c },
            );
        }
        if !self.config.rename_channel(id, name) {
            return actions;
        }
        self.schedule_save(&mut actions);
        actions.push(Action::UpdateSidebar);
        actions.push(Action::RebuildAddMenu);
        let epoch: u64 = match self.rename_epoch.get(&id) {
            Some(e) => *e,
            None => 0,
        };
        self.rename_epoch.insert(id, epoch + 1);
        actions.push(Action::AwaitRename(id, epoch + 1));
        assert(actions@ =~= before.save_actions() + seq![
            Action::UpdateSidebar,
            Action::RebuildAddMenu,
            Action::AwaitRename(id, (before.epoch(id) + 1) as u64),
        ]);
        actions
    }

    /// Whether the edits of the name of a channel can be counted on.
    pub fn can_rename(&self, id: u64) -> (yes: bool)
        ensures
            yes == (self@.epoch(id) < u64::MAX),
    {
        match self.rename_epoch.get(&id) {
            Some(e) => *e < u64::MAX,
            None => true,
        }
    }

    /// The moment after a channel was renamed: the device that is named after
    /// it is built anew, once the user stopped typing.
    pub fn rename_due(&self, id: u64, number: u64) -> (actions: Vec<Action>)
        ensures
            actions@ == if self@.rename_counts(id, number) {
                seq![Action::RebuildChannel(id)]
            } else {
                Seq::empty()
            },
    {
        let mut actions: Vec<Action> = Vec::new();
        if let Some(e) = self.rename_epoch.get(&id) {
            if *e == number && self.config.needs_sink(id) {
                actions.push(Action::RebuildChannel(id));
            }
        }
        actions
    }

    /// An input was chosen for a channel.
    pub fn assign(&mut self, id: u64, assignment: Option<Assignment>) -> (actions: Vec<Action>)
        ensures
            ({
                let wanted = config::assigned(assignment);
                if old(self)@.has_channel(id) && old(self)@.channel(id).assignment != wanted {
                    &&& final(self)@ == old(self)@.with_edit(
                        id,
                        |c: ChannelModel| ChannelModel { assignment: wanted, ..c },
                    ).saving()
                    &&& actions@ == seq![Action::RebuildChannel(id)] + old(self)@.save_actions()
                        + seq![Action::UpdateSidebar]
                } else {
                    &&& final(self)@ == old(self)@
                    &&& actions@ == Seq::<Action>::empty()
                }
            }),
            keeps_up(old(self)@, final(self)@, actions@),
            others_stay(old(self)@, final(self)@, id),
            old(self)@.has_channel(id) ==> final(self)@.channel(id) == (ChannelModel {
                assignment: config::assigned(assignment),
                ..old(self)@.channel(id)
            }),
    {
        let ghost before = self@;
        let ghost wanted = config::assigned(assignment);
        let ghost change = |c: ChannelModel| ChannelModel { assignment: wanted, ..c };
        let mut actions: Vec<Action> = Vec::new();
        proof {
            lemma_nothing_kept_up(old(self)@);
            if old(self)@.has_channel(id) {
                law_assigned(old(self)@, id, config::assigned(assignment));
            }
        }
        proof {
            channels::lemma_edit_same(before.config.channels, id, change);
        }
        if self.config.set_assignment(id, assignment) {
            actions.push(Action::RebuildChannel(id));
            self.schedule_save(&mut actions);
            actions.push(Action::UpdateSidebar);
            assert(actions@ =~= seq![Action::RebuildChannel(id)] + before.save_actions() + seq![
                Action::UpdateSidebar,
            ]);
        }
        actions
    }

    /// A fader of a channel was moved. Linked faders follow.
    pub fn move_fader(&mut self, id: u64, mix: Mix, volume: Real64) -> (actions: Vec<Action>)
        ensures
            if old(self)@.has_channel(id) {
                let c = old(self)@.channel(id);
                &&& final(self)@ == old(self)@.with_edit(
                    id,
                    |c: ChannelModel| channels::with_fader(c, mix, volume),
                ).saving()
                &&& actions@ == seq![Action::ApplyChannel(id, mix)] + if c.linked {
                    follow_others(id, c, mix, volume)
                } else {
                    Seq::<Action>::empty()
                } + old(self)@.save_actions()
            } else {
                &&& final(self)@ == old(self)@
                &&& actions@ == Seq::<Action>::empty()
            },
            keeps_up(old(self)@, final(self)@, actions@),
            others_stay(old(self)@, final(self)@, id),
            faders_shown(old(self)@, final(self)@, id, Some(mix), actions@),
            old(self)@.has_channel(id) ==> (heard(final(self)@, id, mix) matches Some(now)
                && now.volume == volume),
    {
        let ghost before = self@;
        let mut actions: Vec<Action> = Vec::new();
        proof {
            lemma_nothing_kept_up(old(self)@);
            if old(self)@.has_channel(id) {
                law_fader_moves(old(self)@, id, mix, volume);
            }
        }
        proof {
            channels::lemma_channel_of(before.config.channels, id);
            channels::lemma_edit(
                before.config.channels,
                id,
                |c: ChannelModel| channels::with_fader(c, mix, volume),
            );
        }
        let (monitor, stream, vod) = match self.config.channel(id) {
            Some(ch) => (ch.monitor_volume, ch.stream_volume, ch.vod_volume),
            None => {
                return actions;
            },
        };
        let linked = self.config.move_fader(id, mix, volume);
        actions.push(Action::ApplyChannel(id, mix));
        if linked == Some(true) {
            if !matches!(mix, Mix::Monitor) {
                push_follow(&mut actions, id, monitor, Mix::Monitor, volume);
            }
            if !matches!(mix, Mix::Stream) {
                push_follow(&mut actions, id, stream, Mix::Stream, volume);
            }
            if !matches!(mix, Mix::Vod) {
                push_follow(&mut actions, id, vod, Mix::Vod, volume);
            }
        }
        self.schedule_save(&mut actions);
        proof {
            let c = before.channel(id);
            assert(actions@ =~= seq![Action::ApplyChannel(id, mix)] + if c.linked {
                follow_others(id, c, mix, volume)
            } else {
                Seq::<Action>::empty()
            } + before.save_actions());
        }
        actions
    }

    /// A channel was muted in a mix, or not.
    pub fn mute(&mut self, id: u64, mix: Mix, muted: bool) -> (actions: Vec<Action>)
        ensures
            if old(self)@.has_channel(id) {
                &&& final(self)@ == old(self)@.with_edit(
                    id,
                    |c: ChannelModel| channels::with_muted(c, mix, muted),
                ).saving()
                &&& actions@ == seq![Action::ApplyChannel(id, mix)] + old(self)@.save_actions()
            } else {
                &&& final(self)@ == old(self)@
                &&& actions@ == Seq::<Action>::empty()
            },
            keeps_up(old(self)@, final(self)@, actions@),
            others_stay(old(self)@, final(self)@, id),
            old(self)@.has_channel(id) ==> (heard(final(self)@, id, mix) matches Some(now)
                && now.muted == muted),
    {
        let ghost before = self@;
        let mut actions: Vec<Action> = Vec::new();
        proof {
            lemma_nothing_kept_up(old(self)@);
            if old(self)@.has_channel(id) {
                law_mute_applied(old(self)@, id, mix, muted);
            }
        }
        proof {
            channels::lemma_edit(
                before.config.channels,
                id,
                |c: ChannelModel| channels::with_muted(c, mix, muted),
            );
        }
        if self.config.set_muted(id, mix, muted) {
            actions.push(Action::ApplyChannel(id, mix));
            self.schedule_save(&mut actions);
        }
        actions
    }

    /// The faders of a channel were linked, or not. Linked faders take up the
    /// volume in the monitor mix.
    pub fn link(&mut self, id: u64, linked: bool) -> (actions: Vec<Action>)
        ensures
            if old(self)@.has_channel(id) {
                let c = old(self)@.channel(id);
                &&& final(self)@ == old(self)@.with_edit(
                    id,
                    |c: ChannelModel| channels::with_link(c, linked),
                ).saving()
                &&& actions@ == if linked {
                    follow_others(id, c, Mix::Monitor, c.monitor_volume)
                } else {
                    Seq::<Action>::empty()
                } + old(self)@.save_actions()
            } else {
                &&& final(self)@ == old(self)@
                &&& actions@ == Seq::<Action>::empty()
            },
            keeps_up(old(self)@, final(self)@, actions@),
            others_stay(old(self)@, final(self)@, id),
            faders_shown(old(self)@, final(self)@, id, None, actions@),
            old(self)@.has_channel(id) ==> final(self)@.channel(id).linked == linked,
    {
        let ghost before = self@;
        let mut actions: Vec<Action> = Vec::new();
        proof {
            lemma_nothing_kept_up(old(self)@);
            if old(self)@.has_channel(id) {
                law_link_applied(old(self)@, id, linked);
            }
        }
        proof {
            channels::lemma_channel_of(before.config.channels, id);
            channels::lemma_edit(
                before.config.channels,
                id,
                |c: ChannelModel| channels::with_link(c, linked),
            );
        }
        let (monitor, stream, vod) = match self.config.channel(id) {
            Some(ch) => (ch.monitor_volume, ch.stream_volume, ch.vod_volume),
            None => {
                return actions;
            },
        };
        self.config.set_linked(id, linked);
        if linked {
            push_follow(&mut actions, id, stream, Mix::Stream, monitor);
            push_follow(&mut actions, id, vod, Mix::Vod, monitor);
        }
        self.schedule_save(&mut actions);
        actions
    }

    /// The removal of a channel was confirmed.
    pub fn remove_channel(&mut self, id: u64) -> (actions: Vec<Action>)
        ensures
            final(self)@ == old(self)@.with_config(
                channels::without_channel(old(self)@.config, id),
            ).saving(),
            actions@ == seq![Action::RebuildChannel(id), Action::RebuildStrips] + old(
                self,
            )@.save_actions() + seq![Action::UpdateSidebar],
            keeps_up(old(self)@, final(self)@, actions@),
    {
        let mut actions: Vec<Action> = Vec::new();
        proof {
            law_channel_removed(old(self)@, id, (if id == 0 {
                1u64
            } else {
                0u64
            }));
        }
        self.config.remove_channel(id);
        actions.push(Action::RebuildChannel(id));
        actions.push(Action::RebuildStrips);
        self.schedule_save(&mut actions);
        actions.push(Action::UpdateSidebar);
        assert(actions@ =~= seq![Action::RebuildChannel(id), Action::RebuildStrips] + old(
            self,
        )@.save_actions() + seq![Action::UpdateSidebar]);
        actions
    }

    /// A channel was asked for, by name or with an empty text for any name.
    /// Nothing happens when the channel limit is reached.
    pub fn add_channel(&mut self, name: &str) -> (actions: Vec<Action>)
        requires
            old(self)@.config.channels.len() < config::MAX_CHANNELS ==> old(
                self,
            )@.config.next_channel_id < u64::MAX,
        ensures
            if old(self)@.config.channels.len() < config::MAX_CHANNELS {
                &&& final(self)@ == old(self)@.with_config(
                    channels::with_channel(
                        old(self)@.config,
                        if name@.len() == 0 {
                            None
                        } else {
                            Some(name@)
                        },
                    ),
                ).saving()
                &&& actions@ == seq![
                    Action::RebuildChannel(old(self)@.config.next_channel_id),
                    Action::RebuildStrips,
                ] + old(self)@.save_actions() + seq![Action::UpdateSidebar]
            } else {
                &&& final(self)@ == old(self)@
                &&& actions@ == Seq::<Action>::empty()
            },
            keeps_up(old(self)@, final(self)@, actions@),
            old(self)@.config.channels.len() < config::MAX_CHANNELS ==> {
                let c = final(self)@.config.channels.last();
                &&& final(self)@.config.channels.drop_last() == old(self)@.config.channels
                &&& c.id == old(self)@.config.next_channel_id
                &&& name@.len() > 0 ==> c.name == name@
                &&& name@.len() == 0 && channels::unused_names(old(self)@.config.channels).len()
                    > 0 ==> channels::unused_names(old(self)@.config.channels).contains(c.name)
            },
    {
        let mut actions: Vec<Action> = Vec::new();
        proof {
            let next = old(self)@.config.next_channel_id;
            let wanted = if name@.len() == 0 {
                None
            } else {
                Some(name@)
            };
            channels::law_new_channel(old(self)@.config, wanted);
            lemma_nothing_kept_up(old(self)@);
            law_channel_added(old(self)@, wanted, (if next == 0 {
                1u64
            } else {
                0u64
            }));
        }
        let wanted: Option<&str> = if name.is_empty() { None } else { Some(name) };
        if let Some(id) = self.config.add_channel(wanted) {
            actions.push(Action::RebuildChannel(id));
            actions.push(Action::RebuildStrips);
            self.schedule_save(&mut actions);
            actions.push(Action::UpdateSidebar);
            assert(actions@ =~= seq![Action::RebuildChannel(id), Action::RebuildStrips] + old(
                self,
            )@.save_actions() + seq![Action::UpdateSidebar]);
        }
        actions
    }

    // ---- Effects ----------------------------------------------------------------------

    fn structure_changed(&mut self, id: u64, actions: &mut Vec<Action>)
        ensures
            final(self)@ == old(self)@.saving(),
            final(actions)@ == old(actions)@ + old(self)@.structure_actions(id),
    {
        actions.push(Action::RebuildChannel(id));
        self.schedule_save(actions);
        actions.push(Action::UpdateSidebar);
        proof {
            channels::lemma_channel_of(self@.config.channels, id);
        }
        if self.config.channel(id).is_some() {
            actions.push(Action::ShowEffects(id));
        }
    }

    fn effects_changed(&mut self, id: u64, found: bool) -> (actions: Vec<Action>)
        requires
            found == old(self)@.has_channel(id),
        ensures
            final(self)@ == if found {
                old(self)@.saving()
            } else {
                old(self)@
            },
            actions@ == old(self)@.effect_actions(id),
    {
        let mut actions: Vec<Action> = Vec::new();
        if found {
            self.structure_changed(id, &mut actions);
            actions.push(Action::RebuildEffects);
        }
        actions
    }

    /// An effect of a channel was switched on or off.
    pub fn switch_effect(&mut self, id: u64, effect: u64, on: bool) -> (actions: Vec<Action>)
        ensures
            final(self)@ == old(self)@.with_effects(
                id,
                |c: ChannelModel| ChannelModel { effects: effects::switched(c.effects, effect, on), ..c },
            ),
            actions@ == old(self)@.effect_actions(id),
            keeps_up(old(self)@, final(self)@, actions@),
            others_stay(old(self)@, final(self)@, id),
            old(self)@.has_channel(id) && effects::distinct_effects(
                old(self)@.channel(id).effects,
            ) ==> effects::only_switched(
                old(self)@.channel(id).effects,
                final(self)@.channel(id).effects,
                effect,
                on,
            ),
    {
        let ghost before = self@;
        let ghost change = |c: ChannelModel|
            ChannelModel { effects: effects::switched(c.effects, effect, on), ..c };
        proof {
            channels::lemma_edit(before.config.channels, id, change);
            channels::lemma_edit_keeps(before.config.channels, id, change);
            lemma_nothing_kept_up(before);
            if before.has_channel(id) {
                law_effects_edited(before, id, change);
                if effects::distinct_effects(before.channel(id).effects) {
                    effects::law_edits_of_chain(
                        before.channel(id).effects,
                        effect,
                        on,
                        true,
                        Seq::empty(),
                        Seq::empty(),
                    );
                }
            }
        }
        let found = self.config.switch_effect(id, effect, on);
        self.effects_changed(id, found)
    }

    /// An effect of a channel was moved one place down its chain, or up.
    pub fn move_effect(&mut self, id: u64, effect: u64, down: bool) -> (actions: Vec<Action>)
        ensures
            final(self)@ == old(self)@.with_effects(
                id,
                |c: ChannelModel| ChannelModel { effects: effects::moved(c.effects, effect, down), ..c },
            ),
            actions@ == old(self)@.effect_actions(id),
            keeps_up(old(self)@, final(self)@, actions@),
            others_stay(old(self)@, final(self)@, id),
            old(self)@.has_channel(id) && effects::distinct_effects(
                old(self)@.channel(id).effects,
            ) ==> effects::only_moved(
                old(self)@.channel(id).effects,
                final(self)@.channel(id).effects,
                effect,
                down,
            ),
    {
        let ghost before = self@;
        let ghost change = |c: ChannelModel|
            ChannelModel { effects: effects::moved(c.effects, effect, down), ..c };
        proof {
            channels::lemma_edit(before.config.channels, id, change);
            channels::lemma_edit_keeps(before.config.channels, id, change);
            lemma_nothing_kept_up(before);
            if before.has_channel(id) {
                law_effects_edited(before, id, change);
                if effects::distinct_effects(before.channel(id).effects) {
                    effects::law_edits_of_chain(
                        before.channel(id).effects,
                        effect,
                        true,
                        down,
                        Seq::empty(),
                        Seq::empty(),
                    );
                }
            }
        }
        let found = self.config.move_effect(id, effect, down);
        self.effects_changed(id, found)
    }

    /// An effect of a channel was removed.
    pub fn remove_effect(&mut self, id: u64, effect: u64) -> (actions: Vec<Action>)
        ensures
            final(self)@ == old(self)@.with_effects(
                id,
                |c: ChannelModel| ChannelModel { effects: effects::without_effect(c.effects, effect), ..c },
            ),
            actions@ == old(self)@.effect_actions(id),
            keeps_up(old(self)@, final(self)@, actions@),
            others_stay(old(self)@, final(self)@, id),
            old(self)@.has_channel(id) && effects::distinct_effects(
                old(self)@.channel(id).effects,
            ) ==> effects::only_removed(
                old(self)@.channel(id).effects,
                final(self)@.channel(id).effects,
                effect,
            ),
    {
        let ghost before = self@;
        let ghost change = |c: ChannelModel|
            ChannelModel { effects: effects::without_effect(c.effects, effect), ..c };
        proof {
            channels::lemma_edit(before.config.channels, id, change);
            channels::lemma_edit_keeps(before.config.channels, id, change);
            lemma_nothing_kept_up(before);
            if before.has_channel(id) {
                law_effects_edited(before, id, change);
                if effects::distinct_effects(before.channel(id).effects) {
                    effects::law_edits_of_chain(
                        before.channel(id).effects,
                        effect,
                        true,
                        true,
                        Seq::empty(),
                        Seq::empty(),
                    );
                }
            }
        }
        let found = self.config.remove_effect(id, effect);
        self.effects_changed(id, found)
    }

    /// A plugin was picked for the chain of a channel.
    pub fn add_effect(&mut self, id: u64, uri: &str, name: &str) -> (actions: Vec<Action>)
        requires
            old(self)@.has_channel(id) ==> effects::top_effect(old(self)@.channel(id).effects)
                < u64::MAX,
        ensures
            final(self)@ == old(self)@.with_effects(
                id,
                |c: ChannelModel| ChannelModel { effects: effects::with_effect(c.effects, uri@, name@), ..c },
            ),
            actions@ == old(self)@.effect_actions(id),
            keeps_up(old(self)@, final(self)@, actions@),
            others_stay(old(self)@, final(self)@, id),
            old(self)@.has_channel(id) && effects::distinct_effects(
                old(self)@.channel(id).effects,
            ) ==> effects::only_added(
                old(self)@.channel(id).effects,
                final(self)@.channel(id).effects,
                uri@,
                name@,
            ),
    {
        let ghost before = self@;
        let ghost change = |c: ChannelModel|
            ChannelModel { effects: effects::with_effect(c.effects, uri@, name@), ..c };
        proof {
            channels::lemma_edit(before.config.channels, id, change);
            channels::lemma_edit_keeps(before.config.channels, id, change);
            lemma_nothing_kept_up(before);
            if before.has_channel(id) {
                law_effects_edited(before, id, change);
                if effects::distinct_effects(before.channel(id).effects) {
                    effects::law_edits_of_chain(
                        before.channel(id).effects,
                        0,
                        true,
                        true,
                        uri@,
                        name@,
                    );
                }
            }
        }
        let found = self.config.add_effect(id, uri, name);
        self.effects_changed(id, found)
    }

    /// Whether the changes of parameters can be counted on.
    pub fn can_set_control(&self) -> (yes: bool)
        ensures
            yes == (self@.control_epoch < u64::MAX),
    {
        self.control_epoch < u64::MAX
    }

    /// A parameter of an effect was changed.
    pub fn set_control(&mut self, change: Push) -> (actions: Vec<Action>)
        requires
            old(self)@.control_epoch < u64::MAX,
        ensures
            final(self)@ == old(self)@.controlled(change@),
            actions@ == old(self)@.save_actions().push(
                Action::AwaitControl((old(self)@.control_epoch + 1) as u64),
            ),
            keeps_up(old(self)@, final(self)@, actions@),
    {
        let mut actions: Vec<Action> = Vec::new();
        proof {
            law_control_changed(old(self)@, change@);
        }
        self.config.set_effect_control(
            change.channel,
            change.effect,
            copy_parameter(&change.parameter),
        );
        self.schedule_save(&mut actions);
        pushes::queue(&mut self.pending, change);
        self.control_epoch = self.control_epoch + 1;
        actions.push(Action::AwaitControl(self.control_epoch));
        actions
    }

    /// The moment after a parameter was changed. Returns what is pushed into
    /// the running chains: everything that waits, once no parameter is being
    /// changed any more.
    pub fn control_due(&mut self, number: u64) -> (out: Vec<Push>)
        ensures
            pushes::push_models(out@) == old(self)@.due(number),
            final(self)@ == if number == old(self)@.control_epoch {
                SessionModel { pending: Seq::empty(), ..old(self)@ }
            } else {
                old(self)@
            },
    {
        let mut out: Vec<Push> = Vec::new();
        assert(pushes::push_models(out@) =~= Seq::empty());
        if number == self.control_epoch {
            std::mem::swap(&mut out, &mut self.pending);
        }
        out
    }

    /// The rack of a channel was switched on or off.
    pub fn switch_rack(&mut self, id: u64, on: bool) -> (actions: Vec<Action>)
        ensures
            if old(self)@.has_channel(id) && old(self)@.channel(id).vst_rack != on {
                &&& final(self)@ == old(self)@.with_edit(
                    id,
                    |c: ChannelModel| ChannelModel { vst_rack: on, ..c },
                ).saving()
                &&& actions@ == seq![Action::ShowRackButton(on)] + old(self)@.structure_actions(id)
            } else {
                &&& final(self)@ == old(self)@
                &&& actions@ == Seq::<Action>::empty()
            },
            keeps_up(old(self)@, final(self)@, actions@),
            others_stay(old(self)@, final(self)@, id),
            old(self)@.has_channel(id) ==> final(self)@.channel(id) == (ChannelModel {
                vst_rack: on,
                ..old(self)@.channel(id)
            }),
    {
        let ghost before = self@;
        let ghost change = |c: ChannelModel| ChannelModel { vst_rack: on, ..c };
        let mut actions: Vec<Action> = Vec::new();
        proof {
            lemma_nothing_kept_up(old(self)@);
            if old(self)@.has_channel(id) {
                law_rack_switched(old(self)@, id, on);
            }
        }
        proof {
            channels::lemma_edit_same(before.config.channels, id, change);
            channels::lemma_edit_keeps(before.config.channels, id, change);
        }
        if self.config.set_vst_rack(id, on) {
            actions.push(Action::ShowRackButton(on));
            self.structure_changed(id, &mut actions);
        }
        actions
    }

    // ---- Outputs ----------------------------------------------------------------------

    /// An output was chosen for the monitor mix.
    pub fn choose_output(&mut self, device: Option<String>) -> (actions: Vec<Action>)
        ensures
            ({
                let wanted = config::optional_text(device);
                if old(self)@.config.master.monitor_device != wanted {
                    &&& final(self)@ == old(self)@.with_config(
                        ConfigModel {
                            master: MasterModel {
                                monitor_device: wanted,
                                ..old(self)@.config.master
                            },
                            ..old(self)@.config
                        },
                    ).saving()
                    &&& actions@ == seq![Action::RouteMonitor] + old(self)@.save_actions()
                        + seq![Action::UpdateSidebar]
                } else {
                    &&& final(self)@ == old(self)@
                    &&& actions@ == Seq::<Action>::empty()
                }
            }),
            keeps_up(old(self)@, final(self)@, actions@),
            final(self)@.config.master.monitor_device == config::optional_text(device),
    {
        let mut actions: Vec<Action> = Vec::new();
        proof {
            lemma_nothing_kept_up(old(self)@);
            law_outputs_applied(old(self)@, config::optional_text(device), true);
        }
        if self.config.set_monitor_device(device) {
            actions.push(Action::RouteMonitor);
            self.schedule_save(&mut actions);
            actions.push(Action::UpdateSidebar);
            assert(actions@ =~= seq![Action::RouteMonitor] + old(self)@.save_actions() + seq![
                Action::UpdateSidebar,
            ]);
        }
        actions
    }

    /// The master fader of a mix was moved.
    pub fn move_master(&mut self, mix: Mix, volume: Real64) -> (actions: Vec<Action>)
        ensures
            final(self)@ == old(self)@.with_config(
                channels::with_master_volume(old(self)@.config, mix, volume),
            ).saving(),
            actions@ == seq![Action::ApplyMaster(mix)] + old(self)@.save_actions(),
            keeps_up(old(self)@, final(self)@, actions@),
            mix_heard(final(self)@, mix).volume == volume,
    {
        let mut actions: Vec<Action> = Vec::new();
        proof {
            law_masters_applied(old(self)@, mix, volume, true);
        }
        self.config.set_master_volume(mix, volume);
        actions.push(Action::ApplyMaster(mix));
        self.schedule_save(&mut actions);
        actions
    }

    /// A mix was muted, or not.
    pub fn mute_master(&mut self, mix: Mix, muted: bool) -> (actions: Vec<Action>)
        ensures
            final(self)@ == old(self)@.with_config(
                channels::with_master_muted(old(self)@.config, mix, muted),
            ).saving(),
            actions@ == seq![Action::ApplyMaster(mix)] + old(self)@.save_actions(),
            keeps_up(old(self)@, final(self)@, actions@),
            mix_heard(final(self)@, mix).muted == muted,
    {
        let mut actions: Vec<Action> = Vec::new();
        proof {
            law_masters_applied(old(self)@, mix, Real64 { bits: 0 }, muted);
        }
        self.config.set_master_muted(mix, muted);
        actions.push(Action::ApplyMaster(mix));
        self.schedule_save(&mut actions);
        actions
    }

    /// The VOD mix was enabled, or disabled.
    pub fn enable_vod(&mut self, enable: bool) -> (actions: Vec<Action>)
        ensures
            final(self)@ == old(self)@.with_config(
                ConfigModel { vod_mix_enabled: enable, ..old(self)@.config },
            ).saving(),
            actions@ == seq![Action::ApplyVodMix, Action::ShowVod(enable)] + old(
                self,
            )@.save_actions() + seq![Action::UpdateSidebar],
            keeps_up(old(self)@, final(self)@, actions@),
    {
        let mut actions: Vec<Action> = Vec::new();
        proof {
            law_outputs_applied(old(self)@, None, enable);
        }
        self.config.vod_mix_enabled = enable;
        actions.push(Action::ApplyVodMix);
        actions.push(Action::ShowVod(enable));
        self.schedule_save(&mut actions);
        actions.push(Action::UpdateSidebar);
        assert(actions@ =~= seq![Action::ApplyVodMix, Action::ShowVod(enable)] + old(
            self,
        )@.save_actions() + seq![Action::UpdateSidebar]);
        actions
    }

    // ---- Setup assistant ----------------------------------------------------------------

    /// First run: present the setup assistant. Later runs: if the system audio
    /// drifted away from the recommended setup, show a notice with a shortcut
    /// to the assistant. Runs at most once per session, and only while the
    /// window is actually visible.
    pub fn check_setup(&mut self, visible: bool, mixer_shown: bool, all_ok: bool) -> (actions: Vec<
        Action,
    >)
        ensures
            final(self)@ == old(self)@.setup_checked(visible, mixer_shown),
            actions@ == old(self)@.setup_actions(visible, mixer_shown, all_ok),
            keeps_up(old(self)@, final(self)@, actions@),
    {
        let mut actions: Vec<Action> = Vec::new();
        proof {
            law_settings_saved(
                old(self)@,
                old(self)@.config.wave_xlr,
                visible,
                mixer_shown,
                all_ok,
            );
        }
        if self.setup_prompted || !visible || !mixer_shown {
            return actions;
        }
        self.setup_prompted = true;
        if !self.config.setup_done {
            self.config.setup_done = true;
            self.schedule_save(&mut actions);
            actions.push(Action::OpenSetup);
        } else if !all_ok {
            actions.push(Action::NoticeSetup);
        }
        actions
    }

    /// The setup assistant is to be opened. Returns whether it was not open.
    pub fn open_setup(&mut self) -> (opened: bool)
        ensures
            final(self)@ == (SessionModel { setup_open: true, ..old(self)@ }),
            opened == !old(self)@.setup_open,
    {
        let opened = !self.setup_open;
        self.setup_open = true;
        opened
    }

    /// The setup assistant was closed.
    pub fn setup_closed(&mut self)
        ensures
            final(self)@ == (SessionModel { setup_open: false, ..old(self)@ }),
    {
        self.setup_open = false;
    }

    /// Something was changed in the setup assistant.
    pub fn setup_changed(&mut self) -> (actions: Vec<Action>)
        ensures
            final(self)@ == old(self)@.saving(),
            actions@ == old(self)@.save_actions() + seq![
                Action::RefreshDevices,
                Action::UpdateSidebar,
            ],
            keeps_up(old(self)@, final(self)@, actions@),
    {
        let mut actions: Vec<Action> = Vec::new();
        self.schedule_save(&mut actions);
        actions.push(Action::RefreshDevices);
        actions.push(Action::UpdateSidebar);
        proof {
            let start = old(self)@;
            assert(!start.save_pending ==> actions@[0] == Action::AwaitSave);
            lemma_masters_kept_up(start, self@, actions@);
        }
        actions
    }

    // ---- Windows --------------------------------------------------------------------------

    /// The effects dialog of a channel was opened.
    pub fn dialog_opened(&mut self, id: u64)
        ensures
            final(self)@ == (SessionModel { dialog: Some(id), ..old(self)@ }),
    {
        self.dialog = Some(id);
    }

    /// The effects dialog of a channel was closed. Another one that was opened
    /// since stays.
    pub fn dialog_closed(&mut self, id: u64)
        ensures
            final(self)@ == if old(self)@.dialog == Some(id) {
                SessionModel { dialog: None, ..old(self)@ }
            } else {
                old(self)@
            },
    {
        if self.dialog == Some(id) {
            self.dialog = None;
        }
    }

    /// The window was closed, which hides it. Returns whether to tell that the
    /// mixer keeps running: once.
    pub fn window_closed(&mut self) -> (tell: bool)
        ensures
            final(self)@ == (SessionModel { close_notified: true, ..old(self)@ }),
            tell == !old(self)@.close_notified,
    {
        let tell = !self.close_notified;
        self.close_notified = true;
        tell
    }

    // ---- Audio server -----------------------------------------------------------------------

    /// The audio server told something.
    pub fn audio_event(&mut self, event: AudioEvent) -> (actions: Vec<Action>)
        ensures
            final(self)@ == if event is VstParams {
                old(self)@.saving()
            } else {
                old(self)@
            },
            actions@ == match event {
                AudioEvent::Ready => seq![
                    Action::ShowPage(Page::Mixer),
                    Action::AwaitSetupCheck,
                ],
                AudioEvent::Failed => seq![Action::ShowError, Action::ShowPage(Page::Error)],
                AudioEvent::DevicesChanged => seq![
                    Action::RefreshDevices,
                    Action::RestoreWaveXlr,
                ] + if old(self)@.setup_open {
                    seq![Action::RefreshSetup]
                } else {
                    Seq::empty()
                },
                AudioEvent::Level(LevelTarget::Channel(id)) => seq![Action::ShowLevels(id)],
                AudioEvent::Level(LevelTarget::MonitorMix) => seq![
                    Action::ShowMixLevels(Mix::Monitor),
                ],
                AudioEvent::Level(LevelTarget::StreamMix) => seq![
                    Action::ShowMixLevels(Mix::Stream),
                ],
                AudioEvent::Level(LevelTarget::VodMix) => seq![Action::ShowMixLevels(Mix::Vod)],
                AudioEvent::VstChanged(id) => if old(self)@.dialog == Some(id) {
                    seq![Action::RefreshDialog]
                } else {
                    Seq::empty()
                },
                AudioEvent::VstParams(id) => old(self)@.save_actions() + if old(self)@.dialog
                    == Some(id) {
                    seq![Action::SyncDialog]
                } else {
                    Seq::empty()
                },
            },
            keeps_up(old(self)@, final(self)@, actions@),
    {
        let mut actions: Vec<Action> = Vec::new();
        match event {
            AudioEvent::Ready => {
                actions.push(Action::ShowPage(Page::Mixer));
                actions.push(Action::AwaitSetupCheck);
            },
            AudioEvent::Failed => {
                actions.push(Action::ShowError);
                actions.push(Action::ShowPage(Page::Error));
            },
            AudioEvent::DevicesChanged => {
                actions.push(Action::RefreshDevices);
                actions.push(Action::RestoreWaveXlr);
                if self.setup_open {
                    actions.push(Action::RefreshSetup);
                }
            },
            AudioEvent::Level(target) => match target {
                LevelTarget::Channel(id) => actions.push(Action::ShowLevels(id)),
                LevelTarget::MonitorMix => actions.push(Action::ShowMixLevels(Mix::Monitor)),
                LevelTarget::StreamMix => actions.push(Action::ShowMixLevels(Mix::Stream)),
                LevelTarget::VodMix => actions.push(Action::ShowMixLevels(Mix::Vod)),
            },
            AudioEvent::VstChanged(id) => {
                if self.dialog == Some(id) {
                    actions.push(Action::RefreshDialog);
                }
            },
            AudioEvent::VstParams(id) => {
                self.schedule_save(&mut actions);
                if self.dialog == Some(id) {
                    actions.push(Action::SyncDialog);
                }
            },
        }
        proof {
            let start = old(self)@;
            assert(event is VstParams && !start.save_pending ==> actions@[0]
                == Action::AwaitSave);
            lemma_masters_kept_up(start, self@, actions@);
        }
        actions
    }

    // ---- Wave XLR ---------------------------------------------------------------------------

    /// Other startup volumes of the Wave XLR were chosen.
    pub fn set_wave_xlr(&mut self, volumes: WaveXlrConfig) -> (actions: Vec<Action>)
        ensures
            final(self)@ == old(self)@.with_config(
                ConfigModel { wave_xlr: volumes, ..old(self)@.config },
            ).saving(),
            actions@ == old(self)@.save_actions(),
            keeps_up(old(self)@, final(self)@, actions@),
    {
        let mut actions: Vec<Action> = Vec::new();
        proof {
            law_settings_saved(old(self)@, volumes, true, true, true);
        }
        self.config.wave_xlr = volumes;
        self.schedule_save(&mut actions);
        actions
    }

    /// The stored startup volumes of the Wave XLR are checked. A device that is
    /// there is given by whether its volume drifted away from the stored one.
    /// `now` is the time in nanoseconds.
    pub fn restore_wave_xlr(
        &mut self,
        mic: Option<bool>,
        output: Option<bool>,
        now: u64,
    ) -> (actions: Vec<Action>)
        requires
            now + XLR_ENFORCE_WINDOW <= u64::MAX,
        ensures
            final(self)@ == (SessionModel {
                mic_hold: held(old(self)@.mic_hold, mic, now),
                out_hold: held(old(self)@.out_hold, output, now),
                ..old(self)@
            }),
            ({
                let stored = old(self)@.config.wave_xlr;
                actions@ == match enforced(old(self)@.mic_hold, mic, stored.mic_volume, now) {
                    Some(pct) => seq![Action::SetSourceVolume(pct)],
                    None => Seq::empty(),
                } + match enforced(old(self)@.out_hold, output, stored.output_volume, now) {
                    Some(pct) => seq![Action::SetSinkVolume(pct)],
                    None => Seq::empty(),
                }
            }),
            keeps_up(old(self)@, final(self)@, actions@),
            forall|volume: Real64|
                #[trigger] actions@.contains(Action::SetSourceVolume(volume)) ==> mic == Some(true)
                    && old(self)@.config.wave_xlr.mic_volume == Some(volume),
            forall|volume: Real64|
                #[trigger] actions@.contains(Action::SetSinkVolume(volume)) ==> output == Some(
                    true,
                ) && old(self)@.config.wave_xlr.output_volume == Some(volume),
    {
        let mut actions: Vec<Action> = Vec::new();
        let (mic_hold, mic_volume) = enforce_xlr_volume(
            self.mic_hold,
            mic,
            self.config.wave_xlr.mic_volume,
            now,
        );
        self.mic_hold = mic_hold;
        if let Some(pct) = mic_volume {
            actions.push(Action::SetSourceVolume(pct));
        }
        let (out_hold, out_volume) = enforce_xlr_volume(
            self.out_hold,
            output,
            self.config.wave_xlr.output_volume,
            now,
        );
        self.out_hold = out_hold;
        if let Some(pct) = out_volume {
            actions.push(Action::SetSinkVolume(pct));
        }
        actions
    }
}

/// Until when a stored volume is enforced: from the appearance of the device
/// on, for the length of the window.
pub open spec fn held(hold: Option<u64>, device: Option<bool>, now: u64) -> Option<u64> {
    match (device, hold) {
        (None, _) => None,
        (Some(_), Some(deadline)) => Some(deadline),
        (Some(_), None) => Some((now + XLR_ENFORCE_WINDOW) as u64),
    }
}

/// The volume to set, if any: the stored one, when the device drifted away from
/// it before the deadline.
pub open spec fn enforced(
    hold: Option<u64>,
    device: Option<bool>,
    stored: Option<Real64>,
    now: u64,
) -> Option<Real64> {
    if device == Some(true) && now <= held(hold, device, now)->0 {
        stored
    } else {
        None
    }
}

/// Decides whether a stored volume is set on a device. A device that is there
/// is given by whether its volume drifted away from the stored one. Returns the
/// new deadline and the volume to set.
pub fn enforce_xlr_volume(
    hold: Option<u64>,
    device: Option<bool>,
    stored: Option<Real64>,
    now: u64,
) -> (out: (Option<u64>, Option<Real64>))
    requires
        now + XLR_ENFORCE_WINDOW <= u64::MAX,
    ensures
        out.0 == held(hold, device, now),
        out.1 == enforced(hold, device, stored, now),
{
    let drifted = match device {
        Some(drifted) => drifted,
        None => {
            return (None, None);
        },
    };
    let deadline: u64 = match hold {
        Some(deadline) => deadline,
        None => now + XLR_ENFORCE_WINDOW,
    };
    if now <= deadline && drifted {
        (Some(deadline), stored)
    } else {
        (Some(deadline), None)
    }
}

/// The state of a switch after it was activated; one without a state was off.
pub fn toggled(state: Option<bool>) -> (on: bool)
    ensures
        on == (state != Some(true)),
{
    match state {
        Some(on) => !on,
        None => true,
    }
}

/// Something that happens once, whichever of several occasions comes first.
#[derive(Clone, Copy, Debug, PartialEq, Eq, Structural)]
pub struct Once {
    pub done: bool,
}

impl Once {
    /// Whether this is the first occasion.
    pub fn first(&mut self) -> (yes: bool)
        ensures
            yes == !old(self).done,
            final(self).done,
    {
        let yes = !self.done;
        self.done = true;
        yes
    }
}

fn copy_parameter(p: &Parameter) -> (out: Parameter)
    ensures
        out@ == p@,
{
    Parameter { symbol: p.symbol.clone(), value: p.value, text: p.text.clone() }
}

// ---- Laws -----------------------------------------------------------------------------------

/// While parameters are being changed nothing is pushed, and the moment after
/// the last change everything is that waits: each changed parameter with its
/// last value.
pub proof fn law_changes_are_pushed(state: SessionModel, changes: Seq<PushModel>, p: PushModel)
    requires
        changes.len() > 0,
        state.control_epoch + changes.len() <= u64::MAX,
    ensures
        ({
            let after = state.controlled_all(changes);
            let last = (state.control_epoch + changes.len()) as u64;
            &&& after.control_epoch == last
            &&& forall|number: u64| number != last ==> #[trigger] after.due(number).len() == 0
            &&& after.due(last).contains(p) <==> {
                ||| exists|i: int|
                    0 <= i < changes.len() && #[trigger] changes[i] == p && !pushes::overtaken(
                        changes,
                        i,
                    )
                ||| state.pending.contains(p) && forall|i: int|
                    0 <= i < changes.len() ==> !p.same_target(#[trigger] changes[i])
            }
        }),
{
    lemma_controlled_all(state, changes);
    pushes::law_each_change_waits(state.pending, changes, p);
}

proof fn lemma_controlled_all(state: SessionModel, changes: Seq<PushModel>)
    requires
        state.control_epoch + changes.len() <= u64::MAX,
    ensures
        state.controlled_all(changes).control_epoch == state.control_epoch + changes.len(),
        state.controlled_all(changes).pending == pushes::queued_all(state.pending, changes),
    decreases changes.len(),
{
    if changes.len() > 0 {
        lemma_controlled_all(state, changes.drop_last());
    }
}

/// However often a save is asked for, it is waited for once until it is due.
pub proof fn law_one_save(state: SessionModel)
    ensures
        state.saving().save_actions() == Seq::<Action>::empty(),
        state.saving().saving() == state.saving(),
        (SessionModel { save_pending: false, ..state.saving() }).save_actions() == seq![
            Action::AwaitSave,
        ],
{
}

/// While a name is being typed, only the moment after the last change counts.
pub proof fn law_last_rename_counts(
    state: SessionModel,
    id: u64,
    name: Seq<char>,
    again: Seq<char>,
)
    requires
        state.has_channel(id),
        state.epoch(id) < u64::MAX - 1,
    ensures
        ({
            let first = (state.epoch(id) + 1) as u64;
            let second = (state.epoch(id) + 2) as u64;
            let after = state.renamed(id, name).renamed(id, again);
            &&& !after.rename_counts(id, first)
            &&& after.rename_counts(id, second) == channels::exposes_device(
                state.channel(id).assignment,
            )
            &&& after.channel(id).name == again
        }),
{
    let once = |c: ChannelModel| ChannelModel { name, ..c };
    let twice = |c: ChannelModel| ChannelModel { name: again, ..c };
    let cfg = state.config.channels;
    let between = channels::edited(cfg, id, once);
    channels::lemma_edit_channel(cfg, id, once);
    channels::lemma_edit_channel(between, id, twice);
}

/// The setup assistant or the notice comes at most once per session.
pub proof fn law_setup_once(
    state: SessionModel,
    all_ok: bool,
    visible: bool,
    mixer_shown: bool,
    later_ok: bool,
)
    ensures
        state.setup_checked(true, true).setup_actions(visible, mixer_shown, later_ok) == Seq::<
            Action,
        >::empty(),
        state.setup_actions(visible, mixer_shown, all_ok).contains(Action::OpenSetup)
            ==> !state.config.setup_done && state.setup_checked(
            visible,
            mixer_shown,
        ).config.setup_done,
{
}

/// The stored volume of a device is enforced for the length of the window after
/// the device appeared, and not afterwards.
pub proof fn law_enforcement_ends(
    appeared: u64,
    now: u64,
    stored: Option<Real64>,
    drifted: bool,
)
    requires
        appeared + XLR_ENFORCE_WINDOW <= u64::MAX,
        appeared <= now,
    ensures
        ({
            let hold = held(None, Some(drifted), appeared);
            &&& held(hold, Some(drifted), now) == hold
            &&& now - appeared <= XLR_ENFORCE_WINDOW ==> enforced(hold, Some(true), stored, now)
                == stored
            &&& now - appeared > XLR_ENFORCE_WINDOW ==> enforced(hold, Some(true), stored, now)
                is None
            &&& enforced(hold, Some(false), stored, now) is None
        }),
{
}

/// A device that disappears and comes back is treated like a new one.
pub proof fn law_replug_restarts(
    hold: Option<u64>,
    gone: u64,
    back: u64,
    stored: Option<Real64>,
)
    requires
        back + XLR_ENFORCE_WINDOW <= u64::MAX,
    ensures
        held(hold, None, gone) is None,
        enforced(hold, None, stored, gone) is None,
        enforced(held(hold, None, gone), Some(true), stored, back) == stored,
{
}

/// Channel ids stay positive, distinct and below the next one to be given out
/// whatever is done to the channels of a session: by an edit that keeps the id
/// of a channel, by a removal, or by an addition below the limit.
pub proof fn law_session_edits_sound(
    state: SessionModel,
    id: u64,
    change: spec_fn(ChannelModel) -> ChannelModel,
    name: Option<Seq<char>>,
)
    requires
        loading::sound(state.config),
        forall|c: ChannelModel| (#[trigger] change(c)).id == c.id,
    ensures
        loading::sound(state.with_edit(id, change).config),
        loading::sound(channels::without_channel(state.config, id)),
        state.config.channels.len() < config::MAX_CHANNELS && state.config.next_channel_id
            < u64::MAX ==> loading::sound(channels::with_channel(state.config, name)),
{
    channels::law_edit_sound(state.config, id, change);
    channels::law_remove_channel(state.config, id);
    if state.config.channels.len() < config::MAX_CHANNELS && state.config.next_channel_id
        < u64::MAX {
        channels::law_add_sound(state.config, name);
    }
}

// ---- Keeping up ------------------------------------------------------------------------------

/// How something is heard.
pub struct Sound {
    pub volume: Real64,
    pub muted: bool,
}

/// What is heard of a channel in a mix: its volume there, and whether it is
/// muted.
pub open spec fn heard(state: SessionModel, id: u64, mix: Mix) -> Option<Sound> {
    if state.has_channel(id) {
        let c = state.channel(id);
        match mix {
            Mix::Monitor => Some(Sound { volume: c.monitor_volume, muted: c.monitor_muted }),
            Mix::Stream => Some(Sound { volume: c.stream_volume, muted: c.stream_muted }),
            Mix::Vod => Some(Sound { volume: c.vod_volume, muted: c.vod_muted }),
        }
    } else {
        None
    }
}

/// What is heard of a mix as a whole.
pub open spec fn mix_heard(state: SessionModel, mix: Mix) -> Sound {
    let m = state.config.master;
    match mix {
        Mix::Monitor => Sound { volume: m.monitor_volume, muted: m.monitor_muted },
        Mix::Stream => Sound { volume: m.stream_volume, muted: m.stream_muted },
        Mix::Vod => Sound { volume: m.vod_volume, muted: m.vod_muted },
    }
}

/// What of its effects a channel is routed through.
pub open spec fn wiring(effects: Seq<EffectModel>) -> Seq<(u64, Seq<char>, bool)> {
    effects.map_values(|e: EffectModel| (e.id, e.uri, e.enabled))
}

/// How a channel is routed: what feeds it, and what it goes through.
pub open spec fn routed(state: SessionModel, id: u64) -> Option<
    (Option<AssignmentModel>, bool, Seq<(u64, Seq<char>, bool)>),
> {
    if state.has_channel(id) {
        let c = state.channel(id);
        Some((c.assignment, c.vst_rack, wiring(c.effects)))
    } else {
        None
    }
}

/// Whether a channel is there before and after something was done.
pub open spec fn stays(before: SessionModel, after: SessionModel, id: u64) -> bool {
    before.has_channel(id) && after.has_channel(id)
}

/// Whether what is to be done about an operation brings what is heard, shown
/// and stored in line with the configuration that it left.
pub open spec fn keeps_up(
    before: SessionModel,
    after: SessionModel,
    actions: Seq<Action>,
) -> bool {
    // What was changed is saved, and a save is waited for once.
    &&& before.config != after.config ==> after.save_pending
    &&& actions.contains(Action::AwaitSave) == (after.save_pending && !before.save_pending)
    // Every volume and every mute switch that was changed is applied.
    &&& forall|id: u64, mix: Mix|
        #[trigger] heard(after, id, mix) != heard(before, id, mix) ==> actions.contains(
            Action::RebuildChannel(id),
        ) || actions.contains(Action::ApplyChannel(id, mix))
    &&& forall|mix: Mix|
        #[trigger] mix_heard(after, mix) != mix_heard(before, mix) ==> actions.contains(
            Action::ApplyMaster(mix),
        )
    // Every fader that is shown elsewhere is shown where it stands.
    &&& forall|id: u64, mix: Mix, volume: Real64|
        #[trigger] actions.contains(Action::ShowFader(id, mix, volume)) ==> (heard(
            after,
            id,
            mix,
        ) matches Some(now) && now.volume == volume)
    // Every channel that is fed or processed otherwise is built anew, and what
    // is said of it is brought up to date.
    &&& forall|id: u64|
        #[trigger] routed(after, id) != routed(before, id) ==> actions.contains(
            Action::RebuildChannel(id),
        ) && actions.contains(Action::UpdateSidebar)
    &&& forall|id: u64|
        #[trigger] stays(before, after, id) && !actions.contains(Action::RebuildStrips) ==> {
            &&& wiring(before.channel(id).effects) != wiring(after.channel(id).effects)
                ==> actions.contains(Action::ShowEffects(id))
            &&& before.channel(id).vst_rack != after.channel(id).vst_rack ==> actions.contains(
                Action::ShowEffects(id),
            ) && actions.contains(Action::ShowRackButton(after.channel(id).vst_rack))
            &&& before.channel(id).name != after.channel(id).name ==> {
                &&& actions.contains(Action::UpdateSidebar)
                &&& actions.contains(Action::RebuildAddMenu)
                &&& actions.contains(Action::AwaitRename(id, after.epoch(id)))
            }
        }
    &&& forall|id: u64|
        #[trigger] before.has_channel(id) != after.has_channel(id) ==> {
            &&& actions.contains(Action::RebuildStrips)
            &&& actions.contains(Action::UpdateSidebar)
        }
    // Where the monitor mix goes, and whether there is a VOD mix.
    &&& before.config.master.monitor_device != after.config.master.monitor_device ==> {
        &&& actions.contains(Action::RouteMonitor)
        &&& actions.contains(Action::UpdateSidebar)
    }
    &&& before.config.vod_mix_enabled != after.config.vod_mix_enabled ==> {
        &&& actions.contains(Action::ApplyVodMix)
        &&& actions.contains(Action::ShowVod(after.config.vod_mix_enabled))
        &&& actions.contains(Action::UpdateSidebar)
    }
}

/// Whether the faders of a channel that stand elsewhere than before are shown
/// there, other than the one that was moved by hand.
pub open spec fn faders_shown(
    before: SessionModel,
    after: SessionModel,
    id: u64,
    by_hand: Option<Mix>,
    actions: Seq<Action>,
) -> bool {
    forall|mix: Mix|
        by_hand != Some(mix) && (#[trigger] heard(before, id, mix)) is Some && heard(
            after,
            id,
            mix,
        ) is Some && heard(before, id, mix)->0.volume != heard(after, id, mix)->0.volume
            ==> actions.contains(Action::ShowFader(id, mix, heard(after, id, mix)->0.volume))
}

/// What an operation on one channel leaves alone: all other channels, and the
/// rest of the configuration.
pub open spec fn others_stay(before: SessionModel, after: SessionModel, id: u64) -> bool {
    &&& after.config == (ConfigModel { channels: after.config.channels, ..before.config })
    &&& after.config.channels.len() == before.config.channels.len()
    &&& forall|other: u64|
        #[trigger] after.has_channel(other) == before.has_channel(other)
    &&& forall|other: u64|
        other != id && before.has_channel(other) ==> #[trigger] after.channel(other)
            == before.channel(other)
}

/// A change of one channel leaves the others as they are, and makes of the
/// channel what the change says.
proof fn lemma_edit_state(
    state: SessionModel,
    after: SessionModel,
    id: u64,
    change: spec_fn(ChannelModel) -> ChannelModel,
)
    requires
        forall|c: ChannelModel| (#[trigger] change(c)).id == c.id,
        after.config == state.with_edit(id, change).config,
    ensures
        others_stay(state, after, id),
        after.has_channel(id) == state.has_channel(id),
        state.has_channel(id) ==> after.channel(id) == change(state.channel(id)),
        !state.has_channel(id) ==> after.config == state.config,
{
    assert forall|other: u64| #[trigger] after.has_channel(other) == state.has_channel(other) by {
        channels::law_edit_touches_one(state.config, id, change, other);
    }
    assert forall|other: u64| other != id && state.has_channel(other) implies
        #[trigger] after.channel(other) == state.channel(other) by {
        channels::law_edit_touches_one(state.config, id, change, other);
    }
    channels::law_edit_touches_one(state.config, id, change, id);
    channels::lemma_edit(state.config.channels, id, change);
}

/// Whether what is to be done about one channel is in line with what it was
/// and what it is now.
spec fn channel_kept_up(
    id: u64,
    before: SessionModel,
    after: SessionModel,
    actions: Seq<Action>,
) -> bool {
    let c = before.channel(id);
    let d = after.channel(id);
    &&& forall|mix: Mix|
        #[trigger] heard(after, id, mix) != heard(before, id, mix) ==> actions.contains(
            Action::RebuildChannel(id),
        ) || actions.contains(Action::ApplyChannel(id, mix))
    &&& forall|k: u64, mix: Mix, volume: Real64|
        #[trigger] actions.contains(Action::ShowFader(k, mix, volume)) ==> k == id && heard(
            after,
            id,
            mix,
        )->0.volume == volume
    &&& routed(after, id) != routed(before, id) ==> actions.contains(Action::RebuildChannel(id))
        && actions.contains(Action::UpdateSidebar)
    &&& wiring(c.effects) != wiring(d.effects) ==> actions.contains(Action::ShowEffects(id))
    &&& c.vst_rack != d.vst_rack ==> actions.contains(Action::ShowEffects(id))
        && actions.contains(Action::ShowRackButton(d.vst_rack))
    &&& c.name != d.name ==> {
        &&& actions.contains(Action::UpdateSidebar)
        &&& actions.contains(Action::RebuildAddMenu)
        &&& actions.contains(Action::AwaitRename(id, after.epoch(id)))
    }
}

/// Where one channel is changed, it is enough to keep up with that channel.
proof fn lemma_one_kept_up(
    id: u64,
    before: SessionModel,
    after: SessionModel,
    actions: Seq<Action>,
)
    requires
        before.has_channel(id),
        others_stay(before, after, id),
        after.save_pending,
        actions.contains(Action::AwaitSave) == !before.save_pending,
        channel_kept_up(id, before, after, actions),
    ensures
        keeps_up(before, after, actions),
{
    assert(after.has_channel(id));
    assert forall|k: u64, mix: Mix|
        #[trigger] heard(after, k, mix) != heard(before, k, mix) implies actions.contains(
        Action::RebuildChannel(k),
    ) || actions.contains(Action::ApplyChannel(k, mix)) by {
        assert(after.has_channel(k) == before.has_channel(k));
        if k != id && before.has_channel(k) {
            assert(after.channel(k) == before.channel(k));
        }
    }
    assert forall|k: u64| #[trigger] routed(after, k) != routed(before, k) implies actions.contains(
        Action::RebuildChannel(k),
    ) && actions.contains(Action::UpdateSidebar) by {
        assert(after.has_channel(k) == before.has_channel(k));
        if k != id && before.has_channel(k) {
            assert(after.channel(k) == before.channel(k));
        }
    }
    assert forall|k: u64| #[trigger] stays(before, after, k) && k != id implies after.channel(k)
        == before.channel(k) by {}
    assert forall|k: u64| #[trigger] before.has_channel(k) == after.has_channel(k) by {
        assert(after.has_channel(k) == before.has_channel(k));
    }
    assert forall|mix: Mix| #[trigger] mix_heard(after, mix) == mix_heard(before, mix) by {}
}

/// After any fader move, every volume that is another than before is applied,
/// every fader that followed is shown where it stands now, and the change is
/// saved. Nothing but volumes of that channel changes.
pub proof fn law_fader_moves(state: SessionModel, id: u64, mix: Mix, volume: Real64)
    requires
        state.has_channel(id),
    ensures
        ({
            let c = state.channel(id);
            let after = state.with_edit(
                id,
                |c: ChannelModel| channels::with_fader(c, mix, volume),
            ).saving();
            let actions = seq![Action::ApplyChannel(id, mix)] + if c.linked {
                follow_others(id, c, mix, volume)
            } else {
                Seq::<Action>::empty()
            } + state.save_actions();
            &&& keeps_up(state, after, actions)
            &&& faders_shown(state, after, id, Some(mix), actions)
            &&& others_stay(state, after, id)
            &&& heard(after, id, mix) matches Some(now) && now.volume == volume
            &&& c.linked ==> forall|m: Mix|
                (#[trigger] heard(after, id, m)) matches Some(now) && now.volume == volume
        }),
{
    broadcast use vstd::seq_lib::group_seq_properties;

    let change = |c: ChannelModel| channels::with_fader(c, mix, volume);
    let c = state.channel(id);
    let after = state.with_edit(id, change).saving();
    lemma_edit_state(state, after, id, change);
    channels::law_fader_stands(c, mix, volume);
    let follows = if c.linked {
        follow_others(id, c, mix, volume)
    } else {
        Seq::<Action>::empty()
    };
    let actions = seq![Action::ApplyChannel(id, mix)] + follows + state.save_actions();
    lemma_follow(id, c, Mix::Monitor, volume);
    lemma_follow(id, c, Mix::Stream, volume);
    lemma_follow(id, c, Mix::Vod, volume);
    lemma_save(state);
    assert(actions.contains(Action::ApplyChannel(id, mix))) by {
        assert(actions[0] == Action::ApplyChannel(id, mix));
    }
    let d = after.channel(id);
    assert(d == change(c));
    assert forall|m: Mix| #[trigger] heard(after, id, m) != heard(state, id, m) implies
        actions.contains(Action::ApplyChannel(id, m)) by {
        assert(volume_in(c, m) != volume_in(d, m));
        if m != mix {
            assert(follow(id, c, m, volume).contains(Action::ApplyChannel(id, m)));
            assert(follows.contains(Action::ApplyChannel(id, m)));
        }
    }
    assert forall|a: Action| #[trigger] actions.contains(a) implies a == Action::AwaitSave || a
        == Action::ApplyChannel(id, mix) || follows.contains(a) by {
        assert(seq![Action::ApplyChannel(id, mix)].contains(a) ==> a == Action::ApplyChannel(
            id,
            mix,
        ));
    }
    assert forall|k: u64, m: Mix, v: Real64|
        #[trigger] actions.contains(Action::ShowFader(k, m, v)) implies k == id && heard(
        after,
        id,
        m,
    )->0.volume == v by {
        assert(follows.contains(Action::ShowFader(k, m, v)));
    }
    lemma_one_kept_up(id, state, after, actions);
    assert forall|m: Mix|
        Some(mix) != Some(m) && (#[trigger] heard(state, id, m)) is Some && heard(after, id, m) is Some
            && heard(state, id, m)->0.volume != heard(after, id, m)->0.volume implies
        actions.contains(Action::ShowFader(id, m, heard(after, id, m)->0.volume)) by {
        assert(follow(id, c, m, volume).contains(Action::ShowFader(id, m, volume)));
        assert(follows.contains(Action::ShowFader(id, m, volume)));
    }
}

/// What is done about a fader that follows.
proof fn lemma_follow(id: u64, c: ChannelModel, mix: Mix, volume: Real64)
    ensures
        volume_in(c, mix) != volume ==> {
            &&& follow(id, c, mix, volume).contains(Action::ShowFader(id, mix, volume))
            &&& follow(id, c, mix, volume).contains(Action::ApplyChannel(id, mix))
        },
        forall|a: Action|
            #[trigger] follow(id, c, mix, volume).contains(a) ==> a == Action::ShowFader(
                id,
                mix,
                volume,
            ) || a == Action::ApplyChannel(id, mix),
{
    if volume_in(c, mix) != volume {
        assert(follow(id, c, mix, volume)[0] == Action::ShowFader(id, mix, volume));
        assert(follow(id, c, mix, volume)[1] == Action::ApplyChannel(id, mix));
    }
}

/// What is done about a save.
proof fn lemma_save(state: SessionModel)
    ensures
        forall|a: Action|
            #[trigger] state.save_actions().contains(a) ==> a == Action::AwaitSave,
        state.save_actions().contains(Action::AwaitSave) == !state.save_pending,
{
    if !state.save_pending {
        assert(state.save_actions()[0] == Action::AwaitSave);
    }
}

/// Where nothing is done, nothing has to be.
proof fn lemma_nothing_kept_up(state: SessionModel)
    ensures
        keeps_up(state, state, Seq::empty()),
        forall|id: u64| #[trigger] others_stay(state, state, id),
        forall|id: u64, by_hand: Option<Mix>|
            #[trigger] faders_shown(state, state, id, by_hand, Seq::empty()),
{
    lemma_masters_kept_up(state, state, Seq::empty());
}

/// What a short list holds.
proof fn lemma_listed(list: Seq<Action>)
    requires
        1 <= list.len() <= 3,
    ensures
        forall|x: Action|
            #[trigger] list.contains(x) <==> x == list[0] || (list.len() > 1 && x == list[1]) || (
            list.len() > 2 && x == list[2]),
{
    assert(list.contains(list[0]));
}

/// After a channel was muted in a mix, or unmuted, it is so in that mix and
/// that is applied; its volumes and the other mixes stay, and so does every
/// other channel.
pub proof fn law_mute_applied(state: SessionModel, id: u64, mix: Mix, muted: bool)
    requires
        state.has_channel(id),
    ensures
        ({
            let after = state.with_edit(
                id,
                |c: ChannelModel| channels::with_muted(c, mix, muted),
            ).saving();
            let actions = seq![Action::ApplyChannel(id, mix)] + state.save_actions();
            &&& keeps_up(state, after, actions)
            &&& others_stay(state, after, id)
            &&& forall|m: Mix|
                (#[trigger] heard(after, id, m)) matches Some(now) && now.volume == heard(
                    state,
                    id,
                    m,
                )->0.volume && now.muted == if m == mix {
                    muted
                } else {
                    heard(state, id, m)->0.muted
                }
        }),
{
    broadcast use vstd::seq_lib::group_seq_properties;

    let change = |c: ChannelModel| channels::with_muted(c, mix, muted);
    let after = state.with_edit(id, change).saving();
    let first = Action::ApplyChannel(id, mix);
    let actions = seq![first] + state.save_actions();
    lemma_edit_state(state, after, id, change);
    channels::law_mute_switch(state.channel(id), mix, muted);
    lemma_save(state);
    lemma_listed(seq![first]);
    lemma_one_kept_up(id, state, after, actions);
}

/// After the faders of a channel were linked they stand where the monitor fader
/// does, which is applied and shown; unlinking moves none. The channel is linked
/// exactly if that was asked for.
pub proof fn law_link_applied(state: SessionModel, id: u64, linked: bool)
    requires
        state.has_channel(id),
    ensures
        ({
            let c = state.channel(id);
            let after = state.with_edit(
                id,
                |c: ChannelModel| channels::with_link(c, linked),
            ).saving();
            let actions = if linked {
                follow_others(id, c, Mix::Monitor, c.monitor_volume)
            } else {
                Seq::<Action>::empty()
            } + state.save_actions();
            &&& keeps_up(state, after, actions)
            &&& faders_shown(state, after, id, None, actions)
            &&& others_stay(state, after, id)
            &&& after.channel(id).linked == linked
            &&& forall|m: Mix|
                (#[trigger] heard(after, id, m)) matches Some(now) && now.volume == if linked {
                    c.monitor_volume
                } else {
                    heard(state, id, m)->0.volume
                } && now.muted == heard(state, id, m)->0.muted
        }),
{
    broadcast use vstd::seq_lib::group_seq_properties;

    let change = |c: ChannelModel| channels::with_link(c, linked);
    let c = state.channel(id);
    let volume = c.monitor_volume;
    let after = state.with_edit(id, change).saving();
    let follows = if linked {
        follow_others(id, c, Mix::Monitor, volume)
    } else {
        Seq::<Action>::empty()
    };
    let actions = follows + state.save_actions();
    lemma_edit_state(state, after, id, change);
    channels::law_link_switch(c, linked);
    lemma_follow(id, c, Mix::Stream, volume);
    lemma_follow(id, c, Mix::Vod, volume);
    lemma_save(state);
    let d = after.channel(id);
    assert(d == change(c));
    assert forall|m: Mix| #[trigger] heard(after, id, m) != heard(state, id, m) implies
        actions.contains(Action::ApplyChannel(id, m)) && actions.contains(
        Action::ShowFader(id, m, volume),
    ) by {
        assert(m != Mix::Monitor);
        assert(follow(id, c, m, volume).contains(Action::ApplyChannel(id, m)));
        assert(follow(id, c, m, volume).contains(Action::ShowFader(id, m, volume)));
        assert(follows.contains(Action::ApplyChannel(id, m)));
        assert(follows.contains(Action::ShowFader(id, m, volume)));
    }
    assert forall|a: Action| #[trigger] actions.contains(a) implies a == Action::AwaitSave
        || follows.contains(a) by {}
    assert forall|k: u64, m: Mix, v: Real64|
        #[trigger] actions.contains(Action::ShowFader(k, m, v)) implies k == id && heard(
        after,
        id,
        m,
    )->0.volume == v by {
        assert(follows.contains(Action::ShowFader(k, m, v)));
    }
    lemma_one_kept_up(id, state, after, actions);
    assert forall|m: Mix|
        (#[trigger] heard(state, id, m)) is Some && heard(after, id, m) is Some
            && heard(state, id, m)->0.volume != heard(after, id, m)->0.volume implies
        actions.contains(Action::ShowFader(id, m, heard(after, id, m)->0.volume)) by {
        assert(heard(after, id, m) != heard(state, id, m));
    }
}

/// After another input was chosen for a channel, that feeds it, and the channel
/// is built anew.
pub proof fn law_assigned(state: SessionModel, id: u64, wanted: Option<AssignmentModel>)
    requires
        state.has_channel(id),
    ensures
        ({
            let after = state.with_edit(
                id,
                |c: ChannelModel| ChannelModel { assignment: wanted, ..c },
            ).saving();
            let actions = seq![Action::RebuildChannel(id)] + state.save_actions() + seq![
                Action::UpdateSidebar,
            ];
            &&& keeps_up(state, after, actions)
            &&& others_stay(state, after, id)
            &&& after.channel(id) == (ChannelModel { assignment: wanted, ..state.channel(id) })
        }),
{
    broadcast use vstd::seq_lib::group_seq_properties;

    let change = |c: ChannelModel| ChannelModel { assignment: wanted, ..c };
    let after = state.with_edit(id, change).saving();
    let first = Action::RebuildChannel(id);
    let last = Action::UpdateSidebar;
    let actions = seq![first] + state.save_actions() + seq![last];
    lemma_edit_state(state, after, id, change);
    lemma_save(state);
    lemma_listed(seq![first]);
    lemma_listed(seq![last]);
    lemma_one_kept_up(id, state, after, actions);
}

/// After a channel was renamed it has that name, what shows names is brought up
/// to date, and the moment after the last change is waited for.
pub proof fn law_renamed(state: SessionModel, id: u64, name: Seq<char>)
    requires
        state.has_channel(id),
        state.epoch(id) < u64::MAX,
    ensures
        ({
            let after = state.renamed(id, name);
            let actions = state.save_actions() + seq![
                Action::UpdateSidebar,
                Action::RebuildAddMenu,
                Action::AwaitRename(id, (state.epoch(id) + 1) as u64),
            ];
            &&& keeps_up(state, after, actions)
            &&& others_stay(state, after, id)
            &&& after.channel(id) == (ChannelModel { name, ..state.channel(id) })
            &&& after.epoch(id) == state.epoch(id) + 1
            &&& forall|other: u64| other != id ==> #[trigger] after.epoch(other) == state.epoch(other)
        }),
{
    broadcast use vstd::seq_lib::group_seq_properties;

    let change = |c: ChannelModel| ChannelModel { name, ..c };
    let after = state.renamed(id, name);
    let last = seq![
        Action::UpdateSidebar,
        Action::RebuildAddMenu,
        Action::AwaitRename(id, (state.epoch(id) + 1) as u64),
    ];
    let actions = state.save_actions() + last;
    lemma_edit_state(state, after, id, change);
    lemma_save(state);
    lemma_listed(last);
    lemma_one_kept_up(id, state, after, actions);
}

/// What is done when the structure of a channel changes.
proof fn lemma_structure(state: SessionModel, id: u64)
    requires
        state.has_channel(id),
    ensures
        forall|a: Action|
            #[trigger] state.structure_actions(id).contains(a) <==> a == Action::RebuildChannel(id)
                || a == Action::UpdateSidebar || a == Action::ShowEffects(id) || (a
                == Action::AwaitSave && !state.save_pending),
{
    broadcast use vstd::seq_lib::group_seq_properties;

    let first = Action::RebuildChannel(id);
    let next = Action::UpdateSidebar;
    let last = Action::ShowEffects(id);
    lemma_save(state);
    lemma_listed(seq![first]);
    lemma_listed(seq![next]);
    lemma_listed(seq![last]);
}

/// After the effects of a channel were edited, the channel is built anew, and
/// the strip and the dialog show it. Nothing but its effects changes.
pub proof fn law_effects_edited(
    state: SessionModel,
    id: u64,
    change: spec_fn(ChannelModel) -> ChannelModel,
)
    requires
        state.has_channel(id),
        forall|c: ChannelModel|
            #[trigger] change(c) == (ChannelModel { effects: change(c).effects, ..c }),
    ensures
        keeps_up(state, state.with_effects(id, change), state.effect_actions(id)),
        others_stay(state, state.with_effects(id, change), id),
        state.effect_actions(id).contains(Action::RebuildEffects),
        state.with_effects(id, change).channel(id) == (ChannelModel {
            effects: change(state.channel(id)).effects,
            ..state.channel(id)
        }),
{
    broadcast use vstd::seq_lib::group_seq_properties;

    let after = state.with_effects(id, change);
    let actions = state.effect_actions(id);
    assert forall|c: ChannelModel| (#[trigger] change(c)).id == c.id by {
        assert(change(c) == (ChannelModel { effects: change(c).effects, ..c }));
    }
    lemma_edit_state(state, after, id, change);
    lemma_structure(state, id);
    assert(change(state.channel(id)) == (ChannelModel {
        effects: change(state.channel(id)).effects,
        ..state.channel(id)
    }));
    assert(actions[actions.len() - 1] == Action::RebuildEffects);
    lemma_one_kept_up(id, state, after, actions);
}

/// After the rack of a channel was switched, it is on or off as asked for, the
/// channel is built anew, and the button that opens the rack can be used
/// exactly if the rack is on.
pub proof fn law_rack_switched(state: SessionModel, id: u64, on: bool)
    requires
        state.has_channel(id),
    ensures
        ({
            let after = state.with_edit(
                id,
                |c: ChannelModel| ChannelModel { vst_rack: on, ..c },
            ).saving();
            let actions = seq![Action::ShowRackButton(on)] + state.structure_actions(id);
            &&& keeps_up(state, after, actions)
            &&& others_stay(state, after, id)
            &&& after.channel(id) == (ChannelModel { vst_rack: on, ..state.channel(id) })
        }),
{
    broadcast use vstd::seq_lib::group_seq_properties;

    let change = |c: ChannelModel| ChannelModel { vst_rack: on, ..c };
    let after = state.with_edit(id, change).saving();
    let first = Action::ShowRackButton(on);
    let actions = seq![first] + state.structure_actions(id);
    lemma_edit_state(state, after, id, change);
    lemma_structure(state, id);
    lemma_listed(seq![first]);
    lemma_one_kept_up(id, state, after, actions);
}

/// Where the channels stay what they are, it is enough to keep up with the
/// rest.
proof fn lemma_masters_kept_up(before: SessionModel, after: SessionModel, actions: Seq<Action>)
    requires
        after.config.channels == before.config.channels,
        before.config != after.config ==> after.save_pending,
        actions.contains(Action::AwaitSave) == (after.save_pending && !before.save_pending),
        forall|mix: Mix|
            #[trigger] mix_heard(after, mix) != mix_heard(before, mix) ==> actions.contains(
                Action::ApplyMaster(mix),
            ),
        before.config.master.monitor_device != after.config.master.monitor_device ==> {
            &&& actions.contains(Action::RouteMonitor)
            &&& actions.contains(Action::UpdateSidebar)
        },
        before.config.vod_mix_enabled != after.config.vod_mix_enabled ==> {
            &&& actions.contains(Action::ApplyVodMix)
            &&& actions.contains(Action::ShowVod(after.config.vod_mix_enabled))
            &&& actions.contains(Action::UpdateSidebar)
        },
        forall|id: u64, mix: Mix, volume: Real64|
            !(#[trigger] actions.contains(Action::ShowFader(id, mix, volume))),
    ensures
        keeps_up(before, after, actions),
{
    assert forall|id: u64, mix: Mix| #[trigger] heard(after, id, mix) == heard(
        before,
        id,
        mix,
    ) by {}
    assert forall|id: u64| #[trigger] routed(after, id) == routed(before, id) by {}
    assert forall|id: u64| #[trigger] stays(before, after, id) implies after.channel(id)
        == before.channel(id) by {}
    assert forall|id: u64| #[trigger] before.has_channel(id) == after.has_channel(id) by {}
}

/// After the master fader of a mix was moved, or the mix was muted or unmuted,
/// it is so for that mix and that is applied; the other mixes stay, and so do
/// the channels.
pub proof fn law_masters_applied(state: SessionModel, mix: Mix, volume: Real64, muted: bool)
    ensures
        ({
            let actions = seq![Action::ApplyMaster(mix)] + state.save_actions();
            let moved = state.with_config(
                channels::with_master_volume(state.config, mix, volume),
            ).saving();
            let silent = state.with_config(
                channels::with_master_muted(state.config, mix, muted),
            ).saving();
            &&& keeps_up(state, moved, actions)
            &&& keeps_up(state, silent, actions)
            &&& moved.config.channels == state.config.channels
            &&& silent.config.channels == state.config.channels
            &&& forall|m: Mix|
                #[trigger] mix_heard(moved, m) == (Sound {
                    volume: if m == mix {
                        volume
                    } else {
                        mix_heard(state, m).volume
                    },
                    muted: mix_heard(state, m).muted,
                })
            &&& forall|m: Mix|
                #[trigger] mix_heard(silent, m) == (Sound {
                    volume: mix_heard(state, m).volume,
                    muted: if m == mix {
                        muted
                    } else {
                        mix_heard(state, m).muted
                    },
                })
        }),
{
    broadcast use vstd::seq_lib::group_seq_properties;

    let first = Action::ApplyMaster(mix);
    let actions = seq![first] + state.save_actions();
    let moved = state.with_config(
        channels::with_master_volume(state.config, mix, volume),
    ).saving();
    let silent = state.with_config(
        channels::with_master_muted(state.config, mix, muted),
    ).saving();
    channels::law_master_section(state.config, mix, volume, muted);
    lemma_save(state);
    lemma_listed(seq![first]);
    lemma_masters_kept_up(state, moved, actions);
    lemma_masters_kept_up(state, silent, actions);
}

/// After another output was chosen for the monitor mix, the mix is routed there;
/// after the VOD mix was enabled or disabled, it is brought up or taken down,
/// and its faders are shown or hidden.
pub proof fn law_outputs_applied(state: SessionModel, device: Option<Seq<char>>, enable: bool)
    ensures
        ({
            let master = MasterModel { monitor_device: device, ..state.config.master };
            let chosen = state.with_config(ConfigModel { master, ..state.config }).saving();
            let switched = state.with_config(
                ConfigModel { vod_mix_enabled: enable, ..state.config },
            ).saving();
            &&& keeps_up(
                state,
                chosen,
                seq![Action::RouteMonitor] + state.save_actions() + seq![Action::UpdateSidebar],
            )
            &&& keeps_up(
                state,
                switched,
                seq![Action::ApplyVodMix, Action::ShowVod(enable)] + state.save_actions() + seq![
                    Action::UpdateSidebar,
                ],
            )
        }),
{
    broadcast use vstd::seq_lib::group_seq_properties;

    let master = MasterModel { monitor_device: device, ..state.config.master };
    let chosen = state.with_config(ConfigModel { master, ..state.config }).saving();
    let switched = state.with_config(
        ConfigModel { vod_mix_enabled: enable, ..state.config },
    ).saving();
    lemma_save(state);
    lemma_listed(seq![Action::RouteMonitor]);
    lemma_listed(seq![Action::UpdateSidebar]);
    lemma_listed(seq![Action::ApplyVodMix, Action::ShowVod(enable)]);
    lemma_masters_kept_up(
        state,
        chosen,
        seq![Action::RouteMonitor] + state.save_actions() + seq![Action::UpdateSidebar],
    );
    lemma_masters_kept_up(
        state,
        switched,
        seq![Action::ApplyVodMix, Action::ShowVod(enable)] + state.save_actions() + seq![
            Action::UpdateSidebar,
        ],
    );
}

/// After a channel was removed, its routing is built anew, which takes it down,
/// and the strips are. The other channels stay as they are, and so does all the
/// rest.
pub proof fn law_channel_removed(state: SessionModel, id: u64, other: u64)
    requires
        other != id,
    ensures
        ({
            let after = state.with_config(channels::without_channel(state.config, id)).saving();
            let actions = seq![Action::RebuildChannel(id), Action::RebuildStrips]
                + state.save_actions() + seq![Action::UpdateSidebar];
            &&& keeps_up(state, after, actions)
            &&& after.config == (ConfigModel { channels: after.config.channels, ..state.config })
            &&& after.has_channel(other) == state.has_channel(other)
            &&& state.has_channel(other) ==> after.channel(other) == state.channel(other)
            &&& actions.contains(Action::RebuildChannel(id))
        }),
{
    broadcast use vstd::seq_lib::group_seq_properties;

    let keep = |c: ChannelModel| c.id != id || c.permanent;
    let after = state.with_config(channels::without_channel(state.config, id)).saving();
    let first = seq![Action::RebuildChannel(id), Action::RebuildStrips];
    let last = Action::UpdateSidebar;
    let actions = first + state.save_actions() + seq![last];
    lemma_save(state);
    lemma_listed(first);
    lemma_listed(seq![last]);
    assert forall|k: u64| k != id implies #[trigger] after.has_channel(k) == state.has_channel(k)
        && (state.has_channel(k) ==> after.channel(k) == state.channel(k)) by {
        channels::lemma_filter_found(state.config.channels, keep, k);
    }
    assert(after.has_channel(other) == state.has_channel(other));
    lemma_list_kept_up(id, state, after, actions);
}

/// Where one channel comes or goes, it is enough to build that channel and the
/// strips anew.
proof fn lemma_list_kept_up(
    id: u64,
    before: SessionModel,
    after: SessionModel,
    actions: Seq<Action>,
)
    requires
        after.config.master == before.config.master,
        after.config.vod_mix_enabled == before.config.vod_mix_enabled,
        forall|k: u64|
            k != id ==> #[trigger] after.has_channel(k) == before.has_channel(k) && (
            before.has_channel(k) ==> after.channel(k) == before.channel(k)),
        after.save_pending,
        actions.contains(Action::AwaitSave) == !before.save_pending,
        actions.contains(Action::RebuildChannel(id)),
        actions.contains(Action::RebuildStrips),
        actions.contains(Action::UpdateSidebar),
        forall|k: u64, mix: Mix, volume: Real64|
            !(#[trigger] actions.contains(Action::ShowFader(k, mix, volume))),
    ensures
        keeps_up(before, after, actions),
{
    assert forall|k: u64, mix: Mix| k != id implies #[trigger] heard(after, k, mix) == heard(
        before,
        k,
        mix,
    ) by {
        assert(after.has_channel(k) == before.has_channel(k));
    }
    assert forall|k: u64| k != id implies #[trigger] routed(after, k) == routed(before, k) by {
        assert(after.has_channel(k) == before.has_channel(k));
    }
    assert forall|mix: Mix| #[trigger] mix_heard(after, mix) == mix_heard(before, mix) by {}
}

/// After a channel was added, it is there under the next id, its routing is
/// built, and the strips are built anew. The other channels stay as they are,
/// and so does all the rest.
pub proof fn law_channel_added(state: SessionModel, name: Option<Seq<char>>, other: u64)
    requires
        other != state.config.next_channel_id,
    ensures
        ({
            let id = state.config.next_channel_id;
            let after = state.with_config(channels::with_channel(state.config, name)).saving();
            let actions = seq![Action::RebuildChannel(id), Action::RebuildStrips]
                + state.save_actions() + seq![Action::UpdateSidebar];
            &&& keeps_up(state, after, actions)
            &&& after.has_channel(id)
            &&& after.has_channel(other) == state.has_channel(other)
            &&& state.has_channel(other) ==> after.channel(other) == state.channel(other)
            &&& actions.contains(Action::RebuildChannel(id))
        }),
{
    broadcast use vstd::seq_lib::group_seq_properties;

    let id = state.config.next_channel_id;
    let after = state.with_config(channels::with_channel(state.config, name)).saving();
    let added = after.config.channels.last();
    let first = seq![Action::RebuildChannel(id), Action::RebuildStrips];
    let last = Action::UpdateSidebar;
    let actions = first + state.save_actions() + seq![last];
    lemma_save(state);
    lemma_listed(first);
    lemma_listed(seq![last]);
    channels::law_new_channel(state.config, name);
    assert(after.config.channels =~= state.config.channels.push(added));
    assert forall|k: u64| k != id implies #[trigger] after.has_channel(k) == state.has_channel(k)
        && (state.has_channel(k) ==> after.channel(k) == state.channel(k)) by {
        channels::lemma_push_found(state.config.channels, added, k);
    }
    channels::lemma_push_found(state.config.channels, added, id);
    assert(after.has_channel(other) == state.has_channel(other));
    lemma_list_kept_up(id, state, after, actions);
}

/// After a parameter was changed, it waits to be pushed, the moment after the
/// change is waited for, and the change is saved. The routing stays.
pub proof fn law_control_changed(state: SessionModel, change: PushModel)
    requires
        state.control_epoch < u64::MAX,
    ensures
        ({
            let after = state.controlled(change);
            let actions = state.save_actions().push(
                Action::AwaitControl((state.control_epoch + 1) as u64),
            );
            &&& keeps_up(state, after, actions)
            &&& others_stay(state, after, change.channel)
            &&& after.pending.contains(change)
            &&& after.due((state.control_epoch + 1) as u64) == after.pending
            &&& actions.contains(Action::AwaitControl((state.control_epoch + 1) as u64))
            &&& state.has_channel(change.channel) ==> after.channel(change.channel) == (
            ChannelModel {
                effects: effects::adjusted(
                    state.channel(change.channel).effects,
                    change.effect,
                    change.parameter,
                ),
                ..state.channel(change.channel)
            })
        }),
{
    broadcast use vstd::seq_lib::group_seq_properties;

    let id = change.channel;
    let edit = |c: ChannelModel|
        ChannelModel {
            effects: effects::adjusted(c.effects, change.effect, change.parameter),
            ..c
        };
    let after = state.controlled(change);
    let last = Action::AwaitControl((state.control_epoch + 1) as u64);
    let actions = state.save_actions().push(last);
    lemma_edit_state(state, after, id, edit);
    lemma_save(state);
    assert(actions[actions.len() - 1] == last);
    assert(after.pending[after.pending.len() - 1] == change);
    assert forall|a: Action| #[trigger] actions.contains(a) <==> a == last
        || state.save_actions().contains(a) by {}
    if state.has_channel(id) {
        let c = state.channel(id);
        assert(wiring(after.channel(id).effects) =~= wiring(c.effects));
        lemma_one_kept_up(id, state, after, actions);
    } else {
        assert(after.config.channels == state.config.channels);
        lemma_masters_kept_up(state, after, actions);
    }
}

/// Other startup volumes of the Wave XLR are saved, and so is that the setup
/// assistant was shown.
pub proof fn law_settings_saved(
    state: SessionModel,
    volumes: WaveXlrConfig,
    visible: bool,
    mixer_shown: bool,
    all_ok: bool,
)
    ensures
        keeps_up(
            state,
            state.with_config(ConfigModel { wave_xlr: volumes, ..state.config }).saving(),
            state.save_actions(),
        ),
        keeps_up(
            state,
            state.setup_checked(visible, mixer_shown),
            state.setup_actions(visible, mixer_shown, all_ok),
        ),
{
    broadcast use vstd::seq_lib::group_seq_properties;

    let stored = state.with_config(ConfigModel { wave_xlr: volumes, ..state.config }).saving();
    let checked = state.setup_checked(visible, mixer_shown);
    let actions = state.setup_actions(visible, mixer_shown, all_ok);
    lemma_save(state);
    lemma_masters_kept_up(state, stored, state.save_actions());
    assert forall|a: Action| #[trigger] actions.contains(a) implies a == Action::OpenSetup || a
        == Action::NoticeSetup || state.save_actions().contains(a) by {}
    assert(!state.setup_prompted && visible && mixer_shown && !state.config.setup_done
        && !state.save_pending ==> actions[0] == Action::AwaitSave);
    lemma_masters_kept_up(state, checked, actions);
}

/// The setup check, while the mixer is visible and where nothing was said yet,
/// opens the assistant on the first run and marks it as shown; on later runs it
/// tells exactly where something needs attention. Else nothing happens.
pub proof fn law_setup_check(state: SessionModel, visible: bool, mixer_shown: bool, all_ok: bool)
    ensures
        ({
            let after = state.setup_checked(visible, mixer_shown);
            let actions = state.setup_actions(visible, mixer_shown, all_ok);
            let now = visible && mixer_shown && !state.setup_prompted;
            &&& actions.contains(Action::OpenSetup) == (now && !state.config.setup_done)
            &&& actions.contains(Action::NoticeSetup) == (now && state.config.setup_done
                && !all_ok)
            &&& after.setup_prompted == (state.setup_prompted || now)
            &&& after.config.setup_done == (state.config.setup_done || now)
            &&& after.config == (ConfigModel {
                setup_done: after.config.setup_done,
                ..state.config
            })
        }),
{
    broadcast use vstd::seq_lib::group_seq_properties;

    let actions = state.setup_actions(visible, mixer_shown, all_ok);
    lemma_save(state);
    lemma_listed(seq![Action::NoticeSetup]);
    if visible && mixer_shown && !state.setup_prompted && !state.config.setup_done {
        assert(actions[actions.len() - 1] == Action::OpenSetup);
    }
}

/// A stored volume is enforced for fifteen seconds after the device appeared:
/// in that time every drift is answered with the stored volume, and none
/// afterwards. Without a stored volume, and without a drift, nothing is set.
pub proof fn law_fifteen_seconds(appeared: u64, now: u64, volume: Real64)
    requires
        appeared + 15_000_000_000 <= u64::MAX,
        appeared <= now,
    ensures
        ({
            let hold = held(None, Some(false), appeared);
            &&& hold == Some((appeared + 15_000_000_000) as u64)
            &&& enforced(hold, Some(true), Some(volume), now) == if now - appeared
                <= 15_000_000_000 {
                Some(volume)
            } else {
                None
            }
            &&& enforced(hold, Some(true), None, now) is None
            &&& enforced(hold, Some(false), Some(volume), now) is None
            &&& enforced(hold, None, Some(volume), now) is None
            &&& enforced(None, Some(true), Some(volume), appeared) == Some(volume)
        }),
{
}

} // verus!
