//! The persistent state of the mixer: channels, masters and their settings.

use crate::number::{Real64, ONE_64, THREE_QUARTERS_64};
use crate::text;
use vstd::prelude::*;
use vstd::string::*;

verus! {

pub const MAX_CHANNELS: usize = 8;

/// Default names offered when adding channels via "+".
pub const TEMPLATE_NAMES: [&'static str; 6] = [
    "Game",
    "Music",
    "Voice Chat",
    "Browser",
    "SFX",
    "Aux",
];

/// The name of the built-in channel for the microphone.
pub const MICROPHONE: &'static str = "Microphone";

/// The name of the built-in channel for desktop audio.
pub const SYSTEM: &'static str = "System";

/// The mixes a channel feeds.
#[derive(Clone, Copy, Debug, PartialEq, Eq, Structural)]
pub enum Mix {
    Monitor,
    Stream,
    Vod,
}

/// What feeds an input channel: a capture source (hardware input or a monitor
/// of another device), an application's playback stream matched by its
/// `application.name`, or a standalone virtual device ("OpenWave: <name>")
/// that other software can select as an output.
#[derive(Debug, PartialEq, Eq)]
pub enum Assignment {
    Source { name: String },
    App { name: String },
    Virtual,
}

/// What an [`Assignment`] says.
pub enum AssignmentModel {
    Source { name: Seq<char> },
    App { name: Seq<char> },
    Virtual,
}

impl View for Assignment {
    type V = AssignmentModel;

    open spec fn view(&self) -> AssignmentModel {
        match self {
            Assignment::Source { name } => AssignmentModel::Source { name: name@ },
            Assignment::App { name } => AssignmentModel::App { name: name@ },
            Assignment::Virtual => AssignmentModel::Virtual,
        }
    }
}

/// What an optional [`Assignment`] says.
pub open spec fn assigned(a: Option<Assignment>) -> Option<AssignmentModel> {
    match a {
        Some(a) => Some(a@),
        None => None,
    }
}

impl Assignment {
    /// Another assignment that says the same.
    pub fn duplicate(&self) -> (out: Assignment)
        ensures
            out@ == self@,
    {
        match self {
            Assignment::Source { name } => Assignment::Source { name: name.clone() },
            Assignment::App { name } => Assignment::App { name: name.clone() },
            Assignment::Virtual => Assignment::Virtual,
        }
    }

    /// Whether two assignments say the same.
    pub fn same(&self, other: &Assignment) -> (yes: bool)
        ensures
            yes == (self@ == other@),
    {
        match (self, other) {
            (Assignment::Source { name: a }, Assignment::Source { name: b }) => *a == *b,
            (Assignment::App { name: a }, Assignment::App { name: b }) => *a == *b,
            (Assignment::Virtual, Assignment::Virtual) => true,
            _ => false,
        }
    }
}

impl Clone for Assignment {
    fn clone(&self) -> (out: Assignment)
        ensures
            out@ == self@,
    {
        self.duplicate()
    }
}

/// Whether two optional assignments say the same.
pub fn same_assignment(a: &Option<Assignment>, b: &Option<Assignment>) -> (yes: bool)
    ensures
        yes == (assigned(*a) == assigned(*b)),
{
    match (a, b) {
        (Some(a), Some(b)) => a.same(b),
        (None, None) => true,
        _ => false,
    }
}

/// The value of a plugin parameter: the number, and how it is written in
/// commands and configurations.
#[derive(Clone, Debug, PartialEq, Eq)]
pub struct Parameter {
    pub symbol: String,
    pub value: Real64,
    /// The number with six decimals.
    pub text: String,
}

/// What a [`Parameter`] says.
pub struct ParameterModel {
    pub symbol: Seq<char>,
    pub value: Real64,
    pub text: Seq<char>,
}

impl View for Parameter {
    type V = ParameterModel;

    open spec fn view(&self) -> ParameterModel {
        ParameterModel { symbol: self.symbol@, value: self.value, text: self.text@ }
    }
}

/// One LV2 plugin in the chain of a channel.
#[derive(Clone, Debug, PartialEq, Eq)]
pub struct EffectConfig {
    /// Identifier within the channel.
    pub id: u64,
    pub uri: String,
    pub name: String,
    pub enabled: bool,
    /// Parameters that were set, by symbol.
    pub controls: Vec<Parameter>,
}

/// What an [`EffectConfig`] says.
#[verifier::ext_equal]
pub struct EffectModel {
    pub id: u64,
    pub uri: Seq<char>,
    pub name: Seq<char>,
    pub enabled: bool,
    pub controls: Seq<ParameterModel>,
}

impl View for EffectConfig {
    type V = EffectModel;

    open spec fn view(&self) -> EffectModel {
        EffectModel {
            id: self.id,
            uri: self.uri@,
            name: self.name@,
            enabled: self.enabled,
            controls: self.controls@.map_values(|p: Parameter| p@),
        }
    }
}

/// One plugin of the VST rack of a channel.
#[derive(Clone, Copy, Debug, PartialEq, Eq, Structural)]
pub struct VstPlugin {
    pub enabled: bool,
}

/// One input channel.
#[derive(Clone, Debug, PartialEq, Eq)]
pub struct ChannelConfig {
    /// Stable identifier; never reused, survives reordering and removal.
    pub id: u64,
    pub name: String,
    pub assignment: Option<Assignment>,
    pub monitor_volume: Real64,
    pub stream_volume: Real64,
    pub vod_volume: Real64,
    pub monitor_muted: bool,
    pub stream_muted: bool,
    pub vod_muted: bool,
    pub linked: bool,
    /// Built-in channels (Microphone, System) that cannot be removed.
    pub permanent: bool,
    /// LV2 chain, in processing order.
    pub effects: Vec<EffectConfig>,
    /// Whether the channel runs through a VST rack in front of the chain.
    pub vst_rack: bool,
    pub vst_plugins: Vec<VstPlugin>,
}

/// What a [`ChannelConfig`] says.
#[verifier::ext_equal]
pub struct ChannelModel {
    pub id: u64,
    pub name: Seq<char>,
    pub assignment: Option<AssignmentModel>,
    pub monitor_volume: Real64,
    pub stream_volume: Real64,
    pub vod_volume: Real64,
    pub monitor_muted: bool,
    pub stream_muted: bool,
    pub vod_muted: bool,
    pub linked: bool,
    pub permanent: bool,
    pub effects: Seq<EffectModel>,
    pub vst_rack: bool,
    pub vst_plugins: Seq<VstPlugin>,
}

impl View for ChannelConfig {
    type V = ChannelModel;

    open spec fn view(&self) -> ChannelModel {
        ChannelModel {
            id: self.id,
            name: self.name@,
            assignment: assigned(self.assignment),
            monitor_volume: self.monitor_volume,
            stream_volume: self.stream_volume,
            vod_volume: self.vod_volume,
            monitor_muted: self.monitor_muted,
            stream_muted: self.stream_muted,
            vod_muted: self.vod_muted,
            linked: self.linked,
            permanent: self.permanent,
            effects: self.effects@.map_values(|e: EffectConfig| e@),
            vst_rack: self.vst_rack,
            vst_plugins: self.vst_plugins@,
        }
    }
}

/// The master section.
#[derive(Clone, Debug, PartialEq, Eq)]
pub struct MasterConfig {
    /// Hardware sink the monitor mix is routed to; `None` = system default.
    pub monitor_device: Option<String>,
    pub monitor_volume: Real64,
    pub stream_volume: Real64,
    pub vod_volume: Real64,
    pub monitor_muted: bool,
    pub stream_muted: bool,
    pub vod_muted: bool,
}

/// What a [`MasterConfig`] says.
pub struct MasterModel {
    pub monitor_device: Option<Seq<char>>,
    pub monitor_volume: Real64,
    pub stream_volume: Real64,
    pub vod_volume: Real64,
    pub monitor_muted: bool,
    pub stream_muted: bool,
    pub vod_muted: bool,
}

/// What an optional string holds.
pub open spec fn optional_text(s: Option<String>) -> Option<Seq<char>> {
    match s {
        Some(s) => Some(s@),
        None => None,
    }
}

impl View for MasterConfig {
    type V = MasterModel;

    open spec fn view(&self) -> MasterModel {
        MasterModel {
            monitor_device: optional_text(self.monitor_device),
            monitor_volume: self.monitor_volume,
            stream_volume: self.stream_volume,
            vod_volume: self.vod_volume,
            monitor_muted: self.monitor_muted,
            stream_muted: self.stream_muted,
            vod_muted: self.vod_muted,
        }
    }
}

/// Startup volumes of a Wave XLR, in percent; `None` = leave the device alone.
#[derive(Clone, Copy, Debug, PartialEq, Eq)]
pub struct WaveXlrConfig {
    pub mic_volume: Option<Real64>,
    pub output_volume: Option<Real64>,
}

/// Everything that is saved.
#[derive(Clone, Debug, PartialEq, Eq)]
pub struct Config {
    pub next_channel_id: u64,
    pub channels: Vec<ChannelConfig>,
    pub master: MasterConfig,
    pub vod_mix_enabled: bool,
    /// The setup assistant was shown.
    pub setup_done: bool,
    pub wave_xlr: WaveXlrConfig,
}

/// What a [`Config`] says.
#[verifier::ext_equal]
pub struct ConfigModel {
    pub next_channel_id: u64,
    pub channels: Seq<ChannelModel>,
    pub master: MasterModel,
    pub vod_mix_enabled: bool,
    pub setup_done: bool,
    pub wave_xlr: WaveXlrConfig,
}

/// What some channels say.
pub open spec fn models(channels: Seq<ChannelConfig>) -> Seq<ChannelModel> {
    channels.map_values(|c: ChannelConfig| c@)
}

impl View for Config {
    type V = ConfigModel;

    open spec fn view(&self) -> ConfigModel {
        ConfigModel {
            next_channel_id: self.next_channel_id,
            channels: models(self.channels@),
            master: self.master@,
            vod_mix_enabled: self.vod_mix_enabled,
            setup_done: self.setup_done,
            wave_xlr: self.wave_xlr,
        }
    }
}

// ---- Lookup ------------------------------------------------------------------

/// Whether the channel at `i` is the first with an id.
pub open spec fn first_with(channels: Seq<ChannelModel>, id: u64, i: int) -> bool {
    &&& 0 <= i < channels.len()
    &&& channels[i].id == id
    &&& forall|j: int| 0 <= j < i ==> (#[trigger] channels[j]).id != id
}

/// Whether there is a channel with an id.
pub open spec fn has_channel(channels: Seq<ChannelModel>, id: u64) -> bool {
    exists|i: int| 0 <= i < channels.len() && (#[trigger] channels[i]).id == id
}

impl Config {
    /// The place of the first channel with an id.
    fn position(&self, id: u64) -> (at: Option<usize>)
        ensures
            match at {
                Some(i) => first_with(self@.channels, id, i as int),
                None => !has_channel(self@.channels, id),
            },
    {
        let mut i: usize = 0;
        while i < self.channels.len()
            invariant
                i <= self.channels@.len(),
                forall|j: int| 0 <= j < i ==> (#[trigger] self@.channels[j]).id != id,
            decreases self.channels@.len() - i,
        {
            assert(self@.channels[i as int] == self.channels@[i as int]@);
            if self.channels[i].id == id {
                return Some(i);
            }
            i += 1;
        }
        None
    }

    /// The first channel with an id.
    pub fn channel(&self, id: u64) -> (found: Option<&ChannelConfig>)
        ensures
            match found {
                Some(ch) => exists|i: int|
                    #[trigger] first_with(self@.channels, id, i) && ch@ == self@.channels[i],
                None => !has_channel(self@.channels, id),
            },
    {
        match self.position(id) {
            Some(i) => Some(&self.channels[i]),
            None => None,
        }
    }

    /// The first channel with an id, to be changed. Everything else stays.
    pub fn channel_mut(&mut self, id: u64) -> (found: Option<&mut ChannelConfig>)
        ensures
            match found {
                Some(ch) => exists|i: int|
                    #[trigger] first_with(old(self)@.channels, id, i) && *ch == old(self).channels@[i]
                        && final(self)@ == (ConfigModel {
                        channels: old(self)@.channels.update(i, (*final(ch))@),
                        ..old(self)@
                    }),
                None => !has_channel(old(self)@.channels, id) && *final(self) == *old(self),
            },
    {
        match self.position(id) {
            Some(i) => Some(&mut self.channels[i]),
            None => None,
        }
    }
}

// ---- Defaults ----------------------------------------------------------------

/// A channel as it is before anything is set.
pub open spec fn default_channel() -> ChannelModel {
    let fader = Real64 { bits: THREE_QUARTERS_64 };
    ChannelModel {
        id: 0,
        name: Seq::empty(),
        assignment: None,
        monitor_volume: fader,
        stream_volume: fader,
        vod_volume: fader,
        monitor_muted: false,
        stream_muted: false,
        vod_muted: false,
        linked: false,
        permanent: false,
        effects: Seq::empty(),
        vst_rack: false,
        vst_plugins: Seq::empty(),
    }
}

/// The master section as it is before anything is set.
pub open spec fn default_master() -> MasterModel {
    let full = Real64 { bits: ONE_64 };
    MasterModel {
        monitor_device: None,
        monitor_volume: full,
        stream_volume: full,
        vod_volume: full,
        monitor_muted: false,
        stream_muted: false,
        vod_muted: false,
    }
}

/// A fresh configuration: the two built-in channels.
pub open spec fn default_config() -> ConfigModel {
    ConfigModel {
        next_channel_id: 3,
        channels: seq![
            ChannelModel { id: 1, name: MICROPHONE@, permanent: true, ..default_channel() },
            ChannelModel {
                id: 2,
                name: SYSTEM@,
                assignment: Some(AssignmentModel::Virtual),
                permanent: true,
                ..default_channel()
            },
        ],
        master: default_master(),
        vod_mix_enabled: false,
        setup_done: false,
        wave_xlr: WaveXlrConfig { mic_volume: None, output_volume: None },
    }
}

impl Default for ChannelConfig {
    fn default() -> (out: ChannelConfig)
        ensures
            out@ == default_channel(),
    {
        let fader = Real64 { bits: THREE_QUARTERS_64 };
        let out = ChannelConfig {
            id: 0,
            name: String::new(),
            assignment: None,
            monitor_volume: fader,
            stream_volume: fader,
            vod_volume: fader,
            monitor_muted: false,
            stream_muted: false,
            vod_muted: false,
            linked: false,
            permanent: false,
            effects: Vec::new(),
            vst_rack: false,
            vst_plugins: Vec::new(),
        };
        assert(out@ =~= default_channel());
        out
    }
}

impl Default for MasterConfig {
    fn default() -> (out: MasterConfig)
        ensures
            out@ == default_master(),
    {
        let full = Real64 { bits: ONE_64 };
        MasterConfig {
            monitor_device: None,
            monitor_volume: full,
            stream_volume: full,
            vod_volume: full,
            monitor_muted: false,
            stream_muted: false,
            vod_muted: false,
        }
    }
}

impl Default for Config {
    fn default() -> (out: Config)
        ensures
            out@ == default_config(),
    {
        let mut mic = ChannelConfig::default();
        mic.id = 1;
        mic.name = MICROPHONE.to_owned();
        mic.permanent = true;
        let mut system = ChannelConfig::default();
        system.id = 2;
        system.name = SYSTEM.to_owned();
        system.assignment = Some(Assignment::Virtual);
        system.permanent = true;
        let mut channels: Vec<ChannelConfig> = Vec::new();
        channels.push(mic);
        channels.push(system);
        let out = Config {
            next_channel_id: 3,
            channels,
            master: MasterConfig::default(),
            vod_mix_enabled: false,
            setup_done: false,
            wave_xlr: WaveXlrConfig { mic_volume: None, output_volume: None },
        };
        assert(out@ =~= default_config());
        out
    }
}

// ---- Names ---------------------------------------------------------------------

/// Whether a name is that of a built-in channel.
pub open spec fn built_in(name: Seq<char>) -> bool {
    name == MICROPHONE@ || name == SYSTEM@
}

/// Whether a name is that of a built-in channel.
pub fn is_built_in(name: &str) -> (yes: bool)
    ensures
        yes == built_in(name@),
{
    text::same_text(name, MICROPHONE) || text::same_text(name, SYSTEM)
}

/// What a channel without a usable name is called.
pub open spec fn numbered_name(id: nat) -> Seq<char> {
    "Channel "@ + text::decimal(id)
}

/// What a channel without a usable name is called.
pub fn make_numbered_name(id: u64) -> (out: String)
    ensures
        out@ == numbered_name(id as nat),
{
    text::numbered("Channel ", id)
}

// ---- Laws ------------------------------------------------------------------------

/// A channel as it is before anything is set is audible in every mix, with its
/// faders at three quarters, and has no input and no effects. The masters are
/// fully open.
pub proof fn law_defaults_audible(c: ChannelModel, m: MasterModel)
    requires
        c == default_channel(),
        m == default_master(),
    ensures
        !c.monitor_muted && !c.stream_muted && !c.vod_muted && !c.linked && !c.permanent,
        c.monitor_volume.bits == 0x3fe8_0000_0000_0000,
        c.stream_volume.bits == 0x3fe8_0000_0000_0000,
        c.vod_volume.bits == 0x3fe8_0000_0000_0000,
        c.assignment is None && c.effects.len() == 0 && !c.vst_rack && c.vst_plugins.len() == 0,
        !m.monitor_muted && !m.stream_muted && !m.vod_muted && m.monitor_device is None,
        m.monitor_volume.bits == 0x3ff0_0000_0000_0000,
        m.stream_volume.bits == 0x3ff0_0000_0000_0000,
        m.vod_volume.bits == 0x3ff0_0000_0000_0000,
{
}

/// A fresh configuration has the two built-in channels, which are permanent:
/// the microphone, without an input, and the system, a virtual device. All else
/// of them is as it is before anything is set.
pub proof fn law_fresh_channels(i: int)
    requires
        0 <= i < default_config().channels.len(),
    ensures
        default_config().channels.len() == 2,
        ({
            let c = default_config().channels[i];
            &&& c == (ChannelModel {
                id: c.id,
                name: c.name,
                assignment: c.assignment,
                permanent: c.permanent,
                ..default_channel()
            })
            &&& c.permanent
            &&& c.id == i + 1
            &&& i == 0 ==> c.name == "Microphone"@ && c.assignment is None
            &&& i == 1 ==> c.name == "System"@ && c.assignment == Some(AssignmentModel::Virtual)
            &&& c.id < default_config().next_channel_id
        }),
        default_config().next_channel_id == 3,
        default_config().master == default_master(),
        !default_config().vod_mix_enabled,
        !default_config().setup_done,
        default_config().wave_xlr.mic_volume is None,
        default_config().wave_xlr.output_volume is None,
{
}

/// The built-in channels are the microphone and the system.
pub proof fn law_built_in(name: Seq<char>)
    ensures
        built_in(name) <==> name == "Microphone"@ || name == "System"@,
{
}

} // verus!
