//! Adding, removing and changing channels.

use crate::config::{
    Assignment, AssignmentModel, ChannelConfig, ChannelModel, Config, ConfigModel, MasterModel, Mix,
    MAX_CHANNELS, TEMPLATE_NAMES,
};
use crate::number::Real64;
use crate::{config, lists, loading, text};
use vstd::prelude::*;
use vstd::string::*;

verus! {

// ---- Adding and removing ------------------------------------------------------

/// The template names.
pub open spec fn template_texts() -> Seq<Seq<char>> {
    Seq::new(6, |i: int| TEMPLATE_NAMES[i]@)
}

/// Whether a channel has a name.
pub open spec fn name_used(channels: Seq<ChannelModel>, name: Seq<char>) -> bool {
    exists|i: int| 0 <= i < channels.len() && (#[trigger] channels[i]).name == name
}

/// The template names that no channel has, in their order.
pub open spec fn unused_names(channels: Seq<ChannelModel>) -> Seq<Seq<char>> {
    template_texts().filter(|t: Seq<char>| !name_used(channels, t))
}

/// What a new channel is called: as asked for, else by the first unused
/// template name, else by its number.
pub open spec fn new_name(cfg: ConfigModel, name: Option<Seq<char>>) -> Seq<char> {
    match name {
        Some(name) => name,
        None => if unused_names(cfg.channels).len() > 0 {
            unused_names(cfg.channels)[0]
        } else {
            config::numbered_name(cfg.next_channel_id as nat)
        },
    }
}

/// A configuration with one more channel, a virtual device.
pub open spec fn with_channel(cfg: ConfigModel, name: Option<Seq<char>>) -> ConfigModel {
    ConfigModel {
        next_channel_id: (cfg.next_channel_id + 1) as u64,
        channels: cfg.channels.push(
            ChannelModel {
                id: cfg.next_channel_id,
                name: new_name(cfg, name),
                assignment: Some(AssignmentModel::Virtual),
                ..config::default_channel()
            },
        ),
        ..cfg
    }
}

/// A configuration without the channels of an id, unless they are permanent.
pub open spec fn without_channel(cfg: ConfigModel, id: u64) -> ConfigModel {
    ConfigModel {
        channels: cfg.channels.filter(|c: ChannelModel| c.id != id || c.permanent),
        ..cfg
    }
}

/// What an optional text holds.
pub open spec fn optional_str(s: Option<&str>) -> Option<Seq<char>> {
    match s {
        Some(s) => Some(s@),
        None => None,
    }
}

impl Config {
    fn uses_name(&self, name: &str) -> (yes: bool)
        ensures
            yes == name_used(self@.channels, name@),
    {
        let mut i: usize = 0;
        while i < self.channels.len()
            invariant
                i <= self.channels@.len(),
                forall|j: int| 0 <= j < i ==> (#[trigger] self@.channels[j]).name != name@,
            decreases self.channels@.len() - i,
        {
            assert(self@.channels[i as int] == self.channels@[i as int]@);
            if text::same_text(self.channels[i].name.as_str(), name) {
                return true;
            }
            i += 1;
        }
        false
    }

    /// Template names not yet used by an existing channel.
    pub fn unused_template_names(&self) -> (out: Vec<&'static str>)
        ensures
            out@.map_values(|s: &'static str| s@) == unused_names(self@.channels),
    {
        let names = TEMPLATE_NAMES;
        let ghost all = template_texts();
        let ghost keep = |t: Seq<char>| !name_used(self@.channels, t);
        let mut out: Vec<&'static str> = Vec::new();
        let mut i: usize = 0;
        proof {
            lists::lemma_pick_none(all, keep, |t: Seq<char>| t);
            assert(out@.map_values(|s: &'static str| s@) =~= Seq::empty());
        }
        while i < 6
            invariant
                i <= 6,
                names@ == TEMPLATE_NAMES@,
                all == template_texts(),
                keep == (|t: Seq<char>| !name_used(self@.channels, t)),
                out@.map_values(|s: &'static str| s@) == all.take(i as int).filter(keep),
            decreases 6 - i,
        {
            let ghost before = out@;
            let name = names[i];
            proof {
                assert(all[i as int] == name@);
                assert(all.take(i + 1) =~= all.take(i as int).push(all[i as int]));
                lists::lemma_filter_push(all.take(i as int), all[i as int], keep);
            }
            if !self.uses_name(name) {
                out.push(name);
                assert(out@.map_values(|s: &'static str| s@) =~= before.map_values(
                    |s: &'static str| s@,
                ).push(name@));
            }
            i += 1;
        }
        assert(all.take(6) =~= all);
        out
    }

    /// Whether the channel limit leaves room for another channel.
    pub fn can_add_channel(&self) -> (yes: bool)
        ensures
            yes == (self@.channels.len() < MAX_CHANNELS),
    {
        self.channels.len() < MAX_CHANNELS
    }

    /// Add a channel (as a virtual device by default). Returns its id, or
    /// `None` when the channel limit is reached.
    pub fn add_channel(&mut self, name: Option<&str>) -> (id: Option<u64>)
        requires
            old(self)@.channels.len() < MAX_CHANNELS ==> old(self)@.next_channel_id < u64::MAX,
        ensures
            match id {
                Some(id) => {
                    &&& old(self)@.channels.len() < MAX_CHANNELS
                    &&& id == old(self)@.next_channel_id
                    &&& final(self)@ == with_channel(old(self)@, optional_str(name))
                },
                None => old(self)@.channels.len() >= MAX_CHANNELS && *final(self) == *old(self),
            },
    {
        if self.channels.len() >= MAX_CHANNELS {
            return None;
        }
        let ghost before = self@;
        let id: u64 = self.next_channel_id;
        let label = match name {
            Some(name) => name.to_owned(),
            None => {
                let unused = self.unused_template_names();
                if unused.len() > 0 {
                    assert(unused@.map_values(|s: &'static str| s@)[0] == unused@[0]@);
                    unused[0].to_owned()
                } else {
                    config::make_numbered_name(id)
                }
            },
        };
        let mut channel = ChannelConfig::default();
        channel.id = id;
        channel.name = label;
        channel.assignment = Some(Assignment::Virtual);
        self.next_channel_id = id + 1;
        self.channels.push(channel);
        assert(self@.channels =~= with_channel(before, optional_str(name)).channels);
        Some(id)
    }

    /// Removes a channel, unless it is permanent.
    pub fn remove_channel(&mut self, id: u64)
        ensures
            final(self)@ == without_channel(old(self)@, id),
    {
        let ghost all = self.channels@;
        let test = |c: &ChannelConfig| -> (yes: bool)
            ensures
                yes == (c@.id != id || c@.permanent),
        {
            c.id != id || c.permanent
        };
        lists::retain(
            &mut self.channels,
            test,
            Ghost(|c: ChannelModel| c.id != id || c.permanent),
        );
        assert(lists::views(all) =~= config::models(all));
        assert(lists::views(self.channels@) =~= config::models(self.channels@));
    }
}

// ---- Changing one channel --------------------------------------------------------

/// A list with the first channel of an id changed.
pub open spec fn edited(
    channels: Seq<ChannelModel>,
    id: u64,
    change: spec_fn(ChannelModel) -> ChannelModel,
) -> Seq<ChannelModel> {
    Seq::new(
        channels.len(),
        |i: int|
            if config::first_with(channels, id, i) {
                change(channels[i])
            } else {
                channels[i]
            },
    )
}

/// A configuration with the first channel of an id changed.
pub open spec fn with_edit(
    cfg: ConfigModel,
    id: u64,
    change: spec_fn(ChannelModel) -> ChannelModel,
) -> ConfigModel {
    ConfigModel { channels: edited(cfg.channels, id, change), ..cfg }
}

/// Changing the channel at its place is changing it by its id.
pub proof fn lemma_edit_at(
    channels: Seq<ChannelModel>,
    id: u64,
    i: int,
    change: spec_fn(ChannelModel) -> ChannelModel,
)
    requires
        config::first_with(channels, id, i),
    ensures
        edited(channels, id, change) == channels.update(i, change(channels[i])),
{
    assert forall|j: int| 0 <= j < channels.len() && j != i implies !config::first_with(
        channels,
        id,
        j,
    ) by {
        if j < i {
            assert(channels[j].id != id);
        } else {
            assert(channels[i].id == id);
        }
    }
    assert(edited(channels, id, change) =~= channels.update(i, change(channels[i])));
}

/// Changing a channel that does not exist changes nothing.
pub proof fn lemma_edit_nothing(
    channels: Seq<ChannelModel>,
    id: u64,
    change: spec_fn(ChannelModel) -> ChannelModel,
)
    requires
        !config::has_channel(channels, id),
    ensures
        edited(channels, id, change) == channels,
{
    assert(edited(channels, id, change) =~= channels);
}

/// Changing a channel by its id, from what is known of its place.
pub proof fn lemma_edit(
    channels: Seq<ChannelModel>,
    id: u64,
    change: spec_fn(ChannelModel) -> ChannelModel,
)
    ensures
        forall|i: int|
            #[trigger] config::first_with(channels, id, i) ==> edited(channels, id, change)
                == channels.update(i, change(channels[i])),
        !config::has_channel(channels, id) ==> edited(channels, id, change) == channels,
{
    assert forall|i: int| #[trigger] config::first_with(channels, id, i) implies edited(
        channels,
        id,
        change,
    ) == channels.update(i, change(channels[i])) by {
        lemma_edit_at(channels, id, i, change);
    }
    if !config::has_channel(channels, id) {
        lemma_edit_nothing(channels, id, change);
    }
}

/// There is a first channel of an id where there is any.
pub proof fn lemma_has_first(channels: Seq<ChannelModel>, id: u64)
    requires
        config::has_channel(channels, id),
    ensures
        exists|i: int| config::first_with(channels, id, i),
        config::first_with(channels, id, choose|i: int| config::first_with(channels, id, i)),
    decreases channels.len(),
{
    let rest = channels.drop_last();
    if config::has_channel(rest, id) {
        lemma_has_first(rest, id);
        let i = choose|i: int| config::first_with(rest, id, i);
        assert forall|j: int| 0 <= j < i implies (#[trigger] channels[j]).id != id by {
            assert(channels[j] == rest[j]);
        }
        assert(config::first_with(channels, id, i));
    } else {
        assert forall|j: int| 0 <= j < channels.len() - 1 implies (#[trigger] channels[j]).id
            != id by {
            assert(channels[j] == rest[j]);
        }
        assert(config::first_with(channels, id, channels.len() - 1));
    }
}

/// A change that gives back the channel as it is changes nothing.
pub proof fn lemma_edit_same(
    channels: Seq<ChannelModel>,
    id: u64,
    change: spec_fn(ChannelModel) -> ChannelModel,
)
    ensures
        !config::has_channel(channels, id) || change(channel_of(channels, id)) == channel_of(
            channels,
            id,
        ) ==> edited(channels, id, change) == channels,
{
    lemma_edit(channels, id, change);
    lemma_channel_of(channels, id);
    if config::has_channel(channels, id) {
        lemma_has_first(channels, id);
        let i = choose|i: int| config::first_with(channels, id, i);
        if change(channels[i]) == channels[i] {
            assert(channels.update(i, channels[i]) =~= channels);
        }
    }
}

/// A change that keeps the id keeps the channel to be found.
pub proof fn lemma_edit_keeps(
    channels: Seq<ChannelModel>,
    id: u64,
    change: spec_fn(ChannelModel) -> ChannelModel,
)
    requires
        forall|c: ChannelModel| (#[trigger] change(c)).id == c.id,
    ensures
        config::has_channel(edited(channels, id, change), id) == config::has_channel(
            channels,
            id,
        ),
{
    let out = edited(channels, id, change);
    if config::has_channel(channels, id) {
        let i = choose|i: int| 0 <= i < channels.len() && (#[trigger] channels[i]).id == id;
        assert(out[i].id == id);
    }
    if config::has_channel(out, id) {
        let i = choose|i: int| 0 <= i < out.len() && (#[trigger] out[i]).id == id;
        assert(channels[i].id == id);
    }
}

/// What a channel is after a change that keeps its id.
pub proof fn lemma_edit_channel(
    channels: Seq<ChannelModel>,
    id: u64,
    change: spec_fn(ChannelModel) -> ChannelModel,
)
    requires
        config::has_channel(channels, id),
        forall|c: ChannelModel| (#[trigger] change(c)).id == c.id,
    ensures
        config::has_channel(edited(channels, id, change), id),
        channel_of(edited(channels, id, change), id) == change(channel_of(channels, id)),
{
    lemma_has_first(channels, id);
    let i = choose|i: int| config::first_with(channels, id, i);
    lemma_edit_at(channels, id, i, change);
    let out = edited(channels, id, change);
    assert forall|j: int| 0 <= j < i implies (#[trigger] out[j]).id != id by {
        assert(out[j] == channels[j]);
    }
    assert(config::first_with(out, id, i));
    lemma_channel_of(out, id);
    lemma_channel_of(channels, id);
}

/// A channel with another volume in a mix.
pub open spec fn with_volume(c: ChannelModel, mix: Mix, volume: Real64) -> ChannelModel {
    match mix {
        Mix::Monitor => ChannelModel { monitor_volume: volume, ..c },
        Mix::Stream => ChannelModel { stream_volume: volume, ..c },
        Mix::Vod => ChannelModel { vod_volume: volume, ..c },
    }
}

/// A channel after one of its faders was moved: the other faders follow if
/// they are linked.
pub open spec fn with_fader(c: ChannelModel, mix: Mix, volume: Real64) -> ChannelModel {
    if c.linked {
        ChannelModel { monitor_volume: volume, stream_volume: volume, vod_volume: volume, ..c }
    } else {
        with_volume(c, mix, volume)
    }
}

/// A channel after its faders were linked, or not: linked faders take up the
/// volume in the monitor mix.
pub open spec fn with_link(c: ChannelModel, linked: bool) -> ChannelModel {
    if linked {
        ChannelModel {
            linked,
            stream_volume: c.monitor_volume,
            vod_volume: c.monitor_volume,
            ..c
        }
    } else {
        ChannelModel { linked, ..c }
    }
}

/// Whether the faders of a channel stand alike, where they are linked.
pub open spec fn in_step(c: ChannelModel) -> bool {
    c.linked ==> c.stream_volume == c.monitor_volume && c.vod_volume == c.monitor_volume
}

/// A channel muted in a mix, or not.
pub open spec fn with_muted(c: ChannelModel, mix: Mix, muted: bool) -> ChannelModel {
    match mix {
        Mix::Monitor => ChannelModel { monitor_muted: muted, ..c },
        Mix::Stream => ChannelModel { stream_muted: muted, ..c },
        Mix::Vod => ChannelModel { vod_muted: muted, ..c },
    }
}

/// A configuration with another master volume of a mix.
pub open spec fn with_master_volume(cfg: ConfigModel, mix: Mix, volume: Real64) -> ConfigModel {
    ConfigModel {
        master: match mix {
            Mix::Monitor => MasterModel { monitor_volume: volume, ..cfg.master },
            Mix::Stream => MasterModel { stream_volume: volume, ..cfg.master },
            Mix::Vod => MasterModel { vod_volume: volume, ..cfg.master },
        },
        ..cfg
    }
}

/// A configuration with a mix muted, or not.
pub open spec fn with_master_muted(cfg: ConfigModel, mix: Mix, muted: bool) -> ConfigModel {
    ConfigModel {
        master: match mix {
            Mix::Monitor => MasterModel { monitor_muted: muted, ..cfg.master },
            Mix::Stream => MasterModel { stream_muted: muted, ..cfg.master },
            Mix::Vod => MasterModel { vod_muted: muted, ..cfg.master },
        },
        ..cfg
    }
}

/// Whether the device of an assignment is named after the channel.
pub open spec fn exposes_device(a: Option<AssignmentModel>) -> bool {
    a matches Some(a) && !(a is Source)
}

/// The first channel of an id.
pub open spec fn channel_of(channels: Seq<ChannelModel>, id: u64) -> ChannelModel {
    channels[choose|i: int| config::first_with(channels, id, i)]
}

/// There is one first channel of an id.
pub proof fn lemma_channel_of(channels: Seq<ChannelModel>, id: u64)
    ensures
        forall|i: int|
            #[trigger] config::first_with(channels, id, i) ==> channel_of(channels, id)
                == channels[i] && config::has_channel(channels, id),
{
    assert forall|i: int| #[trigger] config::first_with(channels, id, i) implies channel_of(
        channels,
        id,
    ) == channels[i] && config::has_channel(channels, id) by {
        let k = choose|k: int| config::first_with(channels, id, k);
        assert(config::first_with(channels, id, k));
        assert(channels[i].id == id && channels[k].id == id);
    }
}

impl Config {
    /// Renames a channel. Returns whether there is one.
    pub fn rename_channel(&mut self, id: u64, name: String) -> (found: bool)
        ensures
            found == config::has_channel(old(self)@.channels, id),
            final(self)@ == with_edit(old(self)@, id, |c: ChannelModel| ChannelModel { name: name@, ..c }),
    {
        let ghost before = self@;
        let ghost change = |c: ChannelModel| ChannelModel { name: name@, ..c };
        proof {
            lemma_edit(before.channels, id, change);
        }
        match self.channel_mut(id) {
            Some(ch) => {
                ch.name = name;
                true
            },
            None => false,
        }
    }

    /// Mutes a channel in a mix, or not. Returns whether there is one.
    pub fn set_muted(&mut self, id: u64, mix: Mix, muted: bool) -> (found: bool)
        ensures
            found == config::has_channel(old(self)@.channels, id),
            final(self)@ == with_edit(old(self)@, id, |c: ChannelModel| with_muted(c, mix, muted)),
    {
        let ghost before = self@;
        let ghost change = |c: ChannelModel| with_muted(c, mix, muted);
        proof {
            lemma_edit(before.channels, id, change);
        }
        match self.channel_mut(id) {
            Some(ch) => {
                match mix {
                    Mix::Monitor => ch.monitor_muted = muted,
                    Mix::Stream => ch.stream_muted = muted,
                    Mix::Vod => ch.vod_muted = muted,
                }
                true
            },
            None => false,
        }
    }

    /// Links the faders of a channel, or not. Linked faders take up the volume
    /// in the monitor mix. Returns whether there is such a channel.
    pub fn set_linked(&mut self, id: u64, linked: bool) -> (found: bool)
        ensures
            found == config::has_channel(old(self)@.channels, id),
            final(self)@ == with_edit(old(self)@, id, |c: ChannelModel| with_link(c, linked)),
    {
        let ghost before = self@;
        let ghost change = |c: ChannelModel| with_link(c, linked);
        proof {
            lemma_edit(before.channels, id, change);
        }
        match self.channel_mut(id) {
            Some(ch) => {
                ch.linked = linked;
                if linked {
                    ch.stream_volume = ch.monitor_volume;
                    ch.vod_volume = ch.monitor_volume;
                }
                true
            },
            None => false,
        }
    }

    /// Moves a fader of a channel. Returns whether the faders are linked, so
    /// that the others followed, or `None` if there is no such channel.
    pub fn move_fader(&mut self, id: u64, mix: Mix, volume: Real64) -> (linked: Option<bool>)
        ensures
            linked == if config::has_channel(old(self)@.channels, id) {
                Some(channel_of(old(self)@.channels, id).linked)
            } else {
                None
            },
            final(self)@ == with_edit(
                old(self)@,
                id,
                |c: ChannelModel| with_fader(c, mix, volume),
            ),
    {
        let ghost before = self@;
        let ghost change = |c: ChannelModel| with_fader(c, mix, volume);
        proof {
            lemma_edit(before.channels, id, change);
            lemma_channel_of(before.channels, id);
        }
        match self.channel_mut(id) {
            Some(ch) => {
                if ch.linked || matches!(mix, Mix::Monitor) {
                    ch.monitor_volume = volume;
                }
                if ch.linked || matches!(mix, Mix::Stream) {
                    ch.stream_volume = volume;
                }
                if ch.linked || matches!(mix, Mix::Vod) {
                    ch.vod_volume = volume;
                }
                Some(ch.linked)
            },
            None => None,
        }
    }

    /// Assigns an input to a channel. Returns whether that changed anything.
    pub fn set_assignment(&mut self, id: u64, assignment: Option<Assignment>) -> (changed: bool)
        ensures
            changed == (config::has_channel(old(self)@.channels, id) && channel_of(
                old(self)@.channels,
                id,
            ).assignment != config::assigned(assignment)),
            final(self)@ == with_edit(
                old(self)@,
                id,
                |c: ChannelModel|
                    ChannelModel { assignment: config::assigned(assignment), ..c },
            ),
    {
        let ghost before = self@;
        let ghost change = |c: ChannelModel|
            ChannelModel { assignment: config::assigned(assignment), ..c };
        proof {
            lemma_edit(before.channels, id, change);
            lemma_channel_of(before.channels, id);
        }
        match self.channel_mut(id) {
            Some(ch) => {
                let changed = !config::same_assignment(&ch.assignment, &assignment);
                ch.assignment = assignment;
                changed
            },
            None => false,
        }
    }

    /// Turns the VST rack of a channel on or off. Returns whether that changed
    /// anything.
    pub fn set_vst_rack(&mut self, id: u64, on: bool) -> (changed: bool)
        ensures
            changed == (config::has_channel(old(self)@.channels, id) && channel_of(
                old(self)@.channels,
                id,
            ).vst_rack != on),
            final(self)@ == with_edit(
                old(self)@,
                id,
                |c: ChannelModel| ChannelModel { vst_rack: on, ..c },
            ),
    {
        let ghost before = self@;
        let ghost change = |c: ChannelModel| ChannelModel { vst_rack: on, ..c };
        proof {
            lemma_edit(before.channels, id, change);
            lemma_channel_of(before.channels, id);
        }
        match self.channel_mut(id) {
            Some(ch) => {
                let changed = ch.vst_rack != on;
                ch.vst_rack = on;
                changed
            },
            None => false,
        }
    }

    /// Whether a channel exposes a device that is named after it, which has to
    /// be rebuilt when the channel is renamed.
    pub fn needs_sink(&self, id: u64) -> (yes: bool)
        ensures
            yes == (config::has_channel(self@.channels, id) && exposes_device(
                channel_of(self@.channels, id).assignment,
            )),
    {
        proof {
            lemma_channel_of(self@.channels, id);
        }
        match self.channel(id) {
            Some(ch) => matches!(
                ch.assignment,
                Some(Assignment::App { .. }) | Some(Assignment::Virtual)
            ),
            None => false,
        }
    }

    /// The name of a channel, empty if there is none.
    pub fn channel_name(&self, id: u64) -> (name: String)
        ensures
            name@ == if config::has_channel(self@.channels, id) {
                channel_of(self@.channels, id).name
            } else {
                Seq::empty()
            },
    {
        proof {
            lemma_channel_of(self@.channels, id);
        }
        match self.channel(id) {
            Some(ch) => ch.name.clone(),
            None => String::new(),
        }
    }

    // ---- Masters -----------------------------------------------------------------

    /// Routes the monitor mix to a device. Returns whether that changed
    /// anything.
    pub fn set_monitor_device(&mut self, device: Option<String>) -> (changed: bool)
        ensures
            changed == (old(self)@.master.monitor_device != config::optional_text(device)),
            final(self)@ == (ConfigModel {
                master: MasterModel {
                    monitor_device: config::optional_text(device),
                    ..old(self)@.master
                },
                ..old(self)@
            }),
    {
        let changed = match (&self.master.monitor_device, &device) {
            (Some(a), Some(b)) => !(*a == *b),
            (None, None) => false,
            _ => true,
        };
        self.master.monitor_device = device;
        changed
    }

    /// Sets the master volume of a mix.
    pub fn set_master_volume(&mut self, mix: Mix, volume: Real64)
        ensures
            final(self)@ == with_master_volume(old(self)@, mix, volume),
    {
        match mix {
            Mix::Monitor => self.master.monitor_volume = volume,
            Mix::Stream => self.master.stream_volume = volume,
            Mix::Vod => self.master.vod_volume = volume,
        }
    }

    /// Mutes a mix, or not.
    pub fn set_master_muted(&mut self, mix: Mix, muted: bool)
        ensures
            final(self)@ == with_master_muted(old(self)@, mix, muted),
    {
        match mix {
            Mix::Monitor => self.master.monitor_muted = muted,
            Mix::Stream => self.master.stream_muted = muted,
            Mix::Vod => self.master.vod_muted = muted,
        }
    }
}

// ---- Laws ---------------------------------------------------------------------------

/// Adding a channel below the limit keeps the channels in order, and the new
/// channel has an id that no channel had.
pub proof fn law_add_sound(cfg: ConfigModel, name: Option<Seq<char>>)
    requires
        loading::sound(cfg),
        cfg.channels.len() < MAX_CHANNELS,
        cfg.next_channel_id < u64::MAX,
    ensures
        loading::sound(with_channel(cfg, name)),
        !config::has_channel(cfg.channels, cfg.next_channel_id),
        config::has_channel(with_channel(cfg, name).channels, cfg.next_channel_id),
{
    let out = with_channel(cfg, name);
    let n = cfg.channels.len() as int;
    assert(out.channels[n].id == cfg.next_channel_id);
    assert forall|i: int| 0 <= i < n implies #[trigger] out.channels[i] == cfg.channels[i] by {}
}

/// Removing a channel keeps the channels in order, takes away nothing but
/// channels of that id that can be removed, and takes those away.
pub proof fn law_remove_channel(cfg: ConfigModel, id: u64)
    ensures
        loading::sound(cfg) ==> loading::sound(without_channel(cfg, id)),
        forall|c: ChannelModel|
            #[trigger] without_channel(cfg, id).channels.contains(c) <==> cfg.channels.contains(c)
                && (c.id != id || c.permanent),
        without_channel(cfg, id).next_channel_id == cfg.next_channel_id,
{
    broadcast use vstd::seq_lib::group_filter_ensures;

    let keep = |c: ChannelModel| c.id != id || c.permanent;
    let out = without_channel(cfg, id).channels;
    assert forall|c: ChannelModel| #[trigger] out.contains(c) implies cfg.channels.contains(c)
        && keep(c) by {
        cfg.channels.lemma_filter_contains_rev(keep, c);
        let i = choose|i: int| 0 <= i < out.len() && out[i] == c;
        assert(keep(out[i]));
    }
    assert forall|c: ChannelModel| cfg.channels.contains(c) && keep(c) implies
        #[trigger] out.contains(c) by {
        let i = choose|i: int| 0 <= i < cfg.channels.len() && cfg.channels[i] == c;
        assert(cfg.channels.filter(keep).contains(cfg.channels[i]));
    }
    if loading::sound(cfg) {
        lemma_filter_sound(cfg.channels, keep, cfg.next_channel_id);
    }
}

proof fn lemma_filter_sound(
    channels: Seq<ChannelModel>,
    keep: spec_fn(ChannelModel) -> bool,
    next: u64,
)
    requires
        forall|i: int| 0 <= i < channels.len() ==> 0 < (#[trigger] channels[i]).id < next,
        forall|i: int, j: int|
            0 <= i < j < channels.len() ==> (#[trigger] channels[i]).id != (
            #[trigger] channels[j]).id,
    ensures
        channels.filter(keep).len() <= channels.len(),
        forall|i: int|
            0 <= i < channels.filter(keep).len() ==> 0 < (#[trigger] channels.filter(keep)[i]).id
                < next,
        forall|i: int, j: int|
            0 <= i < j < channels.filter(keep).len() ==> (#[trigger] channels.filter(keep)[i]).id
                != (#[trigger] channels.filter(keep)[j]).id,
        forall|c: ChannelModel|
            #[trigger] channels.filter(keep).contains(c) ==> channels.contains(c),
    decreases channels.len(),
{
    reveal(Seq::filter);
    if channels.len() > 0 {
        let rest = channels.drop_last();
        assert forall|i: int| 0 <= i < rest.len() implies 0 < (#[trigger] rest[i]).id < next by {
            assert(rest[i] == channels[i]);
        }
        assert forall|i: int, j: int| 0 <= i < j < rest.len() implies (#[trigger] rest[i]).id != (
        #[trigger] rest[j]).id by {
            assert(rest[i] == channels[i] && rest[j] == channels[j]);
        }
        lemma_filter_sound(rest, keep, next);
        let out = channels.filter(keep);
        let part = rest.filter(keep);
        assert forall|c: ChannelModel| #[trigger] out.contains(c) implies channels.contains(c) by {
            channels.lemma_filter_contains_rev(keep, c);
        }
        if keep(channels.last()) {
            assert forall|i: int, j: int| 0 <= i < j < out.len() implies (#[trigger] out[i]).id != (
            #[trigger] out[j]).id by {
                assert(out[i] == part[i]);
                if j == part.len() {
                    assert(part.contains(part[i]));
                    assert(rest.contains(part[i]));
                    let k = choose|k: int| 0 <= k < rest.len() && rest[k] == part[i];
                    assert(channels[k].id != channels[channels.len() - 1].id);
                } else {
                    assert(out[j] == part[j]);
                }
            }
        }
    }
}

/// A built-in channel survives any removal.
pub proof fn law_permanent_stays(cfg: ConfigModel, id: u64, c: ChannelModel)
    requires
        cfg.channels.contains(c),
        c.permanent,
    ensures
        without_channel(cfg, id).channels.contains(c),
{
    law_remove_channel(cfg, id);
}

/// Removing the channel that was just added gives back the channels as they
/// were.
pub proof fn law_add_then_remove(cfg: ConfigModel, name: Option<Seq<char>>)
    requires
        forall|i: int|
            0 <= i < cfg.channels.len() ==> (#[trigger] cfg.channels[i]).id < cfg.next_channel_id,
    ensures
        without_channel(with_channel(cfg, name), cfg.next_channel_id).channels == cfg.channels,
{
    let id = cfg.next_channel_id;
    let keep = |c: ChannelModel| c.id != id || c.permanent;
    let added = with_channel(cfg, name).channels.last();
    lists::lemma_filter_push(cfg.channels, added, keep);
    lists::lemma_filter_all(cfg.channels, keep);
}

/// The id of a removed channel is not given out again: neither the next
/// channel nor any after it gets an id that a channel had.
pub proof fn law_ids_not_reused(cfg: ConfigModel, id: u64, name: Option<Seq<char>>)
    requires
        loading::sound(cfg),
        config::has_channel(cfg.channels, id),
        cfg.next_channel_id < u64::MAX,
    ensures
        without_channel(cfg, id).next_channel_id > id,
        with_channel(without_channel(cfg, id), name).channels.last().id > id,
        with_channel(without_channel(cfg, id), name).next_channel_id > cfg.next_channel_id,
{
}

/// Changing a channel without touching its id keeps the channels in order.
pub proof fn law_edit_sound(
    cfg: ConfigModel,
    id: u64,
    change: spec_fn(ChannelModel) -> ChannelModel,
)
    requires
        loading::sound(cfg),
        forall|c: ChannelModel| (#[trigger] change(c)).id == c.id,
    ensures
        loading::sound(with_edit(cfg, id, change)),
        forall|k: u64|
            #[trigger] config::has_channel(with_edit(cfg, id, change).channels, k)
                == config::has_channel(cfg.channels, k),
{
    let out = with_edit(cfg, id, change).channels;
    assert forall|i: int| 0 <= i < out.len() implies (#[trigger] out[i]).id
        == cfg.channels[i].id by {}
    assert forall|k: u64| #[trigger] config::has_channel(out, k) == config::has_channel(
        cfg.channels,
        k,
    ) by {
        if config::has_channel(out, k) {
            let i = choose|i: int| 0 <= i < out.len() && (#[trigger] out[i]).id == k;
            assert(cfg.channels[i].id == k);
        }
        if config::has_channel(cfg.channels, k) {
            let i = choose|i: int|
                0 <= i < cfg.channels.len() && (#[trigger] cfg.channels[i]).id == k;
            assert(out[i].id == k);
        }
    }
}

/// Linked faders move together: wherever one of them is moved to, all of them
/// stand afterwards.
pub proof fn law_linked_faders(c: ChannelModel, mix: Mix, volume: Real64)
    requires
        c.linked,
    ensures
        with_fader(c, mix, volume).monitor_volume == volume,
        with_fader(c, mix, volume).stream_volume == volume,
        with_fader(c, mix, volume).vod_volume == volume,
{
}

/// Linking the faders of a channel brings them in step, and nothing that is
/// done with the faders brings linked ones out of step again.
pub proof fn law_faders_in_step(
    c: ChannelModel,
    mix: Mix,
    volume: Real64,
    linked: bool,
    muted: bool,
)
    ensures
        in_step(with_link(c, linked)),
        in_step(c) ==> in_step(with_fader(c, mix, volume)),
        in_step(c) ==> in_step(with_muted(c, mix, muted)),
{
}

/// The mixes are independent as long as the faders are not linked: a change in
/// one mix leaves the volume and the mute switch of the others alone. Muting
/// is independent even then.
pub proof fn law_mixes_independent(c: ChannelModel, mix: Mix, volume: Real64, muted: bool)
    ensures
        !c.linked ==> with_fader(c, mix, volume) == with_volume(c, mix, volume),
        mix != Mix::Monitor ==> with_volume(c, mix, volume).monitor_volume == c.monitor_volume
            && with_muted(c, mix, muted).monitor_muted == c.monitor_muted,
        mix != Mix::Stream ==> with_volume(c, mix, volume).stream_volume == c.stream_volume
            && with_muted(c, mix, muted).stream_muted == c.stream_muted,
        mix != Mix::Vod ==> with_volume(c, mix, volume).vod_volume == c.vod_volume
            && with_muted(c, mix, muted).vod_muted == c.vod_muted,
{
}

/// A mute switch has the value that was asked for, in the mix that was asked
/// for, and nothing else of the channel changes.
pub proof fn law_mute_switch(c: ChannelModel, mix: Mix, muted: bool)
    ensures
        ({
            let out = with_muted(c, mix, muted);
            &&& match mix {
                Mix::Monitor => out == (ChannelModel { monitor_muted: out.monitor_muted, ..c })
                    && out.monitor_muted == muted,
                Mix::Stream => out == (ChannelModel { stream_muted: out.stream_muted, ..c })
                    && out.stream_muted == muted,
                Mix::Vod => out == (ChannelModel { vod_muted: out.vod_muted, ..c })
                    && out.vod_muted == muted,
            }
        }),
{
}

/// A fader stands where it was moved to, in the mix in which it was moved, and
/// moving it changes nothing of the channel but volumes. Faders that are not
/// linked stay where they were.
pub proof fn law_fader_stands(c: ChannelModel, mix: Mix, volume: Real64)
    ensures
        ({
            let out = with_fader(c, mix, volume);
            &&& out == (ChannelModel {
                monitor_volume: out.monitor_volume,
                stream_volume: out.stream_volume,
                vod_volume: out.vod_volume,
                ..c
            })
            &&& match mix {
                Mix::Monitor => out.monitor_volume == volume,
                Mix::Stream => out.stream_volume == volume,
                Mix::Vod => out.vod_volume == volume,
            }
            &&& !c.linked && mix != Mix::Monitor ==> out.monitor_volume == c.monitor_volume
            &&& !c.linked && mix != Mix::Stream ==> out.stream_volume == c.stream_volume
            &&& !c.linked && mix != Mix::Vod ==> out.vod_volume == c.vod_volume
        }),
{
}

/// Faders are linked exactly if that was asked for. Linking brings the stream
/// and VOD faders to where the monitor fader stands, which stays; unlinking
/// moves none. Nothing else of the channel changes.
pub proof fn law_link_switch(c: ChannelModel, linked: bool)
    ensures
        ({
            let out = with_link(c, linked);
            &&& out == (ChannelModel {
                linked: out.linked,
                stream_volume: out.stream_volume,
                vod_volume: out.vod_volume,
                ..c
            })
            &&& out.linked == linked
            &&& linked ==> out.stream_volume == c.monitor_volume && out.vod_volume
                == c.monitor_volume
            &&& !linked ==> out.stream_volume == c.stream_volume && out.vod_volume == c.vod_volume
        }),
{
}

/// The master volume and the mute switch of a mix have the values that were
/// asked for, those of the other mixes keep theirs, and nothing else changes.
pub proof fn law_master_section(cfg: ConfigModel, mix: Mix, volume: Real64, muted: bool)
    ensures
        ({
            let loud = with_master_volume(cfg, mix, volume);
            let m = loud.master;
            &&& loud == (ConfigModel { master: m, ..cfg })
            &&& match mix {
                Mix::Monitor => m == (MasterModel { monitor_volume: m.monitor_volume, ..cfg.master })
                    && m.monitor_volume == volume,
                Mix::Stream => m == (MasterModel { stream_volume: m.stream_volume, ..cfg.master })
                    && m.stream_volume == volume,
                Mix::Vod => m == (MasterModel { vod_volume: m.vod_volume, ..cfg.master })
                    && m.vod_volume == volume,
            }
        }),
        ({
            let silent = with_master_muted(cfg, mix, muted);
            let m = silent.master;
            &&& silent == (ConfigModel { master: m, ..cfg })
            &&& match mix {
                Mix::Monitor => m == (MasterModel { monitor_muted: m.monitor_muted, ..cfg.master })
                    && m.monitor_muted == muted,
                Mix::Stream => m == (MasterModel { stream_muted: m.stream_muted, ..cfg.master })
                    && m.stream_muted == muted,
                Mix::Vod => m == (MasterModel { vod_muted: m.vod_muted, ..cfg.master })
                    && m.vod_muted == muted,
            }
        }),
{
}

/// Changing a channel by its id changes that channel, as the change says, and
/// nothing else: every other channel stays what it is and where it is, and so
/// does the rest of the configuration.
pub proof fn law_edit_touches_one(
    cfg: ConfigModel,
    id: u64,
    change: spec_fn(ChannelModel) -> ChannelModel,
    other: u64,
)
    requires
        forall|c: ChannelModel| (#[trigger] change(c)).id == c.id,
    ensures
        ({
            let out = with_edit(cfg, id, change);
            &&& out == (ConfigModel { channels: out.channels, ..cfg })
            &&& out.channels.len() == cfg.channels.len()
            &&& forall|i: int|
                0 <= i < cfg.channels.len() ==> (#[trigger] out.channels[i]).id
                    == cfg.channels[i].id
            &&& forall|i: int|
                0 <= i < cfg.channels.len() && cfg.channels[i].id != id
                    ==> #[trigger] out.channels[i] == cfg.channels[i]
            &&& config::has_channel(out.channels, other) == config::has_channel(
                cfg.channels,
                other,
            )
            &&& other != id && config::has_channel(cfg.channels, other) ==> channel_of(
                out.channels,
                other,
            ) == channel_of(cfg.channels, other)
            &&& config::has_channel(cfg.channels, id) ==> channel_of(out.channels, id) == change(
                channel_of(cfg.channels, id),
            )
        }),
{
    let out = with_edit(cfg, id, change).channels;
    lemma_edit_others(cfg.channels, id, change, other);
    if config::has_channel(cfg.channels, id) {
        lemma_edit_channel(cfg.channels, id, change);
    }
    assert forall|i: int| 0 <= i < cfg.channels.len() implies (#[trigger] out[i]).id
        == cfg.channels[i].id by {}
}

/// Changing a channel leaves the channels of other ids alone.
proof fn lemma_edit_others(
    channels: Seq<ChannelModel>,
    id: u64,
    change: spec_fn(ChannelModel) -> ChannelModel,
    other: u64,
)
    requires
        forall|c: ChannelModel| (#[trigger] change(c)).id == c.id,
    ensures
        config::has_channel(edited(channels, id, change), other) == config::has_channel(
            channels,
            other,
        ),
        other != id && config::has_channel(channels, other) ==> channel_of(
            edited(channels, id, change),
            other,
        ) == channel_of(channels, other),
{
    let out = edited(channels, id, change);
    if config::has_channel(channels, other) {
        lemma_has_first(channels, other);
        let i = choose|i: int| config::first_with(channels, other, i);
        assert forall|j: int| 0 <= j < i implies (#[trigger] out[j]).id != other by {
            assert(channels[j].id != other);
        }
        assert(out[i].id == other);
        assert(config::first_with(out, other, i));
        lemma_channel_of(out, other);
        lemma_channel_of(channels, other);
        if other != id {
            assert(out[i] == channels[i]);
        }
    }
    if config::has_channel(out, other) {
        let i = choose|i: int| 0 <= i < out.len() && (#[trigger] out[i]).id == other;
        assert(channels[i].id == other);
    }
}

/// After muting a channel in a mix, or unmuting it, the mute switch of that
/// channel in that mix has the value asked for; its other mute switches, all
/// its faders and all other channels stay.
pub proof fn law_mute_is_read_back(cfg: ConfigModel, id: u64, mix: Mix, muted: bool, other: u64)
    requires
        config::has_channel(cfg.channels, id),
        config::has_channel(cfg.channels, other),
    ensures
        ({
            let out = with_edit(cfg, id, |c: ChannelModel| with_muted(c, mix, muted)).channels;
            let c = channel_of(cfg.channels, id);
            let d = channel_of(out, id);
            &&& config::has_channel(out, id)
            &&& d.monitor_muted == if mix == Mix::Monitor {
                muted
            } else {
                c.monitor_muted
            }
            &&& d.stream_muted == if mix == Mix::Stream {
                muted
            } else {
                c.stream_muted
            }
            &&& d.vod_muted == if mix == Mix::Vod {
                muted
            } else {
                c.vod_muted
            }
            &&& d.monitor_volume == c.monitor_volume
            &&& d.stream_volume == c.stream_volume
            &&& d.vod_volume == c.vod_volume
            &&& other != id ==> channel_of(out, other) == channel_of(cfg.channels, other)
        }),
{
    let change = |c: ChannelModel| with_muted(c, mix, muted);
    law_edit_touches_one(cfg, id, change, other);
    law_edit_touches_one(cfg, id, change, id);
}

/// A channel that was just added stands behind the others, which stay. It is
/// unmuted and unlinked, has every fader at three quarters, no effects and no
/// rack, is not permanent, and is fed by the virtual device. It has the next
/// id, and the name that was asked for.
pub proof fn law_new_channel(cfg: ConfigModel, name: Option<Seq<char>>)
    ensures
        ({
            let out = with_channel(cfg, name);
            let c = out.channels.last();
            &&& out == (ConfigModel {
                channels: out.channels,
                next_channel_id: out.next_channel_id,
                ..cfg
            })
            &&& out.channels.len() == cfg.channels.len() + 1
            &&& out.channels.drop_last() == cfg.channels
            &&& cfg.next_channel_id < u64::MAX ==> out.next_channel_id == cfg.next_channel_id + 1
            &&& c.id == cfg.next_channel_id
            &&& name matches Some(name) ==> c.name == name
            &&& c.assignment == Some(AssignmentModel::Virtual)
            &&& c.monitor_volume.bits == 0x3fe8_0000_0000_0000
            &&& c.stream_volume.bits == 0x3fe8_0000_0000_0000
            &&& c.vod_volume.bits == 0x3fe8_0000_0000_0000
            &&& !c.monitor_muted
            &&& !c.stream_muted
            &&& !c.vod_muted
            &&& !c.linked
            &&& !c.permanent
            &&& c.effects.len() == 0
            &&& !c.vst_rack
            &&& c.vst_plugins.len() == 0
        }),
{
    assert(with_channel(cfg, name).channels.drop_last() =~= cfg.channels);
}

/// The names that are offered for new channels are those of the six templates
/// that no channel has.
pub proof fn law_names_offered(channels: Seq<ChannelModel>, name: Seq<char>)
    ensures
        unused_names(channels).contains(name) <==> {
            &&& name == "Game"@ || name == "Music"@ || name == "Voice Chat"@ || name == "Browser"@
                || name == "SFX"@ || name == "Aux"@
            &&& forall|i: int| 0 <= i < channels.len() ==> (#[trigger] channels[i]).name != name
        },
{
    broadcast use vstd::seq_lib::group_filter_ensures;

    let keep = |t: Seq<char>| !name_used(channels, t);
    let all = template_texts();
    assert(TEMPLATE_NAMES[0]@ == "Game"@);
    assert(all[0] == "Game"@);
    assert(all[1] == "Music"@);
    assert(all[2] == "Voice Chat"@);
    assert(all[3] == "Browser"@);
    assert(all[4] == "SFX"@);
    assert(all[5] == "Aux"@);
    if all.filter(keep).contains(name) {
        all.lemma_filter_contains_rev(keep, name);
        let i = choose|i: int|
            0 <= i < all.filter(keep).len() && all.filter(keep)[i] == name;
        assert(keep(all.filter(keep)[i]));
    }
    if all.contains(name) && keep(name) {
        let i = choose|i: int| 0 <= i < all.len() && all[i] == name;
        assert(all.filter(keep).contains(all[i]));
    }
}

/// A channel that is added without a name gets the first template name that no
/// channel has, or one made of its number where all of them are in use.
pub proof fn law_new_name(cfg: ConfigModel, i: int)
    requires
        0 <= i <= 6,
        forall|j: int|
            0 <= j < i ==> exists|k: int|
                0 <= k < cfg.channels.len() && (#[trigger] cfg.channels[k]).name == (
                #[trigger] TEMPLATE_NAMES[j])@,
        i < 6 ==> forall|k: int|
            0 <= k < cfg.channels.len() ==> (#[trigger] cfg.channels[k]).name
                != TEMPLATE_NAMES[i]@,
    ensures
        with_channel(cfg, None).channels.last().name == if i < 6 {
            TEMPLATE_NAMES[i]@
        } else {
            "Channel "@ + text::decimal(cfg.next_channel_id as nat)
        },
{
    let keep = |t: Seq<char>| !name_used(cfg.channels, t);
    let all = template_texts();
    let used = all.take(i);
    assert forall|j: int| 0 <= j < used.len() implies !keep(#[trigger] used[j]) by {
        assert(used[j] == TEMPLATE_NAMES[j]@);
        let k = choose|k: int|
            0 <= k < cfg.channels.len() && (#[trigger] cfg.channels[k]).name == TEMPLATE_NAMES[j]@;
        assert(cfg.channels[k].name == used[j]);
    }
    used.lemma_all_neg_filter_empty(keep);
    if i < 6 {
        assert(keep(all[i]));
        assert(all.take(i + 1) =~= used.push(all[i]));
        lists::lemma_filter_push(used, all[i], keep);
        assert(all =~= all.take(i + 1) + all.skip(i + 1));
        Seq::filter_distributes_over_add(all.take(i + 1), all.skip(i + 1), keep);
        assert(all.filter(keep)[0] == all[i]);
    } else {
        assert(used =~= all);
    }
}

/// Removing a channel that can be removed, and is the only one of its id, takes
/// it out of its place; the others stay in their order. Nothing but channels is
/// removed.
pub proof fn law_remove_one(cfg: ConfigModel, at: int)
    requires
        0 <= at < cfg.channels.len(),
        !cfg.channels[at].permanent,
        forall|i: int|
            0 <= i < cfg.channels.len() && i != at ==> (#[trigger] cfg.channels[i]).id
                != cfg.channels[at].id,
    ensures
        without_channel(cfg, cfg.channels[at].id) == (ConfigModel {
            channels: cfg.channels.remove(at),
            ..cfg
        }),
{
    let all = cfg.channels;
    let id = all[at].id;
    let keep = |c: ChannelModel| c.id != id || c.permanent;
    let before = all.take(at);
    let after = all.skip(at + 1);
    let one = all.take(at + 1);
    assert(one =~= before.push(all[at]));
    assert(all =~= one + after);
    Seq::filter_distributes_over_add(one, after, keep);
    lists::lemma_filter_push(before, all[at], keep);
    assert forall|i: int| 0 <= i < before.len() implies keep(#[trigger] before[i]) by {
        assert(before[i] == all[i]);
    }
    assert forall|i: int| 0 <= i < after.len() implies keep(#[trigger] after[i]) by {
        assert(after[i] == all[at + 1 + i]);
    }
    lists::lemma_filter_all(before, keep);
    lists::lemma_filter_all(after, keep);
    assert(all.remove(at) =~= before + after);
}

/// A channel has a device that is named after it exactly if an application or
/// the virtual device feeds it.
pub proof fn law_device_exposed(a: Option<AssignmentModel>)
    ensures
        exposes_device(a) == match a {
            Some(AssignmentModel::App { .. }) => true,
            Some(AssignmentModel::Virtual) => true,
            Some(AssignmentModel::Source { .. }) => false,
            None => false,
        },
{
}

/// Of the channels with an id the first is the one that is found.
pub proof fn law_first_is_found(channels: Seq<ChannelModel>, at: int)
    requires
        0 <= at < channels.len(),
        forall|j: int| 0 <= j < at ==> (#[trigger] channels[j]).id != channels[at].id,
    ensures
        config::has_channel(channels, channels[at].id),
        channel_of(channels, channels[at].id) == channels[at],
{
    lemma_channel_of(channels, channels[at].id);
    assert(config::first_with(channels, channels[at].id, at));
}

/// Putting a channel behind others leaves those to be found as before.
pub proof fn lemma_push_found(channels: Seq<ChannelModel>, c: ChannelModel, id: u64)
    ensures
        config::has_channel(channels.push(c), id) == (config::has_channel(channels, id) || c.id
            == id),
        config::has_channel(channels, id) ==> channel_of(channels.push(c), id) == channel_of(
            channels,
            id,
        ),
        !config::has_channel(channels, id) && c.id == id ==> channel_of(channels.push(c), id)
            == c,
{
    let all = channels.push(c);
    let n = channels.len() as int;
    assert(all[n] == c);
    lemma_channel_of(all, id);
    if config::has_channel(channels, id) {
        lemma_has_first(channels, id);
        let i = choose|i: int| config::first_with(channels, id, i);
        lemma_channel_of(channels, id);
        assert forall|j: int| 0 <= j < i implies (#[trigger] all[j]).id != id by {
            assert(channels[j].id != id);
        }
        assert(all[i] == channels[i]);
        assert(config::first_with(all, id, i));
    } else if c.id == id {
        assert forall|j: int| 0 <= j < n implies (#[trigger] all[j]).id != id by {
            assert(channels[j].id != id);
        }
        assert(config::first_with(all, id, n));
    }
    if config::has_channel(all, id) {
        let i = choose|i: int| 0 <= i < all.len() && (#[trigger] all[i]).id == id;
        if i < n {
            assert(channels[i].id == id);
        }
    }
}

/// Dropping channels leaves the channels of an id, none of which is dropped, to
/// be found as before.
pub proof fn lemma_filter_found(
    channels: Seq<ChannelModel>,
    keep: spec_fn(ChannelModel) -> bool,
    id: u64,
)
    requires
        forall|c: ChannelModel| c.id == id ==> #[trigger] keep(c),
    ensures
        config::has_channel(channels.filter(keep), id) == config::has_channel(channels, id),
        config::has_channel(channels, id) ==> channel_of(channels.filter(keep), id) == channel_of(
            channels,
            id,
        ),
    decreases channels.len(),
{
    if channels.len() == 0 {
        reveal(Seq::filter);
        assert(channels.filter(keep) =~= channels);
    } else {
        let rest = channels.drop_last();
        let c = channels.last();
        lemma_filter_found(rest, keep, id);
        assert(channels =~= rest.push(c));
        lists::lemma_filter_push(rest, c, keep);
        lemma_push_found(rest, c, id);
        lemma_push_found(rest.filter(keep), c, id);
    }
}

} // verus!
