//! The effects of a channel: its LV2 chain and its VST rack.

use crate::config::{
    ChannelConfig, ChannelModel, Config, EffectConfig, EffectModel, Parameter, ParameterModel, VstPlugin,
};
use crate::{channels, config, lists, text};
use vstd::prelude::*;
use vstd::string::*;

verus! {

/// The enabled effects of a chain.
pub open spec fn enabled_effects(effects: Seq<EffectModel>) -> Seq<EffectModel> {
    effects.filter(|e: EffectModel| e.enabled)
}

/// The enabled plugins of a VST rack.
pub open spec fn enabled_plugins(plugins: Seq<VstPlugin>) -> Seq<VstPlugin> {
    plugins.filter(|p: VstPlugin| p.enabled)
}

/// Whether a channel processes through effects.
pub open spec fn fx_on(c: ChannelModel) -> bool {
    c.vst_rack || enabled_effects(c.effects).len() > 0 || enabled_plugins(c.vst_plugins).len() > 0
}

/// What the effects button of a channel says.
pub open spec fn fx_tip(lv2: nat, vst: nat) -> Seq<char> {
    if vst > 0 && lv2 > 0 {
        "Effects ("@ + text::decimal(vst) + " VST + "@ + text::decimal(lv2) + " LV2 active)"@
    } else if vst > 0 {
        "Effects ("@ + text::decimal(vst) + " VST active)"@
    } else if lv2 > 0 {
        "Effects ("@ + text::decimal(lv2) + " LV2 active)"@
    } else {
        "Effects"@
    }
}

impl ChannelConfig {
    /// How many LV2 effects are enabled.
    pub fn active_effects(&self) -> (n: usize)
        ensures
            n == enabled_effects(self@.effects).len(),
    {
        let ghost all = self@.effects;
        let ghost keep = |e: EffectModel| e.enabled;
        let mut n: usize = 0;
        let mut i: usize = 0;
        proof {
            lists::lemma_pick_none(all, keep, |e: EffectModel| e);
        }
        while i < self.effects.len()
            invariant
                i <= self.effects@.len(),
                n <= i,
                all == self@.effects,
                keep == (|e: EffectModel| e.enabled),
                n == all.take(i as int).filter(keep).len(),
            decreases self.effects@.len() - i,
        {
            proof {
                assert(all[i as int] == self.effects@[i as int]@);
                assert(all.take(i + 1) =~= all.take(i as int).push(all[i as int]));
                lists::lemma_filter_push(all.take(i as int), all[i as int], keep);
            }
            if self.effects[i].enabled {
                n += 1;
            }
            i += 1;
        }
        assert(all.take(i as int) =~= all);
        n
    }

    /// How many plugins of the VST rack are enabled.
    pub fn active_plugins(&self) -> (n: usize)
        ensures
            n == enabled_plugins(self@.vst_plugins).len(),
    {
        let ghost all = self@.vst_plugins;
        let ghost keep = |p: VstPlugin| p.enabled;
        let mut n: usize = 0;
        let mut i: usize = 0;
        proof {
            lists::lemma_pick_none(all, keep, |p: VstPlugin| p);
        }
        while i < self.vst_plugins.len()
            invariant
                i <= self.vst_plugins@.len(),
                n <= i,
                all == self.vst_plugins@,
                keep == (|p: VstPlugin| p.enabled),
                n == all.take(i as int).filter(keep).len(),
            decreases self.vst_plugins@.len() - i,
        {
            proof {
                assert(all.take(i + 1) =~= all.take(i as int).push(all[i as int]));
                lists::lemma_filter_push(all.take(i as int), all[i as int], keep);
            }
            if self.vst_plugins[i].enabled {
                n += 1;
            }
            i += 1;
        }
        assert(all.take(i as int) =~= all);
        n
    }

    /// Whether the channel processes through effects.
    pub fn fx_active(&self) -> (yes: bool)
        ensures
            yes == fx_on(self@),
    {
        self.vst_rack || self.active_effects() > 0 || self.active_plugins() > 0
    }

    /// The tooltip of the effects button: what is active.
    pub fn fx_tooltip(&self) -> (tip: String)
        ensures
            tip@ == fx_tip(
                enabled_effects(self@.effects).len(),
                enabled_plugins(self@.vst_plugins).len(),
            ),
    {
        let lv2: usize = self.active_effects();
        let vst: usize = self.active_plugins();
        if vst > 0 && lv2 > 0 {
            let mut tip = text::with_number("Effects (", vst as u64, " VST + ");
            text::push_decimal(&mut tip, lv2 as u64);
            tip.append(" LV2 active)");
            tip
        } else if vst > 0 {
            text::with_number("Effects (", vst as u64, " VST active)")
        } else if lv2 > 0 {
            text::with_number("Effects (", lv2 as u64, " LV2 active)")
        } else {
            "Effects".to_owned()
        }
    }
}

// ---- Editing the chain ---------------------------------------------------------------

/// Whether the effect at `i` is the first with an id.
pub open spec fn first_effect(effects: Seq<EffectModel>, id: u64, i: int) -> bool {
    &&& 0 <= i < effects.len()
    &&& effects[i].id == id
    &&& forall|j: int| 0 <= j < i ==> (#[trigger] effects[j]).id != id
}

/// Whether there is an effect with an id.
pub open spec fn has_effect(effects: Seq<EffectModel>, id: u64) -> bool {
    exists|i: int| 0 <= i < effects.len() && (#[trigger] effects[i]).id == id
}

/// A chain with the first effect of an id changed.
pub open spec fn edited_effect(
    effects: Seq<EffectModel>,
    id: u64,
    change: spec_fn(EffectModel) -> EffectModel,
) -> Seq<EffectModel> {
    Seq::new(
        effects.len(),
        |i: int|
            if first_effect(effects, id, i) {
                change(effects[i])
            } else {
                effects[i]
            },
    )
}

/// A chain with the first effect of an id switched on or off.
pub open spec fn switched(effects: Seq<EffectModel>, id: u64, on: bool) -> Seq<EffectModel> {
    edited_effect(effects, id, |e: EffectModel| EffectModel { enabled: on, ..e })
}

/// A chain with a parameter of the first effect of an id set.
pub open spec fn adjusted(effects: Seq<EffectModel>, id: u64, p: ParameterModel) -> Seq<
    EffectModel,
> {
    edited_effect(
        effects,
        id,
        |e: EffectModel| EffectModel { controls: with_parameter(e.controls, p), ..e },
    )
}

/// Changing an effect by its id, from what is known of its place.
proof fn lemma_edit_effect(
    effects: Seq<EffectModel>,
    id: u64,
    change: spec_fn(EffectModel) -> EffectModel,
)
    ensures
        forall|i: int|
            #[trigger] first_effect(effects, id, i) ==> edited_effect(effects, id, change)
                == effects.update(i, change(effects[i])),
        !has_effect(effects, id) ==> edited_effect(effects, id, change) == effects,
{
    let out = edited_effect(effects, id, change);
    assert forall|i: int| #[trigger] first_effect(effects, id, i) implies out == effects.update(
        i,
        change(effects[i]),
    ) by {
        assert forall|j: int| 0 <= j < effects.len() && j != i implies !first_effect(
            effects,
            id,
            j,
        ) by {
            assert(effects[i].id == id);
            if j < i {
                assert(effects[j].id != id);
            }
        }
        assert(out =~= effects.update(i, change(effects[i])));
    }
    if !has_effect(effects, id) {
        assert(out =~= effects);
    }
}

/// A chain with two effects exchanged.
pub open spec fn exchanged(effects: Seq<EffectModel>, i: int, j: int) -> Seq<EffectModel> {
    effects.update(i, effects[j]).update(j, effects[i])
}

/// A chain with the effect at `i` moved by one place, if there is room.
pub open spec fn moved_at(effects: Seq<EffectModel>, i: int, down: bool) -> Seq<EffectModel> {
    let j = if down { i + 1 } else { i - 1 };
    if 0 <= j < effects.len() {
        exchanged(effects, i, j)
    } else {
        effects
    }
}

/// A chain with the first effect of an id moved by one place.
pub open spec fn moved(effects: Seq<EffectModel>, id: u64, down: bool) -> Seq<EffectModel> {
    if has_effect(effects, id) {
        moved_at(effects, choose|i: int| first_effect(effects, id, i), down)
    } else {
        effects
    }
}

/// A chain without the effects of an id.
pub open spec fn without_effect(effects: Seq<EffectModel>, id: u64) -> Seq<EffectModel> {
    effects.filter(|e: EffectModel| e.id != id)
}

/// The greatest effect id of a chain, 0 if it is empty.
pub open spec fn top_effect(effects: Seq<EffectModel>) -> u64
    decreases effects.len(),
{
    if effects.len() == 0 {
        0
    } else if effects.last().id > top_effect(effects.drop_last()) {
        effects.last().id
    } else {
        top_effect(effects.drop_last())
    }
}

/// A chain with one more effect behind the others, enabled and with nothing
/// set.
pub open spec fn with_effect(
    effects: Seq<EffectModel>,
    uri: Seq<char>,
    name: Seq<char>,
) -> Seq<EffectModel> {
    effects.push(
        EffectModel {
            id: (top_effect(effects) + 1) as u64,
            uri,
            name,
            enabled: true,
            controls: Seq::empty(),
        },
    )
}

/// What some effects say.
pub open spec fn effect_models(effects: Seq<EffectConfig>) -> Seq<EffectModel> {
    effects.map_values(|e: EffectConfig| e@)
}

impl ChannelConfig {
    fn effect_position(&self, id: u64) -> (at: Option<usize>)
        ensures
            match at {
                Some(i) => first_effect(self@.effects, id, i as int),
                None => !has_effect(self@.effects, id),
            },
    {
        let mut i: usize = 0;
        while i < self.effects.len()
            invariant
                i <= self.effects@.len(),
                forall|j: int| 0 <= j < i ==> (#[trigger] self@.effects[j]).id != id,
            decreases self.effects@.len() - i,
        {
            assert(self@.effects[i as int] == self.effects@[i as int]@);
            if self.effects[i].id == id {
                return Some(i);
            }
            i += 1;
        }
        None
    }

    /// The first effect with an id, to be changed. Everything else stays.
    pub fn effect_mut(&mut self, id: u64) -> (found: Option<&mut EffectConfig>)
        ensures
            match found {
                Some(e) => exists|i: int|
                    #[trigger] first_effect(old(self)@.effects, id, i) && *e == old(
                        self,
                    ).effects@[i] && final(self)@ == (ChannelModel {
                        effects: old(self)@.effects.update(i, (*final(e))@),
                        ..old(self)@
                    }),
                None => !has_effect(old(self)@.effects, id) && *final(self) == *old(self),
            },
    {
        match self.effect_position(id) {
            Some(i) => Some(&mut self.effects[i]),
            None => None,
        }
    }

    /// Switches an effect on or off.
    pub fn set_effect_enabled(&mut self, id: u64, on: bool)
        ensures
            final(self)@ == (ChannelModel {
                effects: switched(old(self)@.effects, id, on),
                ..old(self)@
            }),
    {
        proof {
            lemma_edit_effect(
                self@.effects,
                id,
                |e: EffectModel| EffectModel { enabled: on, ..e },
            );
        }
        if let Some(e) = self.effect_mut(id) {
            e.enabled = on;
        }
    }

    /// Sets a parameter of an effect.
    pub fn set_effect_control(&mut self, id: u64, p: Parameter)
        ensures
            final(self)@ == (ChannelModel {
                effects: adjusted(old(self)@.effects, id, p@),
                ..old(self)@
            }),
    {
        proof {
            lemma_edit_effect(
                self@.effects,
                id,
                |e: EffectModel| EffectModel { controls: with_parameter(e.controls, p@), ..e },
            );
        }
        if let Some(e) = self.effect_mut(id) {
            e.set_control(p);
        }
    }

    /// Moves an effect one place down the chain, or up.
    pub fn move_effect(&mut self, id: u64, down: bool)
        ensures
            final(self)@ == (ChannelModel {
                effects: moved(old(self)@.effects, id, down),
                ..old(self)@
            }),
    {
        let ghost before = self@.effects;
        if let Some(i) = self.effect_position(id) {
            proof {
                let k = choose|k: int| first_effect(before, id, k);
                assert(first_effect(before, id, k));
                assert(before[k].id == id && before[i as int].id == id);
                assert(k == i);
                assert(has_effect(before, id));
            }
            if down && i < self.effects.len() - 1 {
                let e = self.effects.remove(i);
                self.effects.insert(i + 1, e);
                assert(effect_models(self.effects@) =~= exchanged(before, i as int, i + 1));
            } else if !down && i > 0 {
                let e = self.effects.remove(i);
                self.effects.insert(i - 1, e);
                assert(effect_models(self.effects@) =~= exchanged(before, i as int, i - 1));
            }
        }
    }

    /// Takes an effect out of the chain.
    pub fn remove_effect(&mut self, id: u64)
        ensures
            final(self)@ == (ChannelModel {
                effects: without_effect(old(self)@.effects, id),
                ..old(self)@
            }),
    {
        let ghost all = self.effects@;
        let test = |e: &EffectConfig| -> (yes: bool)
            ensures
                yes == (e@.id != id),
        {
            e.id != id
        };
        lists::retain(&mut self.effects, test, Ghost(|e: EffectModel| e.id != id));
        assert(lists::views(all) =~= effect_models(all));
        assert(lists::views(self.effects@) =~= effect_models(self.effects@));
    }

    /// The greatest effect id of the chain, 0 if it is empty.
    pub fn top_effect_id(&self) -> (top: u64)
        ensures
            top == top_effect(self@.effects),
    {
        let ghost before = self@.effects;
        let mut top: u64 = 0;
        let mut i: usize = 0;
        while i < self.effects.len()
            invariant
                before == self@.effects,
                i <= self.effects@.len(),
                top == top_effect(before.take(i as int)),
            decreases self.effects@.len() - i,
        {
            proof {
                assert(before[i as int] == self.effects@[i as int]@);
                assert(before.take(i + 1).drop_last() =~= before.take(i as int));
            }
            if self.effects[i].id > top {
                top = self.effects[i].id;
            }
            i += 1;
        }
        assert(before.take(i as int) =~= before);
        top
    }

    /// Puts a plugin behind the chain. Returns the id of the new effect.
    pub fn add_effect(&mut self, uri: &str, name: &str) -> (id: u64)
        requires
            top_effect(old(self)@.effects) < u64::MAX,
        ensures
            id == top_effect(old(self)@.effects) + 1,
            final(self)@ == (ChannelModel {
                effects: with_effect(old(self)@.effects, uri@, name@),
                ..old(self)@
            }),
    {
        let ghost before = self@.effects;
        let top: u64 = self.top_effect_id();
        let effect = EffectConfig {
            id: top + 1,
            uri: uri.to_owned(),
            name: name.to_owned(),
            enabled: true,
            controls: Vec::new(),
        };
        proof {
            assert(effect@ =~= with_effect(before, uri@, name@).last());
        }
        self.effects.push(effect);
        assert(self@.effects =~= with_effect(before, uri@, name@));
        top + 1
    }
}

// ---- Parameters -------------------------------------------------------------------------

/// The parameter with a symbol: the first, if there are several.
pub open spec fn parameter(controls: Seq<ParameterModel>, symbol: Seq<char>) -> Option<
    ParameterModel,
>
    decreases controls.len(),
{
    if controls.len() == 0 {
        None
    } else if controls[0].symbol == symbol {
        Some(controls[0])
    } else {
        parameter(controls.skip(1), symbol)
    }
}

/// How many parameters at the front of a list come before a symbol.
pub open spec fn rank(controls: Seq<ParameterModel>, symbol: Seq<char>) -> nat
    decreases controls.len(),
{
    if controls.len() > 0 && text::text_before(controls[0].symbol, symbol) {
        1 + rank(controls.skip(1), symbol)
    } else {
        0
    }
}

/// A list with a parameter set: in place of the one with its symbol, or where
/// its symbol belongs.
pub open spec fn with_parameter(
    controls: Seq<ParameterModel>,
    p: ParameterModel,
) -> Seq<ParameterModel> {
    let at = rank(controls, p.symbol) as int;
    if at < controls.len() && controls[at].symbol == p.symbol {
        controls.update(at, p)
    } else {
        controls.insert(at, p)
    }
}

/// What some parameters say.
pub open spec fn parameter_models(controls: Seq<Parameter>) -> Seq<ParameterModel> {
    controls.map_values(|p: Parameter| p@)
}

impl EffectConfig {
    /// The parameter with a symbol.
    pub fn control(&self, symbol: &str) -> (found: Option<&Parameter>)
        ensures
            match found {
                Some(p) => parameter(self@.controls, symbol@) == Some(p@),
                None => parameter(self@.controls, symbol@) is None,
            },
    {
        let ghost all = self@.controls;
        let mut i: usize = 0;
        assert(all.skip(0) =~= all);
        while i < self.controls.len()
            invariant
                i <= self.controls@.len(),
                all == self@.controls,
                parameter(all, symbol@) == parameter(all.skip(i as int), symbol@),
            decreases self.controls@.len() - i,
        {
            proof {
                assert(all.skip(i as int)[0] == self.controls@[i as int]@);
                assert(all.skip(i as int).skip(1) =~= all.skip(i + 1));
            }
            if text::same_text(self.controls[i].symbol.as_str(), symbol) {
                return Some(&self.controls[i]);
            }
            i += 1;
        }
        None
    }

    /// Sets a parameter.
    pub fn set_control(&mut self, p: Parameter)
        ensures
            final(self)@ == (EffectModel {
                controls: with_parameter(old(self)@.controls, p@),
                ..old(self)@
            }),
    {
        let ghost all = self@.controls;
        let ghost model = p@;
        let mut at: usize = 0;
        assert(all.skip(0) =~= all);
        while at < self.controls.len() && text::comes_before(
            self.controls[at].symbol.as_str(),
            p.symbol.as_str(),
        )
            invariant
                at <= self.controls@.len(),
                all == self@.controls,
                rank(all, p@.symbol) == at + rank(all.skip(at as int), p@.symbol),
            decreases self.controls@.len() - at,
        {
            proof {
                assert(all.skip(at as int)[0] == self.controls@[at as int]@);
                assert(all.skip(at as int).skip(1) =~= all.skip(at + 1));
            }
            at += 1;
        }
        proof {
            if at < self.controls@.len() {
                assert(all.skip(at as int)[0] == self.controls@[at as int]@);
                assert(all[at as int] == self.controls@[at as int]@);
            }
            assert(rank(all, model.symbol) == at);
        }
        if at < self.controls.len() && self.controls[at].symbol == p.symbol {
            self.controls[at] = p;
            assert(parameter_models(self.controls@) =~= all.update(at as int, model));
        } else {
            self.controls.insert(at, p);
            assert(parameter_models(self.controls@) =~= all.insert(at as int, model));
        }
    }
}

// ---- By channel -----------------------------------------------------------------------------

impl Config {
    /// Switches an effect of a channel on or off. Returns whether there is
    /// such a channel.
    pub fn switch_effect(&mut self, id: u64, effect: u64, on: bool) -> (found: bool)
        ensures
            found == config::has_channel(old(self)@.channels, id),
            final(self)@ == channels::with_edit(
                old(self)@,
                id,
                |c: ChannelModel| ChannelModel { effects: switched(c.effects, effect, on), ..c },
            ),
    {
        let ghost before = self@;
        let ghost change = |c: ChannelModel|
            ChannelModel { effects: switched(c.effects, effect, on), ..c };
        proof {
            channels::lemma_edit(before.channels, id, change);
            channels::lemma_channel_of(before.channels, id);
        }
        match self.channel_mut(id) {
            Some(ch) => {
                ch.set_effect_enabled(effect, on);
                true
            },
            None => false,
        }
    }

    /// Moves an effect of a channel one place down its chain, or up. Returns
    /// whether there is such a channel.
    pub fn move_effect(&mut self, id: u64, effect: u64, down: bool) -> (found: bool)
        ensures
            found == config::has_channel(old(self)@.channels, id),
            final(self)@ == channels::with_edit(
                old(self)@,
                id,
                |c: ChannelModel| ChannelModel { effects: moved(c.effects, effect, down), ..c },
            ),
    {
        let ghost before = self@;
        let ghost change = |c: ChannelModel|
            ChannelModel { effects: moved(c.effects, effect, down), ..c };
        proof {
            channels::lemma_edit(before.channels, id, change);
            channels::lemma_channel_of(before.channels, id);
        }
        match self.channel_mut(id) {
            Some(ch) => {
                ch.move_effect(effect, down);
                true
            },
            None => false,
        }
    }

    /// Takes an effect out of the chain of a channel. Returns whether there is
    /// such a channel.
    pub fn remove_effect(&mut self, id: u64, effect: u64) -> (found: bool)
        ensures
            found == config::has_channel(old(self)@.channels, id),
            final(self)@ == channels::with_edit(
                old(self)@,
                id,
                |c: ChannelModel| ChannelModel { effects: without_effect(c.effects, effect), ..c },
            ),
    {
        let ghost before = self@;
        let ghost change = |c: ChannelModel|
            ChannelModel { effects: without_effect(c.effects, effect), ..c };
        proof {
            channels::lemma_edit(before.channels, id, change);
            channels::lemma_channel_of(before.channels, id);
        }
        match self.channel_mut(id) {
            Some(ch) => {
                ch.remove_effect(effect);
                true
            },
            None => false,
        }
    }

    /// Puts a plugin behind the chain of a channel. Returns whether there is
    /// such a channel.
    pub fn add_effect(&mut self, id: u64, uri: &str, name: &str) -> (found: bool)
        requires
            config::has_channel(old(self)@.channels, id) ==> top_effect(
                channels::channel_of(old(self)@.channels, id).effects,
            ) < u64::MAX,
        ensures
            found == config::has_channel(old(self)@.channels, id),
            final(self)@ == channels::with_edit(
                old(self)@,
                id,
                |c: ChannelModel| ChannelModel { effects: with_effect(c.effects, uri@, name@), ..c },
            ),
    {
        let ghost before = self@;
        let ghost change = |c: ChannelModel|
            ChannelModel { effects: with_effect(c.effects, uri@, name@), ..c };
        proof {
            channels::lemma_edit(before.channels, id, change);
            channels::lemma_channel_of(before.channels, id);
        }
        match self.channel_mut(id) {
            Some(ch) => {
                ch.add_effect(uri, name);
                true
            },
            None => false,
        }
    }

    /// Sets a parameter of an effect of a channel. Returns whether there is
    /// such a channel.
    pub fn set_effect_control(&mut self, id: u64, effect: u64, p: Parameter) -> (found: bool)
        ensures
            found == config::has_channel(old(self)@.channels, id),
            final(self)@ == channels::with_edit(
                old(self)@,
                id,
                |c: ChannelModel| ChannelModel { effects: adjusted(c.effects, effect, p@), ..c },
            ),
    {
        let ghost before = self@;
        let ghost change = |c: ChannelModel|
            ChannelModel { effects: adjusted(c.effects, effect, p@), ..c };
        proof {
            channels::lemma_edit(before.channels, id, change);
            channels::lemma_channel_of(before.channels, id);
        }
        match self.channel_mut(id) {
            Some(ch) => {
                ch.set_effect_control(effect, p);
                true
            },
            None => false,
        }
    }
}

// ---- Laws ---------------------------------------------------------------------------------

/// No two effects of a chain have the same id.
pub open spec fn distinct_effects(effects: Seq<EffectModel>) -> bool {
    forall|i: int, j: int|
        0 <= i < j < effects.len() ==> (#[trigger] effects[i]).id != (#[trigger] effects[j]).id
}

proof fn lemma_top_effect(effects: Seq<EffectModel>, i: int)
    requires
        0 <= i < effects.len(),
    ensures
        effects[i].id <= top_effect(effects),
    decreases effects.len(),
{
    if i < effects.len() - 1 {
        lemma_top_effect(effects.drop_last(), i);
    }
}

/// A new effect has an id that no other effect of the chain has.
pub proof fn law_add_effect(effects: Seq<EffectModel>, uri: Seq<char>, name: Seq<char>)
    requires
        distinct_effects(effects),
        top_effect(effects) < u64::MAX,
    ensures
        distinct_effects(with_effect(effects, uri, name)),
        !has_effect(effects, with_effect(effects, uri, name).last().id),
{
    let out = with_effect(effects, uri, name);
    assert forall|i: int| 0 <= i < effects.len() implies (#[trigger] effects[i]).id
        < out.last().id by {
        lemma_top_effect(effects, i);
    }
    assert forall|i: int, j: int| 0 <= i < j < out.len() implies (#[trigger] out[i]).id != (
    #[trigger] out[j]).id by {
        assert(out[i] == effects[i]);
        if j < effects.len() {
            assert(out[j] == effects[j]);
        }
    }
}

/// Adding an effect and taking it out again changes nothing.
pub proof fn law_add_then_remove_effect(
    effects: Seq<EffectModel>,
    uri: Seq<char>,
    name: Seq<char>,
)
    requires
        top_effect(effects) < u64::MAX,
    ensures
        without_effect(
            with_effect(effects, uri, name),
            with_effect(effects, uri, name).last().id,
        ) == effects,
{
    let added = with_effect(effects, uri, name).last();
    let id = added.id;
    let keep = |e: EffectModel| e.id != id;
    lists::lemma_filter_push(effects, added, keep);
    assert forall|i: int| 0 <= i < effects.len() implies keep(#[trigger] effects[i]) by {
        lemma_top_effect(effects, i);
    }
    lists::lemma_filter_all(effects, keep);
}

/// Moving an effect where there is room, and back again, changes nothing.
/// Moving keeps the effects and their ids.
pub proof fn law_move_and_back(effects: Seq<EffectModel>, id: u64, at: int, down: bool)
    requires
        distinct_effects(effects),
        first_effect(effects, id, at),
        0 <= (if down { at + 1 } else { at - 1 }) < effects.len(),
    ensures
        moved(moved(effects, id, down), id, !down) == effects,
        distinct_effects(moved(effects, id, down)),
        moved(effects, id, down).len() == effects.len(),
        moved(effects, id, down)[if down { at + 1 } else { at - 1 }] == effects[at],
{
    let to = if down { at + 1 } else { at - 1 };
    let out = exchanged(effects, at, to);
    assert(has_effect(effects, id)) by {
        assert(effects[at].id == id);
    }
    lemma_one_effect(effects, id, at);
    assert(moved(effects, id, down) == out);
    assert forall|i: int, j: int| 0 <= i < j < out.len() implies (#[trigger] out[i]).id != (
    #[trigger] out[j]).id by {
        let bi = if i == at { to } else if i == to { at } else { i };
        let bj = if j == at { to } else if j == to { at } else { j };
        assert(out[i] == effects[bi]);
        assert(out[j] == effects[bj]);
        if bi < bj {
            assert(effects[bi].id != effects[bj].id);
        } else {
            assert(effects[bj].id != effects[bi].id);
        }
    }
    assert(out[to].id == id);
    assert(first_effect(out, id, to)) by {
        assert forall|j: int| 0 <= j < to implies (#[trigger] out[j]).id != id by {
            assert(out[j].id != out[to].id);
        }
    }
    assert(has_effect(out, id));
    lemma_one_effect(out, id, to);
    assert(exchanged(out, to, at) =~= effects);
}

/// There is one first effect of an id.
pub proof fn lemma_one_effect(effects: Seq<EffectModel>, id: u64, at: int)
    requires
        first_effect(effects, id, at),
    ensures
        (choose|i: int| first_effect(effects, id, i)) == at,
{
    let k = choose|i: int| first_effect(effects, id, i);
    assert(first_effect(effects, id, k));
    assert(effects[k].id == id && effects[at].id == id);
}

/// Taking out an effect takes out nothing else, and it is gone.
pub proof fn law_remove_effect(effects: Seq<EffectModel>, id: u64)
    ensures
        !has_effect(without_effect(effects, id), id),
        forall|e: EffectModel|
            #[trigger] without_effect(effects, id).contains(e) <==> effects.contains(e) && e.id
                != id,
{
    broadcast use vstd::seq_lib::group_filter_ensures;

    let keep = |e: EffectModel| e.id != id;
    let out = without_effect(effects, id);
    assert forall|e: EffectModel| #[trigger] out.contains(e) implies effects.contains(e)
        && keep(e) by {
        effects.lemma_filter_contains_rev(keep, e);
        let i = choose|i: int| 0 <= i < out.len() && out[i] == e;
        assert(keep(out[i]));
    }
    assert forall|e: EffectModel| effects.contains(e) && keep(e) implies
        #[trigger] out.contains(e) by {
        let i = choose|i: int| 0 <= i < effects.len() && effects[i] == e;
        assert(effects.filter(keep).contains(effects[i]));
    }
    if has_effect(out, id) {
        let i = choose|i: int| 0 <= i < out.len() && (#[trigger] out[i]).id == id;
        assert(keep(out[i]));
    }
}

/// Parameters in the order of their symbols, none of which occurs twice.
pub open spec fn ordered(controls: Seq<ParameterModel>) -> bool {
    forall|i: int, j: int|
        0 <= i < j < controls.len() ==> text::text_before(
            #[trigger] controls[i].symbol,
            #[trigger] controls[j].symbol,
        )
}

proof fn lemma_rank(controls: Seq<ParameterModel>, symbol: Seq<char>)
    ensures
        rank(controls, symbol) <= controls.len(),
        forall|i: int|
            0 <= i < rank(controls, symbol) ==> text::text_before(
                #[trigger] controls[i].symbol,
                symbol,
            ),
        rank(controls, symbol) < controls.len() ==> !text::text_before(
            controls[rank(controls, symbol) as int].symbol,
            symbol,
        ),
    decreases controls.len(),
{
    if controls.len() > 0 && text::text_before(controls[0].symbol, symbol) {
        let rest = controls.skip(1);
        lemma_rank(rest, symbol);
        let n = rank(controls, symbol);
        assert forall|i: int| 0 <= i < n implies text::text_before(
            #[trigger] controls[i].symbol,
            symbol,
        ) by {
            if i > 0 {
                assert(controls[i] == rest[i - 1]);
            }
        }
        if n < controls.len() {
            assert(controls[n as int] == rest[n - 1]);
        }
    }
}

/// Setting a parameter keeps the parameters in order.
pub proof fn law_set_keeps_order(controls: Seq<ParameterModel>, p: ParameterModel)
    requires
        ordered(controls),
    ensures
        ordered(with_parameter(controls, p)),
{
    let at = rank(controls, p.symbol) as int;
    let out = with_parameter(controls, p);
    lemma_rank(controls, p.symbol);
    if at < controls.len() && controls[at].symbol == p.symbol {
        assert forall|i: int, j: int| 0 <= i < j < out.len() implies text::text_before(
            #[trigger] out[i].symbol,
            #[trigger] out[j].symbol,
        ) by {
            assert(out[i].symbol == controls[i].symbol);
            assert(out[j].symbol == controls[j].symbol);
        }
    } else {
        if at < controls.len() {
            text::lemma_before_total(controls[at].symbol, p.symbol);
        }
        assert forall|i: int, j: int| 0 <= i < j < out.len() implies text::text_before(
            #[trigger] out[i].symbol,
            #[trigger] out[j].symbol,
        ) by {
            let bi = if i < at { i } else { i - 1 };
            let bj = if j < at { j } else { j - 1 };
            if i == at {
                assert(out[j] == controls[bj]);
                if bj > at {
                    assert(text::text_before(controls[at].symbol, controls[bj].symbol));
                    text::lemma_before_transitive(
                        p.symbol,
                        controls[at].symbol,
                        controls[bj].symbol,
                    );
                }
            } else if j == at {
                assert(out[i] == controls[i]);
            } else {
                assert(out[i] == controls[bi]);
                assert(out[j] == controls[bj]);
            }
        }
    }
}

proof fn lemma_parameter(controls: Seq<ParameterModel>, symbol: Seq<char>)
    ensures
        match parameter(controls, symbol) {
            Some(p) => p.symbol == symbol && controls.contains(p),
            None => forall|i: int|
                0 <= i < controls.len() ==> (#[trigger] controls[i]).symbol != symbol,
        },
    decreases controls.len(),
{
    if controls.len() > 0 {
        let rest = controls.skip(1);
        lemma_parameter(rest, symbol);
        if controls[0].symbol == symbol {
            assert(controls.contains(controls[0]));
        } else {
            match parameter(rest, symbol) {
                Some(p) => {
                    let i = choose|i: int| 0 <= i < rest.len() && rest[i] == p;
                    assert(controls[i + 1] == p);
                },
                None => {
                    assert forall|i: int| 0 <= i < controls.len() implies (
                    #[trigger] controls[i]).symbol != symbol by {
                        if i > 0 {
                            assert(controls[i] == rest[i - 1]);
                        }
                    }
                },
            }
        }
    }
}

/// In a list in order, the parameter of a symbol is the only one with it.
proof fn lemma_only_parameter(controls: Seq<ParameterModel>, i: int)
    requires
        ordered(controls),
        0 <= i < controls.len(),
    ensures
        parameter(controls, controls[i].symbol) == Some(controls[i]),
{
    let symbol = controls[i].symbol;
    lemma_parameter(controls, symbol);
    let p = parameter(controls, symbol).unwrap();
    let k = choose|k: int| 0 <= k < controls.len() && controls[k] == p;
    text::lemma_before_irreflexive(symbol);
    if k < i {
        assert(text::text_before(controls[k].symbol, controls[i].symbol));
    } else if i < k {
        assert(text::text_before(controls[i].symbol, controls[k].symbol));
    }
}

/// A parameter that was set is the one that is read, and the others are read
/// as before.
pub proof fn law_set_then_read(
    controls: Seq<ParameterModel>,
    p: ParameterModel,
    symbol: Seq<char>,
)
    requires
        ordered(controls),
    ensures
        parameter(with_parameter(controls, p), symbol) == if symbol == p.symbol {
            Some(p)
        } else {
            parameter(controls, symbol)
        },
{
    let at = rank(controls, p.symbol) as int;
    let out = with_parameter(controls, p);
    lemma_rank(controls, p.symbol);
    law_set_keeps_order(controls, p);
    assert(out[at] == p);
    lemma_only_parameter(out, at);
    if symbol != p.symbol {
        lemma_parameter(controls, symbol);
        lemma_parameter(out, symbol);
        let replaced = at < controls.len() && controls[at].symbol == p.symbol;
        match parameter(controls, symbol) {
            Some(q) => {
                let k = choose|k: int| 0 <= k < controls.len() && controls[k] == q;
                let to = if replaced || k < at { k } else { k + 1 };
                assert(out[to] == q);
                lemma_only_parameter(out, to);
            },
            None => {
                if let Some(q) = parameter(out, symbol) {
                    let k = choose|k: int| 0 <= k < out.len() && out[k] == q;
                    let from = if replaced || k < at { k } else { k - 1 };
                    assert(k != at);
                    assert(controls[from] == q);
                }
            },
        }
    }
}

/// Parameters in order are determined by what is read of them, so a chain does
/// not depend on the order in which its parameters were set.
pub proof fn law_parameters_determined(a: Seq<ParameterModel>, b: Seq<ParameterModel>)
    requires
        ordered(a),
        ordered(b),
        forall|symbol: Seq<char>| #[trigger] parameter(a, symbol) == parameter(b, symbol),
    ensures
        a == b,
    decreases a.len(),
{
    if a.len() == 0 {
        if b.len() > 0 {
            lemma_only_parameter(b, 0);
            assert(parameter(a, b[0].symbol) == parameter(b, b[0].symbol));
        }
        assert(a =~= b);
    } else {
        lemma_only_parameter(a, 0);
        let s = a[0].symbol;
        assert(parameter(a, s) == parameter(b, s));
        lemma_parameter(b, s);
        let k = choose|k: int| 0 <= k < b.len() && b[k] == a[0];
        lemma_only_parameter(b, 0);
        let t = b[0].symbol;
        assert(parameter(a, t) == parameter(b, t));
        lemma_parameter(a, t);
        let m = choose|m: int| 0 <= m < a.len() && a[m] == b[0];
        if k > 0 && m > 0 {
            assert(text::text_before(b[0].symbol, b[k].symbol));
            assert(text::text_before(a[0].symbol, a[m].symbol));
            text::lemma_before_transitive(s, t, s);
            text::lemma_before_irreflexive(s);
        }
        assert(a[0] == b[0]);
        let rest = a.skip(1);
        let more = b.skip(1);
        assert forall|i: int, j: int| 0 <= i < j < rest.len() implies text::text_before(
            #[trigger] rest[i].symbol,
            #[trigger] rest[j].symbol,
        ) by {
            assert(rest[i] == a[i + 1] && rest[j] == a[j + 1]);
        }
        assert forall|i: int, j: int| 0 <= i < j < more.len() implies text::text_before(
            #[trigger] more[i].symbol,
            #[trigger] more[j].symbol,
        ) by {
            assert(more[i] == b[i + 1] && more[j] == b[j + 1]);
        }
        assert forall|symbol: Seq<char>| #[trigger] parameter(rest, symbol) == parameter(
            more,
            symbol,
        ) by {
            assert(parameter(a, symbol) == parameter(b, symbol));
            if symbol == s {
                lemma_parameter(rest, s);
                lemma_parameter(more, s);
                text::lemma_before_irreflexive(s);
                if let Some(q) = parameter(rest, s) {
                    let i = choose|i: int| 0 <= i < rest.len() && rest[i] == q;
                    assert(text::text_before(a[0].symbol, a[i + 1].symbol));
                }
                if let Some(q) = parameter(more, s) {
                    let i = choose|i: int| 0 <= i < more.len() && more[i] == q;
                    assert(text::text_before(b[0].symbol, b[i + 1].symbol));
                }
            }
        }
        law_parameters_determined(rest, more);
        assert(a =~= seq![a[0]] + rest);
        assert(b =~= seq![b[0]] + more);
    }
}

/// A channel processes through effects exactly if its rack is on, or one of its
/// effects or of the plugins of its rack is enabled.
pub proof fn law_fx_on(c: ChannelModel)
    ensures
        fx_on(c) <==> {
            ||| c.vst_rack
            ||| exists|i: int| 0 <= i < c.effects.len() && (#[trigger] c.effects[i]).enabled
            ||| exists|i: int| 0 <= i < c.vst_plugins.len() && (#[trigger] c.vst_plugins[i]).enabled
        },
{
    broadcast use vstd::seq_lib::group_filter_ensures;

    let keep = |e: EffectModel| e.enabled;
    let keep_plugin = |p: VstPlugin| p.enabled;
    let on = c.effects.filter(keep);
    let loaded = c.vst_plugins.filter(keep_plugin);
    if on.len() > 0 {
        assert(keep(on[0]));
        assert(on.contains(on[0]));
        c.effects.lemma_filter_contains_rev(keep, on[0]);
        let i = choose|i: int| 0 <= i < c.effects.len() && c.effects[i] == on[0];
        assert(c.effects[i].enabled);
    }
    if loaded.len() > 0 {
        assert(keep_plugin(loaded[0]));
        assert(loaded.contains(loaded[0]));
        c.vst_plugins.lemma_filter_contains_rev(keep_plugin, loaded[0]);
        let i = choose|i: int| 0 <= i < c.vst_plugins.len() && c.vst_plugins[i] == loaded[0];
        assert(c.vst_plugins[i].enabled);
    }
    if exists|i: int| 0 <= i < c.effects.len() && (#[trigger] c.effects[i]).enabled {
        let i = choose|i: int| 0 <= i < c.effects.len() && (#[trigger] c.effects[i]).enabled;
        assert(keep(c.effects[i]));
        assert(on.contains(c.effects[i]));
    }
    if exists|i: int| 0 <= i < c.vst_plugins.len() && (#[trigger] c.vst_plugins[i]).enabled {
        let i = choose|i: int|
            0 <= i < c.vst_plugins.len() && (#[trigger] c.vst_plugins[i]).enabled;
        assert(keep_plugin(c.vst_plugins[i]));
        assert(loaded.contains(c.vst_plugins[i]));
    }
}

/// How many effects are enabled: one more for each that is.
pub proof fn law_enabled_counted(
    effects: Seq<EffectModel>,
    e: EffectModel,
    plugins: Seq<VstPlugin>,
    p: VstPlugin,
)
    ensures
        enabled_effects(effects.push(e)).len() == enabled_effects(effects).len() + if e.enabled {
            1int
        } else {
            0
        },
        enabled_plugins(plugins.push(p)).len() == enabled_plugins(plugins).len() + if p.enabled {
            1int
        } else {
            0
        },
        enabled_effects(Seq::empty()).len() == 0,
        enabled_plugins(Seq::empty()).len() == 0,
{
    lists::lemma_filter_push(effects, e, |e: EffectModel| e.enabled);
    lists::lemma_filter_push(plugins, p, |p: VstPlugin| p.enabled);
    reveal(Seq::filter);
}

/// The effects button tells how many plugins of each sort are active, of those
/// sorts that are.
pub proof fn law_fx_tip(lv2: nat, vst: nat)
    ensures
        lv2 == 0 && vst == 0 ==> fx_tip(lv2, vst) == "Effects"@,
        lv2 > 0 && vst == 0 ==> fx_tip(lv2, vst) == "Effects ("@ + text::decimal(lv2)
            + " LV2 active)"@,
        lv2 == 0 && vst > 0 ==> fx_tip(lv2, vst) == "Effects ("@ + text::decimal(vst)
            + " VST active)"@,
        lv2 > 0 && vst > 0 ==> fx_tip(lv2, vst) == "Effects ("@ + text::decimal(vst)
            + " VST + "@ + text::decimal(lv2) + " LV2 active)"@,
{
}

/// Switching an effect changes whether that effect is enabled, to what was
/// asked for, and nothing else; where a chain has no such effect it stays.
pub proof fn law_switch_effect(effects: Seq<EffectModel>, id: u64, on: bool, at: int)
    requires
        distinct_effects(effects),
        0 <= at < effects.len(),
    ensures
        switched(effects, id, on).len() == effects.len(),
        ({
            let e = switched(effects, id, on)[at];
            &&& e == (EffectModel { enabled: e.enabled, ..effects[at] })
            &&& e.enabled == if effects[at].id == id {
                on
            } else {
                effects[at].enabled
            }
        }),
{
    if effects[at].id == id {
        assert forall|j: int| 0 <= j < at implies (#[trigger] effects[j]).id != id by {
            assert(effects[j].id != effects[at].id);
        }
        assert(first_effect(effects, id, at));
    }
}

/// Setting a parameter of an effect makes it read as the value that was set,
/// and changes no other parameter, no other effect, and nothing else of the
/// effect.
pub proof fn law_adjust_effect(
    effects: Seq<EffectModel>,
    id: u64,
    p: ParameterModel,
    at: int,
    symbol: Seq<char>,
)
    requires
        distinct_effects(effects),
        0 <= at < effects.len(),
        ordered(effects[at].controls),
    ensures
        adjusted(effects, id, p).len() == effects.len(),
        ({
            let e = adjusted(effects, id, p)[at];
            &&& e == (EffectModel { controls: e.controls, ..effects[at] })
            &&& effects[at].id != id ==> e == effects[at]
            &&& effects[at].id == id ==> parameter(e.controls, symbol) == if symbol == p.symbol {
                Some(p)
            } else {
                parameter(effects[at].controls, symbol)
            }
        }),
{
    if effects[at].id == id {
        assert forall|j: int| 0 <= j < at implies (#[trigger] effects[j]).id != id by {
            assert(effects[j].id != effects[at].id);
        }
        assert(first_effect(effects, id, at));
        law_set_then_read(effects[at].controls, p, symbol);
    }
}

/// Moving an effect exchanges it with its neighbour, the next one if it is moved
/// down and the one before if it is moved up; all others stay. At the end of
/// the chain, and where there is no such effect, nothing moves.
pub proof fn law_move_effect(effects: Seq<EffectModel>, id: u64, down: bool, at: int)
    requires
        0 <= at < effects.len(),
        effects[at].id == id,
        forall|j: int| 0 <= j < at ==> (#[trigger] effects[j]).id != id,
    ensures
        ({
            let out = moved(effects, id, down);
            let to = if down {
                at + 1
            } else {
                at - 1
            };
            &&& out.len() == effects.len()
            &&& !(0 <= to < effects.len()) ==> out == effects
            &&& 0 <= to < effects.len() ==> out[to] == effects[at] && out[at] == effects[to]
            &&& forall|j: int|
                0 <= j < effects.len() && j != at && j != to ==> #[trigger] out[j] == effects[j]
        }),
        forall|other: u64|
            !has_effect(effects, other) ==> #[trigger] moved(effects, other, down) == effects,
{
    assert(first_effect(effects, id, at));
    assert(has_effect(effects, id));
    lemma_one_effect(effects, id, at);
}

/// A new effect stands behind the others, which stay. It is of the plugin that
/// was picked, under its name, enabled, and with nothing set.
pub proof fn law_new_effect(effects: Seq<EffectModel>, uri: Seq<char>, name: Seq<char>)
    ensures
        ({
            let out = with_effect(effects, uri, name);
            let e = out.last();
            &&& out.len() == effects.len() + 1
            &&& out.drop_last() == effects
            &&& e.uri == uri
            &&& e.name == name
            &&& e.enabled
            &&& e.controls.len() == 0
            &&& top_effect(effects) < u64::MAX ==> forall|i: int|
                0 <= i < effects.len() ==> (#[trigger] effects[i]).id < e.id
        }),
{
    assert(with_effect(effects, uri, name).drop_last() =~= effects);
    assert forall|i: int| 0 <= i < effects.len() implies (#[trigger] effects[i]).id <= top_effect(
        effects,
    ) by {
        lemma_top_effect(effects, i);
    }
}

/// An effect that is taken out leaves the others in their order.
pub proof fn law_remove_one_effect(effects: Seq<EffectModel>, at: int)
    requires
        distinct_effects(effects),
        0 <= at < effects.len(),
    ensures
        without_effect(effects, effects[at].id) == effects.remove(at),
{
    let id = effects[at].id;
    let keep = |e: EffectModel| e.id != id;
    let before = effects.take(at);
    let after = effects.skip(at + 1);
    let one = effects.take(at + 1);
    assert(one =~= before.push(effects[at]));
    assert(effects =~= one + after);
    Seq::filter_distributes_over_add(one, after, keep);
    lists::lemma_filter_push(before, effects[at], keep);
    assert forall|i: int| 0 <= i < before.len() implies keep(#[trigger] before[i]) by {
        assert(before[i] == effects[i]);
        assert(effects[i].id != effects[at].id);
    }
    assert forall|i: int| 0 <= i < after.len() implies keep(#[trigger] after[i]) by {
        assert(after[i] == effects[at + 1 + i]);
        assert(effects[at].id != effects[at + 1 + i].id);
    }
    lists::lemma_filter_all(before, keep);
    lists::lemma_filter_all(after, keep);
    assert(effects.remove(at) =~= before + after);
}

/// The parameter that is read for a symbol is the first with it, and none is
/// where there is none.
pub proof fn law_parameter_found(controls: Seq<ParameterModel>, symbol: Seq<char>)
    ensures
        (forall|i: int| 0 <= i < controls.len() ==> (#[trigger] controls[i]).symbol != symbol)
            ==> parameter(controls, symbol) is None,
        forall|i: int|
            0 <= i < controls.len() && (#[trigger] controls[i]).symbol == symbol && (forall|j: int|
                0 <= j < i ==> (#[trigger] controls[j]).symbol != symbol) ==> parameter(
                controls,
                symbol,
            ) == Some(controls[i]),
    decreases controls.len(),
{
    if controls.len() > 0 {
        let rest = controls.skip(1);
        law_parameter_found(rest, symbol);
        if forall|i: int| 0 <= i < controls.len() ==> (#[trigger] controls[i]).symbol != symbol {
            assert(controls[0].symbol != symbol);
            assert forall|i: int| 0 <= i < rest.len() implies (#[trigger] rest[i]).symbol
                != symbol by {
                assert(rest[i] == controls[i + 1]);
            }
        }
        assert forall|i: int|
            0 <= i < controls.len() && (#[trigger] controls[i]).symbol == symbol && (forall|j: int|
                0 <= j < i ==> (#[trigger] controls[j]).symbol != symbol) implies parameter(
            controls,
            symbol,
        ) == Some(controls[i]) by {
            if i > 0 {
                assert(controls[0].symbol != symbol);
                assert(rest[i - 1] == controls[i]);
                assert forall|j: int| 0 <= j < i - 1 implies (#[trigger] rest[j]).symbol
                    != symbol by {
                    assert(rest[j] == controls[j + 1]);
                }
            }
        }
    }
}

// ---- What an edit of the chain comes to ------------------------------------------------------

/// Whether one chain is another with nothing changed but whether the effect of
/// an id is enabled.
pub open spec fn only_switched(
    before: Seq<EffectModel>,
    after: Seq<EffectModel>,
    id: u64,
    on: bool,
) -> bool {
    &&& after.len() == before.len()
    &&& forall|i: int|
        0 <= i < before.len() ==> #[trigger] after[i] == (EffectModel {
            enabled: if before[i].id == id {
                on
            } else {
                before[i].enabled
            },
            ..before[i]
        })
}

/// Whether one chain is another with nothing changed but that the effect of an
/// id changed places with the next one, or with the one before.
pub open spec fn only_moved(
    before: Seq<EffectModel>,
    after: Seq<EffectModel>,
    id: u64,
    down: bool,
) -> bool {
    &&& after.len() == before.len()
    &&& forall|i: int|
        0 <= i < before.len() ==> #[trigger] after[i] == if before[i].id == id {
            if down {
                if i + 1 < before.len() {
                    before[i + 1]
                } else {
                    before[i]
                }
            } else if i > 0 {
                before[i - 1]
            } else {
                before[i]
            }
        } else if down && i > 0 && before[i - 1].id == id {
            before[i - 1]
        } else if !down && i + 1 < before.len() && before[i + 1].id == id {
            before[i + 1]
        } else {
            before[i]
        }
}

/// Whether one chain is another without the effect of an id.
pub open spec fn only_removed(before: Seq<EffectModel>, after: Seq<EffectModel>, id: u64) -> bool {
    &&& forall|i: int| 0 <= i < after.len() ==> (#[trigger] after[i]).id != id
    &&& forall|at: int|
        0 <= at < before.len() && (#[trigger] before[at]).id == id ==> after == before.remove(at)
    &&& !has_effect(before, id) ==> after == before
}

/// Whether one chain is another with a new effect behind it.
pub open spec fn only_added(
    before: Seq<EffectModel>,
    after: Seq<EffectModel>,
    uri: Seq<char>,
    name: Seq<char>,
) -> bool {
    &&& after.len() == before.len() + 1
    &&& after.drop_last() == before
    &&& after.last().uri == uri
    &&& after.last().name == name
    &&& after.last().enabled
    &&& after.last().controls.len() == 0
    &&& !has_effect(before, after.last().id)
}

/// What the edits of a chain come to, where no two effects have the same id.
pub proof fn law_edits_of_chain(
    effects: Seq<EffectModel>,
    id: u64,
    on: bool,
    down: bool,
    uri: Seq<char>,
    name: Seq<char>,
)
    requires
        distinct_effects(effects),
    ensures
        only_switched(effects, switched(effects, id, on), id, on),
        only_moved(effects, moved(effects, id, down), id, down),
        only_removed(effects, without_effect(effects, id), id),
        top_effect(effects) < u64::MAX ==> only_added(
            effects,
            with_effect(effects, uri, name),
            uri,
            name,
        ),
{
    assert forall|i: int| 0 <= i < effects.len() implies #[trigger] switched(effects, id, on)[i]
        == (EffectModel {
        enabled: if effects[i].id == id {
            on
        } else {
            effects[i].enabled
        },
        ..effects[i]
    }) by {
        law_switch_effect(effects, id, on, i);
    }
    if has_effect(effects, id) {
        let at = choose|i: int| 0 <= i < effects.len() && (#[trigger] effects[i]).id == id;
        assert forall|j: int| 0 <= j < effects.len() && j != at implies (#[trigger] effects[j]).id
            != id by {
            if j < at {
                assert(effects[j].id != effects[at].id);
            } else {
                assert(effects[at].id != effects[j].id);
            }
        }
        law_move_effect(effects, id, down, at);
        law_remove_one_effect(effects, at);
    } else {
        let keep = |e: EffectModel| e.id != id;
        assert forall|i: int| 0 <= i < effects.len() implies keep(#[trigger] effects[i]) by {}
        lists::lemma_filter_all(effects, keep);
    }
    law_remove_effect(effects, id);
    assert forall|i: int| 0 <= i < without_effect(effects, id).len() implies (
    #[trigger] without_effect(effects, id)[i]).id != id by {
        let out = without_effect(effects, id);
        assert(out.contains(out[i]));
    }
    law_new_effect(effects, uri, name);
    if top_effect(effects) < u64::MAX {
        law_add_effect(effects, uri, name);
    }
}

} // verus!
