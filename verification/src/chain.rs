//! The `pipewire -c` configuration that hosts the effect chain of a channel.

use crate::config::{ChannelConfig, EffectConfig, EffectModel, ParameterModel};
use crate::lv2::{Catalog, ControlModel, PluginInfo, PluginModel};
use crate::{effects, lists, lv2, names, text};
use vstd::prelude::*;
use vstd::string::*;

verus! {

// ---- The pieces of a chain ------------------------------------------------------

/// An effect of a channel with the installed plugin it uses.
pub struct Voice {
    pub effect: EffectModel,
    pub plugin: PluginModel,
}

/// The plugin of an effect, if it is installed.
pub open spec fn installed(catalog: Option<Seq<PluginModel>>, uri: Seq<char>) -> Option<
    PluginModel,
> {
    match catalog {
        Some(plugins) => lv2::lookup(plugins, uri),
        None => None,
    }
}

/// The effects that take part in the chain: those that are enabled and whose
/// plugin is installed, in their order.
pub open spec fn voices(
    effects: Seq<EffectModel>,
    catalog: Option<Seq<PluginModel>>,
) -> Seq<Voice>
    decreases effects.len(),
{
    if effects.len() == 0 {
        Seq::empty()
    } else {
        let before = voices(effects.drop_last(), catalog);
        let effect = effects.last();
        match installed(catalog, effect.uri) {
            Some(plugin) if effect.enabled => before.push(Voice { effect, plugin }),
            _ => before,
        }
    }
}

/// Where a stage of the chain takes up the two channels, and where it hands
/// them on.
pub struct StageModel {
    pub in_left: Seq<char>,
    pub in_right: Seq<char>,
    pub out_left: Seq<char>,
    pub out_right: Seq<char>,
}

struct Stage {
    in_left: String,
    in_right: String,
    out_left: String,
    out_right: String,
}

impl Stage {
    spec fn model(self) -> StageModel {
        StageModel {
            in_left: self.in_left@,
            in_right: self.in_right@,
            out_left: self.out_left@,
            out_right: self.out_right@,
        }
    }
}

/// A port of a node.
pub open spec fn port(node: Seq<char>, symbol: Seq<char>) -> Seq<char> {
    node + ":"@ + text::token(symbol)
}

/// The stage of an effect: a mono plugin runs once per channel.
pub open spec fn stage_of(v: Voice) -> StageModel {
    let ins = v.plugin.audio_in;
    let outs = v.plugin.audio_out;
    if ins.len() == 1 {
        let left = names::left_label(v.effect.id);
        let right = names::right_label(v.effect.id);
        StageModel {
            in_left: port(left, ins[0]),
            in_right: port(right, ins[0]),
            out_left: port(left, outs[0]),
            out_right: port(right, outs[0]),
        }
    } else {
        let node = names::stereo_label(v.effect.id);
        StageModel {
            in_left: port(node, ins[0]),
            in_right: port(node, ins[1]),
            out_left: port(node, outs[0]),
            out_right: port(node, outs[1]),
        }
    }
}

/// The stage that passes audio through unchanged.
pub open spec fn copy_stage() -> StageModel {
    StageModel {
        in_left: "copy_l:In"@,
        in_right: "copy_r:In"@,
        out_left: "copy_l:Out"@,
        out_right: "copy_r:Out"@,
    }
}

/// Whether a plugin has a control with a symbol.
pub open spec fn has_control(controls: Seq<ControlModel>, symbol: Seq<char>) -> bool {
    exists|i: int| 0 <= i < controls.len() && (#[trigger] controls[i]).symbol == symbol
}

/// How a parameter is set.
pub open spec fn control_entry(p: ParameterModel) -> Seq<char> {
    "\""@ + text::token(p.symbol) + "\" = "@ + p.text + " "@
}

/// The parameters that an effect sets, of those that its plugin has.
pub open spec fn control_entries(
    controls: Seq<ParameterModel>,
    known: Seq<ControlModel>,
) -> Seq<char> {
    text::joined(
        controls.filter(|p: ParameterModel| has_control(known, p.symbol)).map_values(
            |p: ParameterModel| control_entry(p),
        ),
    )
}

/// The control section of a node, absent if there is nothing to set.
pub open spec fn control_block(entries: Seq<char>) -> Seq<char> {
    if entries.len() == 0 {
        Seq::empty()
    } else {
        " control = { "@ + entries + "}"@
    }
}

/// The line that declares a plugin node.
pub open spec fn node_line(node: Seq<char>, uri: Seq<char>, block: Seq<char>) -> Seq<char> {
    "                    { type = lv2 name = \""@ + node + "\" plugin = \""@ + uri + "\""@ + block
        + " }\n"@
}

/// The lines that declare the nodes of an effect.
pub open spec fn node_lines(v: Voice) -> Seq<char> {
    let uri = text::clean_uri(v.effect.uri);
    let block = control_block(control_entries(v.effect.controls, v.plugin.controls));
    if v.plugin.audio_in.len() == 1 {
        node_line(names::left_label(v.effect.id), uri, block) + node_line(
            names::right_label(v.effect.id),
            uri,
            block,
        )
    } else {
        node_line(names::stereo_label(v.effect.id), uri, block)
    }
}

/// The lines that declare the nodes that pass audio through.
pub open spec fn copy_lines() -> Seq<char> {
    "                    { type = builtin name = copy_l label = copy }\n"@
        + "                    { type = builtin name = copy_r label = copy }\n"@
}

/// The node declarations of a chain.
pub open spec fn chain_nodes(list: Seq<Voice>) -> Seq<char> {
    if list.len() == 0 {
        copy_lines()
    } else {
        text::joined(list.map_values(|v: Voice| node_lines(v)))
    }
}

/// The stages of a chain, at least one.
pub open spec fn chain_stages(list: Seq<Voice>) -> Seq<StageModel> {
    if list.len() == 0 {
        seq![copy_stage()]
    } else {
        list.map_values(|v: Voice| stage_of(v))
    }
}

/// The line that connects two ports.
pub open spec fn link_line(output: Seq<char>, input: Seq<char>) -> Seq<char> {
    "                    { output = \""@ + output + "\" input = \""@ + input + "\" }\n"@
}

/// The lines that connect a stage to the next.
pub open spec fn stage_links(from: StageModel, to: StageModel) -> Seq<char> {
    link_line(from.out_left, to.in_left) + link_line(from.out_right, to.in_right)
}

/// The lines that connect every stage to the next.
pub open spec fn chain_links(stages: Seq<StageModel>) -> Seq<char> {
    text::joined(
        Seq::new((stages.len() - 1) as nat, |i: int| stage_links(stages[i], stages[i + 1])),
    )
}

// ---- The configuration -------------------------------------------------------------

/// The configuration of a chain, from its node and link lines and its outer
/// ports.
pub open spec fn conf_text(
    id: u64,
    nodes: Seq<char>,
    links: Seq<char>,
    first: StageModel,
    last: StageModel,
) -> Seq<char> {
    let number = text::decimal(id as nat);
    CONF_HEAD@ + number + CONF_MEDIA@ + number + CONF_NODES@ + nodes + CONF_LINKS@ + links
        + CONF_INPUTS@ + first.in_left + CONF_BETWEEN@ + first.in_right + CONF_OUTPUTS@
        + last.out_left + CONF_BETWEEN@ + last.out_right + CONF_CAPTURE@ + names::channel_node(
        id,
        "_FX"@,
    ) + CONF_CAPTURE_NAME@ + number + CONF_PLAYBACK@ + names::channel_node(id, "_FXOut"@)
        + CONF_PLAYBACK_NAME@ + number + CONF_TAIL@
}

/// The configuration of the chain of a channel.
pub open spec fn chain_text(
    id: u64,
    effects: Seq<EffectModel>,
    catalog: Option<Seq<PluginModel>>,
) -> Seq<char> {
    let list = voices(effects, catalog);
    let stages = chain_stages(list);
    conf_text(id, chain_nodes(list), chain_links(stages), stages[0], stages.last())
}

pub const CONF_HEAD: &'static str = "# Generated by OpenWave; do not edit (rewritten on every change).
context.properties = {
    log.level = 2
}

context.spa-libs = {
    audio.convert.* = audioconvert/libspa-audioconvert
    support.*       = support/libspa-support
}

context.modules = [
    { name = libpipewire-module-rt
        args = { nice.level = -11 }
        flags = [ ifexists nofail ]
    }
    { name = libpipewire-module-protocol-native }
    { name = libpipewire-module-client-node }
    { name = libpipewire-module-adapter }

    { name = libpipewire-module-filter-chain
        args = {
            node.description = \"OpenWave Channel ";

pub const CONF_MEDIA: &'static str = " Effects\"
            media.name       = \"OpenWave Channel ";

pub const CONF_NODES: &'static str = " Effects\"
            filter.graph = {
                nodes = [
";

pub const CONF_LINKS: &'static str = "                ]
                links = [
";

pub const CONF_INPUTS: &'static str = "                ]
                inputs  = [ \"";

pub const CONF_BETWEEN: &'static str = "\" \"";

pub const CONF_OUTPUTS: &'static str = "\" ]
                outputs = [ \"";

pub const CONF_CAPTURE: &'static str = "\" ]
            }
            audio.channels = 2
            audio.position = [ FL FR ]
            capture.props = {
                node.name           = \"";

pub const CONF_CAPTURE_NAME: &'static str = "\"
                node.description    = \"OpenWave Ch ";

pub const CONF_PLAYBACK: &'static str = " FX (internal)\"
                media.class         = Audio/Sink
                state.restore-props = false
            }
            playback.props = {
                node.name           = \"";

pub const CONF_PLAYBACK_NAME: &'static str = "\"
                node.description    = \"OpenWave Ch ";

pub const CONF_TAIL: &'static str = " FX Out (internal)\"
                media.class         = Audio/Source
                state.restore-props = false
            }
        }
    }
]
";

fn conf_of(id: u64, nodes: &str, links: &str, first: &Stage, last: &Stage) -> (out: String)
    ensures
        out@ == conf_text(id, nodes@, links@, first.model(), last.model()),
{
    let mut out = CONF_HEAD.to_owned();
    text::push_decimal(&mut out, id);
    out.append(CONF_MEDIA);
    text::push_decimal(&mut out, id);
    out.append(CONF_NODES);
    out.append(nodes);
    out.append(CONF_LINKS);
    out.append(links);
    out.append(CONF_INPUTS);
    out.append(first.in_left.as_str());
    out.append(CONF_BETWEEN);
    out.append(first.in_right.as_str());
    out.append(CONF_OUTPUTS);
    out.append(last.out_left.as_str());
    out.append(CONF_BETWEEN);
    out.append(last.out_right.as_str());
    out.append(CONF_CAPTURE);
    out.append(names::chain_sink_name(id).as_str());
    out.append(CONF_CAPTURE_NAME);
    text::push_decimal(&mut out, id);
    out.append(CONF_PLAYBACK);
    out.append(names::chain_source_name(id).as_str());
    out.append(CONF_PLAYBACK_NAME);
    text::push_decimal(&mut out, id);
    out.append(CONF_TAIL);
    out
}

fn make_port(node: &str, symbol: &str) -> (out: String)
    ensures
        out@ == port(node@, symbol@),
{
    let mut out = node.to_owned();
    out.append(":");
    out.append(text::sanitize_token(symbol).as_str());
    out
}

fn push_node_line(out: &mut String, node: &str, uri: &str, block: &str)
    ensures
        final(out)@ == old(out)@ + node_line(node@, uri@, block@),
{
    let mut line = "                    { type = lv2 name = \"".to_owned();
    line.append(node);
    line.append("\" plugin = \"");
    line.append(uri);
    line.append("\"");
    line.append(block);
    line.append(" }\n");
    out.append(line.as_str());
}

fn push_link_line(out: &mut String, output: &str, input: &str)
    ensures
        final(out)@ == old(out)@ + link_line(output@, input@),
{
    let mut line = "                    { output = \"".to_owned();
    line.append(output);
    line.append("\" input = \"");
    line.append(input);
    line.append("\" }\n");
    out.append(line.as_str());
}

fn knows_control(plugin: &PluginInfo, symbol: &str) -> (yes: bool)
    ensures
        yes == has_control(plugin@.controls, symbol@),
{
    let mut i: usize = 0;
    while i < plugin.controls.len()
        invariant
            i <= plugin.controls@.len(),
            forall|j: int| 0 <= j < i ==> (#[trigger] plugin@.controls[j]).symbol != symbol@,
        decreases plugin.controls@.len() - i,
    {
        assert(plugin@.controls[i as int] == plugin.controls@[i as int]@);
        if text::same_text(plugin.controls[i].symbol.as_str(), symbol) {
            return true;
        }
        i += 1;
    }
    false
}

fn make_control_block(effect: &EffectConfig, plugin: &PluginInfo) -> (out: String)
    ensures
        out@ == control_block(control_entries(effect@.controls, plugin@.controls)),
{
    let ghost all = effect@.controls;
    let ghost known = plugin@.controls;
    let ghost keep = |p: ParameterModel| has_control(known, p.symbol);
    let ghost entry = |p: ParameterModel| control_entry(p);
    let mut entries = String::new();
    let mut i: usize = 0;
    proof {
        lists::lemma_pick_none(all, keep, entry);
    }
    while i < effect.controls.len()
        invariant
            i <= effect.controls@.len(),
            all == effect@.controls,
            known == plugin@.controls,
            keep == (|p: ParameterModel| has_control(known, p.symbol)),
            entry == (|p: ParameterModel| control_entry(p)),
            entries@ == text::joined(all.take(i as int).filter(keep).map_values(entry)),
        decreases effect.controls@.len() - i,
    {
        let p = &effect.controls[i];
        proof {
            assert(all[i as int] == p@);
            lists::lemma_pick_step(all, i as int, keep, entry);
            text::lemma_joined_push(
                all.take(i as int).filter(keep).map_values(entry),
                control_entry(p@),
            );
        }
        if knows_control(plugin, p.symbol.as_str()) {
            let mut piece = "\"".to_owned();
            piece.append(text::sanitize_token(p.symbol.as_str()).as_str());
            piece.append("\" = ");
            piece.append(p.text.as_str());
            piece.append(" ");
            entries.append(piece.as_str());
        }
        i += 1;
    }
    assert(all.take(i as int) =~= all);
    if entries.as_str().is_empty() {
        String::new()
    } else {
        let mut out = " control = { ".to_owned();
        out.append(entries.as_str());
        out.append("}");
        out
    }
}

/// Declares the nodes of an effect and returns its stage.
fn add_voice(nodes: &mut String, effect: &EffectConfig, plugin: &PluginInfo) -> (out: Stage)
    requires
        plugin@.wireable(),
    ensures
        final(nodes)@ == old(nodes)@ + node_lines(Voice { effect: effect@, plugin: plugin@ }),
        out.model() == stage_of(Voice { effect: effect@, plugin: plugin@ }),
{
    let uri = text::sanitize_uri(effect.uri.as_str());
    let block = make_control_block(effect, plugin);
    let labels = names::effect_labels(effect.id, plugin.is_mono());
    proof {
        assert(plugin@.audio_in.len() == plugin.audio_in@.len());
        assert(plugin@.audio_out.len() == plugin.audio_out@.len());
        assert(plugin@.audio_in[0] == plugin.audio_in@[0]@);
        assert(plugin@.audio_out[0] == plugin.audio_out@[0]@);
        assert(text::texts(labels@).len() == labels@.len());
        assert(text::texts(labels@)[0] == labels@[0]@);
    }
    if plugin.is_mono() {
        assert(text::texts(labels@)[1] == labels@[1]@);
        let left = labels[0].as_str();
        let right = labels[1].as_str();
        let mut lines = String::new();
        push_node_line(&mut lines, left, uri.as_str(), block.as_str());
        push_node_line(&mut lines, right, uri.as_str(), block.as_str());
        proof {
            let one = node_line(left@, uri@, block@);
            let two = node_line(right@, uri@, block@);
            assert(Seq::<char>::empty() + one + two =~= one + two);
        }
        nodes.append(lines.as_str());
        Stage {
            in_left: make_port(left, plugin.audio_in[0].as_str()),
            in_right: make_port(right, plugin.audio_in[0].as_str()),
            out_left: make_port(left, plugin.audio_out[0].as_str()),
            out_right: make_port(right, plugin.audio_out[0].as_str()),
        }
    } else {
        proof {
            assert(plugin@.audio_in[1] == plugin.audio_in@[1]@);
            assert(plugin@.audio_out[1] == plugin.audio_out@[1]@);
        }
        let node = labels[0].as_str();
        push_node_line(nodes, node, uri.as_str(), block.as_str());
        Stage {
            in_left: make_port(node, plugin.audio_in[0].as_str()),
            in_right: make_port(node, plugin.audio_in[1].as_str()),
            out_left: make_port(node, plugin.audio_out[0].as_str()),
            out_right: make_port(node, plugin.audio_out[1].as_str()),
        }
    }
}

/// The plugin of a catalogue with a URI, if there is a catalogue.
pub fn find_plugin<'a>(catalog: Option<&'a Catalog>, uri: &str) -> (out: Option<&'a PluginInfo>)
    ensures
        match out {
            Some(p) => installed(plugins_of(catalog), uri@) == Some(p@),
            None => installed(plugins_of(catalog), uri@) is None,
        },
{
    match catalog {
        Some(c) => c.find(uri),
        None => None,
    }
}

/// What an optional catalogue lists.
pub open spec fn plugins_of(catalog: Option<&Catalog>) -> Option<Seq<PluginModel>> {
    match catalog {
        Some(c) => Some(c@),
        None => None,
    }
}

/// Whether every plugin in use has the ports that its stage needs.
pub open spec fn chain_wireable(
    effects: Seq<EffectModel>,
    catalog: Option<Seq<PluginModel>>,
) -> bool {
    forall|i: int|
        0 <= i < effects.len() && (#[trigger] effects[i]).enabled ==> (installed(
            catalog,
            effects[i].uri,
        ) matches Some(p) ==> p.wireable())
}

spec fn stage_models(stages: Seq<Stage>) -> Seq<StageModel> {
    stages.map_values(|s: Stage| s.model())
}

/// The links of the stages, in order.
fn make_links(stages: &Vec<Stage>) -> (out: String)
    requires
        stages@.len() > 0,
    ensures
        out@ == chain_links(stage_models(stages@)),
{
    let ghost models = stage_models(stages@);
    let ghost parts = Seq::new(
        (models.len() - 1) as nat,
        |i: int| stage_links(models[i], models[i + 1]),
    );
    let mut out = String::new();
    let mut i: usize = 0;
    assert(parts.take(0) =~= Seq::empty());
    while i < stages.len() - 1
        invariant
            stages@.len() > 0,
            i <= stages@.len() - 1,
            models == stage_models(stages@),
            parts == Seq::new(
                (models.len() - 1) as nat,
                |i: int| stage_links(models[i], models[i + 1]),
            ),
            out@ == text::joined(parts.take(i as int)),
        decreases stages@.len() - i,
    {
        let from = &stages[i];
        let to = &stages[i + 1];
        let mut piece = String::new();
        push_link_line(&mut piece, from.out_left.as_str(), to.in_left.as_str());
        push_link_line(&mut piece, from.out_right.as_str(), to.in_right.as_str());
        proof {
            assert(models[i as int] == from.model());
            assert(models[i + 1] == to.model());
            let one = link_line(from.model().out_left, to.model().in_left);
            let two = link_line(from.model().out_right, to.model().in_right);
            assert(Seq::<char>::empty() + one + two =~= one + two);
            assert(piece@ == parts[i as int]);
            assert(parts.take(i + 1) =~= parts.take(i as int).push(parts[i as int]));
            text::lemma_joined_push(parts.take(i as int), parts[i as int]);
        }
        out.append(piece.as_str());
        i += 1;
    }
    assert(parts.take(i as int) =~= parts);
    out
}

/// Build the `pipewire -c` configuration hosting this channel's filter
/// chain. Returns None when the channel needs no chain at all.
pub fn chain_conf(id: u64, cfg: &ChannelConfig, catalog: Option<&Catalog>) -> (out: Option<String>)
    requires
        chain_wireable(cfg@.effects, plugins_of(catalog)),
    ensures
        match out {
            Some(conf) => effects::fx_on(cfg@) && conf@ == chain_text(
                id,
                cfg@.effects,
                plugins_of(catalog),
            ),
            None => !effects::fx_on(cfg@),
        },
{
    if !cfg.fx_active() {
        return None;
    }
    let ghost all = cfg@.effects;
    let ghost plugins = plugins_of(catalog);
    let ghost lines = |v: Voice| node_lines(v);
    let ghost stage = |v: Voice| stage_of(v);
    let mut nodes = String::new();
    let mut stages: Vec<Stage> = Vec::new();
    let mut i: usize = 0;
    proof {
        let none = voices(all.take(0), plugins);
        assert(none.map_values(lines) =~= Seq::empty());
        assert(none.map_values(stage) =~= Seq::empty());
        assert(stage_models(stages@) =~= Seq::empty());
    }
    while i < cfg.effects.len()
        invariant
            i <= cfg.effects@.len(),
            all == cfg@.effects,
            plugins == plugins_of(catalog),
            lines == (|v: Voice| node_lines(v)),
            stage == (|v: Voice| stage_of(v)),
            chain_wireable(all, plugins),
            nodes@ == text::joined(voices(all.take(i as int), plugins).map_values(lines)),
            stage_models(stages@) == voices(all.take(i as int), plugins).map_values(stage),
        decreases cfg.effects@.len() - i,
    {
        let effect = &cfg.effects[i];
        let ghost before = voices(all.take(i as int), plugins);
        let ghost had = stages@;
        proof {
            assert(all[i as int] == effect@);
            assert(all.take(i + 1).drop_last() =~= all.take(i as int));
            assert(all.take(i + 1).last() == effect@);
        }
        if effect.enabled {
            if let Some(plugin) = find_plugin(catalog, effect.uri.as_str()) {
                let ghost voice = Voice { effect: effect@, plugin: plugin@ };
                assert(all[i as int].enabled);
                let added = add_voice(&mut nodes, effect, plugin);
                stages.push(added);
                proof {
                    assert(voices(all.take(i + 1), plugins) == before.push(voice));
                    assert(before.push(voice).map_values(lines) =~= before.map_values(lines).push(
                        node_lines(voice),
                    ));
                    assert(before.push(voice).map_values(stage) =~= before.map_values(stage).push(
                        stage_of(voice),
                    ));
                    text::lemma_joined_push(before.map_values(lines), node_lines(voice));
                    assert(stage_models(stages@) =~= stage_models(had).push(stage_of(voice)));
                }
            }
        }
        i += 1;
    }
    let ghost list = voices(all, plugins);
    proof {
        assert(all.take(i as int) =~= all);
        assert(list.map_values(stage).len() == list.len());
        assert(stage_models(stages@).len() == stages@.len());
    }
    if stages.len() == 0 {
        nodes = "                    { type = builtin name = copy_l label = copy }\n".to_owned();
        nodes.append("                    { type = builtin name = copy_r label = copy }\n");
        stages.push(
            Stage {
                in_left: "copy_l:In".to_owned(),
                in_right: "copy_r:In".to_owned(),
                out_left: "copy_l:Out".to_owned(),
                out_right: "copy_r:Out".to_owned(),
            },
        );
        assert(stage_models(stages@) =~= seq![copy_stage()]);
    }
    proof {
        assert(stage_models(stages@) == chain_stages(list));
        assert(nodes@ == chain_nodes(list));
        assert(chain_stages(list)[0] == stages@[0].model());
        assert(chain_stages(list).last() == stages@[stages@.len() - 1].model());
    }
    let links = make_links(&stages);
    Some(conf_of(id, nodes.as_str(), links.as_str(), &stages[0], &stages[stages.len() - 1]))
}

// ---- Laws --------------------------------------------------------------------------

/// The chain processes the effects in their order: those of the first part of
/// a list, and behind them those of the rest.
pub proof fn law_chain_order(
    first: Seq<EffectModel>,
    rest: Seq<EffectModel>,
    catalog: Option<Seq<PluginModel>>,
)
    ensures
        voices(first + rest, catalog) == voices(first, catalog) + voices(rest, catalog),
    decreases rest.len(),
{
    if rest.len() == 0 {
        assert(first + rest =~= first);
        assert(voices(first, catalog) + voices(rest, catalog) =~= voices(first, catalog));
    } else {
        law_chain_order(first, rest.drop_last(), catalog);
        assert((first + rest).drop_last() =~= first + rest.drop_last());
        assert((first + rest).last() == rest.last());
        assert(voices(first + rest, catalog) =~= voices(first, catalog) + voices(rest, catalog));
    }
}

/// Whether an effect takes part in the chain.
pub open spec fn takes_part(e: EffectModel, catalog: Option<Seq<PluginModel>>) -> bool {
    e.enabled && installed(catalog, e.uri) is Some
}

/// An effect that is disabled, or whose plugin is not installed (anymore), is
/// skipped: the chain is the one that the other effects make.
pub proof fn law_idle_effects_skipped(
    id: u64,
    effects: Seq<EffectModel>,
    catalog: Option<Seq<PluginModel>>,
)
    ensures
        voices(effects.filter(|e: EffectModel| takes_part(e, catalog)), catalog) == voices(
            effects,
            catalog,
        ),
        chain_text(id, effects.filter(|e: EffectModel| takes_part(e, catalog)), catalog)
            == chain_text(id, effects, catalog),
    decreases effects.len(),
{
    let keep = |e: EffectModel| takes_part(e, catalog);
    if effects.len() == 0 {
        reveal(Seq::filter);
        assert(effects.filter(keep) =~= effects);
    } else {
        let rest = effects.drop_last();
        law_idle_effects_skipped(id, rest, catalog);
        assert(effects =~= rest.push(effects.last()));
        lists::lemma_filter_push(rest, effects.last(), keep);
        if keep(effects.last()) {
            assert(rest.filter(keep).push(effects.last()).drop_last() =~= rest.filter(keep));
        }
    }
}

/// The nodes that a configuration declares for an effect are those that its
/// labels name, one line each.
pub proof fn law_nodes_are_labelled(v: Voice)
    ensures
        ({
            let uri = text::clean_uri(v.effect.uri);
            let block = control_block(control_entries(v.effect.controls, v.plugin.controls));
            node_lines(v) == text::joined(
                names::label_list(v.effect.id, v.plugin.audio_in.len() == 1).map_values(
                    |label: Seq<char>| node_line(label, uri, block),
                ),
            )
        }),
{
    let uri = text::clean_uri(v.effect.uri);
    let block = control_block(control_entries(v.effect.controls, v.plugin.controls));
    let line = |label: Seq<char>| node_line(label, uri, block);
    let mono = v.plugin.audio_in.len() == 1;
    let lines = names::label_list(v.effect.id, mono).map_values(line);
    let none = Seq::<Seq<char>>::empty();
    text::lemma_joined_push(none, lines[0]);
    assert(text::joined(none) + lines[0] =~= lines[0]);
    if mono {
        text::lemma_joined_push(none.push(lines[0]), lines[1]);
        assert(lines =~= none.push(lines[0]).push(lines[1]));
    } else {
        assert(lines =~= none.push(lines[0]));
    }
}

/// With no effect to host, the chain passes audio through unchanged.
pub proof fn law_empty_chain_copies(
    id: u64,
    effects: Seq<EffectModel>,
    catalog: Option<Seq<PluginModel>>,
)
    requires
        forall|i: int| 0 <= i < effects.len() ==> !takes_part(#[trigger] effects[i], catalog),
    ensures
        chain_text(id, effects, catalog) == conf_text(
            id,
            copy_lines(),
            Seq::empty(),
            copy_stage(),
            copy_stage(),
        ),
{
    let keep = |e: EffectModel| takes_part(e, catalog);
    law_idle_effects_skipped(id, effects, catalog);
    effects.lemma_all_neg_filter_empty(keep);
    assert(effects.filter(keep) =~= Seq::empty());
    let stages = seq![copy_stage()];
    assert(Seq::new(
        (stages.len() - 1) as nat,
        |i: int| stage_links(stages[i], stages[i + 1]),
    ) =~= Seq::empty());
}

/// What a catalogue finds is listed in it, under the URI that was asked for.
pub proof fn lemma_lookup(plugins: Seq<PluginModel>, uri: Seq<char>)
    ensures
        lv2::lookup(plugins, uri) matches Some(p) ==> plugins.contains(p) && p.uri == uri,
    decreases plugins.len(),
{
    if plugins.len() > 0 {
        if plugins[0].uri == uri {
            assert(plugins.contains(plugins[0]));
        } else {
            let rest = plugins.skip(1);
            lemma_lookup(rest, uri);
            if let Some(p) = lv2::lookup(rest, uri) {
                let i = choose|i: int| 0 <= i < rest.len() && rest[i] == p;
                assert(plugins[i + 1] == p);
            }
        }
    }
}

/// Whatever a channel is set to, its chain can be wired with a catalogue that
/// came out of a scan.
pub proof fn law_scanned_catalog_wireable(
    scans: Seq<lv2::ScanModel>,
    plugins: Seq<PluginModel>,
    effects: Seq<EffectModel>,
)
    requires
        lv2::stable_by_name(lv2::listed(scans), plugins),
    ensures
        chain_wireable(effects, Some(plugins)),
{
    assert forall|i: int| 0 <= i < effects.len() && (#[trigger] effects[i]).enabled implies (
    installed(Some(plugins), effects[i].uri) matches Some(p) ==> p.wireable()) by {
        let uri = effects[i].uri;
        lemma_lookup(plugins, uri);
        if let Some(p) = lv2::lookup(plugins, uri) {
            let k = choose|k: int| 0 <= k < plugins.len() && plugins[k] == p;
            lv2::law_catalog_sound(scans, plugins, k);
        }
    }
}

// ---- What the configuration says ---------------------------------------------------

/// Putting a stage behind a chain adds two links and no others: from the left
/// output of the stage that was last to the left input of the new one, and from
/// the right output to the right input. A single stage has no links.
pub proof fn law_stage_appended(stages: Seq<StageModel>, next: StageModel)
    ensures
        stages.len() > 0 ==> chain_links(stages.push(next)) == chain_links(stages) + link_line(
            stages.last().out_left,
            next.in_left,
        ) + link_line(stages.last().out_right, next.in_right),
        chain_links(seq![next]).len() == 0,
{
    let one = seq![next];
    assert(Seq::new((one.len() - 1) as nat, |i: int| stage_links(one[i], one[i + 1]))
        =~= Seq::empty());
    if stages.len() > 0 {
        let all = stages.push(next);
        let n = stages.len() - 1;
        let before = Seq::new(n as nat, |i: int| stage_links(stages[i], stages[i + 1]));
        let after = Seq::new((n + 1) as nat, |i: int| stage_links(all[i], all[i + 1]));
        let added = stage_links(stages.last(), next);
        assert(after =~= before.push(added));
        text::lemma_joined_push(before, added);
        assert(chain_links(all) =~= chain_links(stages) + link_line(
            stages.last().out_left,
            next.in_left,
        ) + link_line(stages.last().out_right, next.in_right));
    }
}

/// The ports of a chain that are connected, one pair after the other: every
/// output of a stage with the input of the next on the same side.
pub open spec fn wires(stages: Seq<StageModel>) -> Seq<(Seq<char>, Seq<char>)>
    decreases stages.len(),
{
    if stages.len() < 2 {
        Seq::empty()
    } else {
        let to = stages.last();
        let from = stages[stages.len() - 2];
        wires(stages.drop_last()).push((from.out_left, to.in_left)).push(
            (from.out_right, to.in_right),
        )
    }
}

/// The links of a chain connect the left output of every stage to the left
/// input of the next, and the right output to the right input, and nothing
/// else: so a path leads through every stage, in order.
pub proof fn law_stages_linked(stages: Seq<StageModel>)
    requires
        stages.len() > 0,
    ensures
        wires(stages).len() == 2 * (stages.len() - 1),
        forall|k: int|
            0 <= k < stages.len() - 1 ==> wires(stages)[2 * k] == (
                (#[trigger] stages[k]).out_left,
                stages[k + 1].in_left,
            ) && wires(stages)[2 * k + 1] == (stages[k].out_right, stages[k + 1].in_right),
        chain_links(stages) == text::joined(
            wires(stages).map_values(|w: (Seq<char>, Seq<char>)| link_line(w.0, w.1)),
        ),
    decreases stages.len(),
{
    let line = |w: (Seq<char>, Seq<char>)| link_line(w.0, w.1);
    let next = stages.last();
    if stages.len() == 1 {
        assert(stages =~= seq![next]);
        law_stage_appended(Seq::empty(), next);
        assert(wires(stages).map_values(line) =~= Seq::empty());
        assert(chain_links(stages) =~= Seq::empty());
    } else {
        let rest = stages.drop_last();
        let from = rest.last();
        law_stages_linked(rest);
        law_stage_appended(rest, next);
        assert(stages =~= rest.push(next));
        let left = (from.out_left, next.in_left);
        let right = (from.out_right, next.in_right);
        let all = wires(rest);
        assert(wires(stages) == all.push(left).push(right));
        assert(wires(stages).map_values(line) =~= all.map_values(line).push(line(left)).push(
            line(right),
        ));
        text::lemma_joined_push(all.map_values(line), line(left));
        text::lemma_joined_push(all.map_values(line).push(line(left)), line(right));
        assert forall|k: int| 0 <= k < stages.len() - 1 implies wires(stages)[2 * k] == (
            (#[trigger] stages[k]).out_left,
            stages[k + 1].in_left,
        ) && wires(stages)[2 * k + 1] == (stages[k].out_right, stages[k + 1].in_right) by {
            if k < rest.len() - 1 {
                assert(stages[k] == rest[k] && stages[k + 1] == rest[k + 1]);
                assert(wires(stages)[2 * k] == all[2 * k]);
                assert(wires(stages)[2 * k + 1] == all[2 * k + 1]);
            }
        }
    }
}

/// A text between two others that are longer than they need to be.
proof fn lemma_holds_wrapped(
    before: Seq<char>,
    open: Seq<char>,
    inner: Seq<char>,
    close: Seq<char>,
    after: Seq<char>,
)
    ensures
        text::holds_text((before + open) + inner + (close + after), open + inner + close),
{
    text::lemma_holds_middle(before, open + inner + close, after);
    assert((before + open) + inner + (close + after) =~= before + (open + inner + close) + after);
}

/// The start of a link line.
proof fn lemma_link_start()
    ensures
        "                    { output = \""@ == "                    { output = \""@.take(20)
            + "{ output = \""@,
        "\" }\n"@ == "\" }"@ + "\" }\n"@.skip(3),
{
    reveal_strlit("                    { output = \"");
    reveal_strlit("{ output = \"");
    reveal_strlit("\" }\n");
    reveal_strlit("\" }");
    assert("                    { output = \""@ =~= "                    { output = \""@.take(20)
        + "{ output = \""@);
    assert("\" }\n"@ =~= "\" }"@ + "\" }\n"@.skip(3));
}

/// The start of a line that declares a plugin node.
proof fn lemma_node_start()
    ensures
        "                    { type = lv2 name = \""@
            == "                    { type = lv2 name = \""@.take(20) + "{ type = lv2 name = \""@,
        " }\n"@ == " }"@ + " }\n"@.skip(2),
{
    reveal_strlit("                    { type = lv2 name = \"");
    reveal_strlit("{ type = lv2 name = \"");
    reveal_strlit(" }\n");
    reveal_strlit(" }");
    assert("                    { type = lv2 name = \""@
        =~= "                    { type = lv2 name = \""@.take(20) + "{ type = lv2 name = \""@);
    assert(" }\n"@ =~= " }"@ + " }\n"@.skip(2));
}

/// A link names the port it comes from as its output, and the port it leads to
/// as its input.
pub proof fn law_link_line(from: Seq<char>, to: Seq<char>)
    ensures
        text::holds_text(
            link_line(from, to),
            "{ output = \""@ + (from + "\" input = \""@ + to) + "\" }"@,
        ),
{
    let start = "                    { output = \""@;
    let end = "\" }\n"@;
    let inner = from + "\" input = \""@ + to;
    lemma_link_start();
    lemma_holds_wrapped(start.take(20), "{ output = \""@, inner, "\" }"@, end.skip(3));
    assert(link_line(from, to) =~= start + inner + end);
}

/// The node of an effect is declared with its name, the URI of its plugin and
/// its parameters.
pub proof fn law_node_line(node: Seq<char>, uri: Seq<char>, block: Seq<char>)
    ensures
        text::holds_text(
            node_line(node, uri, block),
            "{ type = lv2 name = \""@ + (node + "\" plugin = \""@ + uri + "\""@ + block) + " }"@,
        ),
{
    let start = "                    { type = lv2 name = \""@;
    let end = " }\n"@;
    let inner = node + "\" plugin = \""@ + uri + "\""@ + block;
    lemma_node_start();
    lemma_holds_wrapped(start.take(20), "{ type = lv2 name = \""@, inner, " }"@, end.skip(2));
    assert(node_line(node, uri, block) =~= start + inner + end);
}

/// The effects in the chain are those that are enabled and whose plugin is
/// installed: each of them, with that plugin, in their order.
pub proof fn law_chain_voices(effects: Seq<EffectModel>, catalog: Option<Seq<PluginModel>>)
    ensures
        ({
            let active = effects.filter(
                |e: EffectModel| e.enabled && installed(catalog, e.uri) is Some,
            );
            let list = voices(effects, catalog);
            &&& list.len() == active.len()
            &&& forall|i: int|
                0 <= i < list.len() ==> (#[trigger] list[i]).effect == active[i] && Some(
                    list[i].plugin,
                ) == installed(catalog, active[i].uri)
        }),
    decreases effects.len(),
{
    let keep = |e: EffectModel| e.enabled && installed(catalog, e.uri) is Some;
    if effects.len() == 0 {
        reveal(Seq::filter);
    } else {
        let rest = effects.drop_last();
        law_chain_voices(rest, catalog);
        assert(effects =~= rest.push(effects.last()));
        lists::lemma_filter_push(rest, effects.last(), keep);
    }
}

/// A plugin is found in the catalogue there is, and nothing without one.
pub proof fn law_installed(catalog: Option<Seq<PluginModel>>, uri: Seq<char>)
    ensures
        installed(catalog, uri) is Some <==> (catalog matches Some(plugins) && exists|i: int|
            0 <= i < plugins.len() && (#[trigger] plugins[i]).uri == uri),
        installed(catalog, uri) matches Some(p) ==> p.uri == uri && catalog->0.contains(p),
{
    if let Some(plugins) = catalog {
        lv2::law_lookup(plugins, uri);
        lemma_lookup(plugins, uri);
    }
}

/// The ports of a stage. A stereo plugin takes the left channel in at its first
/// input and the right one at its second, and gives them out in the same order.
/// Of a mono plugin there are two nodes, one for each channel, and neither has
/// to do with the other channel.
pub proof fn law_stage_ports(v: Voice)
    ensures
        ({
            let s = stage_of(v);
            let ins = v.plugin.audio_in;
            let outs = v.plugin.audio_out;
            let node = "fx"@ + text::decimal(v.effect.id as nat);
            &&& ins.len() == 1 ==> {
                &&& s.in_left == node + "_l"@ + ":"@ + text::token(ins[0])
                &&& s.out_left == node + "_l"@ + ":"@ + text::token(outs[0])
                &&& s.in_right == node + "_r"@ + ":"@ + text::token(ins[0])
                &&& s.out_right == node + "_r"@ + ":"@ + text::token(outs[0])
            }
            &&& ins.len() != 1 ==> {
                &&& s.in_left == node + ":"@ + text::token(ins[0])
                &&& s.in_right == node + ":"@ + text::token(ins[1])
                &&& s.out_left == node + ":"@ + text::token(outs[0])
                &&& s.out_right == node + ":"@ + text::token(outs[1])
            }
        }),
{
}

/// A parameter that an effect sets is written behind those before it if its
/// plugin has such a control, by its symbol and with its value; one that the
/// plugin has not is left out.
pub proof fn law_parameter_written(
    controls: Seq<ParameterModel>,
    p: ParameterModel,
    known: Seq<ControlModel>,
)
    ensures
        control_entries(controls.push(p), known) == if exists|i: int|
            0 <= i < known.len() && (#[trigger] known[i]).symbol == p.symbol {
            control_entries(controls, known) + ("\""@ + text::token(p.symbol) + "\" = "@ + p.text
                + " "@)
        } else {
            control_entries(controls, known)
        },
        control_entries(Seq::empty(), known).len() == 0,
{
    let keep = |p: ParameterModel| has_control(known, p.symbol);
    let entry = |p: ParameterModel| control_entry(p);
    lists::lemma_filter_push(controls, p, keep);
    let none = Seq::<ParameterModel>::empty();
    lists::lemma_pick_none(none, keep, entry);
    assert(none.take(0) =~= none);
    if keep(p) {
        let before = controls.filter(keep);
        assert(before.push(p).map_values(entry) =~= before.map_values(entry).push(entry(p)));
        text::lemma_joined_push(before.map_values(entry), entry(p));
    }
}

/// A node has a control section exactly if its effect sets something, and then
/// all of that stands in it.
pub proof fn law_control_block(entries: Seq<char>)
    ensures
        entries.len() == 0 ==> control_block(entries).len() == 0,
        entries.len() > 0 ==> control_block(entries) == " control = { "@ + entries + "}"@,
{
}

/// The stage of a voice of a chain.
proof fn lemma_stage_at(
    effects: Seq<EffectModel>,
    catalog: Option<Seq<PluginModel>>,
    k: int,
)
    requires
        0 <= k < voices(effects, catalog).len(),
    ensures
        chain_stages(voices(effects, catalog)).len() == voices(effects, catalog).len(),
        chain_stages(voices(effects, catalog))[k] == stage_of(voices(effects, catalog)[k]),
{
}

/// What the configuration of a chain holds: its node lines, its link lines, and
/// the parts around them.
proof fn lemma_conf_holds(
    id: u64,
    nodes: Seq<char>,
    links: Seq<char>,
    first: StageModel,
    last: StageModel,
)
    ensures
        text::holds_text(
            conf_text(id, nodes, links, first, last),
            CONF_NODES@ + nodes + CONF_LINKS@ + links + CONF_INPUTS@ + first.in_left
                + CONF_BETWEEN@ + first.in_right + CONF_OUTPUTS@ + last.out_left + CONF_BETWEEN@
                + last.out_right + CONF_CAPTURE@ + names::channel_node(id, "_FX"@)
                + CONF_CAPTURE_NAME@ + text::decimal(id as nat) + CONF_PLAYBACK@
                + names::channel_node(id, "_FXOut"@) + CONF_PLAYBACK_NAME@,
        ),
{
    let number = text::decimal(id as nat);
    let before = CONF_HEAD@ + number + CONF_MEDIA@ + number;
    let said = CONF_NODES@ + nodes + CONF_LINKS@ + links + CONF_INPUTS@ + first.in_left
        + CONF_BETWEEN@ + first.in_right + CONF_OUTPUTS@ + last.out_left + CONF_BETWEEN@
        + last.out_right + CONF_CAPTURE@ + names::channel_node(id, "_FX"@) + CONF_CAPTURE_NAME@
        + number + CONF_PLAYBACK@ + names::channel_node(id, "_FXOut"@) + CONF_PLAYBACK_NAME@;
    let after = number + CONF_TAIL@;
    text::lemma_holds_middle(before, said, after);
    assert(conf_text(id, nodes, links, first, last) =~= before + said + after);
}

/// The configuration of a chain declares the nodes of all its effects, connects
/// each effect to the next, takes audio in at the first effect and gives it out
/// at the last. It takes up what is played into the sink of the chain, and gives
/// it out at the source of the chain.
pub proof fn law_chain_configured(
    id: u64,
    effects: Seq<EffectModel>,
    catalog: Option<Seq<PluginModel>>,
)
    requires
        voices(effects, catalog).len() > 0,
    ensures
        ({
            let list = voices(effects, catalog);
            let stages = list.map_values(|v: Voice| stage_of(v));
            let lines = list.map_values(|v: Voice| node_lines(v));
            let wired = wires(stages).map_values(
                |w: (Seq<char>, Seq<char>)| link_line(w.0, w.1),
            );
            text::holds_text(
                chain_text(id, effects, catalog),
                CONF_NODES@ + text::joined(lines) + CONF_LINKS@ + text::joined(wired)
                    + CONF_INPUTS@ + stage_of(list[0]).in_left + CONF_BETWEEN@ + stage_of(
                    list[0],
                ).in_right + CONF_OUTPUTS@ + stage_of(list.last()).out_left + CONF_BETWEEN@
                    + stage_of(list.last()).out_right + CONF_CAPTURE@ + names::channel_node(
                    id,
                    "_FX"@,
                ) + CONF_CAPTURE_NAME@ + text::decimal(id as nat) + CONF_PLAYBACK@
                    + names::channel_node(id, "_FXOut"@) + CONF_PLAYBACK_NAME@,
            )
        }),
{
    let list = voices(effects, catalog);
    let stages = chain_stages(list);
    lemma_conf_holds(id, chain_nodes(list), chain_links(stages), stages[0], stages.last());
    law_stages_linked(stages);
}

/// The signal passes through every effect: the configuration of a chain holds,
/// for each effect but the last, the links from its outputs to the inputs of
/// the next on the same side.
pub proof fn law_every_effect_heard(
    id: u64,
    effects: Seq<EffectModel>,
    catalog: Option<Seq<PluginModel>>,
    k: int,
)
    requires
        0 <= k < voices(effects, catalog).len() - 1,
    ensures
        ({
            let from = stage_of(voices(effects, catalog)[k]);
            let to = stage_of(voices(effects, catalog)[k + 1]);
            let conf = chain_text(id, effects, catalog);
            &&& text::holds_text(
                conf,
                "{ output = \""@ + (from.out_left + "\" input = \""@ + to.in_left) + "\" }"@,
            )
            &&& text::holds_text(
                conf,
                "{ output = \""@ + (from.out_right + "\" input = \""@ + to.in_right) + "\" }"@,
            )
        }),
{
    let list = voices(effects, catalog);
    let stages = chain_stages(list);
    let line = |w: (Seq<char>, Seq<char>)| link_line(w.0, w.1);
    let wired = wires(stages).map_values(line);
    let links = chain_links(stages);
    let conf = chain_text(id, effects, catalog);
    let from = stage_of(list[k]);
    let to = stage_of(list[k + 1]);
    lemma_stage_at(effects, catalog, k);
    lemma_stage_at(effects, catalog, k + 1);
    law_stages_linked(stages);
    assert(stages[k] == from);
    assert(wired[2 * k] == link_line(from.out_left, to.in_left));
    assert(wired[2 * k + 1] == link_line(from.out_right, to.in_right));
    lemma_links_held(id, chain_nodes(list), links, stages[0], stages.last());
    text::lemma_holds_joined(wired, 2 * k);
    text::lemma_holds_joined(wired, 2 * k + 1);
    law_link_line(from.out_left, to.in_left);
    law_link_line(from.out_right, to.in_right);
    let left = "{ output = \""@ + (from.out_left + "\" input = \""@ + to.in_left) + "\" }"@;
    let right = "{ output = \""@ + (from.out_right + "\" input = \""@ + to.in_right) + "\" }"@;
    text::lemma_holds_transitive(conf, links, wired[2 * k]);
    text::lemma_holds_transitive(conf, links, wired[2 * k + 1]);
    text::lemma_holds_transitive(conf, wired[2 * k], left);
    text::lemma_holds_transitive(conf, wired[2 * k + 1], right);
}

proof fn lemma_links_held(
    id: u64,
    nodes: Seq<char>,
    links: Seq<char>,
    first: StageModel,
    last: StageModel,
)
    ensures
        text::holds_text(conf_text(id, nodes, links, first, last), links),
        text::holds_text(conf_text(id, nodes, links, first, last), nodes),
{
    let conf = conf_text(id, nodes, links, first, last);
    let number = text::decimal(id as nat);
    let rest = CONF_INPUTS@ + first.in_left + CONF_BETWEEN@ + first.in_right + CONF_OUTPUTS@
        + last.out_left + CONF_BETWEEN@ + last.out_right + CONF_CAPTURE@ + names::channel_node(
        id,
        "_FX"@,
    ) + CONF_CAPTURE_NAME@ + number + CONF_PLAYBACK@ + names::channel_node(id, "_FXOut"@)
        + CONF_PLAYBACK_NAME@ + number + CONF_TAIL@;
    let head = CONF_HEAD@ + number + CONF_MEDIA@ + number + CONF_NODES@;
    text::lemma_holds_middle(head + nodes + CONF_LINKS@, links, rest);
    assert(conf =~= (head + nodes + CONF_LINKS@) + links + rest);
    text::lemma_holds_middle(head, nodes, CONF_LINKS@ + links + rest);
    assert(conf =~= head + nodes + (CONF_LINKS@ + links + rest));
}

/// Every node of every effect in the chain is declared, under its label, with
/// the plugin of the effect and the parameters that the effect sets.
pub proof fn law_every_node_declared(
    id: u64,
    effects: Seq<EffectModel>,
    catalog: Option<Seq<PluginModel>>,
    k: int,
)
    requires
        0 <= k < voices(effects, catalog).len(),
    ensures
        ({
            let v = voices(effects, catalog)[k];
            let uri = text::clean_uri(v.effect.uri);
            let block = control_block(control_entries(v.effect.controls, v.plugin.controls));
            let said = |label: Seq<char>|
                "{ type = lv2 name = \""@ + (label + "\" plugin = \""@ + uri + "\""@ + block)
                    + " }"@;
            let conf = chain_text(id, effects, catalog);
            let node = "fx"@ + text::decimal(v.effect.id as nat);
            &&& v.plugin.audio_in.len() == 1 ==> text::holds_text(conf, said(node + "_l"@))
                && text::holds_text(conf, said(node + "_r"@))
            &&& v.plugin.audio_in.len() != 1 ==> text::holds_text(conf, said(node))
        }),
{
    let list = voices(effects, catalog);
    let v = list[k];
    let uri = text::clean_uri(v.effect.uri);
    let block = control_block(control_entries(v.effect.controls, v.plugin.controls));
    let conf = chain_text(id, effects, catalog);
    let stages = chain_stages(list);
    let lines = list.map_values(|v: Voice| node_lines(v));
    let node = "fx"@ + text::decimal(v.effect.id as nat);
    lemma_links_held(id, chain_nodes(list), chain_links(stages), stages[0], stages.last());
    text::lemma_holds_joined(lines, k);
    assert(lines[k] == node_lines(v));
    text::lemma_holds_transitive(conf, text::joined(lines), node_lines(v));
    let none = Seq::<char>::empty();
    if v.plugin.audio_in.len() == 1 {
        let left = node_line(node + "_l"@, uri, block);
        let right = node_line(node + "_r"@, uri, block);
        text::lemma_holds_middle(none, left, right);
        text::lemma_holds_middle(left, right, none);
        assert(none + left + right =~= node_lines(v));
        assert(left + right + none =~= node_lines(v));
        law_node_line(node + "_l"@, uri, block);
        law_node_line(node + "_r"@, uri, block);
        text::lemma_holds_transitive(conf, node_lines(v), left);
        text::lemma_holds_transitive(conf, node_lines(v), right);
        text::lemma_holds_transitive(
            conf,
            left,
            "{ type = lv2 name = \""@ + (node + "_l"@ + "\" plugin = \""@ + uri + "\""@ + block)
                + " }"@,
        );
        text::lemma_holds_transitive(
            conf,
            right,
            "{ type = lv2 name = \""@ + (node + "_r"@ + "\" plugin = \""@ + uri + "\""@ + block)
                + " }"@,
        );
    } else {
        law_node_line(node, uri, block);
        text::lemma_holds_transitive(
            conf,
            node_lines(v),
            "{ type = lv2 name = \""@ + (node + "\" plugin = \""@ + uri + "\""@ + block) + " }"@,
        );
    }
}

/// Without effects, the left channel goes through one node and the right
/// channel through another, and both nodes are declared.
pub proof fn law_pass_through()
    ensures
        copy_stage().in_left == "copy_l:In"@,
        copy_stage().out_left == "copy_l:Out"@,
        copy_stage().in_right == "copy_r:In"@,
        copy_stage().out_right == "copy_r:Out"@,
        text::holds_text(
            copy_lines(),
            "                    { type = builtin name = copy_l label = copy }\n"@,
        ),
        text::holds_text(
            copy_lines(),
            "                    { type = builtin name = copy_r label = copy }\n"@,
        ),
{
    let left = "                    { type = builtin name = copy_l label = copy }\n"@;
    let right = "                    { type = builtin name = copy_r label = copy }\n"@;
    let none = Seq::<char>::empty();
    text::lemma_holds_middle(none, left, right);
    text::lemma_holds_middle(left, right, none);
    assert(none + left + right =~= copy_lines());
    assert(left + right + none =~= copy_lines());
}

} // verus!
