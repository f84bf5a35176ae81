//! The catalogue of LV2 plugins that a filter chain can host.

use crate::number::{Real32, ONE_32, ZERO_32};
use crate::{lists, text};
use vstd::prelude::*;
use vstd::string::*;

verus! {

/// Host features the PipeWire filter-chain LV2 loader provides; plugins
/// requiring anything else are hidden from the browser because they would
/// fail to instantiate.
pub const SUPPORTED_FEATURES: [&'static str; 6] = [
    "http://lv2plug.in/ns/ext/urid#map",
    "http://lv2plug.in/ns/ext/urid#unmap",
    "http://lv2plug.in/ns/ext/options#options",
    "http://lv2plug.in/ns/ext/worker#schedule",
    "http://lv2plug.in/ns/ext/buf-size#boundedBlockLength",
    "http://lv2plug.in/ns/ext/buf-size#powerOf2BlockLength",
];

/// Whether the host provides a feature.
pub open spec fn provided(feature: Seq<char>) -> bool {
    exists|i: int| 0 <= i < 6 && #[trigger] SUPPORTED_FEATURES[i]@ == feature
}

/// Whether the host provides a feature.
pub fn supported_feature(feature: &str) -> (yes: bool)
    ensures
        yes == provided(feature@),
{
    let list = SUPPORTED_FEATURES;
    let mut i: usize = 0;
    while i < 6
        invariant
            list@ == SUPPORTED_FEATURES@,
            i <= 6,
            forall|j: int| 0 <= j < i ==> #[trigger] SUPPORTED_FEATURES[j]@ != feature@,
        decreases 6 - i,
    {
        if text::same_text(list[i], feature) {
            assert(SUPPORTED_FEATURES[i as int]@ == feature@);
            return true;
        }
        i += 1;
    }
    false
}

// ---- What the plugin scanner reports ----------------------------------------

/// One port of an installed plugin.
pub struct PortScan {
    pub symbol: String,
    pub name: String,
    pub is_input: bool,
    pub is_output: bool,
    pub is_audio: bool,
    pub is_control: bool,
    pub toggled: bool,
    pub integer: bool,
    pub min: Real32,
    pub max: Real32,
    pub default: Real32,
    /// The single-precision sum of `min` and one, the upper bound of a range
    /// that starts at `min` and states no usable end.
    pub min_plus_one: Real32,
}

/// One installed plugin.
pub struct PluginScan {
    pub required_features: Vec<String>,
    pub uri: String,
    pub name: String,
    pub ports: Vec<PortScan>,
}

/// What a [`PortScan`] says.
pub struct PortModel {
    pub symbol: Seq<char>,
    pub name: Seq<char>,
    pub is_input: bool,
    pub is_output: bool,
    pub is_audio: bool,
    pub is_control: bool,
    pub toggled: bool,
    pub integer: bool,
    pub min: Real32,
    pub max: Real32,
    pub default: Real32,
    pub min_plus_one: Real32,
}

impl View for PortScan {
    type V = PortModel;

    open spec fn view(&self) -> PortModel {
        PortModel {
            symbol: self.symbol@,
            name: self.name@,
            is_input: self.is_input,
            is_output: self.is_output,
            is_audio: self.is_audio,
            is_control: self.is_control,
            toggled: self.toggled,
            integer: self.integer,
            min: self.min,
            max: self.max,
            default: self.default,
            min_plus_one: self.min_plus_one,
        }
    }
}

/// What a [`PluginScan`] says.
pub struct ScanModel {
    pub required_features: Seq<Seq<char>>,
    pub uri: Seq<char>,
    pub name: Seq<char>,
    pub ports: Seq<PortModel>,
}

impl View for PluginScan {
    type V = ScanModel;

    open spec fn view(&self) -> ScanModel {
        ScanModel {
            required_features: text::texts(self.required_features@),
            uri: self.uri@,
            name: self.name@,
            ports: self.ports@.map_values(|p: PortScan| p@),
        }
    }
}

// ---- The catalogue -----------------------------------------------------------

/// One input control port of a plugin.
#[derive(Clone, Debug)]
pub struct ControlPort {
    pub symbol: String,
    pub name: String,
    pub min: Real32,
    pub max: Real32,
    pub default: Real32,
    pub toggled: bool,
    pub integer: bool,
}

/// A plugin that a filter chain can host.
#[derive(Clone, Debug)]
pub struct PluginInfo {
    pub uri: String,
    pub name: String,
    /// Port symbols. Only 1-in/1-out (instantiated once per stereo channel)
    /// and 2-in/2-out plugins are listed.
    pub audio_in: Vec<String>,
    pub audio_out: Vec<String>,
    pub controls: Vec<ControlPort>,
}

/// The installed plugins, by name.
pub struct Catalog {
    pub plugins: Vec<PluginInfo>,
}

/// What a [`ControlPort`] says.
pub struct ControlModel {
    pub symbol: Seq<char>,
    pub name: Seq<char>,
    pub min: Real32,
    pub max: Real32,
    pub default: Real32,
    pub toggled: bool,
    pub integer: bool,
}

impl View for ControlPort {
    type V = ControlModel;

    open spec fn view(&self) -> ControlModel {
        ControlModel {
            symbol: self.symbol@,
            name: self.name@,
            min: self.min,
            max: self.max,
            default: self.default,
            toggled: self.toggled,
            integer: self.integer,
        }
    }
}

/// What a [`PluginInfo`] says.
pub struct PluginModel {
    pub uri: Seq<char>,
    pub name: Seq<char>,
    pub audio_in: Seq<Seq<char>>,
    pub audio_out: Seq<Seq<char>>,
    pub controls: Seq<ControlModel>,
}

impl View for PluginInfo {
    type V = PluginModel;

    open spec fn view(&self) -> PluginModel {
        PluginModel {
            uri: self.uri@,
            name: self.name@,
            audio_in: text::texts(self.audio_in@),
            audio_out: text::texts(self.audio_out@),
            controls: self.controls@.map_values(|c: ControlPort| c@),
        }
    }
}

impl View for Catalog {
    type V = Seq<PluginModel>;

    open spec fn view(&self) -> Seq<PluginModel> {
        self.plugins@.map_values(|p: PluginInfo| p@)
    }
}

impl PluginModel {
    /// One audio port each way, or two.
    pub open spec fn mono_or_stereo(self) -> bool {
        ||| self.audio_in.len() == 1 && self.audio_out.len() == 1
        ||| self.audio_in.len() == 2 && self.audio_out.len() == 2
    }

    /// Whether the plugin has the ports that a stereo chain connects: one each
    /// way if it is mono, else two.
    pub open spec fn wireable(self) -> bool {
        if self.audio_in.len() == 1 {
            self.audio_out.len() >= 1
        } else {
            self.audio_in.len() >= 2 && self.audio_out.len() >= 2
        }
    }
}

impl PluginInfo {
    /// Whether the plugin has a single audio input.
    pub fn is_mono(&self) -> (yes: bool)
        ensures
            yes == (self@.audio_in.len() == 1),
    {
        self.audio_in.len() == 1
    }
}

/// The first plugin of a catalogue with a URI.
pub open spec fn lookup(plugins: Seq<PluginModel>, uri: Seq<char>) -> Option<PluginModel>
    decreases plugins.len(),
{
    if plugins.len() == 0 {
        None
    } else if plugins[0].uri == uri {
        Some(plugins[0])
    } else {
        lookup(plugins.skip(1), uri)
    }
}

impl Catalog {
    /// The first plugin with a URI.
    pub fn find(&self, uri: &str) -> (found: Option<&PluginInfo>)
        ensures
            match found {
                Some(p) => lookup(self@, uri@) == Some(p@),
                None => lookup(self@, uri@) is None,
            },
    {
        let mut i: usize = 0;
        assert(self@.skip(0) =~= self@);
        while i < self.plugins.len()
            invariant
                i <= self.plugins@.len(),
                lookup(self@, uri@) == lookup(self@.skip(i as int), uri@),
            decreases self.plugins@.len() - i,
        {
            proof {
                assert(self@.skip(i as int)[0] == self.plugins@[i as int]@);
                assert(self@.skip(i as int).skip(1) =~= self@.skip(i + 1));
            }
            if text::same_text(self.plugins[i].uri.as_str(), uri) {
                return Some(&self.plugins[i]);
            }
            i += 1;
        }
        None
    }
}

/// Whether plugins can be offered at all: the plugin library was found, so
/// there is a catalogue.
pub fn available(catalog: Option<&Catalog>) -> (yes: bool)
    ensures
        yes == (catalog is Some),
{
    catalog.is_some()
}

// ---- From scan to catalogue -----------------------------------------------------

/// The range and default of a control port: toggles go from 0.0 to 1.0, a
/// missing lower bound is 0.0, a missing or empty upper bound lies one above
/// the lower, and the default lies between them.
pub open spec fn control_of(p: PortModel) -> ControlModel {
    let low = if p.toggled { Real32 { bits: ZERO_32 } } else { p.min };
    let high = if p.toggled { Real32 { bits: ONE_32 } } else { p.max };
    let min = if low.finite() { low } else { Real32 { bits: ZERO_32 } };
    let above = if low.finite() { p.min_plus_one } else { Real32 { bits: ONE_32 } };
    let max = if !high.finite() || !min.below(high) { above } else { high };
    let default = if p.default.finite() { p.default } else { min };
    ControlModel {
        symbol: p.symbol,
        name: if p.name.len() == 0 { p.symbol } else { p.name },
        min,
        max,
        default: default.clamped(min, max),
        toggled: p.toggled,
        integer: p.integer,
    }
}

/// An audio input port.
pub open spec fn audio_input(p: PortModel) -> bool {
    p.is_audio && p.is_input
}

/// An audio output port.
pub open spec fn audio_output(p: PortModel) -> bool {
    p.is_audio && !p.is_input && p.is_output
}

/// A control that can be set; output controls are meters and reports.
pub open spec fn control_input(p: PortModel) -> bool {
    !p.is_audio && p.is_control && p.is_input
}

/// The catalogue entry of a scanned plugin.
pub open spec fn plugin_of(scan: ScanModel) -> PluginModel {
    PluginModel {
        uri: scan.uri,
        name: if scan.name.len() == 0 { scan.uri } else { scan.name },
        audio_in: scan.ports.filter(|p: PortModel| audio_input(p)).map_values(
            |p: PortModel| p.symbol,
        ),
        audio_out: scan.ports.filter(|p: PortModel| audio_output(p)).map_values(
            |p: PortModel| p.symbol,
        ),
        controls: scan.ports.filter(|p: PortModel| control_input(p)).map_values(
            |p: PortModel| control_of(p),
        ),
    }
}

/// Whether a scanned plugin is listed: it requires nothing the host does not
/// provide, it has a URI, and it is mono or stereo.
pub open spec fn listable(scan: ScanModel) -> bool {
    &&& forall|i: int|
        0 <= i < scan.required_features.len() ==> provided(#[trigger] scan.required_features[i])
    &&& scan.uri.len() > 0
    &&& plugin_of(scan).mono_or_stereo()
}

/// The catalogue entries of a scan, in the order of the scan.
pub open spec fn listed(scans: Seq<ScanModel>) -> Seq<PluginModel> {
    scans.filter(|s: ScanModel| listable(s)).map_values(|s: ScanModel| plugin_of(s))
}

/// Whether a list is sorted by name, whatever the case of the letters.
pub open spec fn sorted_by_name(plugins: Seq<PluginModel>) -> bool {
    forall|i: int, j: int|
        0 <= i < j < plugins.len() ==> !text::text_before(
            text::lowercase(#[trigger] plugins[j].name),
            text::lowercase(#[trigger] plugins[i].name),
        )
}

/// The plugins whose name is the same in lower case.
pub open spec fn of_name(plugins: Seq<PluginModel>, key: Seq<char>) -> Seq<PluginModel> {
    plugins.filter(|p: PluginModel| text::lowercase(p.name) == key)
}

/// Whether `out` is `plugins` sorted by name, plugins with the same name
/// staying in their order.
pub open spec fn stable_by_name(plugins: Seq<PluginModel>, out: Seq<PluginModel>) -> bool {
    &&& sorted_by_name(out)
    &&& forall|key: Seq<char>| #[trigger] of_name(out, key) == of_name(plugins, key)
}

fn scan_control(p: &PortScan) -> (out: ControlPort)
    ensures
        out@ == control_of(p@),
{
    let zero = Real32 { bits: ZERO_32 };
    let one = Real32 { bits: ONE_32 };
    let low = if p.toggled { zero } else { p.min };
    let high = if p.toggled { one } else { p.max };
    let (min, above) = if low.is_finite() { (low, p.min_plus_one) } else { (zero, one) };
    let max = if !high.is_finite() || !min.less(high) { above } else { high };
    let default = if p.default.is_finite() { p.default } else { min };
    ControlPort {
        symbol: p.symbol.clone(),
        name: if p.name.as_str().is_empty() { p.symbol.clone() } else { p.name.clone() },
        min,
        max,
        default: default.clamp(min, max),
        toggled: p.toggled,
        integer: p.integer,
    }
}

fn features_provided(required: &Vec<String>) -> (yes: bool)
    ensures
        yes == forall|i: int|
            0 <= i < required@.len() ==> provided(#[trigger] text::texts(required@)[i]),
{
    let mut i: usize = 0;
    while i < required.len()
        invariant
            i <= required@.len(),
            forall|j: int| 0 <= j < i ==> provided(#[trigger] text::texts(required@)[j]),
        decreases required@.len() - i,
    {
        if !supported_feature(required[i].as_str()) {
            assert(!provided(text::texts(required@)[i as int]));
            return false;
        }
        i += 1;
    }
    true
}

/// The catalogue entry of a scanned plugin, if it is listed.
pub fn scan_plugin(scan: &PluginScan) -> (out: Option<PluginInfo>)
    ensures
        match out {
            Some(p) => listable(scan@) && p@ == plugin_of(scan@),
            None => !listable(scan@),
        },
{
    if !features_provided(&scan.required_features) {
        proof {
            let i = choose|i: int|
                0 <= i < scan.required_features@.len() && !provided(
                    #[trigger] text::texts(scan.required_features@)[i],
                );
            assert(!provided(scan@.required_features[i]));
        }
        return None;
    }
    if scan.uri.as_str().is_empty() {
        return None;
    }
    let mut audio_in: Vec<String> = Vec::new();
    let mut audio_out: Vec<String> = Vec::new();
    let mut controls: Vec<ControlPort> = Vec::new();
    let ghost ports = scan@.ports;
    let ghost symbol = |p: PortModel| p.symbol;
    let ghost control = |p: PortModel| control_of(p);
    let ghost is_in = |p: PortModel| audio_input(p);
    let ghost is_out = |p: PortModel| audio_output(p);
    let ghost is_control = |p: PortModel| control_input(p);
    proof {
        lists::lemma_pick_none(ports, is_in, symbol);
        lists::lemma_pick_none(ports, is_out, symbol);
        lists::lemma_pick_none(ports, is_control, control);
        assert(text::texts(audio_in@) =~= Seq::empty());
        assert(controls@.map_values(|c: ControlPort| c@) =~= Seq::empty());
    }
    let mut i: usize = 0;
    while i < scan.ports.len()
        invariant
            i <= scan.ports@.len(),
            ports == scan@.ports,
            symbol == (|p: PortModel| p.symbol),
            control == (|p: PortModel| control_of(p)),
            is_in == (|p: PortModel| audio_input(p)),
            is_out == (|p: PortModel| audio_output(p)),
            is_control == (|p: PortModel| control_input(p)),
            text::texts(audio_in@) == ports.take(i as int).filter(is_in).map_values(symbol),
            text::texts(audio_out@) == ports.take(i as int).filter(is_out).map_values(symbol),
            controls@.map_values(|c: ControlPort| c@) == ports.take(i as int).filter(
                is_control,
            ).map_values(control),
        decreases scan.ports@.len() - i,
    {
        let p = &scan.ports[i];
        let ghost ins = audio_in@;
        let ghost outs = audio_out@;
        let ghost sets = controls@;
        proof {
            assert(ports[i as int] == p@);
            lists::lemma_pick_step(ports, i as int, is_in, symbol);
            lists::lemma_pick_step(ports, i as int, is_out, symbol);
            lists::lemma_pick_step(ports, i as int, is_control, control);
        }
        if p.is_audio {
            if p.is_input {
                audio_in.push(p.symbol.clone());
                assert(text::texts(audio_in@) =~= text::texts(ins).push(p@.symbol));
            } else if p.is_output {
                audio_out.push(p.symbol.clone());
                assert(text::texts(audio_out@) =~= text::texts(outs).push(p@.symbol));
            }
        } else if p.is_control && p.is_input {
            controls.push(scan_control(p));
            assert(controls@.map_values(|c: ControlPort| c@) =~= sets.map_values(
                |c: ControlPort| c@,
            ).push(control_of(p@)));
        }
        i += 1;
    }
    assert(ports.take(i as int) =~= ports);
    let stereo = audio_in.len() == 2 && audio_out.len() == 2;
    let mono = audio_in.len() == 1 && audio_out.len() == 1;
    proof {
        assert(text::texts(audio_in@).len() == audio_in@.len());
        assert(text::texts(audio_out@).len() == audio_out@.len());
    }
    if !(stereo || mono) {
        return None;
    }
    Some(
        PluginInfo {
            uri: scan.uri.clone(),
            name: if scan.name.as_str().is_empty() { scan.uri.clone() } else { scan.name.clone() },
            audio_in,
            audio_out,
            controls,
        },
    )
}

// ---- Sorting ------------------------------------------------------------------------

/// A plugin with the text it is sorted by.
pub struct Keyed {
    pub key: Seq<char>,
    pub plugin: PluginModel,
}

/// Some plugins with the texts they are sorted by.
pub open spec fn keyed(keys: Seq<String>, plugins: Seq<PluginInfo>) -> Seq<Keyed> {
    Seq::new(plugins.len(), |i: int| Keyed { key: keys[i]@, plugin: plugins[i]@ })
}

/// Whether a list is sorted by its texts.
pub open spec fn sorted_by_key(list: Seq<Keyed>) -> bool {
    forall|i: int, j: int|
        0 <= i < j < list.len() ==> !text::text_before(
            #[trigger] list[j].key,
            #[trigger] list[i].key,
        )
}

/// The items of a list with a text.
pub open spec fn of_key(list: Seq<Keyed>, key: Seq<char>) -> Seq<Keyed> {
    list.filter(|item: Keyed| item.key == key)
}

/// Whether `out` is `list` sorted by its texts, items with the same text
/// staying in their order.
pub open spec fn stable_by_key(list: Seq<Keyed>, out: Seq<Keyed>) -> bool {
    &&& sorted_by_key(out)
    &&& forall|key: Seq<char>| #[trigger] of_key(out, key) == of_key(list, key)
}

/// Puts a plugin behind those whose text does not come after its own.
fn insert_by_key(
    plugins: &mut Vec<PluginInfo>,
    keys: &mut Vec<String>,
    plugin: PluginInfo,
    key: String,
)
    requires
        old(keys)@.len() == old(plugins)@.len(),
        sorted_by_key(keyed(old(keys)@, old(plugins)@)),
    ensures
        final(keys)@.len() == final(plugins)@.len(),
        stable_by_key(
            keyed(old(keys)@, old(plugins)@).push(Keyed { key: key@, plugin: plugin@ }),
            keyed(final(keys)@, final(plugins)@),
        ),
{
    let ghost before = keyed(keys@, plugins@);
    let ghost item = Keyed { key: key@, plugin: plugin@ };
    let mut at: usize = plugins.len();
    while at > 0 && text::comes_before(key.as_str(), keys[at - 1].as_str())
        invariant
            at <= plugins@.len(),
            keys@.len() == plugins@.len(),
            before == keyed(keys@, plugins@),
            item == (Keyed { key: key@, plugin: plugin@ }),
            forall|i: int|
                at <= i < before.len() ==> text::text_before(item.key, #[trigger] before[i].key),
        decreases at,
    {
        at -= 1;
    }
    proof {
        let after = before.insert(at as int, item);
        assert forall|i: int, j: int| 0 <= i < j < after.len() implies !text::text_before(
            #[trigger] after[j].key,
            #[trigger] after[i].key,
        ) by {
            let ki = after[i].key;
            let kj = after[j].key;
            if j == at {
                // The item in front of the gap does not come after the new
                // one, and those before it do not come after that item.
                if text::text_before(kj, ki) {
                    let last = before[at - 1].key;
                    assert(!text::text_before(item.key, last));
                    if i < at - 1 {
                        assert(!text::text_before(last, before[i].key));
                        text::lemma_before_total(last, ki);
                        if last != ki {
                            text::lemma_before_transitive(kj, ki, last);
                        }
                    }
                }
            } else if i == at {
                assert(after[j] == before[j - 1]);
                if text::text_before(kj, ki) {
                    text::lemma_before_transitive(ki, kj, ki);
                    text::lemma_before_irreflexive(ki);
                }
            } else {
                let bi = if i < at { i } else { i - 1 };
                let bj = if j < at { j } else { j - 1 };
                assert(after[i] == before[bi]);
                assert(after[j] == before[bj]);
            }
        }
        assert forall|k: Seq<char>| #[trigger] of_key(after, k) == of_key(
            before.push(item),
            k,
        ) by {
            let keep = |item: Keyed| item.key == k;
            if keep(item) {
                assert forall|i: int| at <= i < before.len() implies !keep(
                    #[trigger] before[i],
                ) by {
                    text::lemma_before_irreflexive(k);
                    assert(text::text_before(item.key, before[i].key));
                }
            }
            lists::lemma_filter_insert(before, at as int, item, keep);
            lists::lemma_filter_push(before, item, keep);
        }
    }
    plugins.insert(at, plugin);
    keys.insert(at, key);
    assert(keyed(keys@, plugins@) =~= before.insert(at as int, item));
}

/// Sorts plugins by the texts given for them, in order. Plugins with the same
/// text stay in their order. Returns the plugins and their texts.
pub fn sort_by_keys(plugins: Vec<PluginInfo>, keys: Vec<String>) -> (out: (
    Vec<PluginInfo>,
    Vec<String>,
))
    requires
        plugins@.len() == keys@.len(),
    ensures
        out.0@.len() == out.1@.len(),
        stable_by_key(keyed(keys@, plugins@), keyed(out.1@, out.0@)),
{
    let ghost all = keyed(keys@, plugins@);
    let mut from = plugins;
    let mut from_keys = keys;
    let mut sorted: Vec<PluginInfo> = Vec::new();
    let mut sorted_keys: Vec<String> = Vec::new();
    let ghost mut done: int = 0;
    proof {
        assert(keyed(sorted_keys@, sorted@) =~= all.take(0));
        assert(keyed(from_keys@, from@) =~= all.skip(0));
    }
    while from.len() > 0
        invariant
            from@.len() == from_keys@.len(),
            0 <= done <= all.len(),
            keyed(from_keys@, from@) == all.skip(done),
            sorted@.len() == sorted_keys@.len(),
            stable_by_key(all.take(done), keyed(sorted_keys@, sorted@)),
        decreases from@.len(),
    {
        let ghost had = keyed(sorted_keys@, sorted@);
        let ghost rest = keyed(from_keys@, from@);
        let plugin = from.remove(0);
        let key = from_keys.remove(0);
        let ghost item = Keyed { key: key@, plugin: plugin@ };
        proof {
            assert(rest.len() == from@.len() + 1);
            assert(item == rest[0]);
            assert(item == all[done]);
            assert(all.take(done + 1) =~= all.take(done).push(item));
            assert(keyed(from_keys@, from@) =~= rest.skip(1));
            assert(rest.skip(1) =~= all.skip(done + 1));
        }
        insert_by_key(&mut sorted, &mut sorted_keys, plugin, key);
        proof {
            let now = keyed(sorted_keys@, sorted@);
            assert forall|k: Seq<char>| #[trigger] of_key(now, k) == of_key(
                all.take(done + 1),
                k,
            ) by {
                let same = |item: Keyed| item.key == k;
                lists::lemma_filter_push(had, item, same);
                lists::lemma_filter_push(all.take(done), item, same);
                assert(of_key(now, k) == of_key(had.push(item), k));
                assert(of_key(had, k) == of_key(all.take(done), k));
            }
            done = done + 1;
        }
    }
    assert(all.take(done) =~= all);
    (sorted, sorted_keys)
}

/// The plugins of a list, without their texts.
pub open spec fn unkeyed(list: Seq<Keyed>) -> Seq<PluginModel> {
    list.map_values(|item: Keyed| item.plugin)
}

/// Whether the text of every item is its name in lower case.
pub open spec fn named(list: Seq<Keyed>) -> bool {
    forall|i: int|
        0 <= i < list.len() ==> (#[trigger] list[i]).key == text::lowercase(list[i].plugin.name)
}

/// Picking by text is picking by name, where the text is the name.
proof fn lemma_of_name(list: Seq<Keyed>, key: Seq<char>)
    requires
        named(list),
    ensures
        of_name(unkeyed(list), key) == unkeyed(of_key(list, key)),
    decreases list.len(),
{
    let same = |item: Keyed| item.key == key;
    let same_name = |p: PluginModel| text::lowercase(p.name) == key;
    if list.len() == 0 {
        reveal(Seq::filter);
        assert(of_name(unkeyed(list), key) =~= unkeyed(of_key(list, key)));
    } else {
        let rest = list.drop_last();
        let item = list.last();
        assert(named(rest)) by {
            assert forall|i: int| 0 <= i < rest.len() implies (#[trigger] rest[i]).key
                == text::lowercase(rest[i].plugin.name) by {
                assert(rest[i] == list[i]);
            }
        }
        lemma_of_name(rest, key);
        assert(list =~= rest.push(item));
        assert(unkeyed(list) =~= unkeyed(rest).push(item.plugin));
        lists::lemma_filter_push(rest, item, same);
        lists::lemma_filter_push(unkeyed(rest), item.plugin, same_name);
        assert(item == list[list.len() - 1]);
        assert(same(item) == same_name(item.plugin));
        if same(item) {
            assert(unkeyed(of_key(rest, key).push(item)) =~= unkeyed(of_key(rest, key)).push(
                item.plugin,
            ));
        }
    }
}

/// Sorting by the names in lower case is sorting by name.
proof fn lemma_sorted_by_name(list: Seq<Keyed>, out: Seq<Keyed>)
    requires
        named(list),
        stable_by_key(list, out),
    ensures
        stable_by_name(unkeyed(list), unkeyed(out)),
{
    broadcast use vstd::seq_lib::group_filter_ensures;

    assert forall|i: int| 0 <= i < out.len() implies (#[trigger] out[i]).key == text::lowercase(
        out[i].plugin.name,
    ) by {
        let same = |item: Keyed| item.key == out[i].key;
        assert(same(out[i]));
        assert(out.filter(same).contains(out[i]));
        assert(of_key(out, out[i].key) == of_key(list, out[i].key));
        list.lemma_filter_contains_rev(same, out[i]);
    }
    assert(named(out));
    let sorted = unkeyed(out);
    assert forall|i: int, j: int| 0 <= i < j < sorted.len() implies !text::text_before(
        text::lowercase(#[trigger] sorted[j].name),
        text::lowercase(#[trigger] sorted[i].name),
    ) by {
        assert(sorted[i] == out[i].plugin);
        assert(sorted[j] == out[j].plugin);
        assert(!text::text_before(out[j].key, out[i].key));
    }
    assert forall|key: Seq<char>| #[trigger] of_name(sorted, key) == of_name(
        unkeyed(list),
        key,
    ) by {
        lemma_of_name(out, key);
        lemma_of_name(list, key);
        assert(of_key(out, key) == of_key(list, key));
    }
}

/// The catalogue of the scanned plugins that can be hosted, sorted by name.
pub fn build_catalog(scans: &Vec<PluginScan>) -> (out: Catalog)
    ensures
        stable_by_name(listed(scans@.map_values(|s: PluginScan| s@)), out@),
{
    let mut plugins: Vec<PluginInfo> = Vec::new();
    let mut keys: Vec<String> = Vec::new();
    let ghost models = scans@.map_values(|s: PluginScan| s@);
    let ghost keep = |s: ScanModel| listable(s);
    let ghost entry = |s: ScanModel| plugin_of(s);
    proof {
        lists::lemma_pick_none(models, keep, entry);
        assert(unkeyed(keyed(keys@, plugins@)) =~= listed(models.take(0)));
    }
    let mut i: usize = 0;
    while i < scans.len()
        invariant
            i <= scans@.len(),
            models == scans@.map_values(|s: PluginScan| s@),
            keep == (|s: ScanModel| listable(s)),
            entry == (|s: ScanModel| plugin_of(s)),
            keys@.len() == plugins@.len(),
            named(keyed(keys@, plugins@)),
            unkeyed(keyed(keys@, plugins@)) == listed(models.take(i as int)),
        decreases scans@.len() - i,
    {
        let ghost had = keyed(keys@, plugins@);
        proof {
            lists::lemma_pick_step(models, i as int, keep, entry);
            assert(models[i as int] == scans@[i as int]@);
        }
        if let Some(plugin) = scan_plugin(&scans[i]) {
            let key = text::to_lowercase(plugin.name.as_str());
            let ghost item = Keyed { key: key@, plugin: plugin@ };
            keys.push(key);
            plugins.push(plugin);
            proof {
                let now = keyed(keys@, plugins@);
                assert(now =~= had.push(item));
                assert(unkeyed(now) =~= unkeyed(had).push(item.plugin));
            }
        }
        i += 1;
    }
    assert(models.take(i as int) =~= models);
    let ghost list = keyed(keys@, plugins@);
    let (sorted, sorted_keys) = sort_by_keys(plugins, keys);
    let out = Catalog { plugins: sorted };
    proof {
        lemma_sorted_by_name(list, keyed(sorted_keys@, sorted@));
        assert(out@ =~= unkeyed(keyed(sorted_keys@, sorted@)));
    }
    out
}

// ---- Laws -----------------------------------------------------------------------

/// A control port has finite bounds in order, and its default lies between
/// them, whatever the plugin states. The sum of a finite lower bound and one is
/// finite and no smaller than the bound. Where it is greater, as it is unless
/// the bound is too large for single precision to tell, the range is not
/// empty.
pub proof fn law_control_range(p: PortModel)
    requires
        p.min.finite() ==> p.min_plus_one.finite() && !p.min_plus_one.below(p.min),
    ensures
        control_of(p).min.finite(),
        control_of(p).max.finite(),
        control_of(p).default.finite(),
        !control_of(p).max.below(control_of(p).min),
        !control_of(p).default.below(control_of(p).min),
        !control_of(p).max.below(control_of(p).default),
        (p.min.finite() ==> p.min.below(p.min_plus_one)) ==> control_of(p).min.below(
            control_of(p).max,
        ),
{
}

/// Every plugin of a catalogue came out of the scan as one that is listed: it
/// has a URI and a name, and the ports that a chain connects.
pub proof fn law_catalog_sound(scans: Seq<ScanModel>, out: Seq<PluginModel>, i: int)
    requires
        stable_by_name(listed(scans), out),
        0 <= i < out.len(),
    ensures
        exists|k: int|
            0 <= k < scans.len() && listable(#[trigger] scans[k]) && out[i] == plugin_of(scans[k]),
        out[i].mono_or_stereo(),
        out[i].wireable(),
        out[i].uri.len() > 0,
        out[i].name.len() > 0,
{
    broadcast use vstd::seq_lib::group_filter_ensures;

    let entries = listed(scans);
    let key = text::lowercase(out[i].name);
    let same = |p: PluginModel| text::lowercase(p.name) == key;
    let keep = |s: ScanModel| listable(s);
    assert(out.filter(same).contains(out[i]));
    assert(of_name(out, key) == of_name(entries, key));
    entries.lemma_filter_contains_rev(same, out[i]);
    let j = choose|j: int| 0 <= j < entries.len() && entries[j] == out[i];
    let kept = scans.filter(keep);
    assert(keep(kept[j]));
    assert(kept.contains(kept[j]));
    scans.lemma_filter_contains_rev(keep, kept[j]);
    let k = choose|k: int| 0 <= k < scans.len() && scans[k] == kept[j];
    assert(listable(scans[k]) && out[i] == plugin_of(scans[k]));
}

/// No plugin that can be hosted is missing from the catalogue.
pub proof fn law_catalog_complete(scans: Seq<ScanModel>, out: Seq<PluginModel>, k: int)
    requires
        stable_by_name(listed(scans), out),
        0 <= k < scans.len(),
        listable(scans[k]),
    ensures
        out.contains(plugin_of(scans[k])),
{
    broadcast use vstd::seq_lib::group_filter_ensures;

    let entries = listed(scans);
    let keep = |s: ScanModel| listable(s);
    let plugin = plugin_of(scans[k]);
    let key = text::lowercase(plugin.name);
    let same = |p: PluginModel| text::lowercase(p.name) == key;
    assert(keep(scans[k]));
    assert(scans.filter(keep).contains(scans[k]));
    let j = choose|j: int| 0 <= j < scans.filter(keep).len() && scans.filter(keep)[j] == scans[k];
    assert(entries[j] == plugin);
    assert(same(entries[j]));
    assert(entries.filter(same).contains(entries[j]));
    assert(of_name(out, key) == of_name(entries, key));
    out.lemma_filter_contains_rev(same, plugin);
}

/// A list has one stable arrangement by name, so a scan has one catalogue.
pub proof fn law_catalog_unique(
    plugins: Seq<PluginModel>,
    one: Seq<PluginModel>,
    other: Seq<PluginModel>,
)
    requires
        stable_by_name(plugins, one),
        stable_by_name(plugins, other),
    ensures
        one == other,
{
    assert forall|key: Seq<char>| #[trigger] of_name(one, key) == of_name(other, key) by {
        assert(of_name(one, key) == of_name(plugins, key));
        assert(of_name(other, key) == of_name(plugins, key));
    }
    lemma_same_arrangement(one, other);
}

proof fn lemma_first_of_name(plugins: Seq<PluginModel>, key: Seq<char>)
    requires
        plugins.len() > 0,
    ensures
        of_name(plugins, key) == if text::lowercase(plugins[0].name) == key {
            seq![plugins[0]] + of_name(plugins.skip(1), key)
        } else {
            of_name(plugins.skip(1), key)
        },
{
    let same = |p: PluginModel| text::lowercase(p.name) == key;
    let head = seq![plugins[0]];
    assert(plugins =~= head + plugins.skip(1));
    Seq::filter_distributes_over_add(head, plugins.skip(1), same);
    assert(head =~= Seq::<PluginModel>::empty().push(plugins[0]));
    lists::lemma_filter_push(Seq::<PluginModel>::empty(), plugins[0], same);
    reveal(Seq::filter);
    assert(Seq::<PluginModel>::empty().filter(same) =~= Seq::empty());
    if same(plugins[0]) {
        assert(head.filter(same) =~= head);
    } else {
        assert(head.filter(same) + of_name(plugins.skip(1), key) =~= of_name(
            plugins.skip(1),
            key,
        ));
    }
}

proof fn lemma_first_name_least(one: Seq<PluginModel>, other: Seq<PluginModel>)
    requires
        one.len() > 0,
        sorted_by_name(other),
        forall|key: Seq<char>| #[trigger] of_name(one, key) == of_name(other, key),
    ensures
        other.len() > 0,
        !text::text_before(
            text::lowercase(one[0].name),
            text::lowercase(other[0].name),
        ),
{
    let key = text::lowercase(one[0].name);
    let same = |p: PluginModel| text::lowercase(p.name) == key;
    lemma_first_of_name(one, key);
    assert(of_name(one, key)[0] == one[0]);
    assert(of_name(other, key) == of_name(one, key));
    assert(other.filter(same).contains(one[0]));
    other.lemma_filter_contains_rev(same, one[0]);
    let j = choose|j: int| 0 <= j < other.len() && other[j] == one[0];
    if j == 0 {
        text::lemma_before_irreflexive(key);
    }
}

proof fn lemma_same_arrangement(one: Seq<PluginModel>, other: Seq<PluginModel>)
    requires
        sorted_by_name(one),
        sorted_by_name(other),
        forall|key: Seq<char>| #[trigger] of_name(one, key) == of_name(other, key),
    ensures
        one == other,
    decreases one.len(),
{
    if one.len() == 0 {
        if other.len() > 0 {
            lemma_first_name_least(other, one);
        }
        assert(one =~= other);
    } else {
        lemma_first_name_least(one, other);
        lemma_first_name_least(other, one);
        let a = text::lowercase(one[0].name);
        let b = text::lowercase(other[0].name);
        text::lemma_before_total(a, b);
        assert(a == b);
        lemma_first_of_name(one, a);
        lemma_first_of_name(other, a);
        assert(of_name(one, a)[0] == one[0]);
        assert(of_name(other, a)[0] == other[0]);
        let rest = one.skip(1);
        let more = other.skip(1);
        assert forall|key: Seq<char>| #[trigger] of_name(rest, key) == of_name(more, key) by {
            lemma_first_of_name(one, key);
            lemma_first_of_name(other, key);
            assert(of_name(one, key) == of_name(other, key));
            if key == a {
                assert(of_name(one, key).skip(1) =~= of_name(rest, key));
                assert(of_name(other, key).skip(1) =~= of_name(more, key));
            }
        }
        lemma_same_arrangement(rest, more);
        assert(one =~= seq![one[0]] + rest);
        assert(other =~= seq![other[0]] + more);
    }
}

/// Whether a listed control is what a scanned control port says: what it is
/// called, whether it is a switch, whether it takes whole numbers, its range
/// and its default.
pub open spec fn shows_port(c: ControlModel, p: PortModel) -> bool {
    &&& c.symbol == p.symbol
    &&& c.name == if p.name.len() > 0 {
        p.name
    } else {
        p.symbol
    }
    &&& c.toggled == p.toggled
    &&& c.integer == p.integer
    // The range of a switch.
    &&& p.toggled ==> c.min.bits == 0 && c.max.bits == 0x3f80_0000
    // A range that the plugin states, in part or in whole.
    &&& !p.toggled && p.min.finite() ==> c.min == p.min
    &&& !p.toggled && !p.min.finite() ==> c.min.bits == 0
    &&& !p.toggled && p.max.finite() && c.min.below(p.max) ==> c.max == p.max
    &&& !p.toggled && !(p.max.finite() && c.min.below(p.max)) ==> c.max == if p.min.finite() {
        p.min_plus_one
    } else {
        Real32 { bits: 0x3f80_0000 }
    }
    // The default that the plugin states, brought into the range.
    &&& p.default.finite() && p.default.below(c.min) ==> c.default == c.min
    &&& p.default.finite() && !p.default.below(c.min) && c.max.below(p.default) ==> c.default
        == c.max
    &&& p.default.finite() && !p.default.below(c.min) && !c.max.below(p.default) ==> c.default
        == p.default
    &&& !p.default.finite() && !c.max.below(c.min) ==> c.default == c.min
}

/// The audio input ports of a plugin, in order.
pub open spec fn ports_in(scan: ScanModel) -> Seq<PortModel> {
    scan.ports.filter(|p: PortModel| p.is_audio && p.is_input)
}

/// The audio output ports of a plugin, in order.
pub open spec fn ports_out(scan: ScanModel) -> Seq<PortModel> {
    scan.ports.filter(|p: PortModel| p.is_audio && p.is_output && !p.is_input)
}

/// The control input ports of a plugin, in order.
pub open spec fn ports_set(scan: ScanModel) -> Seq<PortModel> {
    scan.ports.filter(|p: PortModel| p.is_control && p.is_input && !p.is_audio)
}

/// Whether a listed plugin is what a scanned one says, port by port.
pub open spec fn shows_plugin(p: PluginModel, scan: ScanModel) -> bool {
    &&& p.uri == scan.uri
    &&& p.name == if scan.name.len() > 0 {
        scan.name
    } else {
        scan.uri
    }
    &&& p.audio_in.len() == ports_in(scan).len()
    &&& forall|k: int|
        0 <= k < p.audio_in.len() ==> #[trigger] p.audio_in[k] == ports_in(scan)[k].symbol
    &&& p.audio_out.len() == ports_out(scan).len()
    &&& forall|k: int|
        0 <= k < p.audio_out.len() ==> #[trigger] p.audio_out[k] == ports_out(scan)[k].symbol
    &&& p.controls.len() == ports_set(scan).len()
    &&& forall|k: int|
        0 <= k < p.controls.len() ==> shows_port(#[trigger] p.controls[k], ports_set(scan)[k])
}

/// Whether a plugin can be hosted: it has a URI, one audio port each way or
/// two, and needs no feature but the six that the host provides.
pub open spec fn can_be_hosted(scan: ScanModel) -> bool {
    &&& scan.uri.len() > 0
    &&& ports_in(scan).len() == ports_out(scan).len()
    &&& ports_in(scan).len() == 1 || ports_in(scan).len() == 2
    &&& forall|i: int|
        0 <= i < scan.required_features.len() ==> {
            let f = #[trigger] scan.required_features[i];
            ||| f == "http://lv2plug.in/ns/ext/urid#map"@
            ||| f == "http://lv2plug.in/ns/ext/urid#unmap"@
            ||| f == "http://lv2plug.in/ns/ext/options#options"@
            ||| f == "http://lv2plug.in/ns/ext/worker#schedule"@
            ||| f == "http://lv2plug.in/ns/ext/buf-size#boundedBlockLength"@
            ||| f == "http://lv2plug.in/ns/ext/buf-size#powerOf2BlockLength"@
        }
}

/// Whether a listed plugin is what a scanned one that can be hosted says.
pub open spec fn comes_of(p: PluginModel, scans: Seq<ScanModel>) -> bool {
    exists|k: int|
        0 <= k < scans.len() && can_be_hosted(#[trigger] scans[k]) && shows_plugin(p, scans[k])
}

/// A control is listed as its port says: in particular it is a switch exactly
/// if the port has the toggled property, and takes whole numbers exactly if the
/// port has the integer property.
pub proof fn law_control_as_scanned(p: PortModel)
    ensures
        shows_port(control_of(p), p),
{
}

/// A plugin is listed as it was scanned: its k-th input, output and control are
/// those of its k-th port of that sort.
pub proof fn law_plugin_as_scanned(scan: ScanModel)
    ensures
        shows_plugin(plugin_of(scan), scan),
{
    lemma_port_sorts(scan);
}

proof fn lemma_port_sorts(scan: ScanModel)
    ensures
        ports_in(scan) == scan.ports.filter(|p: PortModel| audio_input(p)),
        ports_out(scan) == scan.ports.filter(|p: PortModel| audio_output(p)),
        ports_set(scan) == scan.ports.filter(|p: PortModel| control_input(p)),
{
    assert((|p: PortModel| p.is_audio && p.is_input) =~= (|p: PortModel| audio_input(p)));
    assert((|p: PortModel| p.is_audio && p.is_output && !p.is_input) =~= (|p: PortModel|
        audio_output(p)));
    assert((|p: PortModel| p.is_control && p.is_input && !p.is_audio) =~= (|p: PortModel|
        control_input(p)));
}

/// The host provides six features and no others.
pub proof fn law_features(feature: Seq<char>)
    ensures
        provided(feature) <==> {
            ||| feature == "http://lv2plug.in/ns/ext/urid#map"@
            ||| feature == "http://lv2plug.in/ns/ext/urid#unmap"@
            ||| feature == "http://lv2plug.in/ns/ext/options#options"@
            ||| feature == "http://lv2plug.in/ns/ext/worker#schedule"@
            ||| feature == "http://lv2plug.in/ns/ext/buf-size#boundedBlockLength"@
            ||| feature == "http://lv2plug.in/ns/ext/buf-size#powerOf2BlockLength"@
        },
{
    assert(SUPPORTED_FEATURES[0]@ == "http://lv2plug.in/ns/ext/urid#map"@);
    assert(SUPPORTED_FEATURES[1]@ == "http://lv2plug.in/ns/ext/urid#unmap"@);
    assert(SUPPORTED_FEATURES[2]@ == "http://lv2plug.in/ns/ext/options#options"@);
    assert(SUPPORTED_FEATURES[3]@ == "http://lv2plug.in/ns/ext/worker#schedule"@);
    assert(SUPPORTED_FEATURES[4]@ == "http://lv2plug.in/ns/ext/buf-size#boundedBlockLength"@);
    assert(SUPPORTED_FEATURES[5]@ == "http://lv2plug.in/ns/ext/buf-size#powerOf2BlockLength"@);
}

/// A plugin is listed exactly if it can be hosted.
pub proof fn law_hosted_are_listed(scan: ScanModel)
    ensures
        listable(scan) == can_be_hosted(scan),
{
    lemma_port_sorts(scan);
    law_plugin_as_scanned(scan);
    assert forall|i: int| 0 <= i < scan.required_features.len() implies provided(
        #[trigger] scan.required_features[i],
    ) == {
        let f = scan.required_features[i];
        ||| f == "http://lv2plug.in/ns/ext/urid#map"@
        ||| f == "http://lv2plug.in/ns/ext/urid#unmap"@
        ||| f == "http://lv2plug.in/ns/ext/options#options"@
        ||| f == "http://lv2plug.in/ns/ext/worker#schedule"@
        ||| f == "http://lv2plug.in/ns/ext/buf-size#boundedBlockLength"@
        ||| f == "http://lv2plug.in/ns/ext/buf-size#powerOf2BlockLength"@
    } by {
        law_features(scan.required_features[i]);
    }
}

/// Every plugin of a catalogue is what a scanned plugin that can be hosted
/// says, and every such plugin is in the catalogue.
pub proof fn law_catalog_as_scanned(scans: Seq<ScanModel>, out: Seq<PluginModel>)
    requires
        stable_by_name(listed(scans), out),
    ensures
        forall|i: int|
            0 <= i < out.len() ==> comes_of(#[trigger] out[i], scans),
        forall|k: int|
            0 <= k < scans.len() && can_be_hosted(#[trigger] scans[k]) ==> exists|i: int|
                0 <= i < out.len() && shows_plugin(#[trigger] out[i], scans[k]),
{
    assert forall|i: int| 0 <= i < out.len() implies comes_of(#[trigger] out[i], scans) by {
        law_catalog_sound(scans, out, i);
        let k = choose|k: int|
            0 <= k < scans.len() && listable(#[trigger] scans[k]) && out[i] == plugin_of(scans[k]);
        law_hosted_are_listed(scans[k]);
        law_plugin_as_scanned(scans[k]);
        assert(can_be_hosted(scans[k]) && shows_plugin(out[i], scans[k]));
    }
    assert forall|k: int| 0 <= k < scans.len() && can_be_hosted(#[trigger] scans[k]) implies exists|
        i: int,
    | 0 <= i < out.len() && shows_plugin(#[trigger] out[i], scans[k]) by {
        law_hosted_are_listed(scans[k]);
        law_plugin_as_scanned(scans[k]);
        law_catalog_complete(scans, out, k);
        let i = choose|i: int| 0 <= i < out.len() && out[i] == plugin_of(scans[k]);
        assert(shows_plugin(out[i], scans[k]));
    }
}

/// A catalogue is in the order of the names in lower case.
pub proof fn law_catalog_sorted(plugins: Seq<PluginModel>, out: Seq<PluginModel>)
    requires
        stable_by_name(plugins, out),
    ensures
        forall|i: int, j: int|
            0 <= i < j < out.len() ==> {
                let first = text::lowercase((#[trigger] out[i]).name);
                let second = text::lowercase((#[trigger] out[j]).name);
                first == second || text::text_before(first, second)
            },
{
    assert forall|i: int, j: int| 0 <= i < j < out.len() implies {
        let first = text::lowercase((#[trigger] out[i]).name);
        let second = text::lowercase((#[trigger] out[j]).name);
        first == second || text::text_before(first, second)
    } by {
        assert(!text::text_before(text::lowercase(out[j].name), text::lowercase(out[i].name)));
        text::lemma_before_total(text::lowercase(out[i].name), text::lowercase(out[j].name));
    }
}

/// A catalogue finds the first of its plugins with a URI, and nothing where it
/// has none.
pub proof fn law_lookup(plugins: Seq<PluginModel>, uri: Seq<char>)
    ensures
        lookup(plugins, uri) is None <==> forall|i: int|
            0 <= i < plugins.len() ==> (#[trigger] plugins[i]).uri != uri,
        forall|i: int|
            0 <= i < plugins.len() && (#[trigger] plugins[i]).uri == uri && (forall|j: int|
                0 <= j < i ==> (#[trigger] plugins[j]).uri != uri) ==> lookup(plugins, uri)
                == Some(plugins[i]),
    decreases plugins.len(),
{
    if plugins.len() > 0 {
        let rest = plugins.skip(1);
        law_lookup(rest, uri);
        assert forall|i: int|
            0 <= i < plugins.len() && (#[trigger] plugins[i]).uri == uri && (forall|j: int|
                0 <= j < i ==> (#[trigger] plugins[j]).uri != uri) implies lookup(plugins, uri)
            == Some(plugins[i]) by {
            if i > 0 {
                assert(plugins[0].uri != uri);
                assert(rest[i - 1] == plugins[i]);
                assert forall|j: int| 0 <= j < i - 1 implies (#[trigger] rest[j]).uri != uri by {
                    assert(rest[j] == plugins[j + 1]);
                }
            }
        }
        if forall|i: int| 0 <= i < plugins.len() ==> (#[trigger] plugins[i]).uri != uri {
            assert forall|i: int| 0 <= i < rest.len() implies (#[trigger] rest[i]).uri != uri by {
                assert(rest[i] == plugins[i + 1]);
            }
            assert(plugins[0].uri != uri);
        }
        if lookup(plugins, uri) is None {
            assert forall|i: int| 0 <= i < plugins.len() implies (#[trigger] plugins[i]).uri
                != uri by {
                if i > 0 {
                    assert(plugins[i] == rest[i - 1]);
                }
            }
        }
    }
}

} // verus!
