//! What the strip of a channel and its effects dialog show.

use crate::config::{Config, EffectConfig, EffectModel};
use crate::lv2::{Catalog, ControlModel, ControlPort, PluginInfo, PluginModel};
use crate::number::{Real32, Real64, HALF_32, HALF_64};
use crate::{chain, channels, config, effects, text};
use vstd::prelude::*;
use vstd::string::*;

verus! {

// ---- Strips ---------------------------------------------------------------------------

/// Fixed width of every channel strip (and the add-channel card).
pub const STRIP_WIDTH: i32 = 150;

/// Wider strip while the third (VOD) fader is shown.
pub const STRIP_WIDTH_VOD: i32 = 200;

/// The width of a strip, with the VOD fader or without.
pub fn strip_width(vod: bool) -> (width: i32)
    ensures
        width == if vod {
            STRIP_WIDTH_VOD
        } else {
            STRIP_WIDTH
        },
{
    if vod {
        STRIP_WIDTH_VOD
    } else {
        STRIP_WIDTH
    }
}

/// What the button that removes a channel says. It cannot be used for built-in
/// channels.
pub fn remove_hint(permanent: bool) -> (hint: &'static str)
    ensures
        hint@ == if permanent {
            "Built-in channels cannot be removed"@
        } else {
            "Remove channel"@
        },
{
    if permanent {
        "Built-in channels cannot be removed"
    } else {
        "Remove channel"
    }
}

// ---- Values ---------------------------------------------------------------------------

/// The value of a parameter: one that was set, or the default of the plugin.
#[derive(Clone, Copy, Debug, PartialEq, Eq, Structural)]
pub enum Setting {
    Chosen(Real64),
    Default(Real32),
}

impl Setting {
    /// Whether a switch with this value is on: the value is above one half.
    pub open spec fn on(self) -> bool {
        match self {
            Setting::Chosen(v) => (Real64 { bits: HALF_64 }).below(v),
            Setting::Default(v) => (Real32 { bits: HALF_32 }).below(v),
        }
    }

    /// Whether a switch with this value is on.
    pub fn switch_on(self) -> (yes: bool)
        ensures
            yes == self.on(),
    {
        match self {
            Setting::Chosen(v) => (Real64 { bits: HALF_64 }).less(v),
            Setting::Default(v) => (Real32 { bits: HALF_32 }).less(v),
        }
    }
}

/// One parameter of an effect.
#[derive(Debug, PartialEq, Eq)]
pub struct ControlRow {
    pub symbol: String,
    pub title: String,
    pub min: Real32,
    pub max: Real32,
    /// A switch instead of a slider.
    pub toggled: bool,
    pub integer: bool,
    pub setting: Setting,
}

/// What a [`ControlRow`] says.
pub struct ControlRowModel {
    pub symbol: Seq<char>,
    pub title: Seq<char>,
    pub min: Real32,
    pub max: Real32,
    pub toggled: bool,
    pub integer: bool,
    pub setting: Setting,
}

impl View for ControlRow {
    type V = ControlRowModel;

    open spec fn view(&self) -> ControlRowModel {
        ControlRowModel {
            symbol: self.symbol@,
            title: self.title@,
            min: self.min,
            max: self.max,
            toggled: self.toggled,
            integer: self.integer,
            setting: self.setting,
        }
    }
}

/// One effect of a chain.
#[derive(Debug, PartialEq, Eq)]
pub struct EffectRow {
    pub id: u64,
    pub title: String,
    pub subtitle: String,
    pub enabled: bool,
    pub can_move_up: bool,
    pub can_move_down: bool,
    /// Whether there are parameters to show.
    pub expandable: bool,
    pub mono: bool,
    pub controls: Vec<ControlRow>,
}

/// What an [`EffectRow`] says.
#[verifier::ext_equal]
pub struct EffectRowModel {
    pub id: u64,
    pub title: Seq<char>,
    pub subtitle: Seq<char>,
    pub enabled: bool,
    pub can_move_up: bool,
    pub can_move_down: bool,
    pub expandable: bool,
    pub mono: bool,
    pub controls: Seq<ControlRowModel>,
}

/// What some rows say.
pub open spec fn control_row_models(rows: Seq<ControlRow>) -> Seq<ControlRowModel> {
    rows.map_values(|r: ControlRow| r@)
}

impl View for EffectRow {
    type V = EffectRowModel;

    open spec fn view(&self) -> EffectRowModel {
        EffectRowModel {
            id: self.id,
            title: self.title@,
            subtitle: self.subtitle@,
            enabled: self.enabled,
            can_move_up: self.can_move_up,
            can_move_down: self.can_move_down,
            expandable: self.expandable,
            mono: self.mono,
            controls: control_row_models(self.controls@),
        }
    }
}

// ---- Effect rows ----------------------------------------------------------------------

/// The row of a parameter: the value that was set, or the default.
pub open spec fn control_row(e: EffectModel, port: ControlModel) -> ControlRowModel {
    ControlRowModel {
        symbol: port.symbol,
        title: port.name,
        min: port.min,
        max: port.max,
        toggled: port.toggled,
        integer: port.integer,
        setting: match effects::parameter(e.controls, port.symbol) {
            Some(p) => Setting::Chosen(p.value),
            None => Setting::Default(port.default),
        },
    }
}

/// The rows of the parameters of an effect.
pub open spec fn control_rows(e: EffectModel, ports: Seq<ControlModel>) -> Seq<ControlRowModel> {
    ports.map_values(|port: ControlModel| control_row(e, port))
}

/// The row of the effect at a place of a chain.
pub open spec fn effect_row(
    all: Seq<EffectModel>,
    i: int,
    plugins: Option<Seq<PluginModel>>,
) -> EffectRowModel {
    let e = all[i];
    let row = EffectRowModel {
        id: e.id,
        title: e.name,
        subtitle: "Plugin is not installed — the effect is skipped"@,
        enabled: e.enabled,
        can_move_up: i > 0,
        can_move_down: i + 1 < all.len(),
        expandable: false,
        mono: false,
        controls: Seq::empty(),
    };
    match chain::installed(plugins, e.uri) {
        Some(info) => EffectRowModel {
            subtitle: e.uri,
            expandable: info.controls.len() > 0,
            mono: info.audio_in.len() == 1,
            controls: control_rows(e, info.controls),
            ..row
        },
        None => row,
    }
}

/// The rows of a chain.
pub open spec fn effect_row_list(all: Seq<EffectModel>, plugins: Option<Seq<PluginModel>>) -> Seq<
    EffectRowModel,
> {
    Seq::new(all.len(), |i: int| effect_row(all, i, plugins))
}

/// What some rows say.
pub open spec fn effect_row_models(rows: Seq<EffectRow>) -> Seq<EffectRowModel> {
    rows.map_values(|r: EffectRow| r@)
}

fn make_control_row(e: &EffectConfig, port: &ControlPort) -> (out: ControlRow)
    ensures
        out@ == control_row(e@, port@),
{
    let setting = match e.control(port.symbol.as_str()) {
        Some(p) => Setting::Chosen(p.value),
        None => Setting::Default(port.default),
    };
    ControlRow {
        symbol: port.symbol.clone(),
        title: port.name.clone(),
        min: port.min,
        max: port.max,
        toggled: port.toggled,
        integer: port.integer,
        setting,
    }
}

fn make_control_rows(e: &EffectConfig, info: &PluginInfo) -> (out: Vec<ControlRow>)
    ensures
        control_row_models(out@) == control_rows(e@, info@.controls),
{
    let ghost ports = info@.controls;
    let mut out: Vec<ControlRow> = Vec::new();
    let mut i: usize = 0;
    assert(control_row_models(out@) =~= control_rows(e@, ports.take(0)));
    while i < info.controls.len()
        invariant
            i <= info.controls@.len(),
            ports == info@.controls,
            control_row_models(out@) == control_rows(e@, ports.take(i as int)),
        decreases info.controls@.len() - i,
    {
        let ghost had = out@;
        out.push(make_control_row(e, &info.controls[i]));
        proof {
            assert(ports[i as int] == info.controls@[i as int]@);
            let row = control_row(e@, ports[i as int]);
            assert(control_row_models(out@) =~= control_row_models(had).push(row));
            assert(control_rows(e@, ports.take(i + 1)) =~= control_rows(
                e@,
                ports.take(i as int),
            ).push(row));
        }
        i += 1;
    }
    assert(ports.take(i as int) =~= ports);
    out
}

fn make_effect_row(all: &Vec<EffectConfig>, i: usize, catalog: Option<&Catalog>) -> (out:
    EffectRow)
    requires
        i < all@.len(),
    ensures
        out@ == effect_row(effects::effect_models(all@), i as int, chain::plugins_of(catalog)),
{
    let e = &all[i];
    let found = chain::find_plugin(catalog, e.uri.as_str());
    assert(effects::effect_models(all@)[i as int] == e@);
    let can_move_up = i > 0;
    let can_move_down = i < all.len() - 1;
    match found {
        Some(info) => {
            let out = EffectRow {
                id: e.id,
                title: e.name.clone(),
                subtitle: e.uri.clone(),
                enabled: e.enabled,
                can_move_up,
                can_move_down,
                expandable: info.controls.len() > 0,
                mono: info.is_mono(),
                controls: make_control_rows(e, info),
            };
            assert(info@.controls.len() == info.controls@.len());
            out
        },
        None => {
            let out = EffectRow {
                id: e.id,
                title: e.name.clone(),
                subtitle: "Plugin is not installed — the effect is skipped".to_owned(),
                enabled: e.enabled,
                can_move_up,
                can_move_down,
                expandable: false,
                mono: false,
                controls: Vec::new(),
            };
            assert(control_row_models(out.controls@) =~= Seq::empty());
            out
        },
    }
}

/// The effects of a channel, none if there is no such channel.
pub open spec fn effects_of(cfg: config::ConfigModel, id: u64) -> Seq<EffectModel> {
    if config::has_channel(cfg.channels, id) {
        channels::channel_of(cfg.channels, id).effects
    } else {
        Seq::empty()
    }
}

impl Config {
    /// The rows of the chain of a channel, in processing order.
    pub fn effect_rows(&self, id: u64, catalog: Option<&Catalog>) -> (out: Vec<EffectRow>)
        ensures
            effect_row_models(out@) == effect_row_list(
                effects_of(self@, id),
                chain::plugins_of(catalog),
            ),
    {
        let mut out: Vec<EffectRow> = Vec::new();
        proof {
            channels::lemma_channel_of(self@.channels, id);
        }
        let ghost plugins = chain::plugins_of(catalog);
        match self.channel(id) {
            Some(ch) => {
                let ghost all = ch@.effects;
                let mut i: usize = 0;
                assert(effect_row_models(out@) =~= effect_row_list(all, plugins).take(0));
                while i < ch.effects.len()
                    invariant
                        i <= ch.effects@.len(),
                        all == effects::effect_models(ch.effects@),
                        plugins == chain::plugins_of(catalog),
                        effect_row_models(out@) == effect_row_list(all, plugins).take(i as int),
                    decreases ch.effects@.len() - i,
                {
                    let ghost had = out@;
                    out.push(make_effect_row(&ch.effects, i, catalog));
                    proof {
                        let row = effect_row(all, i as int, plugins);
                        assert(effect_row_models(out@) =~= effect_row_models(had).push(row));
                        assert(effect_row_list(all, plugins).take(i + 1) =~= effect_row_list(
                            all,
                            plugins,
                        ).take(i as int).push(row));
                    }
                    i += 1;
                }
                assert(effect_row_list(all, plugins).take(i as int) =~= effect_row_list(
                    all,
                    plugins,
                ));
            },
            None => {
                assert(effect_row_models(out@) =~= effect_row_list(Seq::empty(), plugins));
            },
        }
        out
    }
}

/// What is said above a chain: what it does, or why there is nothing to add.
pub open spec fn chain_hint(plugins: Option<Seq<PluginModel>>, effect_count: nat) -> Seq<char> {
    if plugins is None {
        "LV2 support requires the lilv library, which could not be loaded. Install lilv to add effects here."@
    } else if effect_count == 0 && plugins->0.len() == 0 {
        "No LV2 plugins found. Install some (e.g. the LSP plugin collection: lsp-plugins-lv2) to add effects here."@
    } else {
        "Applied to this input before it reaches the monitor and stream mixes, top to bottom."@
    }
}

/// What is said above a chain of some effects.
pub fn chain_description(catalog: Option<&Catalog>, effect_count: usize) -> (out: String)
    ensures
        out@ == chain_hint(chain::plugins_of(catalog), effect_count as nat),
{
    match catalog {
        None => {
            "LV2 support requires the lilv library, which could not be loaded. Install lilv to add effects here.".to_owned()
        },
        Some(catalog) => {
            assert(catalog@.len() == catalog.plugins@.len());
            if effect_count == 0 && catalog.plugins.len() == 0 {
                "No LV2 plugins found. Install some (e.g. the LSP plugin collection: lsp-plugins-lv2) to add effects here.".to_owned()
            } else {
                "Applied to this input before it reaches the monitor and stream mixes, top to bottom.".to_owned()
            }
        },
    }
}

// ---- Plugin picker --------------------------------------------------------------------

/// Whether a row is shown for a search text, all in lower case: everything is
/// shown for the empty text, else what holds it in the title or the subtitle.
pub open spec fn search_hit(
    wanted: Seq<char>,
    title: Seq<char>,
    subtitle: Option<Seq<char>>,
) -> bool {
    ||| wanted.len() == 0
    ||| text::holds_text(title, wanted)
    ||| subtitle matches Some(subtitle) && text::holds_text(subtitle, wanted)
}

/// Whether a row is shown for a search text, all in lower case.
pub fn is_search_hit(wanted: &str, title: &str, subtitle: Option<&str>) -> (yes: bool)
    ensures
        yes == search_hit(wanted@, title@, channels::optional_str(subtitle)),
{
    if wanted.is_empty() || text::contains_text(title, wanted) {
        return true;
    }
    match subtitle {
        Some(subtitle) => text::contains_text(subtitle, wanted),
        None => false,
    }
}

/// What an optional text is in lower case.
pub open spec fn optional_lowercase(s: Option<Seq<char>>) -> Option<Seq<char>> {
    match s {
        Some(s) => Some(text::lowercase(s)),
        None => None,
    }
}

/// Whether a row is shown for a search text, whatever the case of the letters.
pub fn search_shows(search: &str, title: &str, subtitle: Option<&str>) -> (yes: bool)
    ensures
        yes == search_hit(
            text::lowercase(search@),
            text::lowercase(title@),
            optional_lowercase(channels::optional_str(subtitle)),
        ),
{
    let wanted = text::to_lowercase(search);
    let title = text::to_lowercase(title);
    match subtitle {
        Some(subtitle) => {
            let subtitle = text::to_lowercase(subtitle);
            is_search_hit(wanted.as_str(), title.as_str(), Some(subtitle.as_str()))
        },
        None => is_search_hit(wanted.as_str(), title.as_str(), None),
    }
}

// ---- VST rack ----------------------------------------------------------------------------

/// The state of the rack switch and of the button that opens the rack.
#[derive(Clone, Copy, Debug, PartialEq, Eq, Structural)]
pub struct RackGroup {
    pub can_enable: bool,
    pub enabled: bool,
    pub can_open: bool,
}

impl Config {
    /// The rack of a channel in the dialog: it is offered where the host for
    /// the plugins is installed.
    pub fn rack_group(&self, id: u64, available: bool) -> (out: RackGroup)
        ensures
            ({
                let on = config::has_channel(self@.channels, id) && channels::channel_of(
                    self@.channels,
                    id,
                ).vst_rack;
                out == RackGroup {
                    can_enable: available,
                    enabled: on && available,
                    can_open: on && available,
                }
            }),
            out.enabled ==> out.can_enable,
            out.can_open == out.enabled,
    {
        proof {
            channels::lemma_channel_of(self@.channels, id);
        }
        let on = match self.channel(id) {
            Some(ch) => ch.vst_rack,
            None => false,
        };
        RackGroup { can_enable: available, enabled: on && available, can_open: on && available }
    }
}

/// The title of the effects dialog of a channel.
pub fn dialog_title(channel: &str) -> (out: String)
    ensures
        out@ == "Effects — "@ + channel@,
{
    let mut out = "Effects — ".to_owned();
    out.append(channel);
    out
}

// ---- Laws ------------------------------------------------------------------------------------

/// The buttons that move an effect are offered exactly where they do something,
/// in a chain without repeated ids.
pub proof fn law_move_offered(all: Seq<EffectModel>, i: int, plugins: Option<Seq<PluginModel>>)
    requires
        effects::distinct_effects(all),
        0 <= i < all.len(),
    ensures
        effect_row(all, i, plugins).can_move_up <==> effects::moved(all, all[i].id, false) != all,
        effect_row(all, i, plugins).can_move_down <==> effects::moved(all, all[i].id, true) != all,
{
    let id = all[i].id;
    assert(effects::first_effect(all, id, i)) by {
        assert forall|j: int| 0 <= j < i implies (#[trigger] all[j]).id != id by {
            assert(all[j].id != all[i].id);
        }
    }
    assert(effects::has_effect(all, id));
    effects::lemma_one_effect(all, id, i);
    if i > 0 {
        assert(effects::exchanged(all, i, i - 1)[i].id == all[i - 1].id);
        assert(all[i - 1].id != all[i].id);
    }
    if i + 1 < all.len() {
        assert(effects::exchanged(all, i, i + 1)[i].id == all[i + 1].id);
        assert(all[i].id != all[i + 1].id);
    }
}

/// The empty text finds everything, and any part of a title or a subtitle finds
/// its row.
pub proof fn law_search_finds(
    title: Seq<char>,
    subtitle: Seq<char>,
    from: int,
    to: int,
)
    ensures
        search_hit(Seq::empty(), title, Some(subtitle)),
        0 <= from <= to <= title.len() ==> search_hit(
            title.subrange(from, to),
            title,
            Some(subtitle),
        ),
        0 <= from <= to <= subtitle.len() ==> search_hit(
            subtitle.subrange(from, to),
            title,
            Some(subtitle),
        ),
{
    if 0 <= from <= to <= title.len() {
        let wanted = title.subrange(from, to);
        assert(title.subrange(from, from + wanted.len()) == wanted);
    }
    if 0 <= from <= to <= subtitle.len() {
        let wanted = subtitle.subrange(from, to);
        assert(subtitle.subrange(from, from + wanted.len()) == wanted);
    }
}

/// A parameter that was just set is what its row shows.
pub proof fn law_row_shows_setting(
    e: EffectModel,
    p: config::ParameterModel,
    port: ControlModel,
)
    requires
        effects::ordered(e.controls),
        port.symbol == p.symbol,
    ensures
        control_row(
            EffectModel { controls: effects::with_parameter(e.controls, p), ..e },
            port,
        ).setting == Setting::Chosen(p.value),
{
    effects::law_set_then_read(e.controls, p, p.symbol);
}

/// The row of a parameter shows the control of the plugin: its name, its range,
/// and whether it is a switch or takes whole numbers; and the value that was
/// set, or else the default.
pub proof fn law_control_row(e: EffectModel, port: ControlModel)
    ensures
        ({
            let row = control_row(e, port);
            &&& row.symbol == port.symbol
            &&& row.title == port.name
            &&& row.min == port.min
            &&& row.max == port.max
            &&& row.toggled == port.toggled
            &&& row.integer == port.integer
            &&& (forall|i: int|
                0 <= i < e.controls.len() ==> (#[trigger] e.controls[i]).symbol != port.symbol)
                ==> row.setting == Setting::Default(port.default)
        }),
        forall|i: int|
            0 <= i < e.controls.len() && (#[trigger] e.controls[i]).symbol == port.symbol && (
            forall|j: int| 0 <= j < i ==> (#[trigger] e.controls[j]).symbol != port.symbol)
                ==> control_row(e, port).setting == Setting::Chosen(e.controls[i].value),
{
    effects::law_parameter_found(e.controls, port.symbol);
}

/// The row of an effect shows the effect at its place: what it is called and
/// whether it is enabled. It can be moved up unless it is the first, and down
/// unless it is the last. Where its plugin is installed there is a row for each
/// control of that, else there is none, and it is said why.
pub proof fn law_effect_row(all: Seq<EffectModel>, i: int, plugins: Option<Seq<PluginModel>>)
    requires
        0 <= i < all.len(),
    ensures
        effect_row_list(all, plugins).len() == all.len(),
        ({
            let row = effect_row_list(all, plugins)[i];
            let e = all[i];
            &&& row.id == e.id
            &&& row.title == e.name
            &&& row.enabled == e.enabled
            &&& row.can_move_up == (i != 0)
            &&& row.can_move_down == (i != all.len() - 1)
            &&& row.expandable == (row.controls.len() > 0)
            &&& match chain::installed(plugins, e.uri) {
                Some(info) => {
                    &&& row.subtitle == e.uri
                    &&& row.mono == (info.audio_in.len() == 1)
                    &&& row.controls.len() == info.controls.len()
                    &&& forall|k: int|
                        0 <= k < info.controls.len() ==> #[trigger] row.controls[k]
                            == control_row(e, info.controls[k])
                },
                None => {
                    &&& row.subtitle == "Plugin is not installed — the effect is skipped"@
                    &&& !row.mono
                    &&& row.controls.len() == 0
                },
            }
        }),
{
}

/// A switch is on exactly if its value is above one half.
pub proof fn law_switch_on(v: Real64, w: Real32)
    ensures
        Setting::Chosen(v).on() == (Real64 { bits: 0x3fe0_0000_0000_0000 }).below(v),
        Setting::Default(w).on() == (Real32 { bits: 0x3f00_0000 }).below(w),
        Setting::Chosen(Real64 { bits: 0x3ff0_0000_0000_0000 }).on(),
        !Setting::Chosen(Real64 { bits: 0 }).on(),
        Setting::Default(Real32 { bits: 0x3f80_0000 }).on(),
        !Setting::Default(Real32 { bits: 0 }).on(),
{
}

/// Above a chain it is said what it does, or else why there is nothing to add:
/// because plugins cannot be looked for, or because there are none.
pub proof fn law_chain_hint(plugins: Seq<PluginModel>, count: nat)
    ensures
        chain_hint(None, count)
            == "LV2 support requires the lilv library, which could not be loaded. Install lilv to add effects here."@,
        chain_hint(Some(plugins), count) == if plugins.len() > 0 || count > 0 {
            "Applied to this input before it reaches the monitor and stream mixes, top to bottom."@
        } else {
            "No LV2 plugins found. Install some (e.g. the LSP plugin collection: lsp-plugins-lv2) to add effects here."@
        },
{
}

/// A row is shown for a text that is not empty only if its title or its
/// subtitle holds that text.
pub proof fn law_search_hides(wanted: Seq<char>, title: Seq<char>, subtitle: Option<Seq<char>>)
    requires
        wanted.len() > 0,
        search_hit(wanted, title, subtitle),
    ensures
        exists|i: int|
            0 <= i <= title.len() - wanted.len() && #[trigger] title.subrange(
                i,
                i + wanted.len(),
            ) == wanted || (subtitle matches Some(s) && 0 <= i <= s.len() - wanted.len()
                && s.subrange(i, i + wanted.len()) == wanted),
{
    if text::holds_text(title, wanted) {
        let i = choose|i: int|
            0 <= i <= title.len() - wanted.len() && #[trigger] title.subrange(
                i,
                i + wanted.len(),
            ) == wanted;
        assert(title.subrange(i, i + wanted.len()) == wanted);
    } else {
        let s = subtitle->0;
        let i = choose|i: int|
            0 <= i <= s.len() - wanted.len() && #[trigger] s.subrange(i, i + wanted.len())
                == wanted;
        let part = title.subrange(i, i + wanted.len());
        assert(s.subrange(i, i + wanted.len()) == wanted);
    }
}

/// The rows that are shown are those of the effects of the channel, and there
/// are none where there is no such channel.
pub proof fn law_rows_of_channel(cfg: config::ConfigModel, id: u64, i: int)
    requires
        config::first_with(cfg.channels, id, i),
    ensures
        effects_of(cfg, id) == cfg.channels[i].effects,
        forall|other: u64|
            !config::has_channel(cfg.channels, other) ==> (#[trigger] effects_of(cfg, other)).len()
                == 0,
{
    channels::lemma_channel_of(cfg.channels, id);
}

} // verus!
