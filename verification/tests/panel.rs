use openwave::config::{Config, Parameter};
use openwave::lv2::{Catalog, ControlPort, PluginInfo};
use openwave::number::{Real32, Real64};
use openwave::panel::{
    chain_description, dialog_title, is_search_hit, remove_hint, search_shows, strip_width,
    RackGroup, Setting,
};

fn control(symbol: &str, default: f32) -> ControlPort {
    ControlPort {
        symbol: symbol.to_string(),
        name: format!("The {symbol}"),
        min: Real32 { bits: 0 },
        max: Real32 { bits: 1.0f32.to_bits() },
        default: Real32 { bits: default.to_bits() },
        toggled: symbol == "on",
        integer: false,
    }
}

fn catalog() -> Catalog {
    let plugin = |uri: &str, controls: Vec<ControlPort>| PluginInfo {
        uri: uri.to_string(),
        name: uri.to_string(),
        audio_in: vec!["in".to_string()],
        audio_out: vec!["out".to_string()],
        controls,
    };
    Catalog {
        plugins: vec![
            plugin("urn:a", vec![control("gain", 0.25), control("on", 1.0)]),
            plugin("urn:b", Vec::new()),
        ],
    }
}

fn config() -> Config {
    let mut cfg = Config::default();
    cfg.add_effect(1, "urn:a", "A");
    cfg.add_effect(1, "urn:b", "B");
    cfg.add_effect(1, "urn:gone", "C");
    cfg.switch_effect(1, 2, false);
    cfg.set_effect_control(
        1,
        1,
        Parameter {
            symbol: "gain".to_string(),
            value: Real64 { bits: 0.75f64.to_bits() },
            text: "0.750000".to_string(),
        },
    );
    cfg
}

#[test]
fn rows_of_a_chain() {
    let list = catalog();
    let rows = config().effect_rows(1, Some(&list));
    assert_eq!(rows.len(), 3);
    assert_eq!((rows[0].id, rows[0].title.as_str()), (1, "A"));
    assert_eq!(rows[0].subtitle, "urn:a");
    assert!(rows[0].enabled && !rows[1].enabled);
    assert!(!rows[0].can_move_up && rows[0].can_move_down);
    assert!(rows[1].can_move_up && rows[1].can_move_down);
    assert!(rows[2].can_move_up && !rows[2].can_move_down);
    assert!(rows[0].expandable && !rows[1].expandable && !rows[2].expandable);
    assert!(rows[0].mono && !rows[2].mono);
    assert_eq!(rows[2].subtitle, "Plugin is not installed — the effect is skipped");
    assert_eq!(rows[0].controls.len(), 2);
    assert_eq!(rows[0].controls[0].title, "The gain");
    assert_eq!(
        rows[0].controls[0].setting,
        Setting::Chosen(Real64 { bits: 0.75f64.to_bits() })
    );
    assert_eq!(
        rows[0].controls[1].setting,
        Setting::Default(Real32 { bits: 1.0f32.to_bits() })
    );
    assert!(rows[0].controls[1].toggled);
    assert!(config().effect_rows(2, Some(&list)).is_empty());
    assert!(config().effect_rows(9, Some(&list)).is_empty());
    assert!(config().effect_rows(1, None).iter().all(|r| r.controls.is_empty()));
}

#[test]
fn move_buttons_do_something() {
    let list = catalog();
    let cfg = config();
    for row in cfg.effect_rows(1, Some(&list)) {
        for (down, offered) in [(false, row.can_move_up), (true, row.can_move_down)] {
            let mut moved = cfg.clone();
            moved.move_effect(1, row.id, down);
            assert_eq!(moved != cfg, offered);
        }
    }
}

#[test]
fn switches_are_on_above_one_half() {
    for v in [0.0f32, 0.5, 0.5000001, 1.0, f32::NAN, -1.0] {
        assert_eq!(Setting::Default(Real32 { bits: v.to_bits() }).switch_on(), v > 0.5);
        let wide = f64::from(v);
        assert_eq!(Setting::Chosen(Real64 { bits: wide.to_bits() }).switch_on(), wide > 0.5);
    }
}

#[test]
fn hints_above_the_chain() {
    let list = catalog();
    let empty = Catalog { plugins: Vec::new() };
    let usual = "Applied to this input before it reaches the monitor and stream mixes, top to bottom.";
    assert_eq!(chain_description(Some(&list), 0), usual);
    assert_eq!(chain_description(Some(&empty), 1), usual);
    assert_eq!(
        chain_description(Some(&empty), 0),
        "No LV2 plugins found. Install some (e.g. the LSP plugin collection: lsp-plugins-lv2) to add effects here."
    );
    assert_eq!(
        chain_description(None, 0),
        "LV2 support requires the lilv library, which could not be loaded. Install lilv to add effects here."
    );
}

#[test]
fn search_ignores_case() {
    assert!(search_shows("", "x", None));
    assert!(search_shows("GATE", "Noise Gate", None));
    assert!(search_shows("É", "éclair", None));
    assert!(search_shows("LSP", "x", Some("http://lsp-plug.in")));
    assert!(!search_shows("gate", "Compressor", Some("urn:comp")));
    assert!(!search_shows("gate", "Compressor", None));
}

#[test]
fn search_in_lower_case_texts() {
    assert!(is_search_hit("ate", "gate", None));
    assert!(!is_search_hit("Ate", "gate", None));
    assert!(is_search_hit("urn", "gate", Some("urn:x")));
    assert!(is_search_hit("", "", None));
}

#[test]
fn rack_of_a_channel() {
    let mut cfg = Config::default();
    let off = RackGroup { can_enable: true, enabled: false, can_open: false };
    assert_eq!(cfg.rack_group(1, true), off);
    cfg.set_vst_rack(1, true);
    let on = RackGroup { can_enable: true, enabled: true, can_open: true };
    assert_eq!(cfg.rack_group(1, true), on);
    let missing = RackGroup { can_enable: false, enabled: false, can_open: false };
    assert_eq!(cfg.rack_group(1, false), missing);
    assert_eq!(cfg.rack_group(9, true), off);
}

#[test]
fn strips() {
    assert_eq!(strip_width(false), 150);
    assert_eq!(strip_width(true), 200);
    assert_eq!(remove_hint(true), "Built-in channels cannot be removed");
    assert_eq!(remove_hint(false), "Remove channel");
}

#[test]
fn title_of_the_dialog() {
    assert_eq!(dialog_title("Voice"), "Effects — Voice");
}
