use openwave::config::{ChannelConfig, Config, EffectConfig, Parameter, VstPlugin};
use openwave::number::Real64;

fn parameter(symbol: &str, value: f64) -> Parameter {
    Parameter {
        symbol: symbol.to_string(),
        value: Real64 { bits: value.to_bits() },
        text: format!("{value:.6}"),
    }
}

fn effect(id: u64, enabled: bool) -> EffectConfig {
    EffectConfig {
        id,
        uri: format!("urn:{id}"),
        name: format!("E{id}"),
        enabled,
        controls: Vec::new(),
    }
}

fn with_effects(list: &[u64]) -> ChannelConfig {
    ChannelConfig {
        effects: list.iter().map(|id| effect(*id, true)).collect(),
        ..ChannelConfig::default()
    }
}

fn ids(c: &ChannelConfig) -> Vec<u64> {
    c.effects.iter().map(|e| e.id).collect()
}

#[test]
fn effects_in_use() {
    let mut c = with_effects(&[1, 2, 3]);
    c.effects[1].enabled = false;
    assert_eq!(c.active_effects(), 2);
    assert_eq!(c.active_plugins(), 0);
    assert!(c.fx_active());
    assert_eq!(c.fx_tooltip(), "Effects (2 LV2 active)");
    c.vst_plugins = vec![VstPlugin { enabled: true }, VstPlugin { enabled: false }];
    assert_eq!(c.fx_tooltip(), "Effects (1 VST + 2 LV2 active)");
    c.effects.clear();
    assert_eq!(c.fx_tooltip(), "Effects (1 VST active)");
    assert!(c.fx_active());
    c.vst_plugins.clear();
    assert_eq!(c.fx_tooltip(), "Effects");
    assert!(!c.fx_active());
    c.vst_rack = true;
    assert!(c.fx_active());
    assert_eq!(c.fx_tooltip(), "Effects");
}

#[test]
fn switching_effects() {
    let mut c = with_effects(&[4, 5, 4]);
    c.set_effect_enabled(4, false);
    assert!(!c.effects[0].enabled && c.effects[1].enabled && c.effects[2].enabled);
    let before = c.clone();
    c.set_effect_enabled(9, false);
    assert_eq!(c, before);
}

#[test]
fn moving_effects() {
    let mut c = with_effects(&[1, 2, 3]);
    c.move_effect(1, true);
    assert_eq!(ids(&c), vec![2, 1, 3]);
    c.move_effect(1, false);
    assert_eq!(ids(&c), vec![1, 2, 3]);
    c.move_effect(1, false);
    assert_eq!(ids(&c), vec![1, 2, 3]);
    c.move_effect(3, true);
    assert_eq!(ids(&c), vec![1, 2, 3]);
    c.move_effect(9, true);
    assert_eq!(ids(&c), vec![1, 2, 3]);
    c.move_effect(3, false);
    assert_eq!(ids(&c), vec![1, 3, 2]);
}

#[test]
fn adding_and_removing_effects() {
    let mut c = with_effects(&[7, 2]);
    assert_eq!(c.top_effect_id(), 7);
    assert_eq!(c.add_effect("urn:x", "X"), 8);
    assert_eq!(ids(&c), vec![7, 2, 8]);
    let expected = EffectConfig {
        id: 8,
        uri: "urn:x".to_string(),
        name: "X".to_string(),
        enabled: true,
        controls: Vec::new(),
    };
    assert_eq!(c.effects[2], expected);
    c.remove_effect(8);
    assert_eq!(ids(&c), vec![7, 2]);
    c.remove_effect(7);
    assert_eq!(ids(&c), vec![2]);
    assert_eq!(ChannelConfig::default().add_effect("u", "n"), 1);
}

#[test]
fn parameters_are_kept_in_order() {
    let mut e = effect(1, true);
    e.set_control(parameter("mix", 0.5));
    e.set_control(parameter("gain", 2.0));
    e.set_control(parameter("z", 1.0));
    e.set_control(parameter("mix", 0.75));
    let symbols: Vec<&str> = e.controls.iter().map(|p| p.symbol.as_str()).collect();
    assert_eq!(symbols, vec!["gain", "mix", "z"]);
    assert_eq!(e.control("mix"), Some(&parameter("mix", 0.75)));
    assert_eq!(e.control("gain"), Some(&parameter("gain", 2.0)));
    assert_eq!(e.control("none"), None);
}

#[test]
fn order_of_setting_does_not_matter() {
    let mut a = effect(1, true);
    let mut b = effect(1, true);
    for s in ["b", "a", "c"] {
        a.set_control(parameter(s, 1.0));
    }
    for s in ["c", "b", "a"] {
        b.set_control(parameter(s, 1.0));
    }
    assert_eq!(a, b);
}

#[test]
fn effects_by_channel() {
    let mut cfg = Config::default();
    assert!(cfg.add_effect(1, "urn:a", "A"));
    assert!(cfg.add_effect(1, "urn:b", "B"));
    assert!(!cfg.add_effect(9, "urn:b", "B"));
    assert!(cfg.move_effect(1, 1, true));
    assert!(cfg.switch_effect(1, 2, false));
    assert!(cfg.set_effect_control(1, 1, parameter("g", 1.0)));
    assert_eq!(ids(&cfg.channels[0]), vec![2, 1]);
    assert!(!cfg.channels[0].effects[0].enabled);
    assert_eq!(cfg.channels[0].effects[1].controls, vec![parameter("g", 1.0)]);
    assert!(cfg.remove_effect(1, 2));
    assert_eq!(ids(&cfg.channels[0]), vec![1]);
    assert!(cfg.channels[1].effects.is_empty());
    assert!(!cfg.switch_effect(9, 1, true));
    assert!(!cfg.move_effect(9, 1, true));
    assert!(!cfg.remove_effect(9, 1));
    assert!(!cfg.set_effect_control(9, 1, parameter("g", 1.0)));
}

#[test]
fn effect_to_be_changed() {
    let mut c = with_effects(&[3, 4]);
    c.effect_mut(4).unwrap().name = "new".to_string();
    assert_eq!(c.effects[1].name, "new");
    assert!(c.effect_mut(5).is_none());
}
