use openwave::chain::{chain_conf, find_plugin};
use openwave::config::{ChannelConfig, EffectConfig, Parameter};
use openwave::lv2::{build_catalog, Catalog, ControlPort, PluginInfo, PluginScan, PortScan};
use openwave::number::{Real32, Real64};

fn parameter(symbol: &str, value: f64) -> Parameter {
    Parameter {
        symbol: symbol.to_string(),
        value: Real64 { bits: value.to_bits() },
        text: format!("{value:.6}"),
    }
}

fn control(symbol: &str) -> ControlPort {
    ControlPort {
        symbol: symbol.to_string(),
        name: symbol.to_string(),
        min: Real32 { bits: 0 },
        max: Real32 { bits: 1.0f32.to_bits() },
        default: Real32 { bits: 0 },
        toggled: false,
        integer: false,
    }
}

fn texts(list: &[&str]) -> Vec<String> {
    list.iter().map(|s| s.to_string()).collect()
}

fn catalog() -> Catalog {
    Catalog {
        plugins: vec![
            PluginInfo {
                uri: "urn:mono".to_string(),
                name: "Mono".to_string(),
                audio_in: texts(&["in 1"]),
                audio_out: texts(&["out"]),
                controls: vec![control("gain"), control("mix")],
            },
            PluginInfo {
                uri: "urn:stereo \"x\"".to_string(),
                name: "Stereo".to_string(),
                audio_in: texts(&["in_l", "in_r"]),
                audio_out: texts(&["out_l", "out_r"]),
                controls: Vec::new(),
            },
        ],
    }
}

fn effect(id: u64, uri: &str) -> EffectConfig {
    EffectConfig {
        id,
        uri: uri.to_string(),
        name: "n".to_string(),
        enabled: true,
        controls: Vec::new(),
    }
}

fn channel(effects: Vec<EffectConfig>) -> ChannelConfig {
    ChannelConfig { effects, ..ChannelConfig::default() }
}

fn conf(id: u64, nodes: &str, links: &str, ports: [&str; 4]) -> String {
    format!(
        r#"# Generated by OpenWave; do not edit (rewritten on every change).
context.properties = {{
    log.level = 2
}}

context.spa-libs = {{
    audio.convert.* = audioconvert/libspa-audioconvert
    support.*       = support/libspa-support
}}

context.modules = [
    {{ name = libpipewire-module-rt
        args = {{ nice.level = -11 }}
        flags = [ ifexists nofail ]
    }}
    {{ name = libpipewire-module-protocol-native }}
    {{ name = libpipewire-module-client-node }}
    {{ name = libpipewire-module-adapter }}

    {{ name = libpipewire-module-filter-chain
        args = {{
            node.description = "OpenWave Channel {id} Effects"
            media.name       = "OpenWave Channel {id} Effects"
            filter.graph = {{
                nodes = [
{nodes}                ]
                links = [
{links}                ]
                inputs  = [ "{}" "{}" ]
                outputs = [ "{}" "{}" ]
            }}
            audio.channels = 2
            audio.position = [ FL FR ]
            capture.props = {{
                node.name           = "OpenWave_Ch{id}_FX"
                node.description    = "OpenWave Ch {id} FX (internal)"
                media.class         = Audio/Sink
                state.restore-props = false
            }}
            playback.props = {{
                node.name           = "OpenWave_Ch{id}_FXOut"
                node.description    = "OpenWave Ch {id} FX Out (internal)"
                media.class         = Audio/Source
                state.restore-props = false
            }}
        }}
    }}
]
"#,
        ports[0], ports[1], ports[2], ports[3]
    )
}

#[test]
fn no_chain_without_effects() {
    assert_eq!(chain_conf(1, &channel(Vec::new()), Some(&catalog())), None);
    let mut off = effect(1, "urn:mono");
    off.enabled = false;
    assert_eq!(chain_conf(1, &channel(vec![off]), Some(&catalog())), None);
}

#[test]
fn rack_alone_passes_audio_through() {
    let mut ch = channel(Vec::new());
    ch.vst_rack = true;
    let nodes = "                    { type = builtin name = copy_l label = copy }\n                    { type = builtin name = copy_r label = copy }\n";
    let expected = conf(12, nodes, "", ["copy_l:In", "copy_r:In", "copy_l:Out", "copy_r:Out"]);
    assert_eq!(chain_conf(12, &ch, None), Some(expected.clone()));
    // So does a chain whose plugins are all missing.
    let ch = channel(vec![effect(1, "urn:gone")]);
    assert_eq!(chain_conf(12, &ch, Some(&catalog())), Some(expected));
}

#[test]
fn chain_of_mono_and_stereo_plugins() {
    let mut gate = effect(3, "urn:mono");
    gate.controls = vec![parameter("gain", 0.5), parameter("gone", 1.0), parameter("mix", -2.0)];
    let mut off = effect(5, "urn:mono");
    off.enabled = false;
    let eq = effect(4, "urn:stereo \"x\"");
    let ch = channel(vec![gate, off, effect(6, "urn:gone"), eq]);
    let nodes = "                    { type = lv2 name = \"fx3_l\" plugin = \"urn:mono\" control = { \"gain\" = 0.500000 \"mix\" = -2.000000 } }\n                    { type = lv2 name = \"fx3_r\" plugin = \"urn:mono\" control = { \"gain\" = 0.500000 \"mix\" = -2.000000 } }\n                    { type = lv2 name = \"fx4\" plugin = \"urn:stereox\" }\n";
    let links = "                    { output = \"fx3_l:out\" input = \"fx4:in_l\" }\n                    { output = \"fx3_r:out\" input = \"fx4:in_r\" }\n";
    let expected = conf(2, nodes, links, ["fx3_l:in1", "fx3_r:in1", "fx4:out_l", "fx4:out_r"]);
    assert_eq!(chain_conf(2, &ch, Some(&catalog())), Some(expected));
}

#[test]
fn idle_effects_do_not_show() {
    let mut off = effect(9, "urn:mono");
    off.enabled = false;
    let with = channel(vec![off, effect(1, "urn:mono"), effect(2, "urn:gone")]);
    let without = channel(vec![effect(1, "urn:mono")]);
    assert_eq!(
        chain_conf(1, &with, Some(&catalog())),
        chain_conf(1, &without, Some(&catalog()))
    );
}

#[test]
fn plugins_are_found_in_a_catalogue() {
    let list = catalog();
    assert_eq!(find_plugin(Some(&list), "urn:mono").map(|p| p.name.as_str()), Some("Mono"));
    assert!(find_plugin(Some(&list), "urn:x").is_none());
    assert!(find_plugin(None, "urn:mono").is_none());
}

#[test]
fn scanned_plugins_can_be_chained() {
    let port = |symbol: &str, is_input: bool| PortScan {
        symbol: symbol.to_string(),
        name: String::new(),
        is_input,
        is_output: !is_input,
        is_audio: true,
        is_control: false,
        toggled: false,
        integer: false,
        min: Real32 { bits: 0 },
        max: Real32 { bits: 0 },
        default: Real32 { bits: 0 },
        min_plus_one: Real32 { bits: 0 },
    };
    let scan = |uri: &str, ports: Vec<PortScan>| PluginScan {
        required_features: Vec::new(),
        uri: uri.to_string(),
        name: uri.to_string(),
        ports,
    };
    let list = build_catalog(&vec![
        scan("urn:one", vec![port("i", true), port("o", false)]),
        scan("urn:odd", vec![port("i", true), port("o", false), port("p", false)]),
    ]);
    let ch = channel(vec![effect(1, "urn:one"), effect(2, "urn:odd")]);
    let nodes = "                    { type = lv2 name = \"fx1_l\" plugin = \"urn:one\" }\n                    { type = lv2 name = \"fx1_r\" plugin = \"urn:one\" }\n";
    let expected = conf(9, nodes, "", ["fx1_l:i", "fx1_r:i", "fx1_l:o", "fx1_r:o"]);
    assert_eq!(chain_conf(9, &ch, Some(&list)), Some(expected));
}
