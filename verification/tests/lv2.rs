use openwave::lv2::{
    available, build_catalog, scan_plugin, sort_by_keys, supported_feature, Catalog, PluginInfo,
    PluginScan, PortScan,
};
use openwave::number::Real32;

fn number(v: f32) -> Real32 {
    Real32 { bits: v.to_bits() }
}

fn port(symbol: &str) -> PortScan {
    PortScan {
        symbol: symbol.to_string(),
        name: String::new(),
        is_input: false,
        is_output: false,
        is_audio: false,
        is_control: false,
        toggled: false,
        integer: false,
        min: number(f32::NAN),
        max: number(f32::NAN),
        default: number(f32::NAN),
        min_plus_one: number(f32::NAN),
    }
}

fn audio(symbol: &str, input: bool) -> PortScan {
    PortScan { is_audio: true, is_input: input, is_output: !input, ..port(symbol) }
}

fn control(symbol: &str, min: f32, max: f32, default: f32) -> PortScan {
    PortScan {
        is_control: true,
        is_input: true,
        min: number(min),
        max: number(max),
        default: number(default),
        min_plus_one: number(min + 1.0),
        ..port(symbol)
    }
}

fn plugin(uri: &str, name: &str, ports: Vec<PortScan>) -> PluginScan {
    PluginScan {
        required_features: Vec::new(),
        uri: uri.to_string(),
        name: name.to_string(),
        ports,
    }
}

fn mono() -> Vec<PortScan> {
    vec![audio("in", true), audio("out", false)]
}

fn stereo() -> Vec<PortScan> {
    vec![audio("in_l", true), audio("in_r", true), audio("out_l", false), audio("out_r", false)]
}

fn scanned_control(c: PortScan) -> (f32, f32, f32) {
    let mut ports = mono();
    ports.push(c);
    let info = scan_plugin(&plugin("u", "n", ports)).unwrap();
    let c = &info.controls[0];
    (f32::from_bits(c.min.bits), f32::from_bits(c.max.bits), f32::from_bits(c.default.bits))
}

fn info(uri: &str, name: &str) -> PluginInfo {
    scan_plugin(&plugin(uri, name, mono())).unwrap()
}

#[test]
fn host_features() {
    assert!(supported_feature("http://lv2plug.in/ns/ext/urid#map"));
    assert!(supported_feature("http://lv2plug.in/ns/ext/buf-size#powerOf2BlockLength"));
    assert!(!supported_feature("http://lv2plug.in/ns/ext/urid"));
    assert!(!supported_feature(""));
}

#[test]
fn plugins_with_unknown_requirements_are_hidden() {
    let mut p = plugin("u", "n", mono());
    p.required_features.push("http://lv2plug.in/ns/ext/worker#schedule".to_string());
    assert!(scan_plugin(&p).is_some());
    p.required_features.push("http://lv2plug.in/ns/ext/instance-access".to_string());
    assert!(scan_plugin(&p).is_none());
}

#[test]
fn plugins_need_a_uri() {
    assert!(scan_plugin(&plugin("", "n", mono())).is_none());
}

#[test]
fn only_mono_and_stereo_plugins_are_listed() {
    let one = scan_plugin(&plugin("u", "n", mono())).unwrap();
    assert!(one.is_mono());
    assert_eq!((one.audio_in, one.audio_out), (vec!["in".to_string()], vec!["out".to_string()]));
    let two = scan_plugin(&plugin("u", "n", stereo())).unwrap();
    assert!(!two.is_mono());
    assert_eq!(two.audio_in, vec!["in_l", "in_r"]);
    assert_eq!(two.audio_out, vec!["out_l", "out_r"]);
    let mut odd = mono();
    odd.push(audio("more", false));
    assert!(scan_plugin(&plugin("u", "n", odd)).is_none());
    assert!(scan_plugin(&plugin("u", "n", Vec::new())).is_none());
}

#[test]
fn nameless_plugins_and_ports_are_called_by_their_ids() {
    let mut ports = mono();
    ports.push(control("gain", 0.0, 1.0, 0.5));
    let p = scan_plugin(&plugin("urn:x", "", ports)).unwrap();
    assert_eq!(p.name, "urn:x");
    assert_eq!(p.controls[0].name, "gain");
    assert_eq!(p.controls[0].symbol, "gain");
}

#[test]
fn other_ports_are_left_out() {
    let mut ports = mono();
    ports.push(PortScan { is_control: true, is_output: true, ..port("meter") });
    ports.push(PortScan { is_input: true, ..port("atom") });
    ports.push(PortScan { is_audio: true, ..port("neither") });
    let p = scan_plugin(&plugin("u", "n", ports)).unwrap();
    assert!(p.controls.is_empty());
    assert_eq!(p.audio_in.len(), 1);
    assert_eq!(p.audio_out.len(), 1);
}

#[test]
fn control_ranges() {
    assert_eq!(scanned_control(control("c", -2.0, 3.0, 0.5)), (-2.0, 3.0, 0.5));
    assert_eq!(scanned_control(control("c", -2.0, 3.0, 9.0)), (-2.0, 3.0, 3.0));
    assert_eq!(scanned_control(control("c", -2.0, 3.0, -9.0)), (-2.0, 3.0, -2.0));
    assert_eq!(scanned_control(control("c", 2.0, 2.0, 2.0)), (2.0, 3.0, 2.0));
    assert_eq!(scanned_control(control("c", 2.0, 1.0, f32::NAN)), (2.0, 3.0, 2.0));
    assert_eq!(scanned_control(control("c", 4.0, f32::INFINITY, 4.5)), (4.0, 5.0, 4.5));
    assert_eq!(scanned_control(control("c", f32::NAN, 5.0, 1.0)), (0.0, 5.0, 1.0));
    assert_eq!(scanned_control(control("c", f32::NAN, f32::NAN, f32::NAN)), (0.0, 1.0, 0.0));
    assert_eq!(scanned_control(control("c", f32::NEG_INFINITY, -3.0, -3.0)), (0.0, 1.0, 0.0));
    let toggle = PortScan { toggled: true, ..control("c", 5.0, 9.0, 7.0) };
    assert_eq!(scanned_control(toggle), (0.0, 1.0, 1.0));
}

#[test]
fn catalogue_is_sorted_whatever_the_case() {
    let scans = vec![
        plugin("u1", "beta", mono()),
        plugin("u2", "Alpha", stereo()),
        plugin("u3", "ALPHA", mono()),
        plugin("", "aaa", mono()),
        plugin("u4", "Zed", mono()),
        plugin("u5", "éclair", mono()),
        plugin("u6", "Beta", mono()),
        plugin("u7", "ÉCLAIR", mono()),
    ];
    let catalog = build_catalog(&scans);
    let uris: Vec<&str> = catalog.plugins.iter().map(|p| p.uri.as_str()).collect();
    assert_eq!(uris, vec!["u2", "u3", "u1", "u6", "u4", "u5", "u7"]);
    let mut expected: Vec<String> =
        scans.iter().filter(|s| !s.uri.is_empty()).map(|s| s.name.clone()).collect();
    expected.sort_by(|a, b| a.to_lowercase().cmp(&b.to_lowercase()));
    let names: Vec<String> = catalog.plugins.iter().map(|p| p.name.clone()).collect();
    assert_eq!(names, expected);
}

#[test]
fn sorting_by_given_texts_is_stable() {
    let plugins = vec![info("u1", "x"), info("u2", "x"), info("u3", "x"), info("u4", "x")];
    let keys = ["b", "a", "b", ""].map(|k| k.to_string()).to_vec();
    let (sorted, sorted_keys) = sort_by_keys(plugins, keys);
    let uris: Vec<&str> = sorted.iter().map(|p| p.uri.as_str()).collect();
    assert_eq!(uris, vec!["u4", "u2", "u1", "u3"]);
    assert_eq!(sorted_keys, vec!["", "a", "b", "b"]);
}

#[test]
fn lookup_by_uri() {
    let mut catalog = Catalog { plugins: vec![info("u1", "a"), info("u2", "b"), info("u2", "c")] };
    assert_eq!(catalog.find("u2").map(|p| p.name.as_str()), Some("b"));
    assert!(catalog.find("u").is_none());
    assert!(available(Some(&catalog)));
    catalog.plugins.clear();
    assert!(available(Some(&catalog)));
    assert!(!available(None));
}
