use openwave::config::{
    is_built_in, make_numbered_name, same_assignment, Assignment, ChannelConfig, Config,
    MasterConfig, Mix, MAX_CHANNELS,
};
use openwave::number::Real64;

fn number(v: f64) -> Real64 {
    Real64 { bits: v.to_bits() }
}

fn channel(id: u64, name: &str) -> ChannelConfig {
    ChannelConfig { id, name: name.to_string(), ..ChannelConfig::default() }
}

fn with_channels(channels: Vec<ChannelConfig>, next: u64) -> Config {
    Config { channels, next_channel_id: next, ..Config::default() }
}

fn ids(cfg: &Config) -> Vec<u64> {
    cfg.channels.iter().map(|c| c.id).collect()
}

fn names(cfg: &Config) -> Vec<String> {
    cfg.channels.iter().map(|c| c.name.clone()).collect()
}

#[test]
fn defaults() {
    let cfg = Config::default();
    assert_eq!(cfg.next_channel_id, 3);
    assert_eq!(ids(&cfg), vec![1, 2]);
    assert_eq!(names(&cfg), vec!["Microphone", "System"]);
    assert_eq!(cfg.channels[0].assignment, None);
    assert_eq!(cfg.channels[1].assignment, Some(Assignment::Virtual));
    assert!(cfg.channels.iter().all(|c| c.permanent && !c.linked));
    assert_eq!(cfg.channels[0].monitor_volume, number(0.75));
    assert_eq!(cfg.channels[1].stream_volume, number(0.75));
    assert_eq!(cfg.master, MasterConfig::default());
    assert_eq!(cfg.master.monitor_volume, number(1.0));
    assert_eq!(cfg.master.monitor_device, None);
}

#[test]
fn nothing_saved_gives_the_defaults() {
    assert_eq!(Config::load(None), Config::default());
}

#[test]
fn loading_migrates_the_old_format() {
    let mut kept = channel(0, "Game");
    kept.assignment = Some(Assignment::App { name: "steam".to_string() });
    let saved = with_channels(
        vec![channel(0, "Microphone"), channel(0, "Filler"), kept, channel(0, "System"), channel(9, "x")],
        3,
    );
    assert!(saved.ids_fit());
    let cfg = Config::load(Some(saved));
    assert_eq!(names(&cfg), vec!["Microphone", "Game", "System"]);
    assert_eq!(ids(&cfg), vec![3, 4, 5]);
    assert_eq!(cfg.next_channel_id, 6);
    assert!(cfg.channels[0].permanent && cfg.channels[2].permanent);
    assert!(!cfg.channels[1].permanent);
}

#[test]
fn loading_separates_repeated_ids() {
    let cfg = Config::load(Some(with_channels(
        vec![channel(5, "a"), channel(5, "b"), channel(2, "c"), channel(2, "d")],
        1,
    )));
    assert_eq!(ids(&cfg), vec![5, 6, 2, 7]);
    assert_eq!(cfg.next_channel_id, 8);
}

#[test]
fn loading_keeps_ids_that_later_channels_have() {
    let mut game = channel(3, "Game");
    game.assignment = Some(Assignment::Virtual);
    let cfg = Config::load(Some(with_channels(vec![channel(0, "Microphone"), game], 3)));
    assert_eq!(ids(&cfg), vec![4, 3]);
    assert_eq!(cfg.channel(3).map(|c| c.name.as_str()), Some("Game"));
    assert_eq!(cfg.next_channel_id, 5);
    let cfg = Config::load(Some(with_channels(
        vec![channel(5, "a"), channel(5, "b"), channel(6, "c")],
        1,
    )));
    assert_eq!(ids(&cfg), vec![5, 7, 6]);
    assert_eq!(cfg.next_channel_id, 8);
    let cfg = Config::load(Some(with_channels(
        vec![channel(5, "a"), channel(5, "b"), channel(7, "c"), channel(6, "d"), channel(7, "e")],
        1,
    )));
    assert_eq!(ids(&cfg), vec![5, 8, 7, 6, 9]);
    assert_eq!(cfg.next_channel_id, 10);
}

#[test]
fn loading_gives_out_the_next_id_below_later_ones() {
    let mut game = channel(10, "Game");
    game.assignment = Some(Assignment::Virtual);
    let cfg = Config::load(Some(with_channels(vec![channel(0, "Microphone"), game], 3)));
    assert_eq!(ids(&cfg), vec![3, 10]);
    assert_eq!(cfg.next_channel_id, 11);
    let mut last = channel(u64::MAX - 1, "Game");
    last.assignment = Some(Assignment::Virtual);
    let saved = with_channels(vec![channel(0, "Microphone"), last], 1);
    assert!(saved.ids_fit());
    let cfg = Config::load(Some(saved));
    assert_eq!(ids(&cfg), vec![1, u64::MAX - 1]);
    assert_eq!(cfg.next_channel_id, u64::MAX);
}

#[test]
fn loading_names_blank_channels() {
    let cfg = Config::load(Some(with_channels(vec![channel(4, " \t"), channel(5, "x")], 1)));
    assert_eq!(names(&cfg), vec!["Channel 4", "x"]);
}

#[test]
fn loading_holds_volumes() {
    let mut ch = channel(4, "x");
    ch.monitor_volume = number(1.5);
    ch.stream_volume = number(-0.5);
    let mut saved = with_channels(vec![ch], 5);
    saved.master.monitor_volume = number(7.0);
    saved.master.stream_volume = number(0.25);
    let cfg = Config::load(Some(saved));
    assert_eq!(cfg.channels[0].monitor_volume, number(1.0));
    assert_eq!(cfg.channels[0].stream_volume, number(0.0));
    assert_eq!(cfg.master.monitor_volume, number(1.0));
    assert_eq!(cfg.master.stream_volume, number(0.25));
}

#[test]
fn loading_keeps_eight_channels() {
    let many: Vec<ChannelConfig> = (1..=12).map(|i| channel(i, "c")).collect();
    let cfg = Config::load(Some(with_channels(many, 1)));
    assert_eq!(cfg.channels.len(), MAX_CHANNELS);
    assert_eq!(cfg.channels.len(), 8);
    assert_eq!(cfg.next_channel_id, 13);
}

#[test]
fn loading_twice_is_loading_once() {
    let once = Config::load(Some(with_channels(
        vec![channel(0, "System"), channel(3, ""), channel(3, "Microphone")],
        0,
    )));
    assert_eq!(Config::load(Some(once.clone())), once);
}

#[test]
fn ids_run_out() {
    assert!(!with_channels(vec![channel(u64::MAX, "x")], 1).ids_fit());
    assert!(with_channels(vec![channel(u64::MAX - 1, "x")], 1).ids_fit());
    assert!(!with_channels(vec![channel(u64::MAX - 1, "x"), channel(u64::MAX - 1, "y")], 1).ids_fit());
    assert!(!with_channels(
        vec![
            channel(u64::MAX - 2, "x"),
            channel(u64::MAX - 2, "y"),
            channel(u64::MAX - 1, "z"),
        ],
        1,
    )
    .ids_fit());
    assert!(with_channels(
        vec![
            channel(u64::MAX - 3, "x"),
            channel(u64::MAX - 3, "y"),
            channel(u64::MAX - 2, "z"),
        ],
        1,
    )
    .ids_fit());
}

#[test]
fn lookup_finds_the_first() {
    let mut cfg = with_channels(vec![channel(4, "a"), channel(4, "b")], 5);
    assert_eq!(cfg.channel(4).map(|c| c.name.as_str()), Some("a"));
    assert!(cfg.channel(9).is_none());
    cfg.channel_mut(4).unwrap().name = "z".to_string();
    assert_eq!(names(&cfg), vec!["z", "b"]);
    assert!(cfg.channel_mut(9).is_none());
}

#[test]
fn template_names_are_offered_until_used() {
    let mut cfg = Config::default();
    assert_eq!(
        cfg.unused_template_names(),
        vec!["Game", "Music", "Voice Chat", "Browser", "SFX", "Aux"]
    );
    cfg.rename_channel(1, "Voice Chat".to_string());
    assert_eq!(cfg.unused_template_names(), vec!["Game", "Music", "Browser", "SFX", "Aux"]);
}

#[test]
fn adding_channels_up_to_the_limit() {
    let mut cfg = Config::default();
    assert_eq!(cfg.add_channel(None), Some(3));
    assert_eq!(cfg.add_channel(Some("Mine")), Some(4));
    assert_eq!(cfg.add_channel(None), Some(5));
    assert_eq!(names(&cfg), vec!["Microphone", "System", "Game", "Mine", "Music"]);
    assert_eq!(cfg.channels[3].assignment, Some(Assignment::Virtual));
    assert!(!cfg.channels[3].permanent);
    for id in 6..=8 {
        assert_eq!(cfg.add_channel(None), Some(id));
    }
    assert!(!cfg.can_add_channel());
    let before = cfg.clone();
    assert_eq!(cfg.add_channel(None), None);
    assert_eq!(cfg, before);
}

#[test]
fn new_channels_are_numbered_when_templates_run_out() {
    let used = ["Game", "Music", "Voice Chat", "Browser", "SFX", "Aux"];
    let channels = used.iter().enumerate().map(|(i, n)| channel(i as u64 + 1, n)).collect();
    let mut cfg = with_channels(channels, 17);
    assert_eq!(cfg.add_channel(None), Some(17));
    assert_eq!(cfg.channels[6].name, "Channel 17");
    assert_eq!(make_numbered_name(17), "Channel 17");
}

#[test]
fn removing_channels() {
    let mut cfg = Config::default();
    let before = cfg.clone();
    cfg.remove_channel(1);
    assert_eq!(cfg, before);
    let id = cfg.add_channel(None).unwrap();
    cfg.remove_channel(id);
    assert_eq!(cfg.channels, before.channels);
    // The id of a removed channel is not given out again.
    assert_eq!(cfg.add_channel(None), Some(id + 1));
}

#[test]
fn linked_faders_move_together() {
    let mut cfg = Config::default();
    assert_eq!(cfg.move_fader(1, Mix::Stream, number(0.25)), Some(false));
    assert_eq!(cfg.channels[0].stream_volume, number(0.25));
    assert_eq!(cfg.channels[0].monitor_volume, number(0.75));
    assert!(cfg.set_linked(1, true));
    assert_eq!(cfg.channels[0].stream_volume, number(0.75));
    assert_eq!(cfg.channels[0].vod_volume, number(0.75));
    assert_eq!(cfg.move_fader(1, Mix::Vod, number(0.5)), Some(true));
    assert_eq!(cfg.channels[0].monitor_volume, number(0.5));
    assert_eq!(cfg.channels[0].stream_volume, number(0.5));
    assert_eq!(cfg.channels[1].monitor_volume, number(0.75));
    assert!(cfg.set_linked(1, false));
    assert_eq!(cfg.channels[0].stream_volume, number(0.5));
    assert_eq!(cfg.move_fader(9, Mix::Vod, number(0.5)), None);
    assert!(!cfg.set_linked(9, true));
}

#[test]
fn muting_is_per_mix() {
    let mut cfg = Config::default();
    assert!(cfg.set_muted(2, Mix::Stream, true));
    assert!(cfg.channels[1].stream_muted);
    assert!(!cfg.channels[1].monitor_muted && !cfg.channels[1].vod_muted);
    assert!(!cfg.set_muted(7, Mix::Monitor, true));
}

#[test]
fn assigning_tells_changes() {
    let mut cfg = Config::default();
    let mic = Some(Assignment::Source { name: "mic".to_string() });
    assert!(cfg.set_assignment(1, mic.clone()));
    assert!(!cfg.set_assignment(1, mic.clone()));
    assert!(!cfg.set_assignment(7, mic.clone()));
    assert_eq!(cfg.channels[0].assignment, mic);
    assert!(!cfg.needs_sink(1));
    assert!(cfg.set_assignment(1, Some(Assignment::App { name: "mic".to_string() })));
    assert!(cfg.needs_sink(1));
    assert!(cfg.needs_sink(2));
    assert!(!cfg.needs_sink(7));
    assert!(cfg.set_assignment(2, None));
    assert!(!cfg.needs_sink(2));
}

#[test]
fn assignments_are_compared_by_kind_and_name() {
    let source = Assignment::Source { name: "a".to_string() };
    let app = Assignment::App { name: "a".to_string() };
    assert!(!source.same(&app));
    assert!(source.same(&source.duplicate()));
    assert_eq!(app.clone(), app);
    assert!(same_assignment(&None, &None));
    assert!(!same_assignment(&None, &Some(Assignment::Virtual)));
    assert!(!same_assignment(&Some(source), &Some(Assignment::Source { name: "b".to_string() })));
}

#[test]
fn rack_switch_tells_changes() {
    let mut cfg = Config::default();
    assert!(cfg.set_vst_rack(1, true));
    assert!(!cfg.set_vst_rack(1, true));
    assert!(cfg.channels[0].vst_rack && !cfg.channels[1].vst_rack);
    assert!(!cfg.set_vst_rack(7, true));
}

#[test]
fn renaming() {
    let mut cfg = Config::default();
    assert!(cfg.rename_channel(2, "Desk".to_string()));
    assert_eq!(cfg.channel_name(2), "Desk");
    assert_eq!(cfg.channel_name(7), "");
    assert!(!cfg.rename_channel(7, "x".to_string()));
    assert!(is_built_in("System") && is_built_in("Microphone") && !is_built_in("Desk"));
}

#[test]
fn master_section() {
    let mut cfg = Config::default();
    assert!(cfg.set_monitor_device(Some("hdmi".to_string())));
    assert!(!cfg.set_monitor_device(Some("hdmi".to_string())));
    assert!(cfg.set_monitor_device(None));
    assert!(!cfg.set_monitor_device(None));
    cfg.set_master_volume(Mix::Monitor, number(0.1));
    cfg.set_master_volume(Mix::Stream, number(0.2));
    cfg.set_master_volume(Mix::Vod, number(0.3));
    cfg.set_master_muted(Mix::Stream, true);
    let expected = MasterConfig {
        monitor_device: None,
        monitor_volume: number(0.1),
        stream_volume: number(0.2),
        vod_volume: number(0.3),
        monitor_muted: false,
        stream_muted: true,
        vod_muted: false,
    };
    assert_eq!(cfg.master, expected);
}
