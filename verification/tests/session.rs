use openwave::config::{Assignment, Config, Mix, Parameter, WaveXlrConfig};
use openwave::number::Real64;
use openwave::pushes::Push;
use openwave::session::{
    enforce_xlr_volume, toggled, Action, AudioEvent, LevelTarget, Once, Page, Session,
    XLR_ENFORCE_WINDOW,
};

fn number(v: f64) -> Real64 {
    Real64 { bits: v.to_bits() }
}

fn session() -> Session {
    Session::new(Config::default())
}

/// A session in which a save is pending.
fn busy() -> Session {
    let mut s = session();
    s.mute(1, Mix::Monitor, false);
    s
}

#[test]
fn saves_are_gathered() {
    let mut s = session();
    assert_eq!(
        s.mute(1, Mix::Stream, true),
        vec![Action::ApplyChannel(1, Mix::Stream), Action::AwaitSave]
    );
    assert_eq!(s.mute(1, Mix::Vod, true), vec![Action::ApplyChannel(1, Mix::Vod)]);
    s.save_due();
    assert_eq!(
        s.mute(1, Mix::Vod, false),
        vec![Action::ApplyChannel(1, Mix::Vod), Action::AwaitSave]
    );
    assert!(s.config().channels[0].stream_muted && !s.config().channels[0].vod_muted);
    assert_eq!(s.mute(9, Mix::Vod, false), vec![]);
}

#[test]
fn device_is_rebuilt_after_the_last_rename() {
    let mut s = session();
    assert!(s.can_rename(2));
    assert_eq!(
        s.rename(2, "D".to_string()),
        vec![
            Action::AwaitSave,
            Action::UpdateSidebar,
            Action::RebuildAddMenu,
            Action::AwaitRename(2, 1),
        ]
    );
    assert_eq!(
        s.rename(2, "Desk".to_string()),
        vec![Action::UpdateSidebar, Action::RebuildAddMenu, Action::AwaitRename(2, 2)]
    );
    assert_eq!(s.rename_due(2, 1), vec![]);
    assert_eq!(s.rename_due(2, 2), vec![Action::RebuildChannel(2)]);
    assert_eq!(s.config().channels[1].name, "Desk");
    // A channel without a device of its own is not rebuilt.
    s.rename(1, "Mic".to_string());
    assert_eq!(s.rename_due(1, 1), vec![]);
    assert_eq!(s.rename(9, "x".to_string()), vec![]);
    assert_eq!(s.rename_due(9, 1), vec![]);
}

#[test]
fn choosing_an_input() {
    let mut s = session();
    let mic = Some(Assignment::Source { name: "mic".to_string() });
    assert_eq!(
        s.assign(1, mic.clone()),
        vec![Action::RebuildChannel(1), Action::AwaitSave, Action::UpdateSidebar]
    );
    assert_eq!(s.assign(1, mic.clone()), vec![]);
    assert_eq!(s.assign(9, mic.clone()), vec![]);
    assert_eq!(s.config().channels[0].assignment, mic);
}

#[test]
fn moving_faders() {
    let mut s = busy();
    assert_eq!(
        s.move_fader(1, Mix::Stream, number(0.5)),
        vec![Action::ApplyChannel(1, Mix::Stream)]
    );
    assert_eq!(
        s.link(1, true),
        vec![
            Action::ShowFader(1, Mix::Stream, number(0.75)),
            Action::ApplyChannel(1, Mix::Stream),
        ]
    );
    assert_eq!(
        s.move_fader(1, Mix::Vod, number(0.25)),
        vec![
            Action::ApplyChannel(1, Mix::Vod),
            Action::ShowFader(1, Mix::Monitor, number(0.25)),
            Action::ApplyChannel(1, Mix::Monitor),
            Action::ShowFader(1, Mix::Stream, number(0.25)),
            Action::ApplyChannel(1, Mix::Stream),
        ]
    );
    assert_eq!(s.config().channels[0].stream_volume, number(0.25));
    assert_eq!(s.link(1, false), vec![]);
    assert_eq!(
        s.move_fader(1, Mix::Monitor, number(1.0)),
        vec![Action::ApplyChannel(1, Mix::Monitor)]
    );
    assert_eq!(s.config().channels[0].stream_volume, number(0.25));
    assert_eq!(s.move_fader(9, Mix::Monitor, number(1.0)), vec![]);
    assert_eq!(s.link(9, true), vec![]);
    assert_eq!(session().link(1, false), vec![Action::AwaitSave]);
}

#[test]
fn adding_and_removing_channels() {
    let mut s = session();
    assert_eq!(
        s.add_channel(""),
        vec![
            Action::RebuildChannel(3),
            Action::RebuildStrips,
            Action::AwaitSave,
            Action::UpdateSidebar,
        ]
    );
    assert_eq!(s.config().channels[2].name, "Game");
    s.add_channel("Radio");
    assert_eq!(s.config().channels[3].name, "Radio");
    assert_eq!(
        s.remove_channel(3),
        vec![Action::RebuildChannel(3), Action::RebuildStrips, Action::UpdateSidebar]
    );
    assert_eq!(s.config().channels.len(), 3);
    s.remove_channel(1);
    assert_eq!(s.config().channels.len(), 3);
    for _ in 0..9 {
        s.add_channel("");
    }
    assert_eq!(s.config().channels.len(), 8);
    assert_eq!(s.add_channel(""), vec![]);
}

#[test]
fn editing_effects() {
    let structure = vec![
        Action::RebuildChannel(1),
        Action::UpdateSidebar,
        Action::ShowEffects(1),
        Action::RebuildEffects,
    ];
    let mut s = busy();
    assert_eq!(s.add_effect(1, "urn:a", "A"), structure);
    assert_eq!(s.add_effect(1, "urn:b", "B"), structure);
    assert_eq!(s.move_effect(1, 2, false), structure);
    assert_eq!(s.switch_effect(1, 2, false), structure);
    let ids: Vec<u64> = s.config().channels[0].effects.iter().map(|e| e.id).collect();
    assert_eq!(ids, vec![2, 1]);
    assert_eq!(s.remove_effect(1, 2), structure);
    assert_eq!(s.config().channels[0].effects.len(), 1);
    assert_eq!(s.add_effect(9, "urn:a", "A"), vec![]);
    assert_eq!(s.move_effect(9, 1, true), vec![]);
    assert_eq!(s.switch_effect(9, 1, true), vec![]);
    assert_eq!(s.remove_effect(9, 1), vec![]);
}

fn change(channel: u64, effect: u64, symbol: &str, value: f64) -> Push {
    Push {
        channel,
        effect,
        mono: true,
        parameter: Parameter {
            symbol: symbol.to_string(),
            value: number(value),
            text: format!("{value:.6}"),
        },
    }
}

#[test]
fn every_changed_parameter_is_pushed() {
    let mut s = busy();
    s.add_effect(1, "urn:a", "A");
    assert!(s.can_set_control());
    let a = change(1, 1, "a", 1.0);
    let b = change(1, 1, "b", 2.0);
    assert_eq!(s.set_control(a.clone()), vec![Action::AwaitControl(1)]);
    assert_eq!(s.set_control(b.clone()), vec![Action::AwaitControl(2)]);
    assert_eq!(s.control_due(1), vec![]);
    assert_eq!(s.control_due(2), vec![a.clone(), b.clone()]);
    assert_eq!(s.control_due(2), vec![]);
    assert_eq!(
        s.config().channels[0].effects[0].controls,
        vec![a.parameter, b.parameter]
    );
}

#[test]
fn quick_changes_of_a_parameter_push_the_last_value() {
    let mut s = busy();
    s.set_control(change(1, 1, "a", 1.0));
    s.set_control(change(1, 1, "b", 2.0));
    s.set_control(change(1, 2, "a", 3.0));
    s.set_control(change(2, 1, "a", 4.0));
    assert_eq!(s.set_control(change(1, 1, "a", 5.0)), vec![Action::AwaitControl(5)]);
    for number in 0..5 {
        assert_eq!(s.control_due(number), vec![]);
    }
    assert_eq!(
        s.control_due(5),
        vec![
            change(1, 1, "b", 2.0),
            change(1, 2, "a", 3.0),
            change(2, 1, "a", 4.0),
            change(1, 1, "a", 5.0),
        ]
    );
    assert_eq!(
        session().set_control(change(9, 1, "a", 0.0)),
        vec![Action::AwaitSave, Action::AwaitControl(1)]
    );
}

#[test]
fn startup_volumes_are_saved() {
    let mut s = session();
    let volumes = WaveXlrConfig { mic_volume: Some(number(40.0)), output_volume: None };
    assert_eq!(s.set_wave_xlr(volumes), vec![Action::AwaitSave]);
    assert_eq!(s.config().wave_xlr, volumes);
}

#[test]
fn switching_the_rack() {
    let mut s = session();
    assert_eq!(
        s.switch_rack(2, true),
        vec![
            Action::ShowRackButton(true),
            Action::RebuildChannel(2),
            Action::AwaitSave,
            Action::UpdateSidebar,
            Action::ShowEffects(2),
        ]
    );
    assert_eq!(s.switch_rack(2, true), vec![]);
    assert_eq!(s.switch_rack(9, true), vec![]);
    assert!(s.config().channels[1].vst_rack);
}

#[test]
fn outputs_section() {
    let mut s = session();
    assert_eq!(
        s.choose_output(Some("hdmi".to_string())),
        vec![Action::RouteMonitor, Action::AwaitSave, Action::UpdateSidebar]
    );
    assert_eq!(s.choose_output(Some("hdmi".to_string())), vec![]);
    assert_eq!(s.move_master(Mix::Stream, number(0.5)), vec![Action::ApplyMaster(Mix::Stream)]);
    assert_eq!(s.mute_master(Mix::Vod, true), vec![Action::ApplyMaster(Mix::Vod)]);
    assert_eq!(
        s.enable_vod(true),
        vec![Action::ApplyVodMix, Action::ShowVod(true), Action::UpdateSidebar]
    );
    assert_eq!(s.config().master.stream_volume, number(0.5));
    assert!(s.config().master.vod_muted && s.config().vod_mix_enabled);
}

#[test]
fn first_run_opens_the_assistant_once() {
    let mut s = session();
    assert_eq!(s.check_setup(false, true, true), vec![]);
    assert_eq!(s.check_setup(true, false, true), vec![]);
    assert_eq!(s.check_setup(true, true, false), vec![Action::AwaitSave, Action::OpenSetup]);
    assert!(s.config().setup_done);
    assert_eq!(s.check_setup(true, true, false), vec![]);
}

#[test]
fn later_runs_show_a_notice() {
    let mut cfg = Config::default();
    cfg.setup_done = true;
    let mut s = Session::new(cfg.clone());
    assert_eq!(s.check_setup(true, true, false), vec![Action::NoticeSetup]);
    assert_eq!(s.check_setup(true, true, false), vec![]);
    let mut fine = Session::new(cfg);
    assert_eq!(fine.check_setup(true, true, true), vec![]);
    assert_eq!(fine.check_setup(true, true, false), vec![]);
}

#[test]
fn assistant_is_open_once() {
    let mut s = session();
    assert!(s.open_setup());
    assert!(!s.open_setup());
    assert_eq!(
        s.audio_event(AudioEvent::DevicesChanged),
        vec![Action::RefreshDevices, Action::RestoreWaveXlr, Action::RefreshSetup]
    );
    s.setup_closed();
    assert_eq!(
        s.audio_event(AudioEvent::DevicesChanged),
        vec![Action::RefreshDevices, Action::RestoreWaveXlr]
    );
    assert!(s.open_setup());
    assert_eq!(
        s.setup_changed(),
        vec![Action::AwaitSave, Action::RefreshDevices, Action::UpdateSidebar]
    );
}

#[test]
fn events_of_the_audio_server() {
    let mut s = session();
    assert_eq!(
        s.audio_event(AudioEvent::Ready),
        vec![Action::ShowPage(Page::Mixer), Action::AwaitSetupCheck]
    );
    assert_eq!(
        s.audio_event(AudioEvent::Failed),
        vec![Action::ShowError, Action::ShowPage(Page::Error)]
    );
    assert_eq!(
        s.audio_event(AudioEvent::Level(LevelTarget::Channel(4))),
        vec![Action::ShowLevels(4)]
    );
    for (target, mix) in [
        (LevelTarget::MonitorMix, Mix::Monitor),
        (LevelTarget::StreamMix, Mix::Stream),
        (LevelTarget::VodMix, Mix::Vod),
    ] {
        assert_eq!(
            s.audio_event(AudioEvent::Level(target)),
            vec![Action::ShowMixLevels(mix)]
        );
    }
}

#[test]
fn open_dialog_follows_the_rack() {
    let mut s = session();
    assert_eq!(s.audio_event(AudioEvent::VstChanged(1)), vec![]);
    s.dialog_opened(1);
    assert_eq!(s.audio_event(AudioEvent::VstChanged(1)), vec![Action::RefreshDialog]);
    assert_eq!(s.audio_event(AudioEvent::VstChanged(2)), vec![]);
    assert_eq!(
        s.audio_event(AudioEvent::VstParams(1)),
        vec![Action::AwaitSave, Action::SyncDialog]
    );
    assert_eq!(s.audio_event(AudioEvent::VstParams(2)), vec![]);
    s.dialog_opened(2);
    s.dialog_closed(1);
    assert_eq!(s.audio_event(AudioEvent::VstChanged(2)), vec![Action::RefreshDialog]);
    s.dialog_closed(2);
    assert_eq!(s.audio_event(AudioEvent::VstChanged(2)), vec![]);
}

#[test]
fn stored_volumes_are_enforced_for_a_while() {
    let mut cfg = Config::default();
    cfg.wave_xlr.mic_volume = Some(number(70.0));
    let mut s = Session::new(cfg);
    let second = 1_000_000_000;
    let set = vec![Action::SetSourceVolume(number(70.0))];
    assert_eq!(s.restore_wave_xlr(Some(true), Some(true), second), set);
    assert_eq!(s.restore_wave_xlr(Some(false), Some(true), 2 * second), vec![]);
    assert_eq!(s.restore_wave_xlr(Some(true), None, 16 * second), set);
    assert_eq!(s.restore_wave_xlr(Some(true), None, 16 * second + 1), vec![]);
    // A replug starts over.
    assert_eq!(s.restore_wave_xlr(None, None, 20 * second), vec![]);
    assert_eq!(s.restore_wave_xlr(Some(true), None, 30 * second), set);
}

#[test]
fn deadline_of_one_device() {
    let stored = Some(number(50.0));
    assert_eq!(XLR_ENFORCE_WINDOW, 15_000_000_000);
    assert_eq!(enforce_xlr_volume(Some(9), None, stored, 3), (None, None));
    assert_eq!(
        enforce_xlr_volume(None, Some(true), stored, 3),
        (Some(3 + XLR_ENFORCE_WINDOW), stored)
    );
    assert_eq!(enforce_xlr_volume(Some(9), Some(true), stored, 9), (Some(9), stored));
    assert_eq!(enforce_xlr_volume(Some(9), Some(true), stored, 10), (Some(9), None));
    assert_eq!(enforce_xlr_volume(Some(9), Some(false), stored, 9), (Some(9), None));
    assert_eq!(enforce_xlr_volume(Some(9), Some(true), None, 9), (Some(9), None));
}

#[test]
fn both_volumes_are_restored() {
    let mut cfg = Config::default();
    cfg.wave_xlr.mic_volume = Some(number(70.0));
    cfg.wave_xlr.output_volume = Some(number(30.0));
    let mut s = Session::new(cfg);
    assert_eq!(
        s.restore_wave_xlr(Some(true), Some(true), 0),
        vec![Action::SetSourceVolume(number(70.0)), Action::SetSinkVolume(number(30.0))]
    );
}

#[test]
fn closing_is_told_once() {
    let mut s = session();
    assert!(s.window_closed());
    assert!(!s.window_closed());
}

#[test]
fn switches_and_occasions() {
    assert!(toggled(None));
    assert!(toggled(Some(false)));
    assert!(!toggled(Some(true)));
    let mut once = Once { done: false };
    assert!(once.first());
    assert!(!once.first());
}
