use openwave::config::Parameter;
use openwave::fx::{
    CarlaLaunch, ChainLaunch, ChainPlan, FxEvent, FxManager, LinkStep, Report, Slot, LINK_TRIES,
};
use openwave::number::Real64;
use openwave::pushes::Push;

const HANDLER: u64 = 7;

fn manager() -> FxManager {
    let mut fx = FxManager::default();
    fx.set_event_handler(HANDLER);
    fx
}

fn conf(text: &str) -> Option<String> {
    Some(text.to_string())
}

fn start_chain(fx: &mut FxManager, id: u64, text: &str, pid: i32) -> ChainPlan {
    let mut plan = fx.ensure_chain(id, conf(text));
    if let Some(launch) = plan.launch.take() {
        let copy = ChainLaunch { conf: launch.conf.clone(), fails: launch.fails };
        fx.chain_started(id, launch, pid);
        plan.launch = Some(copy);
    }
    plan
}

fn start_rack(fx: &mut FxManager, id: u64, pid: i32) {
    let launch = fx.ensure_carla(id).unwrap();
    fx.carla_started(id, launch.gui, pid);
}

fn told(event: FxEvent) -> Option<Report> {
    Some(Report { handler: HANDLER, event })
}

#[test]
fn chain_is_started_once() {
    let mut fx = manager();
    assert!(fx.chain_failed(1));
    let plan = start_chain(&mut fx, 1, "a", 100);
    assert_eq!(
        plan,
        ChainPlan { signal: None, launch: Some(ChainLaunch { conf: "a".to_string(), fails: 0 }) }
    );
    assert!(fx.chain_running(1) && !fx.chain_failed(1));
    assert!(!fx.chain_running(2));
    assert_eq!(start_chain(&mut fx, 1, "a", 101), ChainPlan { signal: None, launch: None });
}

#[test]
fn changed_configuration_restarts_the_chain() {
    let mut fx = manager();
    start_chain(&mut fx, 1, "a", 100);
    let plan = start_chain(&mut fx, 1, "b", 101);
    assert_eq!(plan.signal, Some(100));
    assert!(plan.launch.is_some());
    // The process that was asked to exit is not told about.
    assert_eq!(fx.child_exited(FxEvent::ChainDied(1), 100, 60), None);
    assert!(fx.chain_running(1));
    assert_eq!(fx.child_exited(FxEvent::ChainDied(1), 101, 60), told(FxEvent::ChainDied(1)));
    assert!(!fx.chain_running(1));
}

#[test]
fn chain_is_stopped_without_a_configuration() {
    let mut fx = manager();
    start_chain(&mut fx, 1, "a", 100);
    assert_eq!(fx.ensure_chain(1, None), ChainPlan { signal: Some(100), launch: None });
    assert!(!fx.chain_running(1));
    assert_eq!(fx.ensure_chain(1, None), ChainPlan { signal: None, launch: None });
}

#[test]
fn bad_configuration_is_started_twice() {
    let mut fx = manager();
    assert_eq!(start_chain(&mut fx, 1, "bad", 100).launch.unwrap().fails, 0);
    assert_eq!(fx.child_exited(FxEvent::ChainDied(1), 100, 0), told(FxEvent::ChainDied(1)));
    assert!(fx.chain_failed(1));
    let again = start_chain(&mut fx, 1, "bad", 101);
    assert_eq!((again.signal, again.launch.unwrap().fails), (None, 1));
    assert!(fx.chain_running(1));
    fx.child_exited(FxEvent::ChainDied(1), 101, 4);
    for _ in 0..3 {
        let plan = start_chain(&mut fx, 1, "bad", 102);
        assert_eq!(plan, ChainPlan { signal: None, launch: None });
        assert!(fx.chain_failed(1));
    }
    // Another configuration starts anew.
    assert_eq!(start_chain(&mut fx, 1, "good", 103).launch.unwrap().fails, 0);
}

#[test]
fn late_death_is_no_failure() {
    let mut fx = manager();
    start_chain(&mut fx, 1, "a", 100);
    assert_eq!(fx.child_exited(FxEvent::ChainDied(1), 100, 5), told(FxEvent::ChainDied(1)));
    assert_eq!(start_chain(&mut fx, 1, "a", 101).launch.unwrap().fails, 0);
}

#[test]
fn nobody_is_told_without_a_handler() {
    let mut fx = FxManager::default();
    start_chain(&mut fx, 1, "a", 100);
    fx.set_event_handler(HANDLER);
    assert_eq!(fx.child_exited(FxEvent::ChainDied(1), 100, 9), None);
}

#[test]
fn control_values_go_to_the_running_chain() {
    let mut fx = manager();
    let labels = vec!["fx3_l".to_string(), "fx3 'r".to_string()];
    assert_eq!(fx.set_controls(1, &labels, "gain", "0.500000"), None);
    start_chain(&mut fx, 1, "a", 100);
    assert_eq!(
        fx.set_controls(1, &labels, "ga'in", "0.500000"),
        Some(
            "pw-cli set-param OpenWave_Ch1_FX Props '{ params = [ \"fx3_l:gain\" 0.500000 \"fx3r:gain\" 0.500000 ] }'"
                .to_string()
        )
    );
    assert_eq!(
        fx.set_controls(1, &Vec::new(), "x", "1.000000"),
        Some("pw-cli set-param OpenWave_Ch1_FX Props '{ params = [ ] }'".to_string())
    );
}

#[test]
fn changed_parameters_go_to_the_nodes_of_their_effect() {
    let mut fx = manager();
    let mut push = Push {
        channel: 1,
        effect: 3,
        mono: false,
        parameter: Parameter {
            symbol: "gain".to_string(),
            value: Real64 { bits: 0.5f64.to_bits() },
            text: "0.500000".to_string(),
        },
    };
    assert_eq!(fx.push_control(&push), None);
    start_chain(&mut fx, 1, "a", 100);
    assert_eq!(
        fx.push_control(&push),
        Some(
            "pw-cli set-param OpenWave_Ch1_FX Props '{ params = [ \"fx3:gain\" 0.500000 ] }'"
                .to_string()
        )
    );
    push.mono = true;
    assert_eq!(
        fx.push_control(&push),
        Some(
            "pw-cli set-param OpenWave_Ch1_FX Props '{ params = [ \"fx3_l:gain\" 0.500000 \"fx3_r:gain\" 0.500000 ] }'"
                .to_string()
        )
    );
}

#[test]
fn what_runs_after_a_history() {
    let mut fx = manager();
    start_chain(&mut fx, 1, "a", 100);
    start_rack(&mut fx, 1, 200);
    start_chain(&mut fx, 2, "a", 101);
    // What is done about racks and other channels does not matter.
    fx.kill_carla(1);
    fx.ensure_chain(2, None);
    fx.child_exited(FxEvent::ChainDied(1), 101, 1);
    assert!(fx.chain_running(1) && !fx.chain_running(2) && !fx.carla_running(1));
    // A chain that could not be started again does not run.
    fx.ensure_chain(1, conf("b"));
    assert!(!fx.chain_running(1));
    // A process that exits late does not end the one that replaced it.
    start_chain(&mut fx, 1, "b", 103);
    fx.child_exited(FxEvent::ChainDied(1), 100, 60);
    assert!(fx.chain_running(1));
    // Nor does a rack survive a restart that failed.
    start_rack(&mut fx, 1, 201);
    fx.open_carla_gui(1);
    assert!(!fx.carla_running(1) && fx.chain_running(1));
}

#[test]
fn rack_is_started_headless_and_reopened_with_its_window() {
    let mut fx = manager();
    assert_eq!(fx.ensure_carla(2), Some(CarlaLaunch { signal: None, gui: false }));
    fx.carla_started(2, false, 200);
    assert!(fx.carla_running(2));
    assert_eq!(fx.ensure_carla(2), None);
    assert_eq!(
        fx.open_carla_gui(2),
        (true, Some(CarlaLaunch { signal: Some(200), gui: true }))
    );
    assert!(!fx.carla_running(2));
    fx.carla_started(2, true, 201);
    assert_eq!(fx.open_carla_gui(2), (true, None));
    assert_eq!(fx.child_exited(FxEvent::CarlaDied(2), 200, 1), None);
    assert_eq!(fx.child_exited(FxEvent::CarlaDied(2), 201, 1), told(FxEvent::CarlaDied(2)));
    assert_eq!(
        fx.open_carla_gui(2),
        (false, Some(CarlaLaunch { signal: None, gui: true }))
    );
}

#[test]
fn rack_never_fails_early() {
    let mut fx = manager();
    start_rack(&mut fx, 2, 200);
    fx.child_exited(FxEvent::CarlaDied(2), 200, 0);
    assert_eq!(fx.ensure_carla(2), Some(CarlaLaunch { signal: None, gui: false }));
    assert_eq!(fx.kill_carla(2), None);
}

#[test]
fn linking_a_rack() {
    let mut fx = manager();
    assert_eq!(fx.start_carla_links(2), None);
    start_rack(&mut fx, 2, 200);
    assert!(fx.can_start_links());
    let (first, script) = fx.start_carla_links(2).unwrap();
    assert_eq!(
        script,
        "pw-link 'OpenWave_Ch2_VSTIn:monitor_FL' 'OpenWave_Ch2_VST:audio-in1' 2>&1; \
         pw-link 'OpenWave_Ch2_VSTIn:monitor_FR' 'OpenWave_Ch2_VST:audio-in2' 2>&1; \
         pw-link 'OpenWave_Ch2_VST:audio-out1' 'OpenWave_Ch2_FX:playback_FL' 2>&1; \
         pw-link 'OpenWave_Ch2_VST:audio-out2' 'OpenWave_Ch2_FX:playback_FR' 2>&1; \
         exit 0"
    );
    assert_eq!(fx.link_tick(2, first), LinkStep::Run);
    fx.link_output(2, first, "failed to link ports: No such object\n");
    assert_eq!(fx.link_tick(2, first), LinkStep::Run);
    let (second, _) = fx.start_carla_links(2).unwrap();
    assert_ne!(first, second);
    assert_eq!(fx.link_tick(2, first), LinkStep::Stop);
    fx.link_output(2, first, "");
    assert_eq!(fx.link_tick(2, second), LinkStep::Run);
    fx.link_output(2, second, "failed to link ports: File exists\n");
    assert_eq!(fx.link_tick(2, second), LinkStep::Stop);
}

#[test]
fn linking_is_given_up_once() {
    let mut fx = manager();
    start_rack(&mut fx, 2, 200);
    let (number, _) = fx.start_carla_links(2).unwrap();
    for _ in 0..LINK_TRIES {
        assert_eq!(fx.link_tick(2, number), LinkStep::Run);
    }
    assert_eq!(LINK_TRIES, 40);
    assert_eq!(fx.link_tick(2, number), LinkStep::GiveUp(told(FxEvent::CarlaDied(2))));
    assert_eq!(fx.link_tick(2, number), LinkStep::Stop);
    assert!(fx.carla_running(2));
}

#[test]
fn dead_rack_is_not_linked() {
    let mut fx = manager();
    start_rack(&mut fx, 2, 200);
    let (number, _) = fx.start_carla_links(2).unwrap();
    fx.child_exited(FxEvent::CarlaDied(2), 200, 1);
    assert_eq!(fx.link_tick(2, number), LinkStep::Stop);
}

#[test]
fn removing_a_channel_stops_its_processes() {
    let mut fx = manager();
    start_chain(&mut fx, 1, "a", 100);
    start_rack(&mut fx, 1, 200);
    start_chain(&mut fx, 2, "a", 101);
    assert_eq!(fx.remove_channel(1), (Some(100), Some(200)));
    assert_eq!(fx.remove_channel(1), (None, None));
    assert!(fx.chain_running(2) && !fx.chain_running(1) && !fx.carla_running(1));
}

#[test]
fn shutdown_signals_everything_alive() {
    let mut fx = manager();
    start_chain(&mut fx, 1, "a", 100);
    start_chain(&mut fx, 2, "a", 101);
    start_chain(&mut fx, 3, "a", 102);
    start_rack(&mut fx, 1, 200);
    start_rack(&mut fx, 2, 201);
    fx.child_exited(FxEvent::ChainDied(2), 101, 60);
    let mut signals = fx.shutdown_all();
    assert!(signals[..2].iter().all(|p| *p < 200));
    signals.sort();
    assert_eq!(signals, vec![100, 102, 200, 201]);
    for id in 1..=3 {
        assert!(!fx.chain_running(id) && !fx.carla_running(id));
    }
    assert_eq!(fx.child_exited(FxEvent::ChainDied(1), 100, 60), None);
    assert_eq!(fx.child_exited(FxEvent::CarlaDied(2), 201, 60), None);
    assert!(fx.shutdown_all().is_empty());
}

#[test]
fn unknown_processes_are_ignored() {
    let mut fx = manager();
    start_chain(&mut fx, 1, "a", 100);
    assert_eq!(fx.child_exited(FxEvent::ChainDied(1), 999, 60), None);
    assert_eq!(fx.child_exited(FxEvent::CarlaDied(1), 100, 60), None);
    assert_eq!(fx.child_exited(FxEvent::ChainDied(5), 100, 60), None);
    assert!(fx.chain_running(1));
}

#[test]
fn one_process() {
    let mut slot = Slot {
        pid: 5,
        alive: true,
        expect_exit: false,
        failed: false,
        handler: Some(HANDLER),
        event: FxEvent::ChainDied(3),
    };
    assert!(slot.running());
    assert_eq!(slot.exited(2), told(FxEvent::ChainDied(3)));
    assert!(slot.failed && !slot.running());
    assert_eq!(slot.kill(), None);
    assert!(!slot.expect_exit);
    let mut other = Slot { alive: true, failed: false, ..slot };
    assert_eq!(other.kill(), Some(5));
    assert_eq!(other.exited(2), None);
    assert!(!other.failed);
}
