use openwave::launch::{
    autostart_entry, autostart_file, chain_command, chain_log, conf_file, project_file,
    rack_command, rack_log, rack_props, removal_question, EMPTY_PROJECT,
};
use openwave::names::{
    carla_node_name, chain_sink_name, chain_source_name, effect_labels, vstin_sink_name,
};
use openwave::text::sanitize_token;

#[test]
fn node_names() {
    assert_eq!(chain_sink_name(1), "OpenWave_Ch1_FX");
    assert_eq!(chain_source_name(12), "OpenWave_Ch12_FXOut");
    assert_eq!(vstin_sink_name(0), "OpenWave_Ch0_VSTIn");
    assert_eq!(carla_node_name(u64::MAX), "OpenWave_Ch18446744073709551615_VST");
}

#[test]
fn node_names_are_unique() {
    let mut all: Vec<String> = Vec::new();
    for id in [1, 2, 11, 12, 111] {
        all.push(chain_sink_name(id));
        all.push(chain_source_name(id));
        all.push(vstin_sink_name(id));
        all.push(carla_node_name(id));
    }
    let count = all.len();
    all.sort();
    all.dedup();
    assert_eq!(all.len(), count);
}

#[test]
fn labels_of_effects() {
    assert_eq!(effect_labels(7, false), vec!["fx7".to_string()]);
    assert_eq!(effect_labels(7, true), vec!["fx7_l".to_string(), "fx7_r".to_string()]);
    for label in effect_labels(70, true) {
        assert_eq!(sanitize_token(&label), label);
    }
}

#[test]
fn files_of_channels() {
    assert_eq!(conf_file(3), "ch3.conf");
    assert_eq!(project_file(3), "ch3.carxp");
    assert_eq!(chain_log(3), "openwave-fx-ch3.log");
    assert_eq!(rack_log(3), "openwave-carla-ch3.log");
    assert_ne!(conf_file(1), conf_file(11));
}

#[test]
fn commands_of_helper_processes() {
    assert_eq!(chain_command("/x/ch3.conf"), vec!["pipewire", "-c", "/x/ch3.conf"]);
    assert_eq!(rack_command("/bin/carla-rack", "p", true), vec!["/bin/carla-rack", "p"]);
    assert_eq!(
        rack_command("/bin/carla-rack", "p", false),
        vec!["/bin/carla-rack", "--no-gui", "p"]
    );
    assert_eq!(rack_props(5), "{ node.name = \"OpenWave_Ch5_VST\" }");
    assert_eq!(
        EMPTY_PROJECT,
        "<?xml version='1.0' encoding='UTF-8'?>\n\
         <!DOCTYPE CARLA-PROJECT>\n\
         <CARLA-PROJECT VERSION='2.5'>\n\
         </CARLA-PROJECT>\n"
    );
}

#[test]
fn autostart_at_login() {
    assert_eq!(autostart_file(), "de.ghostzero.OpenWave.desktop");
    assert_eq!(
        autostart_entry("/usr/bin/openwave"),
        "[Desktop Entry]\n\
         Type=Application\n\
         Name=OpenWave\n\
         Comment=Dual-mix virtual audio mixer for streaming\n\
         Exec=/usr/bin/openwave --hidden\n\
         Icon=de.ghostzero.OpenWave\n\
         Terminal=false\n\
         X-GNOME-Autostart-enabled=true\n"
    );
}

#[test]
fn question_before_removal() {
    assert_eq!(
        removal_question("Music"),
        "“Music” will be removed, along with its input assignment, mix levels and effects."
    );
}
