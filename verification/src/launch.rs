//! Files, commands and desktop entries that the helper processes and the
//! application itself are started with.

use crate::{names, text};
use vstd::prelude::*;
use vstd::string::*;

verus! {

/// The id of the application.
pub const APP_ID: &'static str = "de.ghostzero.OpenWave";

/// An empty rack project.
pub const EMPTY_PROJECT: &'static str =
    "<?xml version='1.0' encoding='UTF-8'?>\n<!DOCTYPE CARLA-PROJECT>\n<CARLA-PROJECT VERSION='2.5'>\n</CARLA-PROJECT>\n";

// ---- Helper processes -----------------------------------------------------------------

/// The name of a file of a channel.
pub open spec fn channel_file(before: Seq<char>, id: u64, after: Seq<char>) -> Seq<char> {
    before + text::decimal(id as nat) + after
}

/// The configuration of the chain of a channel.
pub fn conf_file(id: u64) -> (out: String)
    ensures
        out@ == channel_file("ch"@, id, ".conf"@),
{
    text::with_number("ch", id, ".conf")
}

/// The rack project of a channel.
pub fn project_file(id: u64) -> (out: String)
    ensures
        out@ == channel_file("ch"@, id, ".carxp"@),
{
    text::with_number("ch", id, ".carxp")
}

/// What the chain process of a channel prints.
pub fn chain_log(id: u64) -> (out: String)
    ensures
        out@ == channel_file("openwave-fx-ch"@, id, ".log"@),
{
    text::with_number("openwave-fx-ch", id, ".log")
}

/// What the rack process of a channel prints.
pub fn rack_log(id: u64) -> (out: String)
    ensures
        out@ == channel_file("openwave-carla-ch"@, id, ".log"@),
{
    text::with_number("openwave-carla-ch", id, ".log")
}

/// The command that runs a chain with its configuration.
pub fn chain_command(conf: &str) -> (argv: Vec<String>)
    ensures
        text::texts(argv@) == seq!["pipewire"@, "-c"@, conf@],
{
    let mut argv: Vec<String> = Vec::new();
    argv.push("pipewire".to_owned());
    argv.push("-c".to_owned());
    argv.push(conf.to_owned());
    assert(text::texts(argv@) =~= seq!["pipewire"@, "-c"@, conf@]);
    argv
}

/// The command that runs a rack with its project, with a window or without.
pub fn rack_command(program: &str, project: &str, gui: bool) -> (argv: Vec<String>)
    ensures
        text::texts(argv@) == if gui {
            seq![program@, project@]
        } else {
            seq![program@, "--no-gui"@, project@]
        },
{
    let mut argv: Vec<String> = Vec::new();
    argv.push(program.to_owned());
    if !gui {
        argv.push("--no-gui".to_owned());
    }
    argv.push(project.to_owned());
    proof {
        if gui {
            assert(text::texts(argv@) =~= seq![program@, project@]);
        } else {
            assert(text::texts(argv@) =~= seq![program@, "--no-gui"@, project@]);
        }
    }
    argv
}

/// The properties that give the rack of a channel its name.
pub fn rack_props(id: u64) -> (out: String)
    ensures
        out@ == "{ node.name = \""@ + names::channel_node(id, "_VST"@) + "\" }"@,
{
    let mut out = "{ node.name = \"".to_owned();
    out.append(names::carla_node_name(id).as_str());
    out.append("\" }");
    out
}

// ---- Desktop ------------------------------------------------------------------------------

/// The file that starts the application at login.
pub fn autostart_file() -> (out: String)
    ensures
        out@ == APP_ID@ + ".desktop"@,
{
    let mut out = APP_ID.to_owned();
    out.append(".desktop");
    out
}

/// The content of the file that starts the application at login, hidden so
/// that the virtual devices come up in the background.
pub open spec fn autostart_text(exe: Seq<char>) -> Seq<char> {
    "[Desktop Entry]\nType=Application\nName=OpenWave\nComment=Dual-mix virtual audio mixer for streaming\nExec="@
        + exe + " --hidden\nIcon="@ + APP_ID@
        + "\nTerminal=false\nX-GNOME-Autostart-enabled=true\n"@
}

/// The content of the file that starts the application at login.
pub fn autostart_entry(exe: &str) -> (out: String)
    ensures
        out@ == autostart_text(exe@),
{
    let mut out =
        "[Desktop Entry]\nType=Application\nName=OpenWave\nComment=Dual-mix virtual audio mixer for streaming\nExec=".to_owned();
    out.append(exe);
    out.append(" --hidden\nIcon=");
    out.append(APP_ID);
    out.append("\nTerminal=false\nX-GNOME-Autostart-enabled=true\n");
    out
}

/// The question before a channel is removed.
pub fn removal_question(name: &str) -> (out: String)
    ensures
        out@ == "“"@ + name@
            + "” will be removed, along with its input assignment, mix levels and effects."@,
{
    let mut out = "“".to_owned();
    out.append(name);
    out.append("” will be removed, along with its input assignment, mix levels and effects.");
    out
}

// ---- Laws -----------------------------------------------------------------------------------

/// No two channels share a configuration, a rack project or a log.
pub proof fn law_files_apart(before: Seq<char>, a: u64, b: u64, after: Seq<char>)
    requires
        after.len() > 0,
        !text::is_digit(after[0]),
        channel_file(before, a, after) == channel_file(before, b, after),
    ensures
        a == b,
{
    text::lemma_numbered_injective(before, a as nat, after, b as nat, after);
}

/// At login the application is started hidden, from where it is.
pub proof fn law_starts_hidden(exe: Seq<char>)
    ensures
        text::holds_text(autostart_text(exe), exe + " --hidden\nIcon="@ + APP_ID@),
{
    let before =
        "[Desktop Entry]\nType=Application\nName=OpenWave\nComment=Dual-mix virtual audio mixer for streaming\nExec="@;
    let said = exe + " --hidden\nIcon="@ + APP_ID@;
    let after = "\nTerminal=false\nX-GNOME-Autostart-enabled=true\n"@;
    text::lemma_holds_middle(before, said, after);
    assert(autostart_text(exe) =~= before + said + after);
}

} // verus!
