//! Where the daemon keeps its files, and what the command line and the
//! control socket ask of it.

use vstd::prelude::*;
use crate::text::{chars_eq, chars_of, trim, trimmed_chars};

verus! {

pub(crate) fn join(a: &str, b: &str) -> (r: String)
    ensures
        r@ == a@ + b@,
{
    let mut s = String::from_str(a);
    s.append(b);
    s
}

/// The data directory under the home directory `home`.
pub fn data_dir(home: &str) -> (r: String)
    ensures
        r@ == home@ + "/.local/share/voiceflow"@,
{
    join(home, "/.local/share/voiceflow")
}

/// Where the overlay's position is saved, in the data directory.
pub fn pos_file(data_dir: &str) -> (r: String)
    ensures
        r@ == data_dir@ + "/overlay-pos"@,
{
    join(data_dir, "/overlay-pos")
}

/// The control socket in the runtime directory, `/tmp` when there is none.
pub fn socket_path(runtime_dir: Option<&str>) -> (r: String)
    ensures
        runtime_dir matches Some(d) ==> r@ == d@ + "/voiceflow.sock"@,
        runtime_dir is None ==> r@ == "/tmp"@ + "/voiceflow.sock"@,
{
    match runtime_dir {
        Some(d) => join(d, "/voiceflow.sock"),
        None => join("/tmp", "/voiceflow.sock"),
    }
}

/// What the program was started to do.
#[derive(PartialEq, Eq, Structural, Debug, Clone, Copy)]
pub enum Command {
    /// Ask the running daemon to start or stop recording.
    Toggle,
    /// Show the overlay with canned data.
    Preview,
    /// Open the history window.
    Ui,
    /// Run the daemon.
    Daemon,
}

fn is(s: &str, lit: &str) -> (b: bool)
    ensures
        b == (s@ == lit@),
{
    let a = chars_of(s);
    let l = chars_of(lit);
    chars_eq(&a, &l)
}

/// The command named by the first argument; anything else runs the daemon.
pub fn parse_command(arg: Option<&str>) -> (c: Command)
    ensures
        c == match arg {
            Some(a) => if a@ == "toggle"@ {
                Command::Toggle
            } else if a@ == "preview"@ {
                Command::Preview
            } else if a@ == "ui"@ {
                Command::Ui
            } else {
                Command::Daemon
            },
            None => Command::Daemon,
        },
{
    match arg {
        Some(a) => if is(a, "toggle") {
            Command::Toggle
        } else if is(a, "preview") {
            Command::Preview
        } else if is(a, "ui") {
            Command::Ui
        } else {
            Command::Daemon
        },
        None => Command::Daemon,
    }
}

/// Whether a message read from the control socket asks for a toggle.
pub fn is_toggle_request(msg: &str) -> (b: bool)
    ensures
        b == (trim(msg@) == "toggle"@),
{
    let t = trimmed_chars(msg);
    let l = chars_of("toggle");
    chars_eq(&t, &l)
}

/// Where the daemon parks the session's Wayland socket name, having cleared
/// `WAYLAND_DISPLAY` for the overlay's sake.
pub const WAYLAND_FALLBACK: &'static str = "VOICEFLOW_WAYLAND_DISPLAY";

} // verus!
