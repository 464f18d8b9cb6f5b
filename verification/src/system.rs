//! What the agent's commands share: where it keeps its files, how it talks to the service
//! manager, and how it says what it found.

use crate::text::view_of;
use crate::world::{argv2, words2, Argv, Text, Words};
use vstd::prelude::*;

verus! {

/// The directory of the agent's settings.
pub open spec fn conf_dir() -> Text {
    "/etc/vpnyellod"@
}

/// The settings file.
pub open spec fn settings_file() -> Text {
    "/etc/vpnyellod/config.env"@
}

/// The file that remembers the registration.
pub open spec fn state_file() -> Text {
    "/etc/vpnyellod/state.env"@
}

/// The note of the last heartbeat.
pub open spec fn last_file() -> Text {
    "/var/lib/vpnyellod/last.json"@
}

/// The file with the process number of a daemon that no service manager runs.
pub open spec fn pid_file() -> Text {
    "/run/vpnyellod.pid"@
}

/// The service manager's description of the daemon.
pub open spec fn unit_file() -> Text {
    "/etc/systemd/system/vpnyellod.service"@
}

/// The directory of the agent's settings.
pub fn conf_dir_path() -> (r: String)
    ensures
        r@ == conf_dir(),
{
    "/etc/vpnyellod".to_owned()
}

/// The settings file.
pub fn settings_path() -> (r: String)
    ensures
        r@ == settings_file(),
{
    "/etc/vpnyellod/config.env".to_owned()
}

/// The file that remembers the registration.
pub fn state_path() -> (r: String)
    ensures
        r@ == state_file(),
{
    "/etc/vpnyellod/state.env".to_owned()
}

/// The note of the last heartbeat.
pub fn last_path() -> (r: String)
    ensures
        r@ == last_file(),
{
    "/var/lib/vpnyellod/last.json".to_owned()
}

/// The file with the process number of a daemon that no service manager runs.
pub fn pid_path() -> (r: String)
    ensures
        r@ == pid_file(),
{
    "/run/vpnyellod.pid".to_owned()
}

/// The service manager's description of the daemon.
pub fn unit_path() -> (r: String)
    ensures
        r@ == unit_file(),
{
    "/etc/systemd/system/vpnyellod.service".to_owned()
}

/// The paths that exist where systemd runs and knows the daemon.
pub open spec fn systemd_paths() -> Words {
    words2("/run/systemd/system"@, unit_file())
}

/// The paths that exist where systemd runs and knows the daemon.
pub fn has_systemd() -> (r: Argv)
    ensures
        r@ == systemd_paths(),
{
    argv2("/run/systemd/system", "/etc/systemd/system/vpnyellod.service")
}

/// The command that prints the user's number.
pub open spec fn id_words() -> Words {
    words2("id"@, "-u"@)
}

/// The command that prints the user's number.
pub fn id_command() -> (r: Argv)
    ensures
        r@ == id_words(),
{
    argv2("id", "-u")
}

/// An address, or a dash where there is none.
pub open spec fn or_dash(o: Option<Text>) -> Text {
    match o {
        Some(s) => s,
        None => "-"@,
    }
}

/// Both addresses, for the user.
pub open spec fn addresses_line(title: Text, v4: Option<Text>, v6: Option<Text>) -> Text {
    title + "ipv4="@ + or_dash(v4) + " ipv6="@ + or_dash(v6)
}

fn text_or_dash(o: &Option<String>) -> (r: String)
    ensures
        r@ == or_dash(view_of(*o)),
{
    match o {
        Some(s) => s.clone(),
        None => "-".to_owned(),
    }
}

/// Both addresses, for the user.
pub fn addresses_text(title: &str, v4: &Option<String>, v6: &Option<String>) -> (r: String)
    ensures
        r@ == addresses_line(title@, view_of(*v4), view_of(*v6)),
{
    title.to_owned().concat("ipv4=").concat(text_or_dash(v4).as_str()).concat(" ipv6=").concat(
        text_or_dash(v6).as_str(),
    )
}

} // verus!
