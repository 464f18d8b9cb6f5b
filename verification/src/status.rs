//! Saying how the server stands.

use crate::config::{Cfg, CfgView};
use crate::number::{decimal, to_decimal};
use crate::peers::{applied_peers, shown_peers};
use crate::registry::{load_state, remembered, text_or_empty};
use crate::sync::show_words;
use crate::system::{addresses_line, addresses_text, has_systemd, last_file, last_path, pid_file};
use crate::system::{pid_path, state_file, state_path, systemd_paths};
use crate::text::or_empty;
use crate::tunnel::{iface_exists, iface_words};
use crate::world::{argv3, argv4, turn, words3, Ask, Effect, EffectView, Effects, Reply, Text, Turn};
use crate::world::TurnView;
use vstd::prelude::*;

verus! {

/// Stages of saying how the server stands. `C` is the type of configurations.
pub enum Status<C> {
    /// Nothing was asked yet.
    Start,
    /// Asked for the settings.
    Load,
    /// Asked for the box's addresses.
    Survey(C),
    /// Asked whether the interface exists, for the line on the tunnel.
    Tunnel(C),
    /// Asked whether the interface exists, for the line on its peers.
    Again(C),
    /// Asked for its peers.
    Peers,
    /// Asked for the registration.
    State,
    /// Asked for the note of the last heartbeat.
    Last,
    /// Asked whether systemd runs the daemon.
    Systemd,
    /// Asked systemd how the daemon does.
    Active,
    /// Asked for the daemon's process number.
    Pid,
    /// Ended.
    Over,
}

/// A stage of the status, with its texts as characters.
pub type StatusView = Status<CfgView>;

impl View for Status<Cfg> {
    type V = StatusView;

    open spec fn view(&self) -> StatusView {
        match self {
            Status::Start => Status::Start,
            Status::Load => Status::Load,
            Status::Survey(c) => Status::Survey(c@),
            Status::Tunnel(c) => Status::Tunnel(c@),
            Status::Again(c) => Status::Again(c@),
            Status::Peers => Status::Peers,
            Status::State => Status::State,
            Status::Last => Status::Last,
            Status::Systemd => Status::Systemd,
            Status::Active => Status::Active,
            Status::Pid => Status::Pid,
            Status::Over => Status::Over,
        }
    }
}

/// The line on the tunnel.
pub open spec fn tunnel_line(cfg: CfgView, up: bool) -> Text {
    "tunnel   : "@ + cfg.iface + " (port "@ + decimal(cfg.port) + ") "@ + (if up {
        "UP"@
    } else {
        "DOWN"@
    })
}

/// One step of saying how the server stands: the version and the registry, the addresses, the
/// tunnel and its peers, the registration and the last heartbeat, the daemon.
pub open spec fn status_next(st: StatusView, version: Text, reply: Reply) -> (
    StatusView,
    TurnView,
) {
    let none = Seq::<EffectView>::empty();
    match st {
        Status::Start => (Status::Load, turn(none, Ask::Settings)),
        Status::Load => (Status::Survey(reply.cfg()), turn(none, Ask::Survey)),
        Status::Survey(cfg) => {
            let (v4, v6) = reply.detected();
            (
                Status::Tunnel(cfg),
                turn(
                    none.push(Effect::Print("vpnyellod "@ + version)).push(
                        Effect::Print("registry : "@ + cfg.registry),
                    ).push(Effect::Print(addresses_line("detected : "@, v4, v6))),
                    Ask::Run(iface_words(cfg)),
                ),
            )
        },
        Status::Tunnel(cfg) => (
            Status::Again(cfg),
            turn(
                none.push(Effect::Print(tunnel_line(cfg, reply.yes()))),
                Ask::Run(iface_words(cfg)),
            ),
        ),
        Status::Again(cfg) => if reply.yes() {
            (Status::Peers, turn(none, Ask::Output(show_words(cfg))))
        } else {
            (Status::State, turn(none, Ask::Read(state_file())))
        },
        Status::Peers => {
            let n = shown_peers(reply.output()).len();
            (
                Status::State,
                turn(
                    if reply.output() is Some {
                        none.push(Effect::Print("peers    : "@ + decimal(n) + " client(s)"@))
                    } else {
                        none
                    },
                    Ask::Read(state_file()),
                ),
            )
        },
        Status::State => {
            let id = remembered(reply.text()).0;
            if id.len() > 0 {
                (
                    Status::Last,
                    turn(none.push(Effect::Print("server_id: "@ + id)), Ask::Read(last_file())),
                )
            } else {
                (
                    Status::Systemd,
                    turn(
                        none.push(
                            Effect::Print("state    : not registered (run `sudo vpnyellod on`)"@),
                        ),
                        Ask::Exist(systemd_paths()),
                    ),
                )
            }
        },
        Status::Last => (
            Status::Systemd,
            turn(
                match reply.text() {
                    Some(l) => none.push(Effect::Print("last sync: "@ + l)),
                    None => none,
                },
                Ask::Exist(systemd_paths()),
            ),
        ),
        Status::Systemd => if reply.yes() {
            (
                Status::Active,
                turn(
                    none,
                    Ask::Output(words3("systemctl"@, "is-active"@, "vpnyellod.service"@)),
                ),
            )
        } else {
            (Status::Pid, turn(none, Ask::Read(pid_file())))
        },
        Status::Active => (
            Status::Over,
            turn(
                none.push(Effect::Print("daemon   : systemd "@ + or_empty(reply.output()))),
                Ask::Exit(0),
            ),
        ),
        Status::Pid => (
            Status::Over,
            turn(
                none.push(
                    Effect::Print(
                        if reply.text() is Some {
                            "daemon   : background pidfile present"@
                        } else {
                            "daemon   : not running"@
                        },
                    ),
                ),
                Ask::Exit(0),
            ),
        ),
        Status::Over => (Status::Over, turn(none, Ask::Exit(0))),
    }
}

/// Takes the reply to the last question of the status, and goes on to the next one.
pub fn cmd_status(st: Status<Cfg>, version: &str, reply: &Reply) -> (r: (Status<Cfg>, Turn))
    ensures
        (r.0@, r.1@) == status_next(st@, version@, *reply),
{
    let none = Effects::none();
    match st {
        Status::Start => (Status::Load, none.ask(Ask::Settings)),
        Status::Load => (Status::Survey(reply.get_cfg()), none.ask(Ask::Survey)),
        Status::Survey(cfg) => {
            let (v4, v6) = reply.get_detected();
            let said = none.print("vpnyellod ".to_owned().concat(version)).print(
                "registry : ".to_owned().concat(cfg.registry.as_str()),
            ).print(addresses_text("detected : ", &v4, &v6));
            let ask = Ask::Run(iface_exists(&cfg));
            (Status::Tunnel(cfg), said.ask(ask))
        },
        Status::Tunnel(cfg) => {
            let line = "tunnel   : ".to_owned().concat(cfg.iface.as_str()).concat(" (port ").concat(
                to_decimal(cfg.port as u64).as_str(),
            ).concat(") ").concat(
                if reply.is_yes() {
                    "UP"
                } else {
                    "DOWN"
                },
            );
            let ask = Ask::Run(iface_exists(&cfg));
            (Status::Again(cfg), none.print(line).ask(ask))
        },
        Status::Again(cfg) => {
            if reply.is_yes() {
                let ask = Ask::Output(argv4("wg", "show", cfg.iface.as_str(), "peers"));
                (Status::Peers, none.ask(ask))
            } else {
                (Status::State, none.ask(Ask::Read(state_path())))
            }
        },
        Status::Peers => {
            let out = reply.get_output();
            let said = if out.is_some() {
                let n = applied_peers(&out).len();
                none.print(
                    "peers    : ".to_owned().concat(to_decimal(n as u64).as_str()).concat(
                        " client(s)",
                    ),
                )
            } else {
                none
            };
            (Status::State, said.ask(Ask::Read(state_path())))
        },
        Status::State => {
            let (id, _) = load_state(&reply.get_text());
            if !id.as_str().is_empty() {
                (
                    Status::Last,
                    none.print("server_id: ".to_owned().concat(id.as_str())).ask(
                        Ask::Read(last_path()),
                    ),
                )
            } else {
                (
                    Status::Systemd,
                    none.print(
                        "state    : not registered (run `sudo vpnyellod on`)".to_owned(),
                    ).ask(Ask::Exist(has_systemd())),
                )
            }
        },
        Status::Last => {
            let said = match reply.get_text() {
                Some(l) => none.print("last sync: ".to_owned().concat(l.as_str())),
                None => none,
            };
            (Status::Systemd, said.ask(Ask::Exist(has_systemd())))
        },
        Status::Systemd => {
            if reply.is_yes() {
                (
                    Status::Active,
                    none.ask(Ask::Output(argv3("systemctl", "is-active", "vpnyellod.service"))),
                )
            } else {
                (Status::Pid, none.ask(Ask::Read(pid_path())))
            }
        },
        Status::Active => {
            let active = text_or_empty(&reply.get_output());
            (
                Status::Over,
                none.print("daemon   : systemd ".to_owned().concat(active.as_str())).ask(
                    Ask::Exit(0),
                ),
            )
        },
        Status::Pid => {
            let line = if reply.get_text().is_some() {
                "daemon   : background pidfile present"
            } else {
                "daemon   : not running"
            };
            (Status::Over, none.print(line.to_owned()).ask(Ask::Exit(0)))
        },
        Status::Over => (Status::Over, none.ask(Ask::Exit(0))),
    }
}

} // verus!
