//! Switching the server off, and taking everything of it off the box.

use crate::config::{Cfg, CfgView};
use crate::registry::{curl_command, curl_post, load_state, offline_body, offline_body_of};
use crate::registry::{offline_url, offline_url_of, post_command, posted, remembered};
use crate::system::{has_systemd, id_command, id_words, last_file, last_path, pid_file, pid_path};
use crate::system::{settings_file, settings_path, state_file, state_path, systemd_paths};
use crate::system::{unit_file, unit_path};
use crate::text::{trim, trimmed};
use crate::tunnel::{iface_exists, iface_words};
use crate::world::{argv2, argv3, argv4, turn, words2, words3, words4, Ask, Effect, EffectView};
use crate::world::{Effects, Reply, Text, Turn, TurnView};
use vstd::prelude::*;

verus! {

/// Stages of switching the server off. `C` is the type of configurations and `S` that of texts.
pub enum Off<C, S> {
    /// Nothing was asked yet.
    Start,
    /// Asked for the user's number.
    Root,
    /// Asked for the settings.
    Load,
    /// Asked for the registration.
    State(C),
    /// Told the registry, under the server's id.
    Post(C, S),
    /// Asked whether systemd runs the daemon.
    Systemd(C),
    /// Asked for the daemon's process number.
    Pid(C),
    /// Asked whether the interface exists.
    Iface(C),
    /// Ended.
    Over,
}

/// A stage of switching off, with its texts as characters.
pub type OffView = Off<CfgView, Text>;

impl View for Off<Cfg, String> {
    type V = OffView;

    open spec fn view(&self) -> OffView {
        match self {
            Off::Start => Off::Start,
            Off::Root => Off::Root,
            Off::Load => Off::Load,
            Off::State(c) => Off::State(c@),
            Off::Post(c, i) => Off::Post(c@, i@),
            Off::Systemd(c) => Off::Systemd(c@),
            Off::Pid(c) => Off::Pid(c@),
            Off::Iface(c) => Off::Iface(c@),
            Off::Over => Off::Over,
        }
    }
}

/// The effects that take the agent's files off the box: the daemon's description, the tunnel's
/// configuration, the server's key, the registration, the settings and the last note.
pub open spec fn purged(effects: Seq<EffectView>, cfg: CfgView) -> Seq<EffectView> {
    effects.push(Effect::Remove(unit_file())).push(Effect::Remove(cfg.conf_path)).push(
        Effect::Remove(cfg.key_path),
    ).push(Effect::Remove(state_file())).push(Effect::Remove(settings_file())).push(
        Effect::Remove(last_file()),
    ).push(Effect::Print("[vpnyellod] uninstalled"@))
}

fn purge_files(cfg: &Cfg, effects: Effects) -> (r: Effects)
    ensures
        r@ == purged(effects@, cfg@),
{
    effects.remove(unit_path().as_str()).remove(cfg.conf_path.as_str()).remove(
        cfg.key_path.as_str(),
    ).remove(state_path().as_str()).remove(settings_path().as_str()).remove(
        last_path().as_str(),
    ).print("[vpnyellod] uninstalled".to_owned())
}

/// One step of switching the server off: the registry is told where the server is registered,
/// the daemon is stopped, the interface goes down. With `purge` the agent's files go too.
pub open spec fn off_next(st: OffView, purge: bool, reply: Reply) -> (OffView, TurnView) {
    let none = Seq::<EffectView>::empty();
    match st {
        Off::Start => (Off::Root, turn(none, Ask::Output(id_words()))),
        Off::Root => if reply.says_root() {
            (Off::Load, turn(none, Ask::Settings))
        } else {
            let said = if purge {
                "error: run as root: sudo vpnyellod uninstall"@
            } else {
                "error: run as root: sudo vpnyellod off"@
            };
            (Off::Over, turn(none.push(Effect::Complain(said)), Ask::Exit(1)))
        },
        Off::Load => (Off::State(reply.cfg()), turn(none, Ask::Read(state_file()))),
        Off::State(cfg) => {
            let (id, secret) = remembered(reply.text());
            if id.len() > 0 && secret.len() > 0 {
                (
                    Off::Post(cfg, id),
                    turn(
                        none,
                        Ask::Feed(
                            post_command(offline_url(cfg.registry, id)),
                            offline_body(secret),
                        ),
                    ),
                )
            } else {
                (Off::Systemd(cfg), turn(none, Ask::Exist(systemd_paths())))
            }
        },
        Off::Post(cfg, id) => {
            let said = match posted(offline_url(cfg.registry, id), reply) {
                Ok(_) => Effect::Print("[vpnyellod] deregistered from website"@),
                Err(e) => Effect::Complain("[vpnyellod] deregister skipped ("@ + e + ")"@),
            };
            (Off::Systemd(cfg), turn(none.push(said), Ask::Exist(systemd_paths())))
        },
        Off::Systemd(cfg) => {
            let stop = Effect::Run(
                words4("systemctl"@, "disable"@, "--now"@, "vpnyellod.service"@),
            );
            (
                Off::Pid(cfg),
                turn(
                    if reply.yes() {
                        none.push(stop)
                    } else {
                        none
                    },
                    Ask::Read(pid_file()),
                ),
            )
        },
        Off::Pid(cfg) => {
            let killed = match reply.text() {
                Some(pid) => none.push(Effect::Run(words2("kill"@, trimmed(pid)))).push(
                    Effect::Remove(pid_file()),
                ),
                None => none,
            };
            (
                Off::Iface(cfg),
                turn(
                    killed.push(Effect::Run(words3("pkill"@, "-f"@, "vpnyellod daemon"@))),
                    Ask::Run(iface_words(cfg)),
                ),
            )
        },
        Off::Iface(cfg) => {
            let down = if reply.yes() {
                none.push(Effect::Run(words3("wg-quick"@, "down"@, cfg.iface))).push(
                    Effect::Print("[vpnyellod] "@ + cfg.iface + " down"@),
                )
            } else {
                none
            };
            let off = down.push(Effect::Print("[vpnyellod] OFF"@));
            (
                Off::Over,
                turn(
                    if purge {
                        purged(off, cfg)
                    } else {
                        off
                    },
                    Ask::Exit(0),
                ),
            )
        },
        Off::Over => (Off::Over, turn(none, Ask::Exit(0))),
    }
}

/// Takes the reply to the last question of switching off, and goes on to the next one.
pub fn cmd_off(st: Off<Cfg, String>, purge: bool, reply: &Reply) -> (r: (Off<Cfg, String>, Turn))
    ensures
        (r.0@, r.1@) == off_next(st@, purge, *reply),
{
    let none = Effects::none();
    match st {
        Off::Start => (Off::Root, none.ask(Ask::Output(id_command()))),
        Off::Root => {
            if reply.is_root() {
                (Off::Load, none.ask(Ask::Settings))
            } else {
                let said = if purge {
                    "error: run as root: sudo vpnyellod uninstall"
                } else {
                    "error: run as root: sudo vpnyellod off"
                };
                (Off::Over, none.complain(said.to_owned()).ask(Ask::Exit(1)))
            }
        },
        Off::Load => (Off::State(reply.get_cfg()), none.ask(Ask::Read(state_path()))),
        Off::State(cfg) => {
            let (id, secret) = load_state(&reply.get_text());
            if !id.as_str().is_empty() && !secret.as_str().is_empty() {
                let url = offline_url_of(cfg.registry.as_str(), id.as_str());
                let ask = Ask::Feed(curl_command(url.as_str()), offline_body_of(secret.as_str()));
                (Off::Post(cfg, id), none.ask(ask))
            } else {
                (Off::Systemd(cfg), none.ask(Ask::Exist(has_systemd())))
            }
        },
        Off::Post(cfg, id) => {
            let url = offline_url_of(cfg.registry.as_str(), id.as_str());
            let said = match curl_post(url.as_str(), reply) {
                Ok(_) => none.print("[vpnyellod] deregistered from website".to_owned()),
                Err(e) => none.complain(
                    "[vpnyellod] deregister skipped (".to_owned().concat(e.as_str()).concat(")"),
                ),
            };
            (Off::Systemd(cfg), said.ask(Ask::Exist(has_systemd())))
        },
        Off::Systemd(cfg) => {
            let stopped = if reply.is_yes() {
                none.run(argv4("systemctl", "disable", "--now", "vpnyellod.service"))
            } else {
                none
            };
            (Off::Pid(cfg), stopped.ask(Ask::Read(pid_path())))
        },
        Off::Pid(cfg) => {
            let killed = match reply.get_text() {
                Some(pid) => none.run(argv2("kill", trim(pid.as_str()).as_str())).remove(
                    pid_path().as_str(),
                ),
                None => none,
            };
            let ask = Ask::Run(iface_exists(&cfg));
            (Off::Iface(cfg), killed.run(argv3("pkill", "-f", "vpnyellod daemon")).ask(ask))
        },
        Off::Iface(cfg) => {
            let down = if reply.is_yes() {
                none.run(argv3("wg-quick", "down", cfg.iface.as_str())).print(
                    "[vpnyellod] ".to_owned().concat(cfg.iface.as_str()).concat(" down"),
                )
            } else {
                none
            };
            let off = down.print("[vpnyellod] OFF".to_owned());
            let all = if purge {
                purge_files(&cfg, off)
            } else {
                off
            };
            (Off::Over, all.ask(Ask::Exit(0)))
        },
        Off::Over => (Off::Over, none.ask(Ask::Exit(0))),
    }
}

} // verus!
