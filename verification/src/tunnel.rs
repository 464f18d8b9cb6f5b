//! Setting the tunnel up: the server's key, the configuration file, the interface. Each is a
//! sequence of questions; a stage says which one was asked last.

use crate::address::{default_iface, route_dev};
use crate::conf::{conf_text, render_conf};
use crate::config::{Cfg, CfgView};
use crate::text::{trim, trimmed};
use crate::world::{argv2, argv3, argv4, done_view, result_view, turn, words2, words3, Argv, Ask};
use crate::world::{Effect, EffectView, Effects, Reply, Text, Turn, TurnView, Words};
use vstd::prelude::*;

verus! {

/// Where a sequence of questions stands: the next question, with the stage that takes its
/// reply, or the end, with the effects still to come and the result.
pub enum Next<M, T, E, R> {
    Ask(M, T),
    Done(E, R),
}

// ---------------------------------------------------------------- commands

/// The command that lists the addresses of a family.
pub open spec fn addr_words(v6: bool) -> Words {
    seq![
        "ip"@,
        if v6 {
            "-6"@
        } else {
            "-4"@
        },
        "-o"@,
        "addr"@,
        "show"@,
    ]
}

/// The command that lists the addresses of a family.
pub fn addr_command(v6: bool) -> (r: Argv)
    ensures
        r@ == addr_words(v6),
{
    Argv::new("ip").arg(
        if v6 {
            "-6"
        } else {
            "-4"
        },
    ).arg("-o").arg("addr").arg("show")
}

/// The command that shows the route to the internet.
pub open spec fn route_words(v6: bool) -> Words {
    if v6 {
        seq!["ip"@, "-6"@, "route"@, "get"@, "2001:4860:4860::8888"@]
    } else {
        seq!["ip"@, "route"@, "get"@, "8.8.8.8"@]
    }
}

/// The command that shows the route to the internet.
pub fn route_command(v6: bool) -> (r: Argv)
    ensures
        r@ == route_words(v6),
{
    if v6 {
        Argv::new("ip").arg("-6").arg("route").arg("get").arg("2001:4860:4860::8888")
    } else {
        Argv::new("ip").arg("route").arg("get").arg("8.8.8.8")
    }
}

/// The command that succeeds where the interface exists.
pub open spec fn iface_words(cfg: CfgView) -> Words {
    seq!["ip"@, "link"@, "show"@, "dev"@, cfg.iface]
}

/// The command that succeeds where the interface exists.
pub fn iface_exists(cfg: &Cfg) -> (r: Argv)
    ensures
        r@ == iface_words(cfg@),
{
    Argv::new("ip").arg("link").arg("show").arg("dev").arg(cfg.iface.as_str())
}

/// The command that gives the interface its address in a family.
pub open spec fn replace_words(v6: bool, cfg: CfgView) -> Words {
    if v6 {
        seq!["ip"@, "-6"@, "addr"@, "replace"@, cfg.vpn6, "dev"@, cfg.iface]
    } else {
        seq!["ip"@, "addr"@, "replace"@, cfg.vpn4, "dev"@, cfg.iface]
    }
}

fn replace_command(v6: bool, cfg: &Cfg) -> (r: Argv)
    ensures
        r@ == replace_words(v6, cfg@),
{
    let iface = cfg.iface.as_str();
    if v6 {
        argv4("ip", "-6", "addr", "replace").arg(cfg.vpn6.as_str()).arg("dev").arg(iface)
    } else {
        argv3("ip", "addr", "replace").arg(cfg.vpn4.as_str()).arg("dev").arg(iface)
    }
}

/// The effects that give the interface its addresses.
pub open spec fn with_addrs(effects: Seq<EffectView>, cfg: CfgView) -> Seq<EffectView> {
    effects.push(Effect::Run(replace_words(false, cfg))).push(
        Effect::Run(replace_words(true, cfg)),
    )
}

/// Adds the effects that give the interface its addresses.
pub fn ensure_addrs(cfg: &Cfg, effects: Effects) -> (r: Effects)
    ensures
        r@ == with_addrs(effects@, cfg@),
{
    effects.run(replace_command(false, cfg)).run(replace_command(true, cfg))
}

// ---------------------------------------------------------------- the interface

/// Stages of bringing the interface up.
#[derive(Debug, Clone, Copy)]
pub enum BringUp {
    /// Nothing was asked yet.
    Start,
    /// Asked whether the interface exists.
    Check,
    /// Asked `wg-quick` to make it.
    Raise,
}

/// Bringing the interface up: forwarding is switched on; an interface that is not there is made
/// by `wg-quick`, whose failure is the only one; in the end it has its addresses.
pub open spec fn bring_up_next(
    stage: BringUp,
    cfg: CfgView,
    reply: Reply,
    effects: Seq<EffectView>,
) -> Next<BringUp, TurnView, Seq<EffectView>, Result<(), Text>> {
    match stage {
        BringUp::Start => Next::Ask(
            BringUp::Check,
            turn(
                effects.push(Effect::Run(words3("sysctl"@, "-w"@, "net.ipv4.ip_forward=1"@))).push(
                    Effect::Run(words3("sysctl"@, "-w"@, "net.ipv6.conf.all.forwarding=1"@)),
                ),
                Ask::Run(iface_words(cfg)),
            ),
        ),
        BringUp::Check => if reply.yes() {
            Next::Done(with_addrs(with_addrs(effects, cfg), cfg), Ok(()))
        } else {
            Next::Ask(
                BringUp::Raise,
                turn(effects, Ask::Run(words3("wg-quick"@, "up"@, cfg.iface))),
            )
        },
        BringUp::Raise => if reply.yes() {
            Next::Done(with_addrs(effects, cfg), Ok(()))
        } else {
            Next::Done(effects, Err("wg-quick up "@ + cfg.iface + " failed"@))
        },
    }
}

/// Brings the interface up, one question at a time.
pub fn bring_up(stage: BringUp, cfg: &Cfg, reply: &Reply, effects: Effects) -> (r: Next<
    BringUp,
    Turn,
    Effects,
    Result<(), String>,
>)
    ensures
        bring_up_next(stage, cfg@, *reply, effects@) == (match r {
            Next::Ask(m, t) => Next::Ask(m, t@),
            Next::Done(e, x) => Next::Done(e@, done_view(x)),
        }),
{
    match stage {
        BringUp::Start => Next::Ask(
            BringUp::Check,
            effects.run(argv3("sysctl", "-w", "net.ipv4.ip_forward=1")).run(
                argv3("sysctl", "-w", "net.ipv6.conf.all.forwarding=1"),
            ).ask(Ask::Run(iface_exists(cfg))),
        ),
        BringUp::Check => {
            if reply.is_yes() {
                let once = ensure_addrs(cfg, effects);
                Next::Done(ensure_addrs(cfg, once), Ok(()))
            } else {
                Next::Ask(
                    BringUp::Raise,
                    effects.ask(
                        Ask::Run(argv3("wg-quick", "up", cfg.iface.as_str())),
                    ),
                )
            }
        },
        BringUp::Raise => {
            if reply.is_yes() {
                Next::Done(ensure_addrs(cfg, effects), Ok(()))
            } else {
                Next::Done(
                    effects,
                    Err("wg-quick up ".to_owned().concat(cfg.iface.as_str()).concat(" failed")),
                )
            }
        },
    }
}

// ---------------------------------------------------------------- the server's key

/// Stages of getting the server's private key.
pub enum Keys<S> {
    /// Nothing was asked yet.
    Start,
    /// Asked for the key file.
    Load,
    /// Asked `wg` for a new key.
    Make,
    /// Asked for the directory of the key file; the new key.
    Dir(S),
    /// Asked to write the key file; the new key.
    Store(S),
}

impl View for Keys<String> {
    type V = Keys<Text>;

    open spec fn view(&self) -> Keys<Text> {
        match self {
            Keys::Start => Keys::Start,
            Keys::Load => Keys::Load,
            Keys::Make => Keys::Make,
            Keys::Dir(k) => Keys::Dir(k@),
            Keys::Store(k) => Keys::Store(k@),
        }
    }
}

/// Getting the server's private key: the one in the key file, where that is not blank; else a
/// new one, which is then in the file.
pub open spec fn keys_next(
    stage: Keys<Text>,
    path: Text,
    reply: Reply,
    effects: Seq<EffectView>,
) -> Next<Keys<Text>, TurnView, Seq<EffectView>, Result<Text, Text>> {
    match stage {
        Keys::Start => Next::Ask(Keys::Load, turn(effects, Ask::Read(path))),
        Keys::Load => if reply.text() matches Some(k) && trimmed(k).len() > 0 {
            Next::Done(effects, Ok(trimmed(reply.text()->0)))
        } else {
            Next::Ask(Keys::Make, turn(effects, Ask::Output(words2("wg"@, "genkey"@))))
        },
        Keys::Make => match reply.output() {
            Some(k) => Next::Ask(Keys::Dir(k), turn(effects, Ask::MakeParent(path))),
            None => Next::Done(
                effects,
                Err("wg genkey failed — install wireguard-tools first"@),
            ),
        },
        Keys::Dir(k) => match reply.done() {
            Ok(_) => Next::Ask(Keys::Store(k), turn(effects, Ask::Store(path, k))),
            Err(e) => Next::Done(effects, Err(e)),
        },
        Keys::Store(k) => match reply.done() {
            Ok(_) => Next::Done(effects, Ok(k)),
            Err(e) => Next::Done(effects, Err("write "@ + path + ": "@ + e)),
        },
    }
}

/// Gets the server's private key, one question at a time.
pub fn ensure_keys(stage: Keys<String>, path: &str, reply: &Reply, effects: Effects) -> (r: Next<
    Keys<String>,
    Turn,
    Effects,
    Result<String, String>,
>)
    ensures
        keys_next(stage@, path@, *reply, effects@) == (match r {
            Next::Ask(m, t) => Next::Ask(m@, t@),
            Next::Done(e, x) => Next::Done(e@, result_view(x)),
        }),
{
    match stage {
        Keys::Start => Next::Ask(Keys::Load, effects.ask(Ask::Read(path.to_owned()))),
        Keys::Load => {
            if let Some(k) = reply.get_text() {
                let key = trim(k.as_str());
                if !key.as_str().is_empty() {
                    return Next::Done(effects, Ok(key));
                }
            }
            Next::Ask(Keys::Make, effects.ask(Ask::Output(argv2("wg", "genkey"))))
        },
        Keys::Make => match reply.get_output() {
            Some(k) => Next::Ask(Keys::Dir(k), effects.ask(Ask::MakeParent(path.to_owned()))),
            None => Next::Done(
                effects,
                Err("wg genkey failed — install wireguard-tools first".to_owned()),
            ),
        },
        Keys::Dir(k) => match reply.get_done() {
            Ok(_) => {
                let ask = Ask::Store(path.to_owned(), k.clone());
                Next::Ask(Keys::Store(k), effects.ask(ask))
            },
            Err(e) => Next::Done(effects, Err(e)),
        },
        Keys::Store(k) => match reply.get_done() {
            Ok(_) => Next::Done(effects, Ok(k)),
            Err(e) => Next::Done(
                effects,
                Err("write ".to_owned().concat(path).concat(": ").concat(e.as_str())),
            ),
        },
    }
}

// ---------------------------------------------------------------- the configuration file

/// Stages of writing the configuration file. The device that leads to the internet is kept
/// once it is known.
pub enum WriteConf<S> {
    /// Nothing was asked yet.
    Start,
    /// Asked for the IPv4 route.
    Route4,
    /// Asked for the IPv6 route.
    Route6,
    /// Asked for the directory of the file.
    Dir(S),
    /// Asked for the old file.
    Old(S),
    /// Asked to write the file.
    Store,
}

impl View for WriteConf<String> {
    type V = WriteConf<Text>;

    open spec fn view(&self) -> WriteConf<Text> {
        match self {
            WriteConf::Start => WriteConf::Start,
            WriteConf::Route4 => WriteConf::Route4,
            WriteConf::Route6 => WriteConf::Route6,
            WriteConf::Dir(w) => WriteConf::Dir(w@),
            WriteConf::Old(w) => WriteConf::Old(w@),
            WriteConf::Store => WriteConf::Store,
        }
    }
}

/// Writing the configuration file: the device that leads to the internet (`eth0` where no route
/// names one), the old file's peers, and the new file.
pub open spec fn write_conf_next(
    stage: WriteConf<Text>,
    cfg: CfgView,
    key: Text,
    reply: Reply,
    effects: Seq<EffectView>,
) -> Next<WriteConf<Text>, TurnView, Seq<EffectView>, Result<(), Text>> {
    match stage {
        WriteConf::Start => Next::Ask(
            WriteConf::Route4,
            turn(effects, Ask::Output(route_words(false))),
        ),
        WriteConf::Route4 => match route_dev(reply.output()) {
            Some(w) => Next::Ask(WriteConf::Dir(w), turn(effects, Ask::MakeParent(cfg.conf_path))),
            None => Next::Ask(WriteConf::Route6, turn(effects, Ask::Output(route_words(true)))),
        },
        WriteConf::Route6 => {
            let w = match route_dev(reply.output()) {
                Some(w) => w,
                None => "eth0"@,
            };
            Next::Ask(WriteConf::Dir(w), turn(effects, Ask::MakeParent(cfg.conf_path)))
        },
        WriteConf::Dir(w) => match reply.done() {
            Ok(_) => Next::Ask(WriteConf::Old(w), turn(effects, Ask::Read(cfg.conf_path))),
            Err(e) => Next::Done(effects, Err(e)),
        },
        WriteConf::Old(w) => Next::Ask(
            WriteConf::Store,
            turn(
                effects,
                Ask::Store(
                    cfg.conf_path,
                    conf_text(cfg.vpn4, cfg.vpn6, cfg.port, key, w, reply.text()),
                ),
            ),
        ),
        WriteConf::Store => match reply.done() {
            Ok(_) => Next::Done(effects, Ok(())),
            Err(e) => Next::Done(effects, Err("write "@ + cfg.conf_path + ": "@ + e)),
        },
    }
}

/// Writes the configuration file, one question at a time.
pub fn write_conf(
    stage: WriteConf<String>,
    cfg: &Cfg,
    key: &str,
    reply: &Reply,
    effects: Effects,
) -> (r: Next<WriteConf<String>, Turn, Effects, Result<(), String>>)
    ensures
        write_conf_next(stage@, cfg@, key@, *reply, effects@) == (match r {
            Next::Ask(m, t) => Next::Ask(m@, t@),
            Next::Done(e, x) => Next::Done(e@, done_view(x)),
        }),
{
    match stage {
        WriteConf::Start => Next::Ask(
            WriteConf::Route4,
            effects.ask(Ask::Output(route_command(false))),
        ),
        WriteConf::Route4 => match default_iface(&reply.get_output(), &None) {
            Some(w) => Next::Ask(
                WriteConf::Dir(w),
                effects.ask(Ask::MakeParent(cfg.conf_path.clone())),
            ),
            None => Next::Ask(WriteConf::Route6, effects.ask(Ask::Output(route_command(true)))),
        },
        WriteConf::Route6 => {
            let w = match default_iface(&None, &reply.get_output()) {
                Some(w) => w,
                None => "eth0".to_owned(),
            };
            Next::Ask(WriteConf::Dir(w), effects.ask(Ask::MakeParent(cfg.conf_path.clone())))
        },
        WriteConf::Dir(w) => match reply.get_done() {
            Ok(_) => Next::Ask(WriteConf::Old(w), effects.ask(Ask::Read(cfg.conf_path.clone()))),
            Err(e) => Next::Done(effects, Err(e)),
        },
        WriteConf::Old(w) => {
            let text = render_conf(
                cfg.vpn4.as_str(),
                cfg.vpn6.as_str(),
                cfg.port,
                key,
                w.as_str(),
                &reply.get_text(),
            );
            Next::Ask(WriteConf::Store, effects.ask(Ask::Store(cfg.conf_path.clone(), text)))
        },
        WriteConf::Store => match reply.get_done() {
            Ok(_) => Next::Done(effects, Ok(())),
            Err(e) => Next::Done(
                effects,
                Err(
                    "write ".to_owned().concat(cfg.conf_path.as_str()).concat(": ").concat(
                        e.as_str(),
                    ),
                ),
            ),
        },
    }
}

} // verus!
