//! Switching the server on: checks, the key, the tunnel, the registration, the daemon.

use crate::config::{overridden, Cfg, CfgView};
use crate::number::{decimal, to_decimal};
use crate::registry::{curl_command, curl_post, post_command, posted, pubkey_of, public_key};
use crate::registry::{register_body, register_body_of, register_url, register_url_of, save_state};
use crate::registry::{state_text, text_or_empty};
use crate::reply::{jstr, string_field};
use crate::system::{addresses_line, addresses_text, conf_dir, conf_dir_path, has_systemd};
use crate::system::{id_command, id_words, state_file, state_path, systemd_paths};
use crate::text::{or_empty, view_of, views};
use crate::tunnel::{bring_up, bring_up_next, ensure_keys, keys_next, write_conf, write_conf_next};
use crate::tunnel::{BringUp, Keys, Next, WriteConf};
use crate::world::{argv2, argv3, argv4, turn, words2, words3, words4, Argv, Ask, Effect};
use crate::world::{EffectView, Effects, Reply, Text, Turn, TurnView, Words};
use vstd::prelude::*;

verus! {

/// Stages of switching the server on. `C` is the type of configurations, `S` that of texts. The
/// addresses of the box come as IPv4 and IPv6.
pub enum On<C, S> {
    /// Nothing was asked yet.
    Start,
    /// Asked for the user's number.
    Root,
    /// Asked for the settings.
    Load,
    /// Asked whether the box has a tool.
    Tool(C, usize),
    /// Asked for the box's addresses.
    Survey(C),
    /// Getting the private key.
    Keys(C, Option<S>, Option<S>, Keys<S>),
    /// Asked for the public key of the private key.
    Pubkey(C, Option<S>, Option<S>, S),
    /// Writing the configuration file; the private key and the public key.
    Conf(C, Option<S>, Option<S>, S, S, WriteConf<S>),
    /// Bringing the interface up; the public key.
    Up(C, Option<S>, Option<S>, S, BringUp),
    /// Sent the registration.
    Register(C),
    /// Asked whether systemd runs the daemon.
    Systemd(C),
    /// Asked systemd to start it.
    Unit(C),
    /// Asked for the path of this program.
    Program(C),
    /// Ended.
    Over,
}

/// A stage of switching on, with its texts as characters.
pub type OnView = On<CfgView, Text>;

impl View for On<Cfg, String> {
    type V = OnView;

    open spec fn view(&self) -> OnView {
        match self {
            On::Start => On::Start,
            On::Root => On::Root,
            On::Load => On::Load,
            On::Tool(c, i) => On::Tool(c@, *i),
            On::Survey(c) => On::Survey(c@),
            On::Keys(c, a, b, m) => On::Keys(c@, view_of(*a), view_of(*b), m@),
            On::Pubkey(c, a, b, k) => On::Pubkey(c@, view_of(*a), view_of(*b), k@),
            On::Conf(c, a, b, k, p, m) => On::Conf(c@, view_of(*a), view_of(*b), k@, p@, m@),
            On::Up(c, a, b, p, m) => On::Up(c@, view_of(*a), view_of(*b), p@, *m),
            On::Register(c) => On::Register(c@),
            On::Systemd(c) => On::Systemd(c@),
            On::Unit(c) => On::Unit(c@),
            On::Program(c) => On::Program(c@),
            On::Over => On::Over,
        }
    }
}

/// The tools that the agent needs.
pub open spec fn tool(i: usize) -> Text {
    if i == 0 {
        "wg"@
    } else if i == 1 {
        "wg-quick"@
    } else if i == 2 {
        "ip"@
    } else {
        "curl"@
    }
}

fn tool_name(i: usize) -> (r: &'static str)
    ensures
        r@ == tool(i),
{
    if i == 0 {
        "wg"
    } else if i == 1 {
        "wg-quick"
    } else if i == 2 {
        "ip"
    } else {
        "curl"
    }
}

/// The command that succeeds where the box has a tool.
pub open spec fn tool_words(i: usize) -> Words {
    words3("sh"@, "-c"@, "command -v "@ + tool(i))
}

/// The end after a failure that is told to the user.
pub open spec fn failed(effects: Seq<EffectView>, line: Text) -> (OnView, TurnView) {
    (On::Over, turn(effects.push(Effect::Complain(line)), Ask::Exit(1)))
}

/// Getting the private key, and then asking for its public key.
pub open spec fn with_keys(
    cfg: CfgView,
    v4: Option<Text>,
    v6: Option<Text>,
    m: Keys<Text>,
    reply: Reply,
    effects: Seq<EffectView>,
) -> (OnView, TurnView) {
    match keys_next(m, cfg.key_path, reply, effects) {
        Next::Ask(m2, t) => (On::Keys(cfg, v4, v6, m2), t),
        Next::Done(e, Ok(key)) => (
            On::Pubkey(cfg, v4, v6, key),
            turn(e, Ask::Filter(words2("wg"@, "pubkey"@), key)),
        ),
        Next::Done(e, Err(x)) => failed(e, "error: "@ + x),
    }
}

/// Bringing the interface up, and then registering.
pub open spec fn with_iface(
    cfg: CfgView,
    v4: Option<Text>,
    v6: Option<Text>,
    pubkey: Text,
    m: BringUp,
    version: Text,
    reply: Reply,
    effects: Seq<EffectView>,
) -> (OnView, TurnView) {
    match bring_up_next(m, cfg, reply, effects) {
        Next::Ask(m2, t) => (On::Up(cfg, v4, v6, pubkey, m2), t),
        Next::Done(e, Ok(_)) => (
            On::Register(cfg),
            turn(
                e.push(
                    Effect::Print(
                        "[vpnyellod] "@ + cfg.iface + " up on port "@ + decimal(cfg.port),
                    ),
                ),
                Ask::Feed(
                    post_command(register_url(cfg.registry)),
                    register_body(cfg.name, pubkey, v4, v6, cfg.port, version),
                ),
            ),
        ),
        Next::Done(e, Err(x)) => failed(e, "error: "@ + x),
    }
}

/// Writing the configuration file, and then bringing the interface up.
pub open spec fn with_conf(
    cfg: CfgView,
    v4: Option<Text>,
    v6: Option<Text>,
    key: Text,
    pubkey: Text,
    m: WriteConf<Text>,
    version: Text,
    reply: Reply,
    effects: Seq<EffectView>,
) -> (OnView, TurnView) {
    match write_conf_next(m, cfg, key, reply, effects) {
        Next::Ask(m2, t) => (On::Conf(cfg, v4, v6, key, pubkey, m2), t),
        Next::Done(e, Ok(_)) => with_iface(
            cfg,
            v4,
            v6,
            pubkey,
            BringUp::Start,
            version,
            reply,
            e,
        ),
        Next::Done(e, Err(x)) => failed(e, "error: "@ + x),
    }
}

/// Taking the reply to the registration: it has to name the server's id, which is remembered
/// with the secret.
pub open spec fn registered(cfg: CfgView, reply: Reply) -> (OnView, TurnView) {
    let none = Seq::<EffectView>::empty();
    match posted(register_url(cfg.registry), reply) {
        Err(e) => failed(none, "error: register failed: "@ + e),
        Ok(resp) => match string_field(resp, "server_id"@) {
            None => failed(none, "error: bad register response: "@ + resp),
            Some(id) => {
                let secret = or_empty(string_field(resp, "secret"@));
                let said = "[vpnyellod] registered as \""@ + cfg.name + "\" → "@ + cfg.registry
                    + "/ (id "@ + id + ")"@;
                (
                    On::Systemd(cfg),
                    turn(
                        none.push(Effect::MakeDir(conf_dir())).push(
                            Effect::Write(state_file(), state_text(id, secret)),
                        ).push(Effect::Print(said)),
                        Ask::Exist(systemd_paths()),
                    ),
                )
            },
        },
    }
}

/// The end of switching on.
pub open spec fn is_on(cfg: CfgView, effects: Seq<EffectView>) -> (OnView, TurnView) {
    let said = "[vpnyellod] ON — clients can now fetch a .conf for \""@ + cfg.name
        + "\" from the website"@;
    (On::Over, turn(effects.push(Effect::Print(said)), Ask::Exit(0)))
}

/// The command that runs the daemon without a service manager.
pub open spec fn background_words(program: Text) -> Words {
    words3(
        "sh"@,
        "-c"@,
        "setsid nohup "@ + program
            + " daemon >/var/log/vpnyellod.log 2>&1 < /dev/null & echo $! > /run/vpnyellod.pid"@,
    )
}

/// One step of switching the server on. `args` are the words after the command.
pub open spec fn on_next(st: OnView, args: Words, version: Text, reply: Reply) -> (
    OnView,
    TurnView,
) {
    let none = Seq::<EffectView>::empty();
    match st {
        On::Start => (On::Root, turn(none, Ask::Output(id_words()))),
        On::Root => if reply.says_root() {
            (On::Load, turn(none, Ask::Settings))
        } else {
            failed(none, "error: run as root: sudo vpnyellod on"@)
        },
        On::Load => (
            On::Tool(overridden(reply.cfg(), args), 0),
            turn(none, Ask::Output(tool_words(0))),
        ),
        On::Tool(cfg, i) => if reply.output() is None {
            failed(
                none,
                "error: missing `"@ + tool(i)
                    + "` — install it first (or use install.sh which handles debian/fedora/arch/gentoo)"@,
            )
        } else if i < 3 {
            (On::Tool(cfg, (i + 1) as usize), turn(none, Ask::Output(tool_words((i + 1) as usize))))
        } else {
            (On::Survey(cfg), turn(none, Ask::Survey))
        },
        On::Survey(cfg) => {
            let (v4, v6) = reply.detected();
            let said = none.push(
                Effect::Print(addresses_line("[vpnyellod] detected: "@, v4, v6)),
            );
            if v4 is None && v6 is None {
                failed(
                    said,
                    "error: no global IPv4 or IPv6 found — connect to the internet first"@,
                )
            } else {
                with_keys(cfg, v4, v6, Keys::Start, reply, said)
            }
        },
        On::Keys(cfg, v4, v6, m) => with_keys(cfg, v4, v6, m, reply, none),
        On::Pubkey(cfg, v4, v6, key) => match public_key(reply) {
            Ok(p) => with_conf(
                cfg,
                v4,
                v6,
                key,
                p,
                WriteConf::Start,
                version,
                reply,
                none.push(Effect::Print("[vpnyellod] server pubkey: "@ + p)),
            ),
            Err(e) => failed(none, "error: "@ + e),
        },
        On::Conf(cfg, v4, v6, key, p, m) => with_conf(
            cfg,
            v4,
            v6,
            key,
            p,
            m,
            version,
            reply,
            none,
        ),
        On::Up(cfg, v4, v6, p, m) => with_iface(cfg, v4, v6, p, m, version, reply, none),
        On::Register(cfg) => registered(cfg, reply),
        On::Systemd(cfg) => if reply.yes() {
            (
                On::Unit(cfg),
                turn(
                    none.push(Effect::Run(words2("systemctl"@, "daemon-reload"@))),
                    Ask::Run(words4("systemctl"@, "enable"@, "--now"@, "vpnyellod.service"@)),
                ),
            )
        } else {
            (On::Program(cfg), turn(none, Ask::Program))
        },
        On::Unit(cfg) => is_on(
            cfg,
            none.push(
                if reply.yes() {
                    Effect::Print("[vpnyellod] daemon started (systemctl status vpnyellod)"@)
                } else {
                    Effect::Complain(
                        "warn: could not start systemd unit — run `sudo vpnyellod daemon &` manually"@,
                    )
                },
            ),
        ),
        On::Program(cfg) => {
            let program = match reply.text() {
                Some(p) => p,
                None => "/usr/local/bin/vpnyellod"@,
            };
            is_on(
                cfg,
                none.push(Effect::Run(background_words(program))).push(
                    Effect::Print(
                        "[vpnyellod] daemon started in background (no systemd; log /var/log/vpnyellod.log)"@,
                    ),
                ),
            )
        },
        On::Over => (On::Over, turn(none, Ask::Exit(0))),
    }
}

// ---------------------------------------------------------------- executable counterparts

fn fail(effects: Effects, line: String) -> (r: (On<Cfg, String>, Turn))
    ensures
        (r.0@, r.1@) == failed(effects@, line@),
{
    (On::Over, effects.complain(line).ask(Ask::Exit(1)))
}

fn fail_with(effects: Effects, e: String) -> (r: (On<Cfg, String>, Turn))
    ensures
        (r.0@, r.1@) == failed(effects@, "error: "@ + e@),
{
    fail(effects, "error: ".to_owned().concat(e.as_str()))
}

fn ask_tool(i: usize) -> (r: Ask<String, Argv>)
    ensures
        r@ == Ask::<Text, Words>::Output(tool_words(i)),
{
    let line = "command -v ".to_owned().concat(tool_name(i));
    Ask::Output(argv3("sh", "-c", line.as_str()))
}

fn go_keys(
    cfg: Cfg,
    v4: Option<String>,
    v6: Option<String>,
    m: Keys<String>,
    reply: &Reply,
    effects: Effects,
) -> (r: (On<Cfg, String>, Turn))
    ensures
        (r.0@, r.1@) == with_keys(cfg@, view_of(v4), view_of(v6), m@, *reply, effects@),
{
    match ensure_keys(m, cfg.key_path.as_str(), reply, effects) {
        Next::Ask(m2, t) => (On::Keys(cfg, v4, v6, m2), t),
        Next::Done(e, Ok(key)) => {
            let ask = Ask::Filter(argv2("wg", "pubkey"), key.clone());
            (On::Pubkey(cfg, v4, v6, key), e.ask(ask))
        },
        Next::Done(e, Err(x)) => fail_with(e, x),
    }
}

fn go_up(
    cfg: Cfg,
    v4: Option<String>,
    v6: Option<String>,
    pubkey: String,
    m: BringUp,
    version: &str,
    reply: &Reply,
    effects: Effects,
) -> (r: (On<Cfg, String>, Turn))
    ensures
        (r.0@, r.1@) == with_iface(
            cfg@,
            view_of(v4),
            view_of(v6),
            pubkey@,
            m,
            version@,
            *reply,
            effects@,
        ),
{
    match bring_up(m, &cfg, reply, effects) {
        Next::Ask(m2, t) => (On::Up(cfg, v4, v6, pubkey, m2), t),
        Next::Done(e, Ok(_)) => {
            let said = e.print(
                "[vpnyellod] ".to_owned().concat(cfg.iface.as_str()).concat(" up on port ").concat(
                    to_decimal(cfg.port as u64).as_str(),
                ),
            );
            let url = register_url_of(cfg.registry.as_str());
            let body = register_body_of(
                cfg.name.as_str(),
                pubkey.as_str(),
                &v4,
                &v6,
                cfg.port,
                version,
            );
            (On::Register(cfg), said.ask(Ask::Feed(curl_command(url.as_str()), body)))
        },
        Next::Done(e, Err(x)) => fail_with(e, x),
    }
}

fn go_conf(
    cfg: Cfg,
    v4: Option<String>,
    v6: Option<String>,
    key: String,
    pubkey: String,
    m: WriteConf<String>,
    version: &str,
    reply: &Reply,
    effects: Effects,
) -> (r: (On<Cfg, String>, Turn))
    ensures
        (r.0@, r.1@) == with_conf(
            cfg@,
            view_of(v4),
            view_of(v6),
            key@,
            pubkey@,
            m@,
            version@,
            *reply,
            effects@,
        ),
{
    match write_conf(m, &cfg, key.as_str(), reply, effects) {
        Next::Ask(m2, t) => (On::Conf(cfg, v4, v6, key, pubkey, m2), t),
        Next::Done(e, Ok(_)) => go_up(
            cfg,
            v4,
            v6,
            pubkey,
            BringUp::Start,
            version,
            reply,
            e,
        ),
        Next::Done(e, Err(x)) => fail_with(e, x),
    }
}

fn take_registration(cfg: Cfg, reply: &Reply) -> (r: (On<Cfg, String>, Turn))
    ensures
        (r.0@, r.1@) == registered(cfg@, *reply),
{
    let none = Effects::none();
    let url = register_url_of(cfg.registry.as_str());
    match curl_post(url.as_str(), reply) {
        Err(e) => fail(none, "error: register failed: ".to_owned().concat(e.as_str())),
        Ok(resp) => match jstr(resp.as_str(), "server_id") {
            None => fail(none, "error: bad register response: ".to_owned().concat(resp.as_str())),
            Some(id) => {
                let secret = text_or_empty(&jstr(resp.as_str(), "secret"));
                let said = "[vpnyellod] registered as \"".to_owned().concat(
                    cfg.name.as_str(),
                ).concat("\" → ").concat(cfg.registry.as_str()).concat("/ (id ").concat(
                    id.as_str(),
                ).concat(")");
                let text = save_state(id.as_str(), secret.as_str());
                (
                    On::Systemd(cfg),
                    none.and(Effect::MakeDir(conf_dir_path())).and(
                        Effect::Write(state_path(), text),
                    ).print(said).ask(Ask::Exist(has_systemd())),
                )
            },
        },
    }
}

fn go_on(cfg: Cfg, effects: Effects) -> (r: (On<Cfg, String>, Turn))
    ensures
        (r.0@, r.1@) == is_on(cfg@, effects@),
{
    let said = "[vpnyellod] ON — clients can now fetch a .conf for \"".to_owned().concat(
        cfg.name.as_str(),
    ).concat("\" from the website");
    (On::Over, effects.print(said).ask(Ask::Exit(0)))
}

/// Takes the reply to the last question of switching on, and goes on to the next one.
pub fn cmd_on(st: On<Cfg, String>, args: &Vec<String>, version: &str, reply: &Reply) -> (r: (
    On<Cfg, String>,
    Turn,
))
    ensures
        (r.0@, r.1@) == on_next(st@, views(args@), version@, *reply),
{
    let none = Effects::none();
    match st {
        On::Start => (On::Root, none.ask(Ask::Output(id_command()))),
        On::Root => {
            if reply.is_root() {
                (On::Load, none.ask(Ask::Settings))
            } else {
                fail(none, "error: run as root: sudo vpnyellod on".to_owned())
            }
        },
        On::Load => {
            let mut cfg = reply.get_cfg();
            cfg.apply_args(args);
            (On::Tool(cfg, 0), none.ask(ask_tool(0)))
        },
        On::Tool(cfg, i) => {
            if reply.get_output().is_none() {
                fail(
                    none,
                    "error: missing `".to_owned().concat(tool_name(i)).concat(
                        "` — install it first (or use install.sh which handles debian/fedora/arch/gentoo)",
                    ),
                )
            } else if i < 3 {
                (On::Tool(cfg, i + 1), none.ask(ask_tool(i + 1)))
            } else {
                (On::Survey(cfg), none.ask(Ask::Survey))
            }
        },
        On::Survey(cfg) => {
            let (v4, v6) = reply.get_detected();
            let said = none.print(addresses_text("[vpnyellod] detected: ", &v4, &v6));
            if v4.is_none() && v6.is_none() {
                fail(
                    said,
                    "error: no global IPv4 or IPv6 found — connect to the internet first".to_owned(),
                )
            } else {
                go_keys(cfg, v4, v6, Keys::Start, reply, said)
            }
        },
        On::Keys(cfg, v4, v6, m) => go_keys(cfg, v4, v6, m, reply, none),
        On::Pubkey(cfg, v4, v6, key) => match pubkey_of(reply) {
            Ok(p) => {
                let said = none.print(
                    "[vpnyellod] server pubkey: ".to_owned().concat(p.as_str()),
                );
                go_conf(cfg, v4, v6, key, p, WriteConf::Start, version, reply, said)
            },
            Err(e) => fail_with(none, e),
        },
        On::Conf(cfg, v4, v6, key, p, m) => go_conf(
            cfg,
            v4,
            v6,
            key,
            p,
            m,
            version,
            reply,
            none,
        ),
        On::Up(cfg, v4, v6, p, m) => go_up(cfg, v4, v6, p, m, version, reply, none),
        On::Register(cfg) => take_registration(cfg, reply),
        On::Systemd(cfg) => {
            if reply.is_yes() {
                (
                    On::Unit(cfg),
                    none.run(argv2("systemctl", "daemon-reload")).ask(
                        Ask::Run(argv4("systemctl", "enable", "--now", "vpnyellod.service")),
                    ),
                )
            } else {
                (On::Program(cfg), none.ask(Ask::Program))
            }
        },
        On::Unit(cfg) => {
            let said = if reply.is_yes() {
                none.print(
                    "[vpnyellod] daemon started (systemctl status vpnyellod)".to_owned(),
                )
            } else {
                none.complain(
                    "warn: could not start systemd unit — run `sudo vpnyellod daemon &` manually".to_owned(),
                )
            };
            go_on(cfg, said)
        },
        On::Program(cfg) => {
            let program = match reply.get_text() {
                Some(p) => p,
                None => "/usr/local/bin/vpnyellod".to_owned(),
            };
            let line = "setsid nohup ".to_owned().concat(program.as_str()).concat(
                " daemon >/var/log/vpnyellod.log 2>&1 < /dev/null & echo $! > /run/vpnyellod.pid",
            );
            go_on(
                cfg,
                none.run(argv3("sh", "-c", line.as_str())).print(
                    "[vpnyellod] daemon started in background (no systemd; log /var/log/vpnyellod.log)".to_owned(),
                ),
            )
        },
        On::Over => (On::Over, none.ask(Ask::Exit(0))),
    }
}

} // verus!
