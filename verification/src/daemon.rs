//! The daemon: one heartbeat after another.

use crate::config::{Cfg, CfgView};
use crate::number::{decimal, to_decimal};
use crate::registry::{effective_poll, load_state, pace, remembered};
use crate::sync::{new_sync, sync_next, Sync, SyncView, Synced};
use crate::system::{id_command, id_words, state_file, state_path};
use crate::text::view_of;
use crate::tunnel::Next;
use crate::world::{turn, Ask, Effect, EffectView, Effects, Reply, Text, Turn, TurnView};
use vstd::prelude::*;

verus! {

/// Stages of the daemon. `C` is the type of configurations, `S` that of texts and `Y` that of
/// heartbeats.
pub enum Daemon<C, S, Y> {
    /// Nothing was asked yet.
    Start,
    /// Asked for the user's number.
    Root,
    /// Asked for the settings.
    Load,
    /// Asked for the registration; the suggested pace.
    State(C, Option<S>),
    /// In a heartbeat, with the server's id and secret.
    Beat(C, S, S, Y),
    /// Waiting for the next one; the suggested pace.
    Sleep(C, S, S, Option<S>),
    /// Ended.
    Over,
}

/// A stage of the daemon, with its texts as characters.
pub type DaemonView = Daemon<CfgView, Text, SyncView>;

impl View for Daemon<Cfg, String, Sync> {
    type V = DaemonView;

    open spec fn view(&self) -> DaemonView {
        match self {
            Daemon::Start => Daemon::Start,
            Daemon::Root => Daemon::Root,
            Daemon::Load => Daemon::Load,
            Daemon::State(c, p) => Daemon::State(c@, view_of(*p)),
            Daemon::Beat(c, i, s, y) => Daemon::Beat(c@, i@, s@, y@),
            Daemon::Sleep(c, i, s, p) => Daemon::Sleep(c@, i@, s@, view_of(*p)),
            Daemon::Over => Daemon::Over,
        }
    }
}

impl Daemon<CfgView, Text, SyncView> {
    /// A heartbeat under way is well formed.
    pub open spec fn wf(self) -> bool {
        self matches Daemon::Beat(_, _, _, y) ==> y.wf()
    }
}

/// One step of a heartbeat; at its end the daemon says what came of it and waits.
pub open spec fn beat(
    cfg: CfgView,
    id: Text,
    secret: Text,
    sync: SyncView,
    reply: Reply,
    effects: Seq<EffectView>,
) -> (DaemonView, TurnView) {
    match sync_next(sync, cfg, id, secret, reply, effects) {
        Next::Ask(y, t) => (Daemon::Beat(cfg, id, secret, y), t),
        Next::Done(e, (poll, Synced::Cut)) => (Daemon::Over, turn(e, Ask::Abort)),
        Next::Done(e, (poll, Synced::Done(n))) => (
            Daemon::Sleep(cfg, id, secret, poll),
            turn(
                if n > 0 {
                    e.push(
                        Effect::Print("[vpnyellod] applied "@ + decimal(n) + " new peer(s)"@),
                    )
                } else {
                    e
                },
                Ask::Sleep(pace(cfg.poll, poll) as u64),
            ),
        ),
        Next::Done(e, (poll, Synced::Failed(x))) => (
            Daemon::Sleep(cfg, id, secret, poll),
            turn(
                e.push(Effect::Complain("[vpnyellod] sync failed: "@ + x)),
                Ask::Sleep(pace(cfg.poll, poll) as u64),
            ),
        ),
    }
}

/// One step of the daemon: it needs the superuser and a registration, and then sends one
/// heartbeat after another.
pub open spec fn daemon_next(st: DaemonView, reply: Reply) -> (DaemonView, TurnView) {
    let none = Seq::<EffectView>::empty();
    match st {
        Daemon::Start => (Daemon::Root, turn(none, Ask::Output(id_words()))),
        Daemon::Root => if reply.says_root() {
            (Daemon::Load, turn(none, Ask::Settings))
        } else {
            (
                Daemon::Over,
                turn(none.push(Effect::Complain("error: daemon needs root"@)), Ask::Exit(1)),
            )
        },
        Daemon::Load => (
            Daemon::State(reply.cfg(), reply.variable("VY_POLL_EFFECTIVE"@)),
            turn(none, Ask::Read(state_file())),
        ),
        Daemon::State(cfg, poll) => {
            let (id, secret) = remembered(reply.text());
            if id.len() == 0 || secret.len() == 0 {
                (
                    Daemon::Over,
                    turn(
                        none.push(
                            Effect::Complain(
                                "error: not registered — run `sudo vpnyellod on` first"@,
                            ),
                        ),
                        Ask::Exit(1),
                    ),
                )
            } else {
                let said = "[vpnyellod] daemon: syncing "@ + id + " every ~"@ + decimal(cfg.poll)
                    + "s"@;
                beat(cfg, id, secret, new_sync(poll), reply, none.push(Effect::Print(said)))
            }
        },
        Daemon::Beat(cfg, id, secret, y) => beat(cfg, id, secret, y, reply, none),
        Daemon::Sleep(cfg, id, secret, poll) => beat(
            cfg,
            id,
            secret,
            new_sync(poll),
            reply,
            none,
        ),
        Daemon::Over => (Daemon::Over, turn(none, Ask::Exit(0))),
    }
}

fn run_beat(
    cfg: Cfg,
    id: String,
    secret: String,
    sync: Sync,
    reply: &Reply,
    effects: Effects,
) -> (r: (Daemon<Cfg, String, Sync>, Turn))
    requires
        sync@.wf(),
    ensures
        (r.0@, r.1@) == beat(cfg@, id@, secret@, sync@, *reply, effects@),
        r.0@.wf(),
{
    match sync.sync_once(&cfg, id.as_str(), secret.as_str(), reply, effects) {
        Next::Ask(y, t) => (Daemon::Beat(cfg, id, secret, y), t),
        Next::Done(e, x) => {
            let poll = x.0;
            let wait = effective_poll(cfg.poll, &poll);
            match x.1 {
                Synced::Cut => (Daemon::Over, e.ask(Ask::Abort)),
                Synced::Done(n) => {
                    let said = if n > 0 {
                        e.print(
                            "[vpnyellod] applied ".to_owned().concat(
                                to_decimal(n as u64).as_str(),
                            ).concat(" new peer(s)"),
                        )
                    } else {
                        e
                    };
                    (Daemon::Sleep(cfg, id, secret, poll), said.ask(Ask::Sleep(wait)))
                },
                Synced::Failed(m) => {
                    let said = e.complain(
                        "[vpnyellod] sync failed: ".to_owned().concat(m.as_str()),
                    );
                    (Daemon::Sleep(cfg, id, secret, poll), said.ask(Ask::Sleep(wait)))
                },
            }
        },
    }
}

/// Takes the reply to the daemon's last question, and goes on to the next one.
pub fn cmd_daemon(st: Daemon<Cfg, String, Sync>, reply: &Reply) -> (r: (
    Daemon<Cfg, String, Sync>,
    Turn,
))
    requires
        st@.wf(),
    ensures
        (r.0@, r.1@) == daemon_next(st@, *reply),
        r.0@.wf(),
{
    let none = Effects::none();
    match st {
        Daemon::Start => (Daemon::Root, none.ask(Ask::Output(id_command()))),
        Daemon::Root => {
            if reply.is_root() {
                (Daemon::Load, none.ask(Ask::Settings))
            } else {
                (
                    Daemon::Over,
                    none.complain("error: daemon needs root".to_owned()).ask(Ask::Exit(1)),
                )
            }
        },
        Daemon::Load => (
            Daemon::State(reply.get_cfg(), reply.get_variable("VY_POLL_EFFECTIVE")),
            none.ask(Ask::Read(state_path())),
        ),
        Daemon::State(cfg, poll) => {
            let (id, secret) = load_state(&reply.get_text());
            if id.as_str().is_empty() || secret.as_str().is_empty() {
                (
                    Daemon::Over,
                    none.complain(
                        "error: not registered — run `sudo vpnyellod on` first".to_owned(),
                    ).ask(Ask::Exit(1)),
                )
            } else {
                let said = "[vpnyellod] daemon: syncing ".to_owned().concat(id.as_str()).concat(
                    " every ~",
                ).concat(to_decimal(cfg.poll).as_str()).concat("s");
                run_beat(cfg, id, secret, Sync::new(poll), reply, none.print(said))
            }
        },
        Daemon::Beat(cfg, id, secret, y) => run_beat(cfg, id, secret, y, reply, none),
        Daemon::Sleep(cfg, id, secret, poll) => run_beat(
            cfg,
            id,
            secret,
            Sync::new(poll),
            reply,
            none,
        ),
        Daemon::Over => (Daemon::Over, none.ask(Ask::Exit(0))),
    }
}

} // verus!
