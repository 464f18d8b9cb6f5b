//! What the agent does over a whole run, whatever it is told on the way.

use crate::config::{overridden, CfgView};
use crate::daemon::{daemon_next, Daemon, DaemonView};
use crate::laws::registry::{law_registration_is_remembered, one_line_value};
use crate::laws::sync::{law_heartbeat_does_not_end, Who};
use crate::laws::tunnel::has_text;
use crate::off::{off_next, Off, OffView};
use crate::on::{on_next, with_conf, with_iface, with_keys, On, OnView};
use crate::registry::{offline_body, offline_url, pace, post_command, posted, public_key};
use crate::registry::{register_body, register_url, state_text};
use crate::reply::string_field;
use crate::status::{status_next, Status, StatusView};
use crate::sync::{new_sync, show_words};
use crate::system::{id_words, last_file, pid_file, settings_file, state_file, unit_file};
use crate::text::{or_empty, trimmed};
use crate::tunnel::{iface_words, Keys, WriteConf};
use crate::world::{turn, words2, words3, Ask, Effect, EffectView, Reply, Text, TurnView, Words};
use vstd::prelude::*;

verus! {

// ---------------------------------------------------------------- switching on

/// One step of switching on.
#[verifier::opaque]
pub open spec fn on_step(st: OnView, args: Words, version: Text, reply: Reply) -> (
    OnView,
    TurnView,
) {
    on_next(st, args, version, reply)
}

/// Where switching on stands after these replies, the first of which starts it.
pub open spec fn on_after(args: Words, version: Text, replies: Seq<Reply>) -> OnView
    decreases replies.len(),
{
    if replies.len() == 0 {
        On::Start
    } else {
        on_step(on_after(args, version, replies.drop_last()), args, version, replies.last()).0
    }
}

/// What switching on does upon the last of these replies.
pub open spec fn on_turn(args: Words, version: Text, replies: Seq<Reply>) -> TurnView {
    on_step(on_after(args, version, replies.drop_last()), args, version, replies.last()).1
}

/// The server's private key is `key`, and `wg pubkey` is run on it.
pub open spec fn feeds_key(args: Words, version: Text, replies: Seq<Reply>, key: Text) -> bool {
    &&& replies.len() > 0
    &&& on_after(args, version, replies) matches On::Pubkey(_, _, _, k) && k == key
    &&& on_turn(args, version, replies).ask == Ask::<Text, Words>::Filter(
        words2("wg"@, "pubkey"@),
        key,
    )
}

/// The public key `p` is what `wg pubkey` printed for the server's private key `key`.
#[verifier::opaque]
pub open spec fn is_pubkey(
    args: Words,
    version: Text,
    replies: Seq<Reply>,
    key: Text,
    p: Text,
) -> bool {
    exists|j: int|
        0 <= j < replies.len() && #[trigger] feeds_key(args, version, replies.take(j), key)
            && public_key(replies[j]) == Ok::<Text, Text>(p)
}

/// The registry took the registration of a server with the configuration `cfg`: it named an id,
/// which was saved.
pub open spec fn is_registered(
    args: Words,
    version: Text,
    replies: Seq<Reply>,
    cfg: CfgView,
) -> bool {
    exists|j: int|
        0 <= j < replies.len() && (#[trigger] on_after(args, version, replies.take(j)))
            == On::<CfgView, Text>::Register(cfg) && took_registration(
            cfg,
            replies[j],
            on_next(On::Register(cfg), args, version, replies[j]).1,
        )
}

/// The reply names the server's id, and `t` saves it with the secret.
pub open spec fn took_registration(cfg: CfgView, reply: Reply, t: TurnView) -> bool {
    posted(register_url(cfg.registry), reply) matches Ok(resp) && string_field(
        resp,
        "server_id"@,
    ) matches Some(id) && t.effects.contains(
        Effect::Write(
            state_file(),
            state_text(id, or_empty(string_field(resp, "secret"@))),
        ),
    )
}

/// The checks at the start of switching on, as far as the replies go: the user is the superuser
/// and the box has the four tools.
pub open spec fn checks_passed(replies: Seq<Reply>) -> bool {
    &&& replies.len() >= 8
    &&& replies[1].says_root()
    &&& forall|j: int| 3 <= j < 7 ==> (#[trigger] replies[j]).output() is Some
}

/// The configuration that the settings and the command line give.
pub open spec fn on_cfg(args: Words, replies: Seq<Reply>) -> CfgView {
    overridden(replies[2].cfg(), args)
}

/// What holds of the addresses once the checks have passed.
pub open spec fn with_addresses(
    args: Words,
    replies: Seq<Reply>,
    cfg: CfgView,
    v4: Option<Text>,
    v6: Option<Text>,
) -> bool {
    &&& checks_passed(replies)
    &&& cfg == on_cfg(args, replies)
    &&& (v4, v6) == replies[7].detected()
    &&& v4 is Some || v6 is Some
}

/// What holds at each stage of switching on.
pub open spec fn on_inv(args: Words, version: Text, replies: Seq<Reply>, st: OnView) -> bool {
    let n = replies.len();
    match st {
        On::Start => n == 0,
        On::Root => n == 1,
        On::Load => n == 2 && replies[1].says_root(),
        On::Tool(cfg, i) => {
            &&& n == 3 + i
            &&& i <= 3
            &&& cfg == on_cfg(args, replies)
            &&& replies[1].says_root()
            &&& forall|j: int| 3 <= j < 3 + i ==> (#[trigger] replies[j]).output() is Some
        },
        On::Survey(cfg) => {
            &&& n == 7
            &&& cfg == on_cfg(args, replies)
            &&& replies[1].says_root()
            &&& forall|j: int| 3 <= j < 7 ==> (#[trigger] replies[j]).output() is Some
        },
        On::Keys(cfg, v4, v6, _) => with_addresses(args, replies, cfg, v4, v6),
        On::Pubkey(cfg, v4, v6, k) => with_addresses(args, replies, cfg, v4, v6) && feeds_key(
            args,
            version,
            replies,
            k,
        ),
        On::Conf(cfg, v4, v6, k, p, _) => with_addresses(args, replies, cfg, v4, v6) && is_pubkey(
            args,
            version,
            replies,
            k,
            p,
        ),
        On::Up(cfg, v4, v6, p, _) => with_addresses(args, replies, cfg, v4, v6) && exists|k: Text|
            #[trigger] is_pubkey(args, version, replies, k, p),
        On::Register(cfg) => checks_passed(replies) && cfg == on_cfg(args, replies),
        On::Systemd(cfg) => is_registered(args, version, replies, cfg),
        On::Unit(cfg) => is_registered(args, version, replies, cfg),
        On::Program(cfg) => is_registered(args, version, replies, cfg),
        On::Over => true,
    }
}

/// A public key that was printed stays the one that was printed.
pub proof fn lemma_pubkey_stays(
    args: Words,
    version: Text,
    replies: Seq<Reply>,
    key: Text,
    p: Text,
)
    requires
        replies.len() > 0,
        is_pubkey(args, version, replies.drop_last(), key, p),
    ensures
        is_pubkey(args, version, replies, key, p),
{
    reveal(is_pubkey);
    let before = replies.drop_last();
    let j = choose|j: int|
        0 <= j < before.len() && #[trigger] feeds_key(args, version, before.take(j), key)
            && public_key(before[j]) == Ok::<Text, Text>(p);
    assert(before.take(j) =~= replies.take(j));
    assert(feeds_key(args, version, replies.take(j), key));
}

proof fn lemma_registered_stays(args: Words, version: Text, replies: Seq<Reply>, cfg: CfgView)
    requires
        replies.len() > 0,
        is_registered(args, version, replies.drop_last(), cfg),
    ensures
        is_registered(args, version, replies, cfg),
{
    let before = replies.drop_last();
    let j = choose|j: int|
        0 <= j < before.len() && (#[trigger] on_after(args, version, before.take(j))) == On::<
            CfgView,
            Text,
        >::Register(cfg) && took_registration(
            cfg,
            before[j],
            on_next(On::Register(cfg), args, version, before[j]).1,
        );
    assert(before.take(j) =~= replies.take(j));
    assert(on_after(args, version, replies.take(j)) == On::<CfgView, Text>::Register(cfg));
}

proof fn lemma_checks_stay(replies: Seq<Reply>)
    requires
        replies.len() > 0,
        checks_passed(replies.drop_last()),
    ensures
        checks_passed(replies),
        replies[2] == replies.drop_last()[2],
        replies[7] == replies.drop_last()[7],
{
    let before = replies.drop_last();
    assert forall|j: int| 3 <= j < 7 implies (#[trigger] replies[j]).output() is Some by {
        assert(replies[j] == before[j]);
    }
}

proof fn lemma_on_checks(args: Words, version: Text, replies: Seq<Reply>)
    requires
        replies.len() > 0,
        on_inv(
            args,
            version,
            replies.drop_last(),
            on_after(args, version, replies.drop_last()),
        ),
        match on_after(args, version, replies.drop_last()) {
            On::Start => true,
            On::Root => true,
            On::Load => true,
            On::Tool(_, _) => true,
            _ => false,
        },
    ensures
        on_inv(args, version, replies, on_after(args, version, replies)),
{
    reveal(on_step);
    let before = replies.drop_last();
    let reply = replies.last();
    let n = before.len() as int;
    let st = on_after(args, version, before);
    assert(replies.take(n) =~= before);
    assert(replies[n] == reply);
    assert forall|j: int| 0 <= j < n implies replies[j] == before[j] by {}
    if let On::Tool(cfg, i) = st {
        assert(replies[3 + i as int] == reply);
    }
}

proof fn lemma_on_keys(args: Words, version: Text, replies: Seq<Reply>)
    requires
        replies.len() > 0,
        on_inv(
            args,
            version,
            replies.drop_last(),
            on_after(args, version, replies.drop_last()),
        ),
        match on_after(args, version, replies.drop_last()) {
            On::Survey(_) => true,
            On::Keys(_, _, _, _) => true,
            _ => false,
        },
    ensures
        on_inv(args, version, replies, on_after(args, version, replies)),
{
    reveal(on_step);
    let before = replies.drop_last();
    let reply = replies.last();
    let n = before.len() as int;
    let st = on_after(args, version, before);
    assert(replies.take(n) =~= before);
    assert(replies[n] == reply);
    assert forall|j: int| 0 <= j < n implies replies[j] == before[j] by {}
    if let On::Survey(cfg) = st {
        assert(with_keys(
            cfg,
            reply.detected().0,
            reply.detected().1,
            Keys::Start,
            reply,
            Seq::empty(),
        ).0 is Keys);
    }
}

proof fn lemma_on_pubkey(args: Words, version: Text, replies: Seq<Reply>)
    requires
        replies.len() > 0,
        on_inv(
            args,
            version,
            replies.drop_last(),
            on_after(args, version, replies.drop_last()),
        ),
        match on_after(args, version, replies.drop_last()) {
            On::Pubkey(_, _, _, _) => true,
            _ => false,
        },
    ensures
        on_inv(args, version, replies, on_after(args, version, replies)),
{
    reveal(on_step);
    let before = replies.drop_last();
    let reply = replies.last();
    let n = before.len() as int;
    let st = on_after(args, version, before);
    assert(replies.take(n) =~= before);
    assert(replies[n] == reply);
    assert forall|j: int| 0 <= j < n implies replies[j] == before[j] by {}
    if let On::Pubkey(cfg, v4, v6, k) = st {
        if let Ok(p) = public_key(reply) {
            assert(feeds_key(args, version, replies.take(n), k));
            assert(is_pubkey(args, version, replies, k, p)) by {
                reveal(is_pubkey);
            }
        }
    }
}

proof fn lemma_on_conf(args: Words, version: Text, replies: Seq<Reply>)
    requires
        replies.len() > 0,
        on_inv(
            args,
            version,
            replies.drop_last(),
            on_after(args, version, replies.drop_last()),
        ),
        match on_after(args, version, replies.drop_last()) {
            On::Conf(_, _, _, _, _, _) => true,
            _ => false,
        },
    ensures
        on_inv(args, version, replies, on_after(args, version, replies)),
{
    reveal(on_step);
    let before = replies.drop_last();
    let reply = replies.last();
    let n = before.len() as int;
    let st = on_after(args, version, before);
    assert(replies.take(n) =~= before);
    assert(replies[n] == reply);
    assert forall|j: int| 0 <= j < n implies replies[j] == before[j] by {}
    if let On::Conf(cfg, v4, v6, k, p, m) = st {
        lemma_checks_stay(replies);
        lemma_pubkey_stays(args, version, replies, k, p);
        let next = on_after(args, version, replies);
        assert(next == with_conf(cfg, v4, v6, k, p, m, version, reply, Seq::empty()).0);
        assert(next matches On::Conf(c, a, b, k2, p2, _) ==> c == cfg && a == v4 && b == v6 && k2
            == k && p2 == p);
        assert(next matches On::Up(c, a, b, p2, _) ==> c == cfg && a == v4 && b == v6 && p2 == p);
        assert(next is Conf || next is Up || next is Over);
    }
}

proof fn lemma_on_up(args: Words, version: Text, replies: Seq<Reply>)
    requires
        replies.len() > 0,
        on_inv(
            args,
            version,
            replies.drop_last(),
            on_after(args, version, replies.drop_last()),
        ),
        match on_after(args, version, replies.drop_last()) {
            On::Up(_, _, _, _, _) => true,
            _ => false,
        },
    ensures
        on_inv(args, version, replies, on_after(args, version, replies)),
{
    reveal(on_step);
    let before = replies.drop_last();
    let reply = replies.last();
    let n = before.len() as int;
    let st = on_after(args, version, before);
    assert(replies.take(n) =~= before);
    assert(replies[n] == reply);
    assert forall|j: int| 0 <= j < n implies replies[j] == before[j] by {}
    if let On::Up(cfg, v4, v6, p, m) = st {
        lemma_checks_stay(replies);
        let k = choose|k: Text| #[trigger] is_pubkey(args, version, before, k, p);
        lemma_pubkey_stays(args, version, replies, k, p);
        let next = on_after(args, version, replies);
        assert(next == with_iface(cfg, v4, v6, p, m, version, reply, Seq::empty()).0);
        assert(next matches On::Up(c, a, b, p2, _) ==> c == cfg && a == v4 && b == v6 && p2 == p);
        assert(next matches On::Register(c) ==> c == cfg);
        assert(next is Up || next is Register || next is Over);
    }
}

proof fn lemma_on_register(args: Words, version: Text, replies: Seq<Reply>)
    requires
        replies.len() > 0,
        on_inv(
            args,
            version,
            replies.drop_last(),
            on_after(args, version, replies.drop_last()),
        ),
        match on_after(args, version, replies.drop_last()) {
            On::Register(_) => true,
            _ => false,
        },
    ensures
        on_inv(args, version, replies, on_after(args, version, replies)),
{
    reveal(on_step);
    let before = replies.drop_last();
    let reply = replies.last();
    let n = before.len() as int;
    let st = on_after(args, version, before);
    assert(replies.take(n) =~= before);
    assert(replies[n] == reply);
    assert forall|j: int| 0 <= j < n implies replies[j] == before[j] by {}
    if let On::Register(cfg) = st {
        let (next, t) = on_next(st, args, version, reply);
        if next is Systemd {
            let resp = posted(register_url(cfg.registry), reply)->Ok_0;
            let id = string_field(resp, "server_id"@)->0;
            let saved = Effect::<Text, Words>::Write(
                state_file(),
                state_text(id, or_empty(string_field(resp, "secret"@))),
            );
            assert(t.effects[1] == saved);
            assert(took_registration(cfg, reply, t));
            assert(on_after(args, version, replies.take(n)) == st);
            assert(is_registered(args, version, replies, cfg));
        }
    }
}

/// What holds at each stage holds after any replies.
pub proof fn lemma_on(args: Words, version: Text, replies: Seq<Reply>)
    ensures
        on_inv(args, version, replies, on_after(args, version, replies)),
    decreases replies.len(),
{
    if replies.len() > 0 {
        let before = replies.drop_last();
        lemma_on(args, version, before);
        match on_after(args, version, before) {
            On::Start => lemma_on_checks(args, version, replies),
            On::Root => lemma_on_checks(args, version, replies),
            On::Load => lemma_on_checks(args, version, replies),
            On::Tool(_, _) => lemma_on_checks(args, version, replies),
            On::Survey(_) => lemma_on_keys(args, version, replies),
            On::Keys(_, _, _, _) => lemma_on_keys(args, version, replies),
            On::Pubkey(_, _, _, _) => lemma_on_pubkey(args, version, replies),
            On::Conf(_, _, _, _, _, _) => lemma_on_conf(args, version, replies),
            On::Up(_, _, _, _, _) => lemma_on_up(args, version, replies),
            On::Register(_) => lemma_on_register(args, version, replies),
            On::Systemd(cfg) => {
                reveal(on_step);
                lemma_registered_stays(args, version, replies, cfg);
            },
            _ => {
                reveal(on_step);
            },
        }
    }
}

/// Where getting the key stands.
spec fn key_stage(st: OnView) -> Keys<Text> {
    match st {
        On::Keys(_, _, _, m) => m,
        _ => Keys::Start,
    }
}

/// How getting the key goes on.
proof fn lemma_key_step(st: OnView, args: Words, version: Text, reply: Reply)
    ensures
        ({
            let now = key_stage(st);
            let next = key_stage(on_next(st, args, version, reply).0);
            &&& next is Store ==> now is Dir
            &&& next is Dir ==> now is Make
            &&& next is Make ==> now is Load && !has_text(reply)
        }),
{
}

/// A new private key is written only where the key file was read and found missing or blank: the
/// third last reply before the writing answered the question for the key file, and it had no key.
pub proof fn law_key_is_never_replaced(args: Words, version: Text, replies: Seq<Reply>)
    requires
        on_after(args, version, replies) matches On::Keys(_, _, _, Keys::Store(_)),
    ensures
        replies.len() >= 3,
        on_after(args, version, replies.take(replies.len() - 3)) matches On::Keys(
            _,
            _,
            _,
            Keys::Load,
        ),
        !has_text(replies[replies.len() - 3]),
{
    reveal(on_step);
    let n = replies.len() as int;
    let r1 = replies.drop_last();
    let r2 = r1.drop_last();
    let r3 = r2.drop_last();
    lemma_key_step(on_after(args, version, r1), args, version, replies.last());
    lemma_key_step(on_after(args, version, r2), args, version, r1.last());
    lemma_key_step(on_after(args, version, r3), args, version, r2.last());
    assert(r3 =~= replies.take(n - 3));
    assert(r2.last() == replies[n - 3]);
}

/// The registration carries the configuration that the settings and the command line gave, the
/// addresses that were found, of which there is at least one, and the public key that `wg`
/// printed for the server's private key; it is sent only after the checks have passed.
pub proof fn law_registration_says_what_was_found(
    args: Words,
    version: Text,
    replies: Seq<Reply>,
    cfg: CfgView,
)
    requires
        on_after(args, version, replies) == On::<CfgView, Text>::Register(cfg),
    ensures
        checks_passed(replies),
        cfg == on_cfg(args, replies),
        replies[7].detected().0 is Some || replies[7].detected().1 is Some,
        exists|k: Text, p: Text| #[trigger]
            is_pubkey(args, version, replies, k, p) && on_turn(args, version, replies).ask
                == Ask::<Text, Words>::Feed(
                post_command(register_url(cfg.registry)),
                register_body(
                    cfg.name,
                    p,
                    replies[7].detected().0,
                    replies[7].detected().1,
                    cfg.port,
                    version,
                ),
            ),
{
    reveal(on_step);
    let before = replies.drop_last();
    let reply = replies.last();
    let st = on_after(args, version, before);
    lemma_on(args, version, replies);
    lemma_on(args, version, before);
    assert forall|j: int| 0 <= j < before.len() implies replies[j] == before[j] by {}
    match st {
        On::Conf(c, v4, v6, k, p, m) => {
            lemma_pubkey_stays(args, version, replies, k, p);
        },
        On::Up(c, v4, v6, p, m) => {
            let k = choose|k: Text| #[trigger] is_pubkey(args, version, before, k, p);
            lemma_pubkey_stays(args, version, replies, k, p);
        },
        On::Pubkey(c, v4, v6, k) => {
            assert(with_conf(
                c,
                v4,
                v6,
                k,
                public_key(reply)->Ok_0,
                WriteConf::Start,
                version,
                reply,
                Seq::empty(),
            ).0 is Conf);
        },
        _ => {},
    }
}

/// Switching on ends with success only after the registry took the registration; any other end
/// has exit code one.
pub proof fn law_success_means_registered(args: Words, version: Text, replies: Seq<Reply>)
    requires
        replies.len() > 0,
        on_after(args, version, replies) is Over,
        !(on_after(args, version, replies.drop_last()) is Over),
    ensures
        match on_turn(args, version, replies).ask {
            Ask::Exit(code) => code == 1 || (code == 0 && exists|cfg: CfgView| #[trigger]
                is_registered(args, version, replies, cfg)),
            _ => false,
        },
{
    reveal(on_step);
    let before = replies.drop_last();
    lemma_on(args, version, before);
    match on_after(args, version, before) {
        On::Unit(cfg) => {
            lemma_registered_stays(args, version, replies, cfg);
        },
        On::Program(cfg) => {
            lemma_registered_stays(args, version, replies, cfg);
        },
        _ => {},
    }
}

/// A global address of either family is enough to go on to the key; without any, switching on
/// fails.
pub proof fn law_one_family_is_enough(cfg: CfgView, args: Words, version: Text, reply: Reply)
    ensures
        ({
            let (v4, v6) = reply.detected();
            let (next, t) = on_next(On::Survey(cfg), args, version, reply);
            if v4 is Some || v6 is Some {
                &&& next == On::<CfgView, Text>::Keys(cfg, v4, v6, Keys::Load)
                &&& t.ask == Ask::<Text, Words>::Read(cfg.key_path)
            } else {
                &&& next is Over
                &&& t.ask == Ask::<Text, Words>::Exit(1)
            }
        }),
{
}

// ---------------------------------------------------------------- the superuser

/// A turn that only complains and ends with exit code one.
pub open spec fn only_complains(t: TurnView) -> bool {
    t.effects.len() == 1 && t.effects[0] is Complain && t.ask == Ask::<Text, Words>::Exit(1)
}

/// Switching on, switching off and the daemon first ask who the user is, do nothing before they
/// know, and end at once where it is not the superuser.
pub proof fn law_superuser_only(
    args: Words,
    version: Text,
    purge: bool,
    start: Reply,
    reply: Reply,
)
    requires
        !reply.says_root(),
    ensures
        ({
            let ask = turn(Seq::empty(), Ask::Output(id_words()));
            &&& on_next(On::Start, args, version, start) == (On::<CfgView, Text>::Root, ask)
            &&& off_next(Off::Start, purge, start) == (Off::<CfgView, Text>::Root, ask)
            &&& daemon_next(Daemon::Start, start).0 is Root
            &&& daemon_next(Daemon::Start, start).1 == ask
            &&& on_next(On::Root, args, version, reply).0 is Over
            &&& only_complains(on_next(On::Root, args, version, reply).1)
            &&& off_next(Off::Root, purge, reply).0 is Over
            &&& only_complains(off_next(Off::Root, purge, reply).1)
            &&& daemon_next(Daemon::Root, reply).0 is Over
            &&& only_complains(daemon_next(Daemon::Root, reply).1)
        }),
{
}

// ---------------------------------------------------------------- switching off

/// The files that an effect removes.
pub open spec fn removes(e: EffectView, path: Text) -> bool {
    e == Effect::<Text, Words>::Remove(path)
}

/// Switching off keeps the files: it removes none but the one with the daemon's process number,
/// and writes none.
pub proof fn law_off_keeps_files(st: OffView, reply: Reply)
    ensures
        ({
            let t = off_next(st, false, reply).1;
            &&& forall|i: int|
                0 <= i < t.effects.len() ==> match #[trigger] t.effects[i] {
                    Effect::Remove(p) => p == pid_file(),
                    Effect::Write(_, _) => false,
                    Effect::MakeDir(_) => false,
                    _ => true,
                }
            &&& match t.ask {
                Ask::Store(_, _) => false,
                Ask::Append(_, _) => false,
                Ask::MakeParent(_) => false,
                _ => true,
            }
        }),
{
}

/// Switching off goes on to stop the daemon and the interface whatever the registry answers.
pub proof fn law_off_goes_on(cfg: CfgView, id: Text, purge: bool, reply: Reply)
    ensures
        off_next(Off::Post(cfg, id), purge, reply).0 == Off::<CfgView, Text>::Systemd(cfg),
        off_next(Off::Systemd(cfg), purge, reply).0 == Off::<CfgView, Text>::Pid(cfg),
        off_next(Off::Pid(cfg), purge, reply).0 == Off::<CfgView, Text>::Iface(cfg),
        off_next(Off::Pid(cfg), purge, reply).1.ask == Ask::<Text, Words>::Run(iface_words(cfg)),
        off_next(Off::Iface(cfg), purge, reply).1.ask == Ask::<Text, Words>::Exit(0),
{
}

/// The registration that switching on saved is the one that switching off and the daemon use, where
/// the id and the secret are not blank and hold no newline inside: the first tells the registry that the
/// server goes away, the second starts its heartbeats.
pub proof fn law_saved_registration_is_used(
    cfg: CfgView,
    poll: Option<Text>,
    purge: bool,
    id: Text,
    secret: Text,
    reply: Reply,
)
    requires
        one_line_value(id),
        one_line_value(secret),
        trimmed(id).len() > 0,
        trimmed(secret).len() > 0,
        reply.text() == Some(state_text(id, secret)),
    ensures
        ({
            let (next, t) = off_next(Off::State(cfg), purge, reply);
            &&& next == Off::<CfgView, Text>::Post(cfg, trimmed(id))
            &&& t.ask == Ask::<Text, Words>::Feed(
                post_command(offline_url(cfg.registry, trimmed(id))),
                offline_body(trimmed(secret)),
            )
        }),
        sends_heartbeats(
            daemon_next(Daemon::State(cfg, poll), reply).0,
            cfg,
            trimmed(id),
            trimmed(secret),
        ),
{
    law_registration_is_remembered(id, secret);
}

/// With `purge` the configuration, the key, the registration and the settings are removed in the
/// end.
pub proof fn law_purge_removes_files(cfg: CfgView, reply: Reply)
    ensures
        ({
            let e = off_next(Off::Iface(cfg), true, reply).1.effects;
            &&& e.contains(Effect::Remove(cfg.conf_path))
            &&& e.contains(Effect::Remove(cfg.key_path))
            &&& e.contains(Effect::Remove(state_file()))
            &&& e.contains(Effect::Remove(settings_file()))
            &&& e.contains(Effect::Remove(unit_file()))
            &&& e.contains(Effect::Remove(last_file()))
        }),
{
    let e = off_next(Off::Iface(cfg), true, reply).1.effects;
    let n = e.len() as int;
    assert(removes(e[n - 2], last_file()));
    assert(removes(e[n - 3], settings_file()));
    assert(removes(e[n - 4], state_file()));
    assert(removes(e[n - 5], cfg.key_path));
    assert(removes(e[n - 6], cfg.conf_path));
    assert(removes(e[n - 7], unit_file()));
}

// ---------------------------------------------------------------- the status

/// Saying how the server stands only prints, and changes nothing on the box: it reads files and
/// asks commands that show.
pub proof fn law_status_changes_nothing(st: StatusView, version: Text, reply: Reply)
    ensures
        ({
            let t = status_next(st, version, reply).1;
            &&& forall|i: int| 0 <= i < t.effects.len() ==> (#[trigger] t.effects[i]) is Print
            &&& match t.ask {
                Ask::Run(a) => exists|cfg: CfgView| a == #[trigger] iface_words(cfg),
                Ask::Output(a) => a == words3("systemctl"@, "is-active"@, "vpnyellod.service"@) || (
                exists|cfg: CfgView| a == #[trigger] show_words(cfg)),
                Ask::Feed(_, _) => false,
                Ask::Filter(_, _) => false,
                Ask::MakeParent(_) => false,
                Ask::Store(_, _) => false,
                Ask::Append(_, _) => false,
                Ask::Sleep(_) => false,
                Ask::Abort => false,
                Ask::Exit(code) => code == 0,
                _ => true,
            }
        }),
{
    match st {
        Status::Survey(cfg) => {
            assert(status_next(st, version, reply).1.ask == Ask::<Text, Words>::Run(
                iface_words(cfg),
            ));
        },
        Status::Tunnel(cfg) => {
            assert(status_next(st, version, reply).1.ask == Ask::<Text, Words>::Run(
                iface_words(cfg),
            ));
        },
        Status::Again(cfg) => {
            if reply.yes() {
                assert(status_next(st, version, reply).1.ask == Ask::<Text, Words>::Output(
                    show_words(cfg),
                ));
            }
        },
        _ => {},
    }
}

// ---------------------------------------------------------------- the daemon

/// The daemon sends heartbeats, with this configuration, id and secret.
pub open spec fn sends_heartbeats(st: DaemonView, cfg: CfgView, id: Text, secret: Text) -> bool {
    match st {
        Daemon::Beat(c, i, s, _) => c == cfg && i == id && s == secret,
        Daemon::Sleep(c, i, s, _) => c == cfg && i == id && s == secret,
        _ => false,
    }
}

/// Once the daemon sends heartbeats it does not end by itself: a heartbeat that fails is followed
/// by a wait and the next one. Only a key that cannot be cut stops it. The configuration, the id
/// and the secret stay the same.
pub proof fn law_daemon_goes_on(
    st: DaemonView,
    cfg: CfgView,
    id: Text,
    secret: Text,
    reply: Reply,
)
    requires
        sends_heartbeats(st, cfg, id, secret),
    ensures
        ({
            let (next, t) = daemon_next(st, reply);
            &&& sends_heartbeats(next, cfg, id, secret) || (next is Over && t.ask is Abort)
            &&& !(t.ask is Exit)
            &&& next matches Daemon::Sleep(_, _, _, poll) ==> t.ask == Ask::<Text, Words>::Sleep(
                pace(cfg.poll, poll) as u64,
            )
        }),
{
    let none = Seq::<EffectView>::empty();
    let who = Who { cfg, id, secret };
    match st {
        Daemon::Beat(_, _, _, y) => {
            law_heartbeat_does_not_end(y, who, reply, none);
        },
        Daemon::Sleep(_, _, _, poll) => {
            law_heartbeat_does_not_end(new_sync(poll), who, reply, none);
        },
        _ => {},
    }
}

} // verus!
