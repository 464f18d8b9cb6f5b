//! What the agent does next, step by step.

use crate::address::route_dev;
use crate::agent::{first_job, job_next, JobView};
use crate::conf::{conf_text, conf_without, missing_section};
use crate::config::{overridden, CfgView};
use crate::daemon::{beat, daemon_next, Daemon, DaemonView};
use crate::laws::reply::unquoted;
use crate::laws::requests::{law_heartbeat_is_read, law_note_is_read, law_registration_is_read};
use crate::laws::requests::{law_secret_is_read, plain_option};
use crate::laws::settings::law_commands;
use crate::number::decimal;
use crate::off::{off_next, Off, OffView};
use crate::on::{on_next, registered, On, OnView};
use crate::peers::{apply_next, fresh_peers, psk_path, remove_next, set_words, stale_keys};
use crate::peers::{unset_words, Applied, Apply, Remove};
use crate::registry::{heartbeat_url, offline_url, pace, post_command, posted, public_key};
use crate::registry::{register_url, remembered, state_text, suggested_poll};
use crate::reply::{listed_peers, number_field, string_field, PeerView};
use crate::status::{status_next, Status, StatusView};
use crate::sync::{apply_from, new_sync, remove_from, sync_next};
use crate::sync::{SyncNext, SyncStage, SyncView, Synced};
use crate::text::{byte_len, byte_prefix, trimmed, words};
use crate::tunnel::{bring_up_next, keys_next, with_addrs, write_conf_next};
use crate::tunnel::{BringUp, Keys, Next, WriteConf};
use crate::world::{AskView, EffectView, Reply, Text, TurnView, Words};
use vstd::prelude::*;

verus! {

// ---------------------------------------------------------------- the tunnel

/// Bringing the interface up first turns forwarding on for both families and asks whether the
/// interface is there.
pub proof fn law_forwarding_comes_first(cfg: CfgView, reply: Reply, effects: Seq<EffectView>)
    ensures
        match bring_up_next(BringUp::Start, cfg, reply, effects) {
            Next::Ask(m, t) => {
                &&& m == BringUp::Check
                &&& t.effects == effects + seq![
                    EffectView::Run(seq!["sysctl"@, "-w"@, "net.ipv4.ip_forward=1"@]),
                    EffectView::Run(seq!["sysctl"@, "-w"@, "net.ipv6.conf.all.forwarding=1"@]),
                ]
                &&& t.ask == AskView::Run(seq!["ip"@, "link"@, "show"@, "dev"@, cfg.iface])
            },
            Next::Done(_, _) => false,
        },
{
    if let Next::Ask(m, t) = bring_up_next(BringUp::Start, cfg, reply, effects) {
        assert(t.effects =~= effects + seq![
            EffectView::Run(seq!["sysctl"@, "-w"@, "net.ipv4.ip_forward=1"@]),
            EffectView::Run(seq!["sysctl"@, "-w"@, "net.ipv6.conf.all.forwarding=1"@]),
        ]);
    }
}

/// An interface that is not there is brought up by its name. It gets its addresses exactly where
/// that works, and otherwise nothing more is done.
pub proof fn law_missing_interface_is_raised(
    cfg: CfgView,
    reply: Reply,
    effects: Seq<EffectView>,
)
    ensures
        !reply.yes() ==> (match bring_up_next(BringUp::Check, cfg, reply, effects) {
            Next::Ask(m, t) => m == BringUp::Raise && t.effects == effects && t.ask == AskView::Run(
                seq!["wg-quick"@, "up"@, cfg.iface],
            ),
            Next::Done(_, _) => false,
        }),
        match bring_up_next(BringUp::Raise, cfg, reply, effects) {
            Next::Ask(_, _) => false,
            Next::Done(e, r) => {
                &&& r is Ok <==> reply.yes()
                &&& reply.yes() ==> e == with_addrs(effects, cfg)
                &&& !reply.yes() ==> e == effects && r == Err::<(), Text>(
                    "wg-quick up "@ + cfg.iface + " failed"@,
                )
            },
        },
{
}

/// A new key is made by `wg`, and goes to the key file after its directory was made. Each failure
/// ends it with an error.
pub proof fn law_new_key(path: Text, key: Text, reply: Reply, effects: Seq<EffectView>)
    ensures
        match keys_next(Keys::Start, path, reply, effects) {
            Next::Ask(m, t) => m == Keys::<Text>::Load && t.effects == effects && t.ask
                == AskView::Read(path),
            Next::Done(_, _) => false,
        },
        !(reply.text() matches Some(k) && trimmed(k).len() > 0) ==> (match keys_next(
            Keys::Load,
            path,
            reply,
            effects,
        ) {
            Next::Ask(m, t) => m == Keys::<Text>::Make && t.effects == effects && t.ask
                == AskView::Output(seq!["wg"@, "genkey"@]),
            Next::Done(_, _) => false,
        }),
        match keys_next(Keys::Make, path, reply, effects) {
            Next::Ask(m, t) => reply.output() is Some && m == Keys::Dir(reply.output()->0)
                && t.effects == effects && t.ask == AskView::MakeParent(path),
            Next::Done(e, r) => reply.output() is None && e == effects && r == Err::<Text, Text>(
                "wg genkey failed — install wireguard-tools first"@,
            ),
        },
        match keys_next(Keys::Dir(key), path, reply, effects) {
            Next::Ask(m, t) => reply.done() is Ok && m == Keys::Store(key) && t.effects == effects
                && t.ask == AskView::Store(path, key),
            Next::Done(e, r) => reply.done() is Err && e == effects && r is Err,
        },
        match keys_next(Keys::Store(key), path, reply, effects) {
            Next::Ask(_, _) => false,
            Next::Done(e, r) => e == effects && (match reply.done() {
                Ok(_) => r == Ok::<Text, Text>(key),
                Err(x) => r == Err::<Text, Text>("write "@ + path + ": "@ + x),
            }),
        },
{
}

/// The device that leads out is that of the IPv4 route, or else that of the IPv6 route, or else
/// `eth0`; the configuration is written for that device, from the settings, the key and the old
/// file.
pub proof fn law_configuration_is_written(
    cfg: CfgView,
    key: Text,
    wan: Text,
    reply: Reply,
    effects: Seq<EffectView>,
)
    ensures
        match write_conf_next(WriteConf::Start, cfg, key, reply, effects) {
            Next::Ask(m, t) => m == WriteConf::<Text>::Route4 && t.effects == effects && t.ask
                == AskView::Output(seq!["ip"@, "route"@, "get"@, "8.8.8.8"@]),
            Next::Done(_, _) => false,
        },
        match write_conf_next(WriteConf::Route4, cfg, key, reply, effects) {
            Next::Ask(m, t) => t.effects == effects && (match route_dev(
                reply.output(),
            ) {
                Some(w) => m == WriteConf::Dir(w) && t.ask == AskView::MakeParent(cfg.conf_path),
                None => m == WriteConf::<Text>::Route6 && t.ask == AskView::Output(
                    seq!["ip"@, "-6"@, "route"@, "get"@, "2001:4860:4860::8888"@],
                ),
            }),
            Next::Done(_, _) => false,
        },
        match write_conf_next(WriteConf::Route6, cfg, key, reply, effects) {
            Next::Ask(m, t) => t.effects == effects && t.ask == AskView::MakeParent(cfg.conf_path)
                && (match route_dev(reply.output()) {
                Some(w) => m == WriteConf::Dir(w),
                None => m == WriteConf::Dir("eth0"@),
            }),
            Next::Done(_, _) => false,
        },
        match write_conf_next(WriteConf::Dir(wan), cfg, key, reply, effects) {
            Next::Ask(m, t) => reply.done() is Ok && m == WriteConf::Old(wan) && t.effects == effects
                && t.ask == AskView::Read(cfg.conf_path),
            Next::Done(e, r) => reply.done() is Err && e == effects && r is Err,
        },
        match write_conf_next(WriteConf::Old(wan), cfg, key, reply, effects) {
            Next::Ask(m, t) => m == WriteConf::<Text>::Store && t.effects == effects && t.ask
                == AskView::Store(
                cfg.conf_path,
                conf_text(cfg.vpn4, cfg.vpn6, cfg.port, key, wan, reply.text()),
            ),
            Next::Done(_, _) => false,
        },
        match write_conf_next(WriteConf::Store, cfg, key, reply, effects) {
            Next::Ask(_, _) => false,
            Next::Done(e, r) => e == effects && (match reply.done() {
                Ok(_) => r is Ok,
                Err(x) => r == Err::<(), Text>("write "@ + cfg.conf_path + ": "@ + x),
            }),
        },
{
}

// ---------------------------------------------------------------- one peer

/// A peer is refused exactly where an address or the preshared key is missing, or the preshared
/// key is not 44 bytes long; otherwise the preshared key goes to its file.
pub proof fn law_incomplete_peer_is_refused(
    cfg: CfgView,
    p: PeerView,
    reply: Reply,
    effects: Seq<EffectView>,
)
    ensures
        match apply_next(Apply::Start, cfg, p, reply, effects) {
            Next::Ask(m, t) => {
                &&& p.ip4.len() > 0 && p.ip6.len() > 0 && byte_len(p.preshared_b64) == 44
                &&& psk_path(p.client_pubkey) is Some
                &&& m == Apply::Store(psk_path(p.client_pubkey)->0)
                &&& t.effects == effects
                &&& t.ask == AskView::Store(psk_path(p.client_pubkey)->0, p.preshared_b64)
            },
            Next::Done(e, r) => {
                &&& e == effects
                &&& r is Failed <==> p.ip4.len() == 0 || p.ip6.len() == 0 || byte_len(
                    p.preshared_b64,
                ) != 44
                &&& r is Failed || (r is Cut && psk_path(p.client_pubkey) is None)
                &&& p.ip4.len() == 0 || p.ip6.len() == 0 || p.preshared_b64.len() == 0 ==> r
                    == Applied::Failed("peer record incomplete"@)
                &&& p.ip4.len() > 0 && p.ip6.len() > 0 && p.preshared_b64.len() > 0 && r is Failed
                    ==> r == Applied::Failed("bad preshared key"@)
            },
        },
{
    assert(byte_len(Seq::<char>::empty()) == 0);
    if p.preshared_b64.len() == 0 {
        assert(p.preshared_b64 =~= Seq::<char>::empty());
    }
}

/// A peer whose preshared key is in its file is set, the file is removed whatever comes of it,
/// and what is missing of the peer is added to the configuration file.
pub proof fn law_peer_is_applied(
    cfg: CfgView,
    p: PeerView,
    path: Text,
    reply: Reply,
    effects: Seq<EffectView>,
)
    ensures
        match apply_next(Apply::Store(path), cfg, p, reply, effects) {
            Next::Ask(m, t) => reply.done() is Ok && m == Apply::Install(path) && t.effects
                == effects && t.ask == AskView::Run(set_words(cfg, p, path)),
            Next::Done(e, r) => reply.done() is Err && e == effects && r is Failed,
        },
        match apply_next(Apply::Install(path), cfg, p, reply, effects) {
            Next::Ask(m, t) => reply.yes() && m == Apply::<Text>::Conf && t.effects
                == effects + seq![EffectView::Remove(path)] && t.ask == AskView::Read(
                cfg.conf_path,
            ),
            Next::Done(e, r) => !reply.yes() && e == effects + seq![EffectView::Remove(path)] && r
                == Applied::Failed("wg set failed"@),
        },
        match apply_next(Apply::Conf, cfg, p, reply, effects) {
            Next::Ask(m, t) => {
                let conf = match reply.text() {
                    Some(c) => c,
                    None => seq![],
                };
                &&& m == Apply::<Text>::Append && t.effects == effects
                &&& missing_section(conf, p) matches Some(s) && t.ask == AskView::Append(
                    cfg.conf_path,
                    s,
                )
            },
            Next::Done(e, r) => e == effects && r == Applied::<Text>::Done && (reply.text() matches
                Some(c) && missing_section(c, p) is None || reply.text() is None
                && missing_section(seq![], p) is None),
        },
        match apply_next(Apply::Append, cfg, p, reply, effects) {
            Next::Ask(_, _) => false,
            Next::Done(e, r) => e == effects && (r is Done <==> reply.done() is Ok) && (r is Failed
                <==> reply.done() is Err),
        },
{
    let removed = seq![EffectView::Remove(path)];
    assert(effects.push(EffectView::Remove(path)) =~= effects + removed);
}

/// A peer is taken out of the interface, and out of the configuration file where that can be
/// read; nothing is written where it cannot.
pub proof fn law_peer_is_taken_out(
    cfg: CfgView,
    key: Text,
    reply: Reply,
    effects: Seq<EffectView>,
)
    ensures
        match remove_next(Remove::Start, cfg, key, reply, effects) {
            Next::Ask(m, t) => m == Remove::Conf && t.effects == effects + seq![
                EffectView::Run(unset_words(cfg, key)),
            ] && t.ask == AskView::Read(cfg.conf_path),
            Next::Done(_, _) => false,
        },
        match remove_next(Remove::Conf, cfg, key, reply, effects) {
            Next::Ask(_, _) => false,
            Next::Done(e, _) => match reply.text() {
                Some(c) => e == effects + seq![
                    EffectView::Write(cfg.conf_path, conf_without(c, key)),
                ],
                None => e == effects,
            },
        },
{
    let run = EffectView::Run(unset_words(cfg, key));
    assert(effects.push(run) =~= effects + seq![run]);
    if let Some(c) = reply.text() {
        let w = EffectView::Write(cfg.conf_path, conf_without(c, key));
        assert(effects.push(w) =~= effects + seq![w]);
    }
}

// ---------------------------------------------------------------- a heartbeat

/// A heartbeat first finds the addresses out, and then posts a body that says what was found: the
/// secret, each address (empty where there is none) and the port are read back from it.
pub proof fn law_heartbeat_reports(
    st: SyncView,
    cfg: CfgView,
    id: Text,
    secret: Text,
    reply: Reply,
    effects: Seq<EffectView>,
)
    requires
        unquoted(secret),
        plain_option(reply.detected().0),
        plain_option(reply.detected().1),
        secret != "port"@,
        reply.detected().0 != Some("port"@),
        reply.detected().1 != Some("port"@),
        cfg.port <= u64::MAX,
    ensures
        st.stage is Start ==> (match sync_next(st, cfg, id, secret, reply, effects) {
            Next::Ask(y, t) => y.stage is Survey && t.effects == effects && t.ask == AskView::Survey,
            Next::Done(_, _) => false,
        }),
        st.stage is Survey ==> (match sync_next(st, cfg, id, secret, reply, effects) {
            Next::Ask(y, t) => {
                &&& y.stage is Beat
                &&& t.effects == effects
                &&& t.ask matches AskView::Feed(command, body) && {
                    &&& command == post_command(heartbeat_url(cfg.registry, id))
                    &&& string_field(body, "secret"@) == Some(secret)
                    &&& string_field(body, "ipv4"@) == Some(
                        match reply.detected().0 {
                            Some(a) => a,
                            None => seq![],
                        },
                    )
                    &&& string_field(body, "ipv6"@) == Some(
                        match reply.detected().1 {
                            Some(a) => a,
                            None => seq![],
                        },
                    )
                    &&& number_field(body, "port"@) == Some(cfg.port)
                }
            },
            Next::Done(_, _) => false,
        }),
{
    let (v4, v6) = reply.detected();
    law_heartbeat_is_read(secret, v4, v6, cfg.port);
}

/// What the registry answers to a heartbeat is the list of peers that it wants and the pace that
/// it suggests; without an answer the heartbeat has failed, and the pace stays.
pub proof fn law_heartbeat_is_answered(
    st: SyncView,
    cfg: CfgView,
    id: Text,
    secret: Text,
    reply: Reply,
    effects: Seq<EffectView>,
)
    requires
        st.stage is Beat,
    ensures
        match posted(heartbeat_url(cfg.registry, id), reply) {
            Ok(resp) => match sync_next(st, cfg, id, secret, reply, effects) {
                Next::Ask(y, t) => {
                    &&& y == (SyncView {
                        stage: SyncStage::Iface,
                        wanted: listed_peers(resp),
                        poll: suggested_poll(resp, st.poll),
                        ..st
                    })
                    &&& t.effects == effects
                    &&& t.ask == AskView::Run(seq!["ip"@, "link"@, "show"@, "dev"@, cfg.iface])
                },
                Next::Done(_, _) => false,
            },
            Err(e) => match sync_next(st, cfg, id, secret, reply, effects) {
                Next::Ask(_, _) => false,
                Next::Done(d, (poll, r)) => d == effects && poll == st.poll && r
                    == Synced::<Text, nat>::Failed(e),
            },
        },
{
}

/// An interface that is there gets its addresses and is asked for its peers; one that is not is
/// brought up, and a heartbeat fails where that does.
pub proof fn law_heartbeat_needs_the_interface(
    st: SyncView,
    cfg: CfgView,
    id: Text,
    secret: Text,
    reply: Reply,
    effects: Seq<EffectView>,
)
    requires
        st.stage is Iface,
    ensures
        match sync_next(st, cfg, id, secret, reply, effects) {
            Next::Ask(y, t) => if reply.yes() {
                &&& y == (SyncView { stage: SyncStage::Peers, ..st })
                &&& t.effects == with_addrs(effects, cfg)
                &&& t.ask == AskView::Output(seq!["wg"@, "show"@, cfg.iface, "peers"@])
            } else {
                &&& y == (SyncView { stage: SyncStage::Up(BringUp::Check), ..st })
                &&& t.ask == AskView::Run(seq!["ip"@, "link"@, "show"@, "dev"@, cfg.iface])
            },
            Next::Done(_, _) => false,
        },
        sync_next(
            SyncView { stage: SyncStage::Up(BringUp::Raise), ..st },
            cfg,
            id,
            secret,
            reply,
            effects,
        ) matches Next::Done(_, (poll, r)) ==> !reply.yes() && r is Failed && poll == st.poll,
{
}

/// While a heartbeat brings the interface up it goes the way of bringing up; then the interface
/// gets its addresses and is asked for its peers, or the heartbeat has failed.
pub proof fn law_heartbeat_brings_up(
    st: SyncView,
    m: BringUp,
    cfg: CfgView,
    id: Text,
    secret: Text,
    reply: Reply,
    effects: Seq<EffectView>,
)
    requires
        st.stage == SyncStage::<Text>::Up(m),
    ensures
        match bring_up_next(m, cfg, reply, effects) {
            Next::Ask(m2, t) => sync_next(st, cfg, id, secret, reply, effects) == SyncNext::Ask(
                SyncView { stage: SyncStage::Up(m2), ..st },
                t,
            ),
            Next::Done(e, Ok(_)) => sync_next(st, cfg, id, secret, reply, effects) == SyncNext::Ask(
                SyncView { stage: SyncStage::Peers, ..st },
                TurnView {
                    effects: with_addrs(e, cfg),
                    ask: AskView::Output(seq!["wg"@, "show"@, cfg.iface, "peers"@]),
                },
            ),
            Next::Done(e, Err(x)) => sync_next(st, cfg, id, secret, reply, effects)
                == SyncNext::Done(e, (st.poll, Synced::Failed(x))),
        },
{
}

/// The peers of the interface decide what is to be done: the wanted peers that it does not have
/// are added, and those that it has and that are not wanted are taken out, one after the other.
pub proof fn law_heartbeat_plans(
    st: SyncView,
    cfg: CfgView,
    id: Text,
    secret: Text,
    reply: Reply,
    effects: Seq<EffectView>,
)
    ensures
        st.stage is Peers ==> ({
            let shown = match reply.output() {
                Some(s) => words(s),
                None => seq![],
            };
            sync_next(st, cfg, id, secret, reply, effects) == apply_from(
                SyncView {
                    fresh: fresh_peers(st.wanted, shown),
                    stale: stale_keys(shown, st.wanted),
                    at: 0,
                    count: 0,
                    ..st
                },
                Apply::Start,
                cfg,
                reply,
                effects,
            )
        }),
        st.stage matches SyncStage::Apply(m) ==> sync_next(st, cfg, id, secret, reply, effects)
            == apply_from(st, m, cfg, reply, effects),
        st.stage == SyncStage::<Text>::Remove(Remove::Conf) ==> ({
            let written = match reply.text() {
                Some(c) => effects + seq![
                    EffectView::Write(cfg.conf_path, conf_without(c, st.stale[st.at as int])),
                ],
                None => effects,
            };
            sync_next(st, cfg, id, secret, reply, effects) == remove_from(
                SyncView { at: st.at + 1, ..st },
                cfg,
                written,
            )
        }),
{
    if let Some(c) = reply.text() {
        let w = EffectView::Write(cfg.conf_path, conf_without(c, st.stale[st.at as int]));
        assert(effects.push(w) =~= effects + seq![w]);
    }
}

/// In the end a heartbeat counts the peers of the interface and leaves a note of the server's
/// number, the time and that count, which are read back from it.
pub proof fn law_heartbeat_is_noted(
    st: SyncView,
    cfg: CfgView,
    id: Text,
    secret: Text,
    reply: Reply,
    effects: Seq<EffectView>,
)
    requires
        unquoted(id),
        id != "last_ok"@,
        id != "peers_applied"@,
        st.total <= u64::MAX,
    ensures
        st.stage is Count ==> (match sync_next(st, cfg, id, secret, reply, effects) {
            Next::Ask(y, t) => {
                &&& y.stage is Clock
                &&& y.poll == st.poll && y.count == st.count
                &&& y.total == (match reply.output() {
                    Some(s) => words(s).len(),
                    None => 0,
                })
                &&& t.effects == effects + seq![EffectView::MakeDir("/var/lib/vpnyellod"@)]
                &&& t.ask == AskView::Clock
            },
            Next::Done(_, _) => false,
        }),
        st.stage is Clock ==> (match sync_next(st, cfg, id, secret, reply, effects) {
            Next::Ask(_, _) => false,
            Next::Done(e, (poll, r)) => {
                &&& poll == st.poll
                &&& r == Synced::<Text, nat>::Done(st.count)
                &&& e.len() == effects.len() + 1
                &&& e.take(effects.len() as int) == effects
                &&& e.last() matches EffectView::Write(path, note) && {
                    &&& path == "/var/lib/vpnyellod/last.json"@
                    &&& string_field(note, "server_id"@) == Some(id)
                    &&& number_field(note, "last_ok"@) == Some(reply.seconds())
                    &&& number_field(note, "peers_applied"@) == Some(st.total)
                }
            },
        }),
{
    law_note_is_read(id, reply.seconds(), st.total);
    if st.stage is Count {
        let made = EffectView::MakeDir("/var/lib/vpnyellod"@);
        assert(effects.push(made) =~= effects + seq![made]);
    }
    if st.stage is Clock {
        if let Next::Done(e, (poll, r)) = sync_next(st, cfg, id, secret, reply, effects) {
            assert(e.take(effects.len() as int) =~= effects);
        }
    }
}

/// A peer that was added is counted and named by the start of its key and both of its addresses;
/// one that was not is complained about and not counted. Either way the next one follows, and
/// after the last one those that are not wanted are taken out.
pub proof fn law_peer_is_told(
    st: SyncView,
    m: Apply<Text>,
    cfg: CfgView,
    reply: Reply,
    effects: Seq<EffectView>,
)
    ensures
        st.at >= st.fresh.len() ==> apply_from(st, m, cfg, reply, effects) == remove_from(
            SyncView { at: 0, ..st },
            cfg,
            effects,
        ),
        st.at < st.fresh.len() ==> ({
            let p = st.fresh[st.at as int];
            match apply_next(m, cfg, p, reply, effects) {
                Next::Ask(m2, t) => apply_from(st, m, cfg, reply, effects) == SyncNext::Ask(
                    SyncView { stage: SyncStage::Apply(m2), ..st },
                    t,
                ),
                Next::Done(e, Applied::Done) => byte_prefix(p.client_pubkey, 12) matches Some(x)
                    ==> apply_from(st, m, cfg, reply, effects) == apply_from(
                    SyncView { at: st.at + 1, count: st.count + 1, ..st },
                    Apply::Start,
                    cfg,
                    reply,
                    e + seq![
                        EffectView::Print(
                            "[vpnyellod] + peer "@ + x + " ("@ + p.ip4 + "/"@ + p.ip6 + ")"@,
                        ),
                    ],
                ),
                Next::Done(e, Applied::Failed(x)) => apply_from(st, m, cfg, reply, effects)
                    == apply_from(
                    SyncView { at: st.at + 1, ..st },
                    Apply::Start,
                    cfg,
                    reply,
                    e + seq![EffectView::Complain("[vpnyellod] apply peer failed: "@ + x)],
                ),
                Next::Done(e, Applied::Cut) => true,
            }
        }),
{
    let p = st.fresh[st.at as int];
    if let Next::Done(e, r) = apply_next(m, cfg, p, reply, effects) {
        if let Applied::Failed(x) = r {
            let said = EffectView::Complain("[vpnyellod] apply peer failed: "@ + x);
            assert(e.push(said) =~= e + seq![said]);
        }
        if r is Done {
            if let Some(x) = byte_prefix(p.client_pubkey, 12) {
                let said = EffectView::Print(
                    "[vpnyellod] + peer "@ + x + " ("@ + p.ip4 + "/"@ + p.ip6 + ")"@,
                );
                assert(e.push(said) =~= e + seq![said]);
            }
        }
    }
}

/// A peer that is not wanted is named by the start of its key, taken out of the interface, and
/// then out of the configuration file; after the last one the peers are counted.
pub proof fn law_stale_peer_is_told(st: SyncView, cfg: CfgView, effects: Seq<EffectView>)
    ensures
        st.at >= st.stale.len() ==> remove_from(st, cfg, effects) == SyncNext::Ask(
            SyncView { stage: SyncStage::Count, ..st },
            TurnView {
                effects,
                ask: AskView::Output(seq!["wg"@, "show"@, cfg.iface, "peers"@]),
            },
        ),
        st.at < st.stale.len() ==> (byte_prefix(st.stale[st.at as int], 12) matches Some(x)
            ==> remove_from(st, cfg, effects) == SyncNext::Ask(
            SyncView { stage: SyncStage::Remove(Remove::Conf), ..st },
            TurnView {
                effects: effects + seq![
                    EffectView::Print("[vpnyellod] - stale peer "@ + x + "..."@),
                    EffectView::Run(unset_words(cfg, st.stale[st.at as int])),
                ],
                ask: AskView::Read(cfg.conf_path),
            },
        )),
{
    if st.at < st.stale.len() {
        if let Some(x) = byte_prefix(st.stale[st.at as int], 12) {
            let a = EffectView::Print("[vpnyellod] - stale peer "@ + x + "..."@);
            let b = EffectView::Run(unset_words(cfg, st.stale[st.at as int]));
            assert(effects.push(a).push(b) =~= effects + seq![a, b]);
        }
    }
}

// ---------------------------------------------------------------- the daemon

/// The daemon starts its heartbeats with the settings and the saved registration, and ends with
/// exit code one where there is none.
pub proof fn law_daemon_starts(cfg: CfgView, poll: Option<Text>, reply: Reply)
    ensures
        daemon_next(Daemon::Load, reply).0 == DaemonView::State(
            reply.cfg(),
            reply.variable("VY_POLL_EFFECTIVE"@),
        ),
        daemon_next(Daemon::Load, reply).1.ask == AskView::Read("/etc/vpnyellod/state.env"@),
        ({
            let (id, secret) = remembered(reply.text());
            let (st, t) = daemon_next(Daemon::State(cfg, poll), reply);
            if id.len() == 0 || secret.len() == 0 {
                &&& st is Over
                &&& t.ask == AskView::Exit(1)
                &&& t.effects.len() == 1 && t.effects[0] is Complain
            } else {
                &&& st matches Daemon::Beat(c, i, s, y) && c == cfg && i == id && s == secret
                    && y.poll == poll && y.stage is Survey
                &&& t.effects.len() == 1 && t.effects[0] == EffectView::Print(
                    "[vpnyellod] daemon: syncing "@ + id + " every ~"@ + decimal(cfg.poll) + "s"@,
                )
                &&& t.ask == AskView::Survey
            }
        }),
{
}

/// After a heartbeat the daemon waits for the suggested pace, or else for the configured one,
/// whatever came of the heartbeat; it says how many peers were added where any were, and what
/// went wrong where something did. Then the next heartbeat starts afresh with that pace.
pub proof fn law_daemon_waits(
    cfg: CfgView,
    id: Text,
    secret: Text,
    y: SyncView,
    reply: Reply,
    effects: Seq<EffectView>,
)
    ensures
        sync_next(y, cfg, id, secret, reply, effects) matches Next::Done(e, (poll, r)) ==> {
            let (st, t) = beat(cfg, id, secret, y, reply, effects);
            match r {
                Synced::Done(n) => {
                    &&& st == DaemonView::Sleep(cfg, id, secret, poll)
                    &&& t.ask == AskView::Sleep(pace(cfg.poll, poll) as u64)
                    &&& n == 0 ==> t.effects == e
                    &&& n > 0 ==> t.effects == e + seq![
                        EffectView::Print("[vpnyellod] applied "@ + decimal(n) + " new peer(s)"@),
                    ]
                },
                Synced::Failed(x) => {
                    &&& st == DaemonView::Sleep(cfg, id, secret, poll)
                    &&& t.ask == AskView::Sleep(pace(cfg.poll, poll) as u64)
                    &&& t.effects == e + seq![
                        EffectView::Complain("[vpnyellod] sync failed: "@ + x),
                    ]
                },
                Synced::Cut => st is Over && t.ask == AskView::Abort && t.effects == e,
            }
        },
        sync_next(y, cfg, id, secret, reply, effects) matches Next::Ask(z, t) ==> beat(
            cfg,
            id,
            secret,
            y,
            reply,
            effects,
        ) == (DaemonView::Beat(cfg, id, secret, z), t),
        daemon_next(Daemon::Sleep(cfg, id, secret, y.poll), reply) == beat(
            cfg,
            id,
            secret,
            new_sync(y.poll),
            reply,
            Seq::empty(),
        ),
        new_sync(y.poll).poll == y.poll && new_sync(y.poll).stage is Start,
{
    if let Next::Done(e, (poll, r)) = sync_next(y, cfg, id, secret, reply, effects) {
        if let Synced::Done(n) = r {
            let said = EffectView::Print("[vpnyellod] applied "@ + decimal(n) + " new peer(s)"@);
            assert(e.push(said) =~= e + seq![said]);
        }
        if let Synced::Failed(x) = r {
            let said = EffectView::Complain("[vpnyellod] sync failed: "@ + x);
            assert(e.push(said) =~= e + seq![said]);
        }
    }
}

// ---------------------------------------------------------------- switching off

/// A server with a saved registration tells the registry that it goes away, with its secret; one
/// without goes on to stop the daemon.
pub proof fn law_off_tells_the_registry(cfg: CfgView, purge: bool, reply: Reply)
    requires
        unquoted(remembered(reply.text()).1),
    ensures
        off_next(Off::Load, purge, reply).0 == (OffView::State(reply.cfg())),
        off_next(Off::Load, purge, reply).1.ask == AskView::Read("/etc/vpnyellod/state.env"@),
        ({
            let (id, secret) = remembered(reply.text());
            let (st, t) = off_next(Off::State(cfg), purge, reply);
            &&& t.effects.len() == 0
            &&& id.len() > 0 && secret.len() > 0 ==> {
                &&& st == OffView::Post(cfg, id)
                &&& t.ask matches AskView::Feed(command, body) && command == post_command(
                    offline_url(cfg.registry, id),
                ) && string_field(body, "secret"@) == Some(secret)
            }
            &&& id.len() == 0 || secret.len() == 0 ==> {
                &&& st == OffView::Systemd(cfg)
                &&& t.ask == AskView::Exist(
                    seq!["/run/systemd/system"@, "/etc/systemd/system/vpnyellod.service"@],
                )
            }
        }),
{
    law_secret_is_read(remembered(reply.text()).1);
}

/// What the registry made of the goodbye is said, and the rest goes on either way. Without the
/// superuser nothing is done, and the command that was asked for is named.
pub proof fn law_off_says_what_came_of_it(cfg: CfgView, id: Text, purge: bool, reply: Reply)
    ensures
        off_next(Off::Post(cfg, id), purge, reply).0 == OffView::Systemd(cfg),
        off_next(Off::Post(cfg, id), purge, reply).1 == (TurnView {
            effects: seq![
                match posted(offline_url(cfg.registry, id), reply) {
                    Ok(_) => EffectView::Print("[vpnyellod] deregistered from website"@),
                    Err(e) => EffectView::Complain(
                        "[vpnyellod] deregister skipped ("@ + e + ")"@,
                    ),
                },
            ],
            ask: AskView::Exist(
                seq!["/run/systemd/system"@, "/etc/systemd/system/vpnyellod.service"@],
            ),
        }),
        !reply.says_root() ==> off_next(Off::Root, purge, reply).1 == (TurnView {
            effects: seq![
                EffectView::Complain(
                    if purge {
                        "error: run as root: sudo vpnyellod uninstall"@
                    } else {
                        "error: run as root: sudo vpnyellod off"@
                    },
                ),
            ],
            ask: AskView::Exit(1),
        }),
        !reply.says_root() ==> daemon_next(Daemon::Root, reply).1 == (TurnView {
            effects: seq![EffectView::Complain("error: daemon needs root"@)],
            ask: AskView::Exit(1),
        }),
{
    let none = Seq::<EffectView>::empty();
    let said = match posted(offline_url(cfg.registry, id), reply) {
        Ok(_) => EffectView::Print("[vpnyellod] deregistered from website"@),
        Err(e) => EffectView::Complain("[vpnyellod] deregister skipped ("@ + e + ")"@),
    };
    assert(none.push(said) =~= seq![said]);
    let root = EffectView::Complain(
        if purge {
            "error: run as root: sudo vpnyellod uninstall"@
        } else {
            "error: run as root: sudo vpnyellod off"@
        },
    );
    assert(none.push(root) =~= seq![root]);
    let needs = EffectView::Complain("error: daemon needs root"@);
    assert(none.push(needs) =~= seq![needs]);
}

/// Switching off stops the unit exactly where there is one, ends the process whose number is in
/// its file and removes that file exactly where there is one, ends any other daemon, and takes
/// the interface down exactly where it is up.
pub proof fn law_off_stops_everything(cfg: CfgView, purge: bool, reply: Reply)
    ensures
        ({
            let (st, t) = off_next(OffView::Systemd(cfg), purge, reply);
            let stop = EffectView::Run(
                seq!["systemctl"@, "disable"@, "--now"@, "vpnyellod.service"@],
            );
            &&& st == OffView::Pid(cfg)
            &&& t.ask == AskView::Read("/run/vpnyellod.pid"@)
            &&& t.effects == (if reply.yes() {
                seq![stop]
            } else {
                seq![]
            })
        }),
        ({
            let (st, t) = off_next(OffView::Pid(cfg), purge, reply);
            let rest = EffectView::Run(seq!["pkill"@, "-f"@, "vpnyellod daemon"@]);
            &&& st == OffView::Iface(cfg)
            &&& t.ask == AskView::Run(seq!["ip"@, "link"@, "show"@, "dev"@, cfg.iface])
            &&& t.effects == (match reply.text() {
                Some(pid) => seq![
                    EffectView::Run(seq!["kill"@, trimmed(pid)]),
                    EffectView::Remove("/run/vpnyellod.pid"@),
                    rest,
                ],
                None => seq![rest],
            })
        }),
        ({
            let (st, t) = off_next(OffView::Iface(cfg), false, reply);
            &&& st is Over
            &&& t.ask == AskView::Exit(0)
            &&& t.effects == (if reply.yes() {
                seq![
                    EffectView::Run(seq!["wg-quick"@, "down"@, cfg.iface]),
                    EffectView::Print("[vpnyellod] "@ + cfg.iface + " down"@),
                    EffectView::Print("[vpnyellod] OFF"@),
                ]
            } else {
                seq![EffectView::Print("[vpnyellod] OFF"@)]
            })
        }),
{
    let stop = EffectView::Run(seq!["systemctl"@, "disable"@, "--now"@, "vpnyellod.service"@]);
    let rest = EffectView::Run(seq!["pkill"@, "-f"@, "vpnyellod daemon"@]);
    let a = off_next(OffView::Systemd(cfg), purge, reply).1.effects;
    let b = off_next(OffView::Pid(cfg), purge, reply).1.effects;
    let c = off_next(OffView::Iface(cfg), false, reply).1.effects;
    if reply.yes() {
        assert(a =~= seq![stop]);
        assert(c =~= seq![
            EffectView::Run(seq!["wg-quick"@, "down"@, cfg.iface]),
            EffectView::Print("[vpnyellod] "@ + cfg.iface + " down"@),
            EffectView::Print("[vpnyellod] OFF"@),
        ]);
    } else {
        assert(a =~= seq![]);
        assert(c =~= seq![EffectView::Print("[vpnyellod] OFF"@)]);
    }
    match reply.text() {
        Some(pid) => {
            assert(b =~= seq![
                EffectView::Run(seq!["kill"@, trimmed(pid)]),
                EffectView::Remove("/run/vpnyellod.pid"@),
                rest,
            ]);
        },
        None => {
            assert(b =~= seq![rest]);
        },
    }
}

/// Uninstalling does what switching off does, and then removes the unit, the configuration, the
/// key, the registration, the settings and the note, and says so.
pub proof fn law_uninstall_removes_the_rest(cfg: CfgView, reply: Reply)
    ensures
        off_next(OffView::Iface(cfg), true, reply).0 is Over,
        off_next(OffView::Iface(cfg), true, reply).1.ask == AskView::Exit(0),
        off_next(OffView::Iface(cfg), true, reply).1.effects == off_next(
            OffView::Iface(cfg),
            false,
            reply,
        ).1.effects + seq![
            EffectView::Remove("/etc/systemd/system/vpnyellod.service"@),
            EffectView::Remove(cfg.conf_path),
            EffectView::Remove(cfg.key_path),
            EffectView::Remove("/etc/vpnyellod/state.env"@),
            EffectView::Remove("/etc/vpnyellod/config.env"@),
            EffectView::Remove("/var/lib/vpnyellod/last.json"@),
            EffectView::Print("[vpnyellod] uninstalled"@),
        ],
{
    assert(off_next(OffView::Iface(cfg), true, reply).1.effects =~= off_next(
        OffView::Iface(cfg),
        false,
        reply,
    ).1.effects + seq![
        EffectView::Remove("/etc/systemd/system/vpnyellod.service"@),
        EffectView::Remove(cfg.conf_path),
        EffectView::Remove(cfg.key_path),
        EffectView::Remove("/etc/vpnyellod/state.env"@),
        EffectView::Remove("/etc/vpnyellod/config.env"@),
        EffectView::Remove("/var/lib/vpnyellod/last.json"@),
        EffectView::Print("[vpnyellod] uninstalled"@),
    ]);
}

// ---------------------------------------------------------------- how the server stands

/// How the server stands is said line by line: the version, the registry, both addresses, and
/// whether the tunnel is up.
pub proof fn law_status_of_the_tunnel(cfg: CfgView, version: Text, reply: Reply)
    ensures
        status_next(Status::Load, version, reply).0 == (Status::Survey(reply.cfg())),
        ({
            let (st, t) = status_next(Status::Survey(cfg), version, reply);
            let (v4, v6) = reply.detected();
            &&& st == Status::Tunnel(cfg)
            &&& t.ask == AskView::Run(seq!["ip"@, "link"@, "show"@, "dev"@, cfg.iface])
            &&& t.effects.len() == 3
            &&& t.effects[0] == EffectView::Print("vpnyellod "@ + version)
            &&& t.effects[1] == EffectView::Print("registry : "@ + cfg.registry)
            &&& t.effects[2] == EffectView::Print(
                "detected : "@ + "ipv4="@ + (match v4 {
                    Some(a) => a,
                    None => "-"@,
                }) + " ipv6="@ + (match v6 {
                    Some(a) => a,
                    None => "-"@,
                }),
            )
        }),
        ({
            let (st, t) = status_next(Status::Tunnel(cfg), version, reply);
            let start = "tunnel   : "@ + cfg.iface + " (port "@ + decimal(cfg.port) + ") "@;
            &&& st == Status::Again(cfg)
            &&& t.effects.len() == 1
            &&& reply.yes() ==> t.effects[0] == EffectView::Print(start + "UP"@)
            &&& !reply.yes() ==> t.effects[0] == EffectView::Print(start + "DOWN"@)
        }),
{
}

/// Further lines tell how many clients there are, where the tunnel is up, the server's number, or
/// that there is none, the last heartbeat, and how the daemon runs.
pub proof fn law_status_of_the_rest(cfg: CfgView, version: Text, reply: Reply)
    ensures
        ({
            let (st, t) = status_next(Status::Again(cfg), version, reply);
            &&& t.effects.len() == 0
            &&& reply.yes() ==> st is Peers && t.ask == AskView::Output(
                seq!["wg"@, "show"@, cfg.iface, "peers"@],
            )
            &&& !reply.yes() ==> st is State && t.ask == AskView::Read("/etc/vpnyellod/state.env"@)
        }),
        ({
            let (st, t) = status_next(Status::Peers, version, reply);
            &&& st is State && t.ask == AskView::Read("/etc/vpnyellod/state.env"@)
            &&& reply.output() is None ==> t.effects.len() == 0
            &&& reply.output() matches Some(out) ==> t.effects == seq![
                EffectView::Print("peers    : "@ + decimal(words(out).len()) + " client(s)"@),
            ]
        }),
        ({
            let (st, t) = status_next(Status::State, version, reply);
            let id = remembered(reply.text()).0;
            &&& t.effects.len() == 1
            &&& id.len() > 0 ==> st is Last && t.effects[0] == EffectView::Print("server_id: "@ + id)
                && t.ask == AskView::Read("/var/lib/vpnyellod/last.json"@)
            &&& id.len() == 0 ==> st is Systemd && t.effects[0] == EffectView::Print(
                "state    : not registered (run `sudo vpnyellod on`)"@,
            )
        }),
        ({
            let (st, t) = status_next(Status::Last, version, reply);
            &&& st is Systemd
            &&& reply.text() is None ==> t.effects.len() == 0
            &&& reply.text() matches Some(l) ==> t.effects == seq![
                EffectView::Print("last sync: "@ + l),
            ]
        }),
        ({
            let (st, t) = status_next(Status::Systemd, version, reply);
            &&& t.effects.len() == 0
            &&& reply.yes() ==> st is Active && t.ask == AskView::Output(
                seq!["systemctl"@, "is-active"@, "vpnyellod.service"@],
            )
            &&& !reply.yes() ==> st is Pid && t.ask == AskView::Read("/run/vpnyellod.pid"@)
        }),
        ({
            let (st, t) = status_next(Status::Active, version, reply);
            &&& st is Over && t.ask == AskView::Exit(0)
            &&& reply.output() matches Some(s) ==> t.effects == seq![
                EffectView::Print("daemon   : systemd "@ + s),
            ]
            &&& reply.output() is None ==> t.effects == seq![
                EffectView::Print("daemon   : systemd "@ + seq![]),
            ]
        }),
        ({
            let (st, t) = status_next(Status::Pid, version, reply);
            &&& st is Over && t.ask == AskView::Exit(0)
            &&& reply.text() is Some ==> t.effects == seq![
                EffectView::Print("daemon   : background pidfile present"@),
            ]
            &&& reply.text() is None ==> t.effects == seq![
                EffectView::Print("daemon   : not running"@),
            ]
        }),
{
}

// ---------------------------------------------------------------- switching on

/// Switching on uses the settings with the options of the command line, and goes on only after
/// each of the four tools that it needs was found, in turn.
pub proof fn law_on_looks_for_tools(
    cfg: CfgView,
    i: usize,
    args: Words,
    version: Text,
    reply: Reply,
)
    requires
        i < 4,
    ensures
        on_next(On::Load, args, version, reply).0 == (OnView::Tool(
            overridden(reply.cfg(), args),
            0,
        )),
        on_next(On::Load, args, version, reply).1.ask == AskView::Output(
            seq!["sh"@, "-c"@, "command -v "@ + "wg"@],
        ),
        ({
            let (st, t) = on_next(On::Tool(cfg, i), args, version, reply);
            &&& reply.output() is None ==> st is Over && t.ask == AskView::Exit(1)
            &&& reply.output() is Some ==> t.effects.len() == 0
            &&& reply.output() is Some && i < 3 ==> st == OnView::Tool(
                cfg,
                (i + 1) as usize,
            )
            &&& reply.output() is Some && i == 0 ==> t.ask == AskView::Output(
                seq!["sh"@, "-c"@, "command -v "@ + "wg-quick"@],
            )
            &&& reply.output() is Some && i == 1 ==> t.ask == AskView::Output(
                seq!["sh"@, "-c"@, "command -v "@ + "ip"@],
            )
            &&& reply.output() is Some && i == 2 ==> t.ask == AskView::Output(
                seq!["sh"@, "-c"@, "command -v "@ + "curl"@],
            )
            &&& reply.output() is Some && i == 3 ==> st == OnView::Survey(cfg) && t.ask
                == AskView::Survey
        }),
{
}

/// What switching on says where it cannot go on, and that it ends with exit code one.
pub proof fn law_on_complains(
    cfg: CfgView,
    i: usize,
    args: Words,
    version: Text,
    reply: Reply,
)
    requires
        i < 4,
    ensures
        !reply.says_root() ==> on_next(On::Root, args, version, reply).1 == (TurnView {
            effects: seq![EffectView::Complain("error: run as root: sudo vpnyellod on"@)],
            ask: AskView::Exit(1),
        }),
        reply.output() is None ==> on_next(On::Tool(cfg, i), args, version, reply).1 == (TurnView {
            effects: seq![
                EffectView::Complain(
                    "error: missing `"@ + seq!["wg"@, "wg-quick"@, "ip"@, "curl"@][i as int]
                        + "` — install it first (or use install.sh which handles debian/fedora/arch/gentoo)"@,
                ),
            ],
            ask: AskView::Exit(1),
        }),
        reply.detected().0 is None && reply.detected().1 is None ==> on_next(
            On::Survey(cfg),
            args,
            version,
            reply,
        ).1 == (TurnView {
            effects: seq![
                EffectView::Print("[vpnyellod] detected: "@ + "ipv4="@ + "-"@ + " ipv6="@ + "-"@),
                EffectView::Complain(
                    "error: no global IPv4 or IPv6 found — connect to the internet first"@,
                ),
            ],
            ask: AskView::Exit(1),
        }),
{
    let none = Seq::<EffectView>::empty();
    let a = EffectView::Complain("error: run as root: sudo vpnyellod on"@);
    assert(none.push(a) =~= seq![a]);
    let b = EffectView::Complain(
        "error: missing `"@ + seq!["wg"@, "wg-quick"@, "ip"@, "curl"@][i as int]
            + "` — install it first (or use install.sh which handles debian/fedora/arch/gentoo)"@,
    );
    assert(none.push(b) =~= seq![b]);
    let c = EffectView::Print("[vpnyellod] detected: "@ + "ipv4="@ + "-"@ + " ipv6="@ + "-"@);
    let d = EffectView::Complain(
        "error: no global IPv4 or IPv6 found — connect to the internet first"@,
    );
    assert(none.push(c).push(d) =~= seq![c, d]);
}

/// The key that was found or made is handed to `wg` for its public key, and that is shown and
/// used from then on, with the key and the addresses that were found.
pub proof fn law_key_is_used(
    cfg: CfgView,
    v4: Option<Text>,
    v6: Option<Text>,
    key: Text,
    m: Keys<Text>,
    args: Words,
    version: Text,
    reply: Reply,
)
    ensures
        match keys_next(m, cfg.key_path, reply, Seq::empty()) {
            Next::Ask(m2, t) => on_next(On::Keys(cfg, v4, v6, m), args, version, reply) == (
                OnView::Keys(cfg, v4, v6, m2),
                t,
            ),
            Next::Done(e, Ok(k)) => on_next(On::Keys(cfg, v4, v6, m), args, version, reply) == (
                OnView::Pubkey(cfg, v4, v6, k),
                TurnView { effects: e, ask: AskView::Filter(seq!["wg"@, "pubkey"@], k) },
            ),
            Next::Done(e, Err(x)) => on_next(On::Keys(cfg, v4, v6, m), args, version, reply) == (
                OnView::Over,
                TurnView {
                    effects: e + seq![EffectView::Complain("error: "@ + x)],
                    ask: AskView::Exit(1),
                },
            ),
        },
        match public_key(reply) {
            Ok(p) => on_next(On::Pubkey(cfg, v4, v6, key), args, version, reply) == (
                OnView::Conf(cfg, v4, v6, key, p, WriteConf::Route4),
                TurnView {
                    effects: seq![EffectView::Print("[vpnyellod] server pubkey: "@ + p)],
                    ask: AskView::Output(seq!["ip"@, "route"@, "get"@, "8.8.8.8"@]),
                },
            ),
            Err(x) => on_next(On::Pubkey(cfg, v4, v6, key), args, version, reply) == (
                OnView::Over,
                TurnView {
                    effects: seq![EffectView::Complain("error: "@ + x)],
                    ask: AskView::Exit(1),
                },
            ),
        },
{
    let none = Seq::<EffectView>::empty();
    if let Next::Done(e, Err(x)) = keys_next(m, cfg.key_path, reply, Seq::empty()) {
        let said = EffectView::Complain("error: "@ + x);
        assert(e.push(said) =~= e + seq![said]);
    }
    match public_key(reply) {
        Ok(p) => {
            let said = EffectView::Print("[vpnyellod] server pubkey: "@ + p);
            assert(none.push(said) =~= seq![said]);
        },
        Err(x) => {
            let said = EffectView::Complain("error: "@ + x);
            assert(none.push(said) =~= seq![said]);
        },
    }
}

/// Writing the configuration goes on with what was found, and after it the interface is brought
/// up at once; an error ends it with exit code one.
pub proof fn law_interface_follows_configuration(
    cfg: CfgView,
    v4: Option<Text>,
    v6: Option<Text>,
    key: Text,
    pubkey: Text,
    m: WriteConf<Text>,
    args: Words,
    version: Text,
    reply: Reply,
)
    ensures
        match write_conf_next(m, cfg, key, reply, Seq::empty()) {
            Next::Ask(m2, t) => on_next(
                On::Conf(cfg, v4, v6, key, pubkey, m),
                args,
                version,
                reply,
            ) == (OnView::Conf(cfg, v4, v6, key, pubkey, m2), t),
            Next::Done(e, Ok(_)) => {
                let (st, t) = on_next(
                    On::Conf(cfg, v4, v6, key, pubkey, m),
                    args,
                    version,
                    reply,
                );
                &&& st == OnView::Up(cfg, v4, v6, pubkey, BringUp::Check)
                &&& t.ask == AskView::Run(seq!["ip"@, "link"@, "show"@, "dev"@, cfg.iface])
            },
            Next::Done(e, Err(x)) => on_next(
                On::Conf(cfg, v4, v6, key, pubkey, m),
                args,
                version,
                reply,
            ) == (
                OnView::Over,
                TurnView {
                    effects: e + seq![EffectView::Complain("error: "@ + x)],
                    ask: AskView::Exit(1),
                },
            ),
        },
{
    if let Next::Done(e, Err(x)) = write_conf_next(m, cfg, key, reply, Seq::empty()) {
        let said = EffectView::Complain("error: "@ + x);
        assert(e.push(said) =~= e + seq![said]);
    }
}

/// Once the interface is up, the server registers: the name, the key, each address (empty where
/// there is none), the port and the version are read back from what it posts.
pub proof fn law_registration_reports(
    cfg: CfgView,
    v4: Option<Text>,
    v6: Option<Text>,
    pubkey: Text,
    args: Words,
    version: Text,
    reply: Reply,
)
    requires
        reply.yes(),
        unquoted(cfg.name),
        unquoted(pubkey),
        plain_option(v4),
        plain_option(v6),
        unquoted(version),
        cfg.port <= u64::MAX,
        cfg.name != "port"@,
        pubkey != "port"@,
        v4 != Some("port"@),
        v6 != Some("port"@),
    ensures
        ({
            let (st, t) = on_next(
                On::Up(cfg, v4, v6, pubkey, BringUp::Raise),
                args,
                version,
                reply,
            );
            &&& st == OnView::Register(cfg)
            &&& t.ask matches AskView::Feed(command, body) && {
                &&& command == post_command(register_url(cfg.registry))
                &&& string_field(body, "name"@) == Some(cfg.name)
                &&& string_field(body, "pubkey"@) == Some(pubkey)
                &&& string_field(body, "ipv4"@) == Some(
                    match v4 {
                        Some(a) => a,
                        None => seq![],
                    },
                )
                &&& string_field(body, "ipv6"@) == Some(
                    match v6 {
                        Some(a) => a,
                        None => seq![],
                    },
                )
                &&& number_field(body, "port"@) == Some(cfg.port)
                &&& string_field(body, "version"@) == Some("vpnyellod "@ + version)
            }
        }),
        ({
            let a = on_next(On::Up(cfg, v4, v6, pubkey, BringUp::Raise), args, version, reply).1;
            let b = on_next(On::Up(cfg, v4, v6, pubkey, BringUp::Check), args, version, reply).1;
            a.ask == b.ask
        }),
{
    law_registration_is_read(cfg.name, pubkey, v4, v6, cfg.port, version);
}

/// While switching on brings the interface up it goes the way of bringing up; where that fails it
/// ends with exit code one, and where it works the port is told.
pub proof fn law_on_brings_up(
    cfg: CfgView,
    v4: Option<Text>,
    v6: Option<Text>,
    pubkey: Text,
    m: BringUp,
    args: Words,
    version: Text,
    reply: Reply,
)
    ensures
        match bring_up_next(m, cfg, reply, Seq::empty()) {
            Next::Ask(m2, t) => on_next(On::Up(cfg, v4, v6, pubkey, m), args, version, reply) == (
                OnView::Up(cfg, v4, v6, pubkey, m2),
                t,
            ),
            Next::Done(e, Ok(_)) => on_next(
                On::Up(cfg, v4, v6, pubkey, m),
                args,
                version,
                reply,
            ).1.effects == e + seq![
                EffectView::Print("[vpnyellod] "@ + cfg.iface + " up on port "@ + decimal(cfg.port)),
            ],
            Next::Done(e, Err(x)) => on_next(On::Up(cfg, v4, v6, pubkey, m), args, version, reply)
                == (
                OnView::Over,
                TurnView {
                    effects: e + seq![EffectView::Complain("error: "@ + x)],
                    ask: AskView::Exit(1),
                },
            ),
        },
{
    let told = EffectView::Print("[vpnyellod] "@ + cfg.iface + " up on port "@ + decimal(cfg.port));
    match bring_up_next(m, cfg, reply, Seq::empty()) {
        Next::Ask(_, _) => {},
        Next::Done(e, Ok(_)) => {
            assert(e.push(told) =~= e + seq![told]);
        },
        Next::Done(e, Err(x)) => {
            let said = EffectView::Complain("error: "@ + x);
            assert(e.push(said) =~= e + seq![said]);
        },
    }
}

/// The number and the secret that the registry grants are saved; an answer without a number, or
/// none at all, ends it with exit code one and saves nothing.
pub proof fn law_grant_is_saved(cfg: CfgView, reply: Reply)
    ensures
        match posted(register_url(cfg.registry), reply) {
            Ok(resp) => match string_field(resp, "server_id"@) {
                Some(id) => {
                    let secret = match string_field(resp, "secret"@) {
                        Some(s) => s,
                        None => seq![],
                    };
                    let (st, t) = registered(cfg, reply);
                    &&& st == OnView::Systemd(cfg)
                    &&& t.effects.len() == 3
                    &&& t.effects[0] == EffectView::MakeDir("/etc/vpnyellod"@)
                    &&& t.effects[1] == EffectView::Write(
                        "/etc/vpnyellod/state.env"@,
                        state_text(id, secret),
                    )
                    &&& t.effects[2] == EffectView::Print(
                        "[vpnyellod] registered as \""@ + cfg.name + "\" → "@ + cfg.registry
                            + "/ (id "@ + id + ")"@,
                    )
                    &&& t.ask == AskView::Exist(
                        seq!["/run/systemd/system"@, "/etc/systemd/system/vpnyellod.service"@],
                    )
                },
                None => ended_badly(registered(cfg, reply)),
            },
            Err(e) => ended_badly(registered(cfg, reply)),
        },
{
}

/// Switching on has ended with exit code one, and has done nothing but complain.
pub open spec fn ended_badly(r: (OnView, TurnView)) -> bool {
    &&& r.0 is Over
    &&& r.1.ask == AskView::Exit(1)
    &&& r.1.effects.len() == 1
    &&& r.1.effects[0] is Complain
}

/// The daemon is started by the service manager where that is there, and otherwise in the
/// background, as the program that is running or else as the one that is installed. Either way
/// switching on ends well.
pub proof fn law_daemon_is_started(cfg: CfgView, args: Words, version: Text, reply: Reply)
    ensures
        ({
            let (st, t) = on_next(OnView::Systemd(cfg), args, version, reply);
            &&& reply.yes() ==> {
                &&& st == OnView::Unit(cfg)
                &&& t.effects == seq![EffectView::Run(seq!["systemctl"@, "daemon-reload"@])]
                &&& t.ask == AskView::Run(
                    seq!["systemctl"@, "enable"@, "--now"@, "vpnyellod.service"@],
                )
            }
            &&& !reply.yes() ==> {
                &&& st == OnView::Program(cfg)
                &&& t.effects.len() == 0
                &&& t.ask == AskView::Program
            }
        }),
        ({
            let (st, t) = on_next(OnView::Unit(cfg), args, version, reply);
            &&& st is Over && t.ask == AskView::Exit(0)
            &&& t.effects.len() == 2
            &&& t.effects[0] is Print <==> reply.yes()
            &&& t.effects[0] is Complain <==> !reply.yes()
            &&& t.effects[1] == EffectView::Print(
                "[vpnyellod] ON — clients can now fetch a .conf for \""@ + cfg.name
                    + "\" from the website"@,
            )
        }),
        ({
            let (st, t) = on_next(OnView::Program(cfg), args, version, reply);
            let program = match reply.text() {
                Some(p) => p,
                None => "/usr/local/bin/vpnyellod"@,
            };
            &&& st is Over && t.ask == AskView::Exit(0)
            &&& t.effects.len() == 3
            &&& t.effects[0] == EffectView::Run(
                seq![
                    "sh"@,
                    "-c"@,
                    "setsid nohup "@ + program
                        + " daemon >/var/log/vpnyellod.log 2>&1 < /dev/null & echo $! > /run/vpnyellod.pid"@,
                ],
            )
            &&& t.effects[1] is Print
            &&& t.effects[2] == EffectView::Print(
                "[vpnyellod] ON — clients can now fetch a .conf for \""@ + cfg.name
                    + "\" from the website"@,
            )
        }),
{
    let a = on_next(OnView::Systemd(cfg), args, version, reply).1.effects;
    if reply.yes() {
        assert(a =~= seq![EffectView::Run(seq!["systemctl"@, "daemon-reload"@])]);
    }
}

// ---------------------------------------------------------------- the agent

/// The command line decides the job: the words after `on` are its options, `uninstall` is
/// switching off for good, and without a word, or with another one, the usage is shown.
pub proof fn law_first_job(program: Text, word: Text, more: Words)
    ensures
        first_job(Seq::empty()) == JobView::Usage,
        first_job(seq![program]) == JobView::Usage,
        word == "on"@ ==> first_job(seq![program, word] + more) == JobView::On(On::Start, more),
        word == "off"@ ==> first_job(seq![program, word] + more) == JobView::Off(Off::Start, false),
        word == "uninstall"@ ==> first_job(seq![program, word] + more) == JobView::Off(
            Off::Start,
            true,
        ),
        word == "status"@ ==> first_job(seq![program, word] + more) == JobView::Status(
            Status::Start,
        ),
        word == "daemon"@ ==> first_job(seq![program, word] + more) == JobView::Daemon(
            Daemon::Start,
        ),
        word == "version"@ || word == "--version"@ ==> first_job(seq![program, word] + more)
            == JobView::Version,
        word != "on"@ && word != "off"@ && word != "uninstall"@ && word != "status"@ && word
            != "daemon"@ && word != "version"@ && word != "--version"@ ==> first_job(
            seq![program, word] + more,
        ) == JobView::Usage,
{
    let all = seq![program, word] + more;
    assert(all[1] == word);
    assert(all.skip(2) =~= more);
    law_commands(word);
}

/// The superuser goes on: the settings are read next. A job that is over ends well where it is
/// asked again, and the daemon's heartbeats go on from one reply to the next.
pub proof fn law_superuser_goes_on(
    cfg: CfgView,
    id: Text,
    secret: Text,
    y: SyncView,
    args: Words,
    version: Text,
    purge: bool,
    reply: Reply,
)
    ensures
        ({
            let settings = TurnView { effects: Seq::empty(), ask: AskView::Settings };
            let over = TurnView { effects: Seq::empty(), ask: AskView::Exit(0) };
            &&& reply.says_root() ==> on_next(On::Root, args, version, reply) == (
                OnView::Load,
                settings,
            )
            &&& reply.says_root() ==> off_next(Off::Root, purge, reply) == (OffView::Load, settings)
            &&& reply.says_root() ==> daemon_next(Daemon::Root, reply) == (
                DaemonView::Load,
                settings,
            )
            &&& status_next(Status::Start, version, reply) == (StatusView::Load, settings)
            &&& on_next(On::Over, args, version, reply) == (OnView::Over, over)
            &&& off_next(Off::Over, purge, reply) == (OffView::Over, over)
            &&& daemon_next(Daemon::Over, reply) == (DaemonView::Over, over)
            &&& status_next(Status::Over, version, reply) == (StatusView::Over, over)
        }),
        daemon_next(Daemon::Beat(cfg, id, secret, y), reply) == beat(
            cfg,
            id,
            secret,
            y,
            reply,
            Seq::empty(),
        ),
        on_next(On::Register(cfg), args, version, reply) == registered(cfg, reply),
{
}

/// The version is printed and ends well; the usage is complained about and ends with exit code
/// two. Every other job goes its own way and keeps its options.
pub proof fn law_jobs(job: JobView, version: Text, reply: Reply)
    ensures
        job is Version ==> job_next(job, version, reply).1.effects == seq![
            EffectView::Print("vpnyellod "@ + version),
        ] && job_next(job, version, reply).1.ask == AskView::Exit(0),
        job is Usage ==> job_next(job, version, reply).1.effects.len() == 5 && job_next(
            job,
            version,
            reply,
        ).1.ask == AskView::Exit(2),
        job is Usage ==> forall|i: int|
            0 <= i < 5 ==> (#[trigger] job_next(job, version, reply).1.effects[i]) is Complain,
        job matches JobView::On(st, args) ==> job_next(job, version, reply) == (
            JobView::On(on_next(st, args, version, reply).0, args),
            on_next(st, args, version, reply).1,
        ),
        job matches JobView::Off(st, purge) ==> job_next(job, version, reply) == (
            JobView::Off(off_next(st, purge, reply).0, purge),
            off_next(st, purge, reply).1,
        ),
        job matches JobView::Status(st) ==> job_next(job, version, reply) == (
            JobView::Status(status_next(st, version, reply).0),
            status_next(st, version, reply).1,
        ),
        job matches JobView::Daemon(st) ==> job_next(job, version, reply) == (
            JobView::Daemon(daemon_next(st, reply).0),
            daemon_next(st, reply).1,
        ),
{
}

/// The usage names every command.
pub proof fn law_usage(version: Text, reply: Reply)
    ensures
        job_next(JobView::Usage, version, reply).1.effects == seq![
            EffectView::Complain("vpnyellod "@ + version + " — YellowD VPN server agent"@),
            EffectView::Complain("  sudo vpnyellod on [--name NAME] [--registry URL]"@),
            EffectView::Complain("  sudo vpnyellod off"@),
            EffectView::Complain("  vpnyellod status"@),
            EffectView::Complain("  sudo vpnyellod uninstall"@),
        ],
{
    assert(job_next(JobView::Usage, version, reply).1.effects =~= seq![
        EffectView::Complain("vpnyellod "@ + version + " — YellowD VPN server agent"@),
        EffectView::Complain("  sudo vpnyellod on [--name NAME] [--registry URL]"@),
        EffectView::Complain("  sudo vpnyellod off"@),
        EffectView::Complain("  vpnyellod status"@),
        EffectView::Complain("  sudo vpnyellod uninstall"@),
    ]);
}

} // verus!
