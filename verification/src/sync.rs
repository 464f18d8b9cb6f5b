//! One heartbeat: the registry learns the server's addresses and says which peers it wants, and
//! the tunnel is brought in step.

use crate::config::{Cfg, CfgView};
use crate::peers::{applied_peers, apply_next, apply_peer, fresh_peers, keys_to_remove};
use crate::peers::{peers_to_apply, remove_next, remove_peer, shown_peers, stale_keys, Applied};
use crate::peers::{unset_words, Apply, Remove};
use crate::registry::{curl_command, curl_post, heartbeat_body, heartbeat_body_of, heartbeat_note};
use crate::registry::{heartbeat_url, heartbeat_url_of, post_command, posted, record_heartbeat};
use crate::registry::{suggested_poll, take_poll};
use crate::reply::{listed_peers, parse_peers, peer_views, PeerView, WantedPeer};
use crate::system::{last_file, last_path};
use crate::text::{byte_prefix, cut_bytes, view_of, views};
use crate::tunnel::{bring_up, bring_up_next, ensure_addrs, iface_exists, iface_words, with_addrs};
use crate::tunnel::{BringUp, Next};
use crate::world::{argv4, turn, words4, Ask, Effect, EffectView, Effects, Reply, Text, Turn};
use crate::world::{TurnView, Words};
use vstd::prelude::*;

verus! {

/// Stages of a heartbeat.
pub enum SyncStage<S> {
    /// Nothing was asked yet.
    Start,
    /// Asked for the box's addresses.
    Survey,
    /// Sent the heartbeat.
    Beat,
    /// Asked whether the interface exists.
    Iface,
    /// Bringing the interface up.
    Up(BringUp),
    /// Asked for the peers of the interface.
    Peers,
    /// Adding a peer.
    Apply(Apply<S>),
    /// Taking a peer out.
    Remove(Remove),
    /// Asked for the peers of the interface once more.
    Count,
    /// Asked for the time.
    Clock,
}

/// A heartbeat under way.
pub struct Sync {
    pub stage: SyncStage<String>,
    /// The peers that the registry wants.
    pub wanted: Vec<WantedPeer>,
    /// The peers to add.
    pub fresh: Vec<WantedPeer>,
    /// The keys of the peers to take out.
    pub stale: Vec<String>,
    /// Which of them is under way.
    pub at: usize,
    /// How many peers were added.
    pub count: usize,
    /// How many peers the interface has in the end.
    pub total: usize,
    /// The pace that the registry suggested last, as text.
    pub poll: Option<String>,
}

/// A heartbeat under way, with its texts as characters.
pub struct SyncView {
    pub stage: SyncStage<Text>,
    pub wanted: Seq<PeerView>,
    pub fresh: Seq<PeerView>,
    pub stale: Words,
    pub at: nat,
    pub count: nat,
    pub total: nat,
    pub poll: Option<Text>,
}

impl View for SyncStage<String> {
    type V = SyncStage<Text>;

    open spec fn view(&self) -> SyncStage<Text> {
        match self {
            SyncStage::Start => SyncStage::Start,
            SyncStage::Survey => SyncStage::Survey,
            SyncStage::Beat => SyncStage::Beat,
            SyncStage::Iface => SyncStage::Iface,
            SyncStage::Up(m) => SyncStage::Up(*m),
            SyncStage::Peers => SyncStage::Peers,
            SyncStage::Apply(m) => SyncStage::Apply(m@),
            SyncStage::Remove(m) => SyncStage::Remove(*m),
            SyncStage::Count => SyncStage::Count,
            SyncStage::Clock => SyncStage::Clock,
        }
    }
}

impl View for Sync {
    type V = SyncView;

    open spec fn view(&self) -> SyncView {
        SyncView {
            stage: self.stage@,
            wanted: peer_views(self.wanted@),
            fresh: peer_views(self.fresh@),
            stale: views(self.stale@),
            at: self.at as nat,
            count: self.count as nat,
            total: self.total as nat,
            poll: view_of(self.poll),
        }
    }
}

impl SyncView {
    /// The peer under way is one of those to add or to take out, and no more peers were added
    /// than came before it.
    pub open spec fn wf(self) -> bool {
        &&& self.stage is Apply ==> self.at < self.fresh.len() && self.count <= self.at
        &&& self.stage is Remove ==> self.at < self.stale.len()
    }
}

/// A heartbeat about to start; `poll` is the pace that the registry suggested last.
pub open spec fn new_sync(poll: Option<Text>) -> SyncView {
    SyncView {
        stage: SyncStage::Start,
        wanted: seq![],
        fresh: seq![],
        stale: seq![],
        at: 0,
        count: 0,
        total: 0,
        poll,
    }
}

/// What came of a heartbeat.
pub enum Synced<S, N> {
    /// It went through, with this many peers added.
    Done(N),
    /// It did not, and why.
    Failed(S),
    /// A key was to be cut inside a character.
    Cut,
}

impl View for Synced<String, usize> {
    type V = Synced<Text, nat>;

    open spec fn view(&self) -> Synced<Text, nat> {
        match self {
            Synced::Done(n) => Synced::Done(*n as nat),
            Synced::Failed(e) => Synced::Failed(e@),
            Synced::Cut => Synced::Cut,
        }
    }
}

/// Where a heartbeat stands; at its end, the suggested pace and what came of it.
pub type SyncNext = Next<
    SyncView,
    TurnView,
    Seq<EffectView>,
    (Option<Text>, Synced<Text, nat>),
>;

/// The command that shows the peers of the interface.
pub open spec fn show_words(cfg: CfgView) -> Words {
    words4("wg"@, "show"@, cfg.iface, "peers"@)
}

/// Asking for the peers of the interface.
pub open spec fn ask_peers(st: SyncView, cfg: CfgView, effects: Seq<EffectView>) -> SyncNext {
    Next::Ask(
        SyncView { stage: SyncStage::Peers, ..st },
        turn(effects, Ask::Output(show_words(cfg))),
    )
}

/// Bringing the interface up, and then asking for its peers.
pub open spec fn raise(
    st: SyncView,
    m: BringUp,
    cfg: CfgView,
    reply: Reply,
    effects: Seq<EffectView>,
) -> SyncNext {
    match bring_up_next(m, cfg, reply, effects) {
        Next::Ask(m2, t) => Next::Ask(SyncView { stage: SyncStage::Up(m2), ..st }, t),
        Next::Done(e, Ok(_)) => ask_peers(st, cfg, with_addrs(e, cfg)),
        Next::Done(e, Err(x)) => Next::Done(e, (st.poll, Synced::Failed(x))),
    }
}

/// Taking out the stale peers from `st.at` on, and then counting.
pub open spec fn remove_from(st: SyncView, cfg: CfgView, effects: Seq<EffectView>) -> SyncNext {
    if st.at < st.stale.len() {
        let key = st.stale[st.at as int];
        match byte_prefix(key, 12) {
            Some(x) => {
                let said = effects.push(
                    Effect::Print("[vpnyellod] - stale peer "@ + x + "..."@),
                );
                Next::Ask(
                    SyncView { stage: SyncStage::Remove(Remove::Conf), ..st },
                    turn(
                        said.push(Effect::Run(unset_words(cfg, key))),
                        Ask::Read(cfg.conf_path),
                    ),
                )
            },
            None => Next::Done(effects, (st.poll, Synced::Cut)),
        }
    } else {
        Next::Ask(
            SyncView { stage: SyncStage::Count, ..st },
            turn(effects, Ask::Output(show_words(cfg))),
        )
    }
}

/// What is printed for a peer that was added.
pub open spec fn added_line(x: Text, p: PeerView) -> Text {
    "[vpnyellod] + peer "@ + x + " ("@ + p.ip4 + "/"@ + p.ip6 + ")"@
}

/// Adding the fresh peers from `st.at` on, the first of them from stage `m`, and then taking out
/// the stale ones.
pub open spec fn apply_from(
    st: SyncView,
    m: Apply<Text>,
    cfg: CfgView,
    reply: Reply,
    effects: Seq<EffectView>,
) -> SyncNext
    decreases st.fresh.len() - st.at,
{
    if st.at >= st.fresh.len() {
        remove_from(SyncView { at: 0, ..st }, cfg, effects)
    } else {
        let p = st.fresh[st.at as int];
        match apply_next(m, cfg, p, reply, effects) {
            Next::Ask(m2, t) => Next::Ask(SyncView { stage: SyncStage::Apply(m2), ..st }, t),
            Next::Done(e, Applied::Done) => match byte_prefix(p.client_pubkey, 12) {
                Some(x) => apply_from(
                    SyncView { at: st.at + 1, count: st.count + 1, ..st },
                    Apply::Start,
                    cfg,
                    reply,
                    e.push(Effect::Print(added_line(x, p))),
                ),
                None => Next::Done(e, (st.poll, Synced::Cut)),
            },
            Next::Done(e, Applied::Failed(x)) => apply_from(
                SyncView { at: st.at + 1, ..st },
                Apply::Start,
                cfg,
                reply,
                e.push(Effect::Complain("[vpnyellod] apply peer failed: "@ + x)),
            ),
            Next::Done(e, Applied::Cut) => Next::Done(e, (st.poll, Synced::Cut)),
        }
    }
}

/// What comes next does not depend on the stage before it.
proof fn lemma_apply_stage(
    st: SyncView,
    stage: SyncStage<Text>,
    m: Apply<Text>,
    cfg: CfgView,
    reply: Reply,
    effects: Seq<EffectView>,
)
    ensures
        apply_from(SyncView { stage, ..st }, m, cfg, reply, effects) == apply_from(
            st,
            m,
            cfg,
            reply,
            effects,
        ),
    decreases st.fresh.len() - st.at,
{
    if st.at < st.fresh.len() {
        let p = st.fresh[st.at as int];
        match apply_next(m, cfg, p, reply, effects) {
            Next::Ask(m2, t) => {},
            Next::Done(e, Applied::Done) => match byte_prefix(p.client_pubkey, 12) {
                Some(x) => {
                    lemma_apply_stage(
                        SyncView { at: st.at + 1, count: st.count + 1, ..st },
                        stage,
                        Apply::Start,
                        cfg,
                        reply,
                        e.push(Effect::Print(added_line(x, p))),
                    );
                },
                None => {},
            },
            Next::Done(e, Applied::Failed(x)) => {
                lemma_apply_stage(
                    SyncView { at: st.at + 1, ..st },
                    stage,
                    Apply::Start,
                    cfg,
                    reply,
                    e.push(Effect::Complain("[vpnyellod] apply peer failed: "@ + x)),
                );
            },
            Next::Done(e, Applied::Cut) => {},
        }
    }
}

/// One step of a heartbeat.
pub open spec fn sync_next(
    st: SyncView,
    cfg: CfgView,
    server_id: Text,
    secret: Text,
    reply: Reply,
    effects: Seq<EffectView>,
) -> SyncNext {
    let url = heartbeat_url(cfg.registry, server_id);
    match st.stage {
        SyncStage::Start => Next::Ask(
            SyncView { stage: SyncStage::Survey, ..st },
            turn(effects, Ask::Survey),
        ),
        SyncStage::Survey => {
            let (v4, v6) = reply.detected();
            Next::Ask(
                SyncView { stage: SyncStage::Beat, ..st },
                turn(
                    effects,
                    Ask::Feed(post_command(url), heartbeat_body(secret, v4, v6, cfg.port)),
                ),
            )
        },
        SyncStage::Beat => match posted(url, reply) {
            Ok(resp) => Next::Ask(
                SyncView {
                    stage: SyncStage::Iface,
                    wanted: listed_peers(resp),
                    poll: suggested_poll(resp, st.poll),
                    ..st
                },
                turn(effects, Ask::Run(iface_words(cfg))),
            ),
            Err(e) => Next::Done(effects, (st.poll, Synced::Failed(e))),
        },
        SyncStage::Iface => if reply.yes() {
            ask_peers(st, cfg, with_addrs(effects, cfg))
        } else {
            raise(st, BringUp::Start, cfg, reply, effects)
        },
        SyncStage::Up(m) => raise(st, m, cfg, reply, effects),
        SyncStage::Peers => {
            let applied = shown_peers(reply.output());
            apply_from(
                SyncView {
                    fresh: fresh_peers(st.wanted, applied),
                    stale: stale_keys(applied, st.wanted),
                    at: 0,
                    count: 0,
                    ..st
                },
                Apply::Start,
                cfg,
                reply,
                effects,
            )
        },
        SyncStage::Apply(m) => apply_from(st, m, cfg, reply, effects),
        SyncStage::Remove(m) => match remove_next(m, cfg, st.stale[st.at as int], reply, effects) {
            Next::Ask(m2, t) => Next::Ask(SyncView { stage: SyncStage::Remove(m2), ..st }, t),
            Next::Done(e, _) => remove_from(SyncView { at: st.at + 1, ..st }, cfg, e),
        },
        SyncStage::Count => Next::Ask(
            SyncView {
                stage: SyncStage::Clock,
                total: shown_peers(reply.output()).len(),
                ..st
            },
            turn(effects.push(Effect::MakeDir("/var/lib/vpnyellod"@)), Ask::Clock),
        ),
        SyncStage::Clock => Next::Done(
            effects.push(
                Effect::Write(
                    last_file(),
                    heartbeat_note(server_id, reply.seconds(), st.total),
                ),
            ),
            (st.poll, Synced::Done(st.count)),
        ),
    }
}

/// The result of a step, with its texts as characters.
pub open spec fn step_view(
    r: Next<Sync, Turn, Effects, (Option<String>, Synced<String, usize>)>,
) -> SyncNext {
    match r {
        Next::Ask(st, t) => Next::Ask(st@, t@),
        Next::Done(e, x) => Next::Done(e@, (view_of(x.0), x.1@)),
    }
}

/// A heartbeat that goes on is well formed.
pub open spec fn next_wf(n: SyncNext) -> bool {
    n matches Next::Ask(st, _) ==> st.wf()
}

impl Sync {
    /// A heartbeat about to start.
    pub fn new(poll: Option<String>) -> (r: Sync)
        ensures
            r@ == new_sync(view_of(poll)),
            r@.wf(),
    {
        let r = Sync {
            stage: SyncStage::Start,
            wanted: Vec::new(),
            fresh: Vec::new(),
            stale: Vec::new(),
            at: 0,
            count: 0,
            total: 0,
            poll,
        };
        assert(r@.wanted =~= seq![]);
        assert(r@.fresh =~= seq![]);
        assert(r@.stale =~= seq![]);
        r
    }

    fn show_peers(self, cfg: &Cfg, effects: Effects) -> (r: Next<
        Sync,
        Turn,
        Effects,
        (Option<String>, Synced<String, usize>),
    >)
        ensures
            step_view(r) == ask_peers(self@, cfg@, effects@),
            next_wf(step_view(r)),
    {
        let mut st = self;
        st.stage = SyncStage::Peers;
        Next::Ask(st, effects.ask(Ask::Output(argv4("wg", "show", cfg.iface.as_str(), "peers"))))
    }

    fn go_up(self, m: BringUp, cfg: &Cfg, reply: &Reply, effects: Effects) -> (r: Next<
        Sync,
        Turn,
        Effects,
        (Option<String>, Synced<String, usize>),
    >)
        ensures
            step_view(r) == raise(self@, m, cfg@, *reply, effects@),
            next_wf(step_view(r)),
    {
        match bring_up(m, cfg, reply, effects) {
            Next::Ask(m2, t) => {
                let mut st = self;
                st.stage = SyncStage::Up(m2);
                Next::Ask(st, t)
            },
            Next::Done(e, Ok(_)) => self.show_peers(cfg, ensure_addrs(cfg, e)),
            Next::Done(e, Err(x)) => Next::Done(e, (self.poll, Synced::Failed(x))),
        }
    }

    fn go_remove(self, cfg: &Cfg, effects: Effects) -> (r: Next<
        Sync,
        Turn,
        Effects,
        (Option<String>, Synced<String, usize>),
    >)
        ensures
            step_view(r) == remove_from(self@, cfg@, effects@),
            next_wf(step_view(r)),
    {
        let mut st = self;
        if st.at < st.stale.len() {
            assert(st@.stale[st.at as int] == st.stale[st.at as int]@);
            match cut_bytes(st.stale[st.at].as_str(), 12) {
                Some(x) => {
                    let said = effects.print(
                        "[vpnyellod] - stale peer ".to_owned().concat(x.as_str()).concat("..."),
                    );
                    match remove_peer(
                        Remove::Start,
                        cfg,
                        st.stale[st.at].as_str(),
                        &Reply::Nothing,
                        said,
                    ) {
                        Next::Ask(m, t) => {
                            st.stage = SyncStage::Remove(m);
                            Next::Ask(st, t)
                        },
                        Next::Done(e, _) => Next::Done(e, (st.poll, Synced::Cut)),
                    }
                },
                None => Next::Done(effects, (st.poll, Synced::Cut)),
            }
        } else {
            st.stage = SyncStage::Count;
            Next::Ask(
                st,
                effects.ask(Ask::Output(argv4("wg", "show", cfg.iface.as_str(), "peers"))),
            )
        }
    }

    fn go_apply(self, m: Apply<String>, cfg: &Cfg, reply: &Reply, effects: Effects) -> (r: Next<
        Sync,
        Turn,
        Effects,
        (Option<String>, Synced<String, usize>),
    >)
        requires
            self.count <= self.at,
        ensures
            step_view(r) == apply_from(self@, m@, cfg@, *reply, effects@),
            next_wf(step_view(r)),
    {
        let ghost goal = apply_from(self@, m@, cfg@, *reply, effects@);
        let mut st = self;
        let mut stage = m;
        let mut so_far = effects;
        while st.at < st.fresh.len()
            invariant
                st.count <= st.at,
                goal == apply_from(self@, m@, cfg@, *reply, effects@),
                goal == apply_from(st@, stage@, cfg@, *reply, so_far@),
            decreases st.fresh.len() - st.at,
        {
            let ghost p = st@.fresh[st.at as int];
            assert(p == st.fresh[st.at as int]@);
            match apply_peer(stage, cfg, &st.fresh[st.at], reply, so_far) {
                Next::Ask(m2, t) => {
                    st.stage = SyncStage::Apply(m2);
                    return Next::Ask(st, t);
                },
                Next::Done(e, Applied::Done) => {
                    match cut_bytes(st.fresh[st.at].client_pubkey.as_str(), 12) {
                        Some(x) => {
                            let line = "[vpnyellod] + peer ".to_owned().concat(x.as_str()).concat(
                                " (",
                            ).concat(st.fresh[st.at].ip4.as_str()).concat("/").concat(
                                st.fresh[st.at].ip6.as_str(),
                            ).concat(")");
                            so_far = e.print(line);
                            st.count += 1;
                        },
                        None => {
                            return Next::Done(e, (st.poll, Synced::Cut));
                        },
                    }
                },
                Next::Done(e, Applied::Failed(x)) => {
                    so_far =
                    e.complain(
                        "[vpnyellod] apply peer failed: ".to_owned().concat(x.as_str()),
                    );
                },
                Next::Done(e, Applied::Cut) => {
                    return Next::Done(e, (st.poll, Synced::Cut));
                },
            }
            stage = Apply::Start;
            st.at += 1;
        }
        st.at = 0;
        st.go_remove(cfg, so_far)
    }

    /// Takes the reply to the last question, and goes on to the next one or to the end.
    pub fn sync_once(
        self,
        cfg: &Cfg,
        server_id: &str,
        secret: &str,
        reply: &Reply,
        effects: Effects,
    ) -> (r: Next<Sync, Turn, Effects, (Option<String>, Synced<String, usize>)>)
        requires
            self@.wf(),
        ensures
            step_view(r) == sync_next(self@, cfg@, server_id@, secret@, *reply, effects@),
            next_wf(step_view(r)),
    {
        let mut st = self;
        let url = heartbeat_url_of(cfg.registry.as_str(), server_id);
        let stage = st.stage;
        st.stage = SyncStage::Start;
        match stage {
            SyncStage::Start => {
                st.stage = SyncStage::Survey;
                Next::Ask(st, effects.ask(Ask::Survey))
            },
            SyncStage::Survey => {
                let (v4, v6) = reply.get_detected();
                st.stage = SyncStage::Beat;
                let body = heartbeat_body_of(secret, &v4, &v6, cfg.port);
                Next::Ask(st, effects.ask(Ask::Feed(curl_command(url.as_str()), body)))
            },
            SyncStage::Beat => match curl_post(url.as_str(), reply) {
                Ok(resp) => {
                    st.poll = take_poll(resp.as_str(), st.poll);
                    st.wanted = parse_peers(resp.as_str());
                    st.stage = SyncStage::Iface;
                    Next::Ask(st, effects.ask(Ask::Run(iface_exists(cfg))))
                },
                Err(e) => Next::Done(effects, (st.poll, Synced::Failed(e))),
            },
            SyncStage::Iface => {
                if reply.is_yes() {
                    st.show_peers(cfg, ensure_addrs(cfg, effects))
                } else {
                    st.go_up(BringUp::Start, cfg, reply, effects)
                }
            },
            SyncStage::Up(m) => st.go_up(m, cfg, reply, effects),
            SyncStage::Peers => {
                let applied = applied_peers(&reply.get_output());
                st.fresh = peers_to_apply(&st.wanted, &applied);
                st.stale = keys_to_remove(&applied, &st.wanted);
                st.at = 0;
                st.count = 0;
                st.stage = SyncStage::Peers;
                st.go_apply(Apply::Start, cfg, reply, effects)
            },
            SyncStage::Apply(m) => {
                proof {
                    lemma_apply_stage(self@, SyncStage::Start, m@, cfg@, *reply, effects@);
                }
                st.go_apply(m, cfg, reply, effects)
            },
            SyncStage::Remove(m) => {
                assert(self@.stage is Remove);
                assert(st.at < st.stale.len());
                assert(st@.stale[st.at as int] == st.stale[st.at as int]@);
                match remove_peer(m, cfg, st.stale[st.at].as_str(), reply, effects) {
                    Next::Ask(m2, t) => {
                        st.stage = SyncStage::Remove(m2);
                        Next::Ask(st, t)
                    },
                    Next::Done(e, _) => {
                        st.at += 1;
                        st.go_remove(cfg, e)
                    },
                }
            },
            SyncStage::Count => {
                st.total = applied_peers(&reply.get_output()).len();
                st.stage = SyncStage::Clock;
                Next::Ask(
                    st,
                    effects.and(Effect::MakeDir("/var/lib/vpnyellod".to_owned())).ask(Ask::Clock),
                )
            },
            SyncStage::Clock => {
                let note = record_heartbeat(server_id, reply.get_seconds(), st.total);
                Next::Done(
                    effects.and(Effect::Write(last_path(), note)),
                    (st.poll, Synced::Done(st.count)),
                )
            },
        }
    }
}

} // verus!
