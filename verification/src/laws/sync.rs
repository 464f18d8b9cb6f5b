//! What a heartbeat does over its whole course, whatever it is told on the way.

use crate::conf::conf_without;
use crate::config::CfgView;
use crate::laws::peers::law_ascii_is_cut_anywhere;
use crate::peers::{fresh_peers, psk_path, shown_peers, stale_keys, unset_words, Applied, Apply};
use crate::peers::{apply_next, remove_next, set_words, Remove};
use crate::reply::PeerView;
use crate::sync::{added_line, apply_from, new_sync, remove_from, sync_next, SyncNext, SyncStage};
use crate::sync::{SyncView, Synced};
use crate::text::{byte_len, byte_prefix};
use crate::tunnel::{iface_words, replace_words, Next};
use crate::world::{turn, words3, Ask, Effect, EffectView, Reply, Text, Words};
use vstd::prelude::*;

verus! {

/// A heartbeat's configuration, and the id and secret of the server.
pub struct Who {
    pub cfg: CfgView,
    pub id: Text,
    pub secret: Text,
}

/// Where a heartbeat stands after these replies, the first of which starts it.
pub open spec fn sync_after(who: Who, poll: Option<Text>, replies: Seq<Reply>) -> SyncNext
    decreases replies.len(),
{
    if replies.len() == 0 {
        Next::Ask(new_sync(poll), turn(Seq::empty(), Ask::Survey))
    } else {
        match sync_after(who, poll, replies.drop_last()) {
            Next::Ask(st, _) => sync_next(
                st,
                who.cfg,
                who.id,
                who.secret,
                replies.last(),
                Seq::empty(),
            ),
            Next::Done(e, r) => Next::Done(e, r),
        }
    }
}

/// The effects of a step.
pub open spec fn effects_of(n: SyncNext) -> Seq<EffectView> {
    match n {
        Next::Ask(_, t) => t.effects,
        Next::Done(e, _) => e,
    }
}

/// The record of a peer is complete and its preshared key has the right length.
pub open spec fn is_complete(p: PeerView) -> bool {
    p.ip4.len() > 0 && p.ip6.len() > 0 && byte_len(p.preshared_b64) == 44
}

/// The step starts to add the peer: its preshared key goes to the file that `wg` reads.
pub open spec fn starts_adding(n: SyncNext, p: PeerView) -> bool {
    n matches Next::Ask(st, t) && psk_path(p.client_pubkey) matches Some(path) && st.stage
        == SyncStage::Apply(Apply::Store(path)) && st.at < st.fresh.len() && st.fresh[st.at as int]
        == p && t.ask == Ask::<Text, Words>::Store(path, p.preshared_b64)
}

/// The step hands the peer to `wg`.
pub open spec fn sets_peer(n: SyncNext, cfg: CfgView, p: PeerView) -> bool {
    n matches Next::Ask(st, t) && psk_path(p.client_pubkey) matches Some(path) && t.ask == Ask::<
        Text,
        Words,
    >::Run(set_words(cfg, p, path))
}

/// Some step up to these replies starts to add the peer.
pub open spec fn was_added(
    who: Who,
    poll: Option<Text>,
    replies: Seq<Reply>,
    p: PeerView,
) -> bool {
    exists|i: int|
        0 <= i <= replies.len() && #[trigger] starts_adding(
            sync_after(who, poll, replies.take(i)),
            p,
        )
}

/// The step takes the peer with this key out of the interface.
pub open spec fn takes_out(n: SyncNext, cfg: CfgView, key: Text) -> bool {
    effects_of(n).contains(Effect::Run(unset_words(cfg, key)))
}

/// Some step up to these replies takes the peer with this key out of the interface.
pub open spec fn was_taken_out(
    who: Who,
    poll: Option<Text>,
    replies: Seq<Reply>,
    key: Text,
) -> bool {
    exists|i: int|
        0 <= i <= replies.len() && #[trigger] takes_out(
            sync_after(who, poll, replies.take(i)),
            who.cfg,
            key,
        )
}

/// The peers to add and the keys to take out are those that the interface's peers, as they were
/// shown, call for.
pub open spec fn is_planned(
    who: Who,
    poll: Option<Text>,
    replies: Seq<Reply>,
    st: SyncView,
) -> bool {
    exists|i: int|
        0 <= i < replies.len() && #[trigger] plans(
            sync_after(who, poll, replies.take(i)),
            replies[i],
            st,
        )
}

/// At this step the interface's peers were asked for, and the reply calls for the plan in `st`.
pub open spec fn plans(n: SyncNext, reply: Reply, st: SyncView) -> bool {
    let applied = shown_peers(reply.output());
    n matches Next::Ask(at, _) && at.stage is Peers && at.wanted == st.wanted && st.fresh
        == fresh_peers(st.wanted, applied) && st.stale == stale_keys(applied, st.wanted)
}

// ---------------------------------------------------------------- one step

/// What a step from stage `m` of the peer at `st.at` comes to: the peers that it passes over are
/// not complete, and a peer that it turns to is one that it starts to add.
proof fn lemma_apply_from(
    st: SyncView,
    m: Apply<Text>,
    cfg: CfgView,
    reply: Reply,
    effects: Seq<EffectView>,
)
    ensures
        ({
            let n = apply_from(st, m, cfg, reply, effects);
            let from = if m is Start {
                st.at as int
            } else {
                st.at as int + 1
            };
            &&& n matches Next::Ask(s2, t) ==> {
                &&& s2.fresh == st.fresh
                &&& s2.stale == st.stale
                &&& s2.wanted == st.wanted
                &&& !(t.ask is Exit) && !(t.ask is Abort)
                &&& match s2.stage {
                    SyncStage::Apply(m2) => {
                        &&& st.at <= s2.at < st.fresh.len()
                        &&& !(m2 is Start)
                        &&& forall|j: int|
                            from <= j < s2.at ==> !is_complete(#[trigger] st.fresh[j])
                        &&& s2.at >= from ==> starts_adding(n, st.fresh[s2.at as int])
                    },
                    SyncStage::Remove(r) => {
                        &&& r is Conf
                        &&& s2.at == 0
                        &&& st.stale.len() > 0
                        &&& takes_out(n, cfg, st.stale[0])
                        &&& forall|j: int|
                            from <= j < st.fresh.len() ==> !is_complete(#[trigger] st.fresh[j])
                    },
                    SyncStage::Count => {
                        &&& st.stale.len() == 0
                        &&& forall|j: int|
                            from <= j < st.fresh.len() ==> !is_complete(#[trigger] st.fresh[j])
                    },
                    _ => false,
                }
            }
            &&& n matches Next::Done(_, r) ==> r.1 is Cut
        }),
    decreases st.fresh.len() - st.at,
{
    let n = apply_from(st, m, cfg, reply, effects);
    if st.at >= st.fresh.len() {
        lemma_remove_from(SyncView { at: 0, ..st }, cfg, effects);
    } else {
        let p = st.fresh[st.at as int];
        match apply_next(m, cfg, p, reply, effects) {
            Next::Ask(m2, t) => {
                if m is Start {
                    assert(starts_adding(n, p));
                }
            },
            Next::Done(e, Applied::Done) => match byte_prefix(p.client_pubkey, 12) {
                Some(x) => {
                    let s1 = SyncView { at: st.at + 1, count: st.count + 1, ..st };
                    lemma_apply_from(
                        s1,
                        Apply::Start,
                        cfg,
                        reply,
                        e.push(Effect::Print(added_line(x, p))),
                    );
                },
                None => {},
            },
            Next::Done(e, Applied::Failed(x)) => {
                let s1 = SyncView { at: st.at + 1, ..st };
                lemma_apply_from(
                    s1,
                    Apply::Start,
                    cfg,
                    reply,
                    e.push(Effect::Complain("[vpnyellod] apply peer failed: "@ + x)),
                );
                if m is Start {
                    assert(!is_complete(p));
                }
            },
            Next::Done(e, Applied::Cut) => {},
        }
    }
}

proof fn lemma_remove_from(st: SyncView, cfg: CfgView, effects: Seq<EffectView>)
    ensures
        ({
            let n = remove_from(st, cfg, effects);
            &&& n matches Next::Ask(s2, t) ==> {
                &&& s2.fresh == st.fresh
                &&& s2.stale == st.stale
                &&& s2.wanted == st.wanted
                &&& s2.at == st.at
                &&& !(t.ask is Exit) && !(t.ask is Abort)
                &&& if st.at < st.stale.len() {
                    s2.stage == SyncStage::<Text>::Remove(Remove::Conf) && takes_out(
                        n,
                        cfg,
                        st.stale[st.at as int],
                    )
                } else {
                    s2.stage is Count
                }
            }
            &&& n matches Next::Done(_, r) ==> r.1 is Cut
        }),
{
    let n = remove_from(st, cfg, effects);
    if st.at < st.stale.len() {
        let key = st.stale[st.at as int];
        if let Some(x) = byte_prefix(key, 12) {
            let e = effects_of(n);
            assert(e[e.len() - 1] == Effect::<Text, Words>::Run(unset_words(cfg, key)));
        }
    }
}

/// A heartbeat never asks to end the agent.
pub proof fn law_heartbeat_does_not_end(
    st: SyncView,
    who: Who,
    reply: Reply,
    effects: Seq<EffectView>,
)
    ensures
        sync_next(st, who.cfg, who.id, who.secret, reply, effects) matches Next::Ask(_, t) ==> !(
        t.ask is Exit) && !(t.ask is Abort),
{
    match st.stage {
        SyncStage::Peers => {
            let applied = shown_peers(reply.output());
            lemma_apply_from(
                SyncView {
                    fresh: fresh_peers(st.wanted, applied),
                    stale: stale_keys(applied, st.wanted),
                    at: 0,
                    count: 0,
                    ..st
                },
                Apply::Start,
                who.cfg,
                reply,
                effects,
            );
        },
        SyncStage::Apply(m) => {
            lemma_apply_from(st, m, who.cfg, reply, effects);
        },
        _ => {},
    }
}

// ---------------------------------------------------------------- the whole course

/// What holds at each stage of a heartbeat.
spec fn sync_inv(who: Who, poll: Option<Text>, replies: Seq<Reply>, st: SyncView) -> bool {
    match st.stage {
        SyncStage::Apply(m) => {
            &&& is_planned(who, poll, replies, st)
            &&& !(m is Start)
            &&& st.at < st.fresh.len()
            &&& forall|j: int|
                0 <= j <= st.at && is_complete(st.fresh[j]) ==> was_added(
                    who,
                    poll,
                    replies,
                    #[trigger] st.fresh[j],
                )
        },
        SyncStage::Remove(r) => {
            &&& is_planned(who, poll, replies, st)
            &&& all_added(who, poll, replies, st)
            &&& r is Conf
            &&& st.at < st.stale.len()
            &&& forall|j: int|
                0 <= j <= st.at ==> was_taken_out(who, poll, replies, #[trigger] st.stale[j])
        },
        SyncStage::Count => is_done(who, poll, replies, st),
        SyncStage::Clock => is_done(who, poll, replies, st),
        _ => true,
    }
}

/// Every complete peer of the plan was added.
pub open spec fn all_added(
    who: Who,
    poll: Option<Text>,
    replies: Seq<Reply>,
    st: SyncView,
) -> bool {
    forall|j: int|
        0 <= j < st.fresh.len() && is_complete(st.fresh[j]) ==> was_added(
            who,
            poll,
            replies,
            #[trigger] st.fresh[j],
        )
}

/// Every key of the plan was taken out.
pub open spec fn all_taken_out(
    who: Who,
    poll: Option<Text>,
    replies: Seq<Reply>,
    st: SyncView,
) -> bool {
    forall|j: int|
        0 <= j < st.stale.len() ==> was_taken_out(who, poll, replies, #[trigger] st.stale[j])
}

/// The plan is the one that the interface's peers called for, and all of it was seen to.
pub open spec fn is_done(
    who: Who,
    poll: Option<Text>,
    replies: Seq<Reply>,
    st: SyncView,
) -> bool {
    &&& is_planned(who, poll, replies, st)
    &&& all_added(who, poll, replies, st)
    &&& all_taken_out(who, poll, replies, st)
}

proof fn lemma_added_stays(who: Who, poll: Option<Text>, replies: Seq<Reply>, p: PeerView)
    requires
        replies.len() > 0,
        was_added(who, poll, replies.drop_last(), p),
    ensures
        was_added(who, poll, replies, p),
{
    let before = replies.drop_last();
    let i = choose|i: int|
        0 <= i <= before.len() && #[trigger] starts_adding(
            sync_after(who, poll, before.take(i)),
            p,
        );
    assert(before.take(i) =~= replies.take(i));
    assert(starts_adding(sync_after(who, poll, replies.take(i)), p));
}

proof fn lemma_taken_out_stays(who: Who, poll: Option<Text>, replies: Seq<Reply>, key: Text)
    requires
        replies.len() > 0,
        was_taken_out(who, poll, replies.drop_last(), key),
    ensures
        was_taken_out(who, poll, replies, key),
{
    let before = replies.drop_last();
    let i = choose|i: int|
        0 <= i <= before.len() && #[trigger] takes_out(
            sync_after(who, poll, before.take(i)),
            who.cfg,
            key,
        );
    assert(before.take(i) =~= replies.take(i));
    assert(takes_out(sync_after(who, poll, replies.take(i)), who.cfg, key));
}

proof fn lemma_plan_stays(
    who: Who,
    poll: Option<Text>,
    replies: Seq<Reply>,
    st: SyncView,
    s2: SyncView,
)
    requires
        replies.len() > 0,
        is_planned(who, poll, replies.drop_last(), st),
        s2.wanted == st.wanted,
        s2.fresh == st.fresh,
        s2.stale == st.stale,
    ensures
        is_planned(who, poll, replies, s2),
{
    let before = replies.drop_last();
    let i = choose|i: int|
        0 <= i < before.len() && #[trigger] plans(
            sync_after(who, poll, before.take(i)),
            before[i],
            st,
        );
    assert(before.take(i) =~= replies.take(i));
    assert(plans(sync_after(who, poll, replies.take(i)), replies[i], s2));
}

/// What a step of adding peers leaves: the complete peers up to where it stands were added.
proof fn lemma_after_apply(
    who: Who,
    poll: Option<Text>,
    replies: Seq<Reply>,
    st: SyncView,
    m: Apply<Text>,
    s2: SyncView,
)
    requires
        replies.len() > 0,
        sync_after(who, poll, replies) == apply_from(
            st,
            m,
            who.cfg,
            replies.last(),
            Seq::empty(),
        ),
        sync_after(who, poll, replies) matches Next::Ask(s, _) && s == s2,
        is_planned(who, poll, replies, s2),
        forall|j: int|
            0 <= j < st.fresh.len() && (j < st.at || (j == st.at && !(m is Start))) && is_complete(
                st.fresh[j],
            ) ==> was_added(who, poll, replies, #[trigger] st.fresh[j]),
    ensures
        sync_inv(who, poll, replies, s2),
{
    let n = sync_after(who, poll, replies);
    lemma_apply_from(st, m, who.cfg, replies.last(), Seq::empty());
    assert(replies.take(replies.len() as int) =~= replies);
    match s2.stage {
        SyncStage::Apply(m2) => {
            assert forall|j: int| 0 <= j <= s2.at && is_complete(s2.fresh[j]) implies was_added(
                who,
                poll,
                replies,
                #[trigger] s2.fresh[j],
            ) by {
                if j == s2.at && (m is Start || s2.at > st.at) {
                    assert(starts_adding(
                        sync_after(who, poll, replies.take(replies.len() as int)),
                        s2.fresh[j],
                    ));
                } else if j < st.at || (j == st.at && !(m is Start)) {
                    assert(was_added(who, poll, replies, st.fresh[j]));
                } else {
                    assert(!is_complete(st.fresh[j]));
                }
            }
        },
        SyncStage::Remove(_) => {
            assert(takes_out(
                sync_after(who, poll, replies.take(replies.len() as int)),
                who.cfg,
                s2.stale[0],
            ));
            assert forall|j: int|
                0 <= j < s2.fresh.len() && is_complete(s2.fresh[j]) implies was_added(
                who,
                poll,
                replies,
                #[trigger] s2.fresh[j],
            ) by {
                assert(j < st.at || (j == st.at && !(m is Start)) || !is_complete(st.fresh[j]));
            }
        },
        _ => {
            assert forall|j: int|
                0 <= j < s2.fresh.len() && is_complete(s2.fresh[j]) implies was_added(
                who,
                poll,
                replies,
                #[trigger] s2.fresh[j],
            ) by {
                assert(j < st.at || (j == st.at && !(m is Start)) || !is_complete(st.fresh[j]));
            }
        },
    }
}

/// What was seen to stays so.
proof fn lemma_all_added_stays(
    who: Who,
    poll: Option<Text>,
    replies: Seq<Reply>,
    st: SyncView,
    s2: SyncView,
)
    requires
        replies.len() > 0,
        all_added(who, poll, replies.drop_last(), st),
        s2.fresh == st.fresh,
    ensures
        all_added(who, poll, replies, s2),
{
    assert forall|j: int| 0 <= j < s2.fresh.len() && is_complete(s2.fresh[j]) implies was_added(
        who,
        poll,
        replies,
        #[trigger] s2.fresh[j],
    ) by {
        assert(was_added(who, poll, replies.drop_last(), st.fresh[j]));
        lemma_added_stays(who, poll, replies, st.fresh[j]);
    }
}

/// A step while peers are added.
proof fn lemma_sync_apply(
    who: Who,
    poll: Option<Text>,
    replies: Seq<Reply>,
    st: SyncView,
    m: Apply<Text>,
    s2: SyncView,
)
    requires
        replies.len() > 0,
        st.stage == SyncStage::Apply(m),
        sync_inv(who, poll, replies.drop_last(), st),
        sync_after(who, poll, replies) == apply_from(
            st,
            m,
            who.cfg,
            replies.last(),
            Seq::empty(),
        ),
        sync_after(who, poll, replies) matches Next::Ask(s, _) && s == s2,
    ensures
        sync_inv(who, poll, replies, s2),
{
    lemma_apply_from(st, m, who.cfg, replies.last(), Seq::empty());
    lemma_plan_stays(who, poll, replies, st, s2);
    assert forall|j: int|
        0 <= j < st.fresh.len() && (j < st.at || (j == st.at && !(m is Start))) && is_complete(
            st.fresh[j],
        ) implies was_added(who, poll, replies, #[trigger] st.fresh[j]) by {
        lemma_added_stays(who, poll, replies, st.fresh[j]);
    }
    lemma_after_apply(who, poll, replies, st, m, s2);
}

/// A step while peers are taken out.
proof fn lemma_sync_remove(
    who: Who,
    poll: Option<Text>,
    replies: Seq<Reply>,
    st: SyncView,
    e: Seq<EffectView>,
    s2: SyncView,
)
    requires
        replies.len() > 0,
        st.stage is Remove,
        sync_inv(who, poll, replies.drop_last(), st),
        sync_after(who, poll, replies) == remove_from(
            SyncView { at: st.at + 1, ..st },
            who.cfg,
            e,
        ),
        sync_after(who, poll, replies) matches Next::Ask(s, _) && s == s2,
    ensures
        sync_inv(who, poll, replies, s2),
{
    let s1 = SyncView { at: st.at + 1, ..st };
    lemma_remove_from(s1, who.cfg, e);
    lemma_plan_stays(who, poll, replies, st, s2);
    lemma_all_added_stays(who, poll, replies, st, s2);
    assert(replies.take(replies.len() as int) =~= replies);
    assert forall|j: int| 0 <= j < st.stale.len() && j <= s1.at implies was_taken_out(
        who,
        poll,
        replies,
        #[trigger] st.stale[j],
    ) by {
        if j <= st.at {
            lemma_taken_out_stays(who, poll, replies, st.stale[j]);
        } else {
            assert(takes_out(
                sync_after(who, poll, replies.take(replies.len() as int)),
                who.cfg,
                st.stale[j],
            ));
        }
    }
}

/// The step after the peers were counted.
proof fn lemma_sync_count(
    who: Who,
    poll: Option<Text>,
    replies: Seq<Reply>,
    st: SyncView,
    s2: SyncView,
)
    requires
        replies.len() > 0,
        is_done(who, poll, replies.drop_last(), st),
        s2.stage is Clock,
        s2.wanted == st.wanted,
        s2.fresh == st.fresh,
        s2.stale == st.stale,
    ensures
        sync_inv(who, poll, replies, s2),
{
    lemma_plan_stays(who, poll, replies, st, s2);
    lemma_all_added_stays(who, poll, replies, st, s2);
    assert forall|j: int| 0 <= j < s2.stale.len() implies was_taken_out(
        who,
        poll,
        replies,
        #[trigger] s2.stale[j],
    ) by {
        assert(was_taken_out(who, poll, replies.drop_last(), st.stale[j]));
        lemma_taken_out_stays(who, poll, replies, st.stale[j]);
    }
}

/// The step on which the plan is made.
proof fn lemma_sync_plan(
    who: Who,
    poll: Option<Text>,
    replies: Seq<Reply>,
    st: SyncView,
    s2: SyncView,
)
    requires
        replies.len() > 0,
        st.stage is Peers,
        sync_after(who, poll, replies.drop_last()) matches Next::Ask(s, _) && s == st,
        sync_after(who, poll, replies) matches Next::Ask(s, _) && s == s2,
    ensures
        sync_inv(who, poll, replies, s2),
{
    let reply = replies.last();
    let k = replies.len() - 1;
    let applied = shown_peers(reply.output());
    let planned = SyncView {
        fresh: fresh_peers(st.wanted, applied),
        stale: stale_keys(applied, st.wanted),
        at: 0,
        count: 0,
        ..st
    };
    assert(replies.take(k) =~= replies.drop_last());
    lemma_apply_from(planned, Apply::Start, who.cfg, reply, Seq::empty());
    assert(plans(sync_after(who, poll, replies.take(k)), replies[k], s2));
    lemma_after_apply(who, poll, replies, planned, Apply::Start, s2);
}

proof fn lemma_sync(who: Who, poll: Option<Text>, replies: Seq<Reply>)
    ensures
        sync_after(who, poll, replies) matches Next::Ask(st, _) ==> sync_inv(
            who,
            poll,
            replies,
            st,
        ),
    decreases replies.len(),
{
    if replies.len() > 0 && sync_after(who, poll, replies) is Ask {
        let before = replies.drop_last();
        let reply = replies.last();
        let s2 = sync_after(who, poll, replies)->Ask_0;
        lemma_sync(who, poll, before);
        assert(sync_after(who, poll, before) is Ask);
        let st = sync_after(who, poll, before)->Ask_0;
        match st.stage {
            SyncStage::Peers => {
                lemma_sync_plan(who, poll, replies, st, s2);
            },
            SyncStage::Apply(m) => {
                lemma_sync_apply(who, poll, replies, st, m, s2);
            },
            SyncStage::Remove(r) => {
                let e = match reply.text() {
                    Some(c) => Seq::<EffectView>::empty().push(
                        Effect::Write(
                            who.cfg.conf_path,
                            conf_without(c, st.stale[st.at as int]),
                        ),
                    ),
                    None => Seq::<EffectView>::empty(),
                };
                lemma_sync_remove(who, poll, replies, st, e, s2);
            },
            SyncStage::Count => {
                lemma_sync_count(who, poll, replies, st, s2);
            },
            _ => {},
        }
    }
}

/// By the time the peers are counted, a heartbeat has seen to the whole plan that the interface's
/// peers called for: for every wanted peer that was not there and whose record is complete, the
/// preshared key was put into the file that `wg` reads, and every peer that was there and is not
/// wanted was taken out.
pub proof fn law_heartbeat_does_all(
    who: Who,
    poll: Option<Text>,
    replies: Seq<Reply>,
    st: SyncView,
)
    requires
        sync_after(who, poll, replies) matches Next::Ask(s, _) && s == st && s.stage is Count,
    ensures
        is_planned(who, poll, replies, st),
        all_added(who, poll, replies, st),
        all_taken_out(who, poll, replies, st),
{
    lemma_sync(who, poll, replies);
}

/// A peer whose preshared key could be stored is handed to `wg` next.
pub proof fn law_started_peer_is_set(
    who: Who,
    poll: Option<Text>,
    replies: Seq<Reply>,
    p: PeerView,
)
    requires
        replies.len() > 0,
        starts_adding(sync_after(who, poll, replies.drop_last()), p),
        replies.last().done() is Ok,
    ensures
        sets_peer(sync_after(who, poll, replies), who.cfg, p),
{
}

// ---------------------------------------------------------------- nothing else

/// A command that sets the box or the interface up, and touches no peer.
pub open spec fn is_setup(a: Words, cfg: CfgView) -> bool {
    ||| a == words3("sysctl"@, "-w"@, "net.ipv4.ip_forward=1"@)
    ||| a == words3("sysctl"@, "-w"@, "net.ipv6.conf.all.forwarding=1"@)
    ||| a == replace_words(false, cfg)
    ||| a == replace_words(true, cfg)
}

/// A command that takes out the peer that is under way.
pub open spec fn is_removal(a: Words, cfg: CfgView, st: SyncView) -> bool {
    st.stage is Remove && st.at < st.stale.len() && a == unset_words(cfg, st.stale[st.at as int])
}

/// A command that sets the peer that is under way.
pub open spec fn is_addition(a: Words, cfg: CfgView, st: SyncView) -> bool {
    st.stage matches SyncStage::Apply(Apply::Install(path)) && st.at < st.fresh.len() && a
        == set_words(cfg, st.fresh[st.at as int], path)
}

/// The commands of a step are those that set up, and those that add or take out the peer that is
/// under way.
pub open spec fn does_no_more(n: SyncNext, cfg: CfgView) -> bool {
    match n {
        Next::Ask(st, t) => {
            &&& forall|i: int|
                0 <= i < t.effects.len() ==> ((#[trigger] t.effects[i]) matches Effect::Run(a)
                    ==> is_setup(a, cfg) || is_removal(a, cfg, st))
            &&& t.ask matches Ask::Run(a) ==> a == iface_words(cfg) || a == words3(
                "wg-quick"@,
                "up"@,
                cfg.iface,
            ) || is_addition(a, cfg, st)
        },
        Next::Done(e, _) => forall|i: int|
            0 <= i < e.len() ==> ((#[trigger] e[i]) matches Effect::Run(a) ==> is_setup(a, cfg)),
    }
}

/// The effects run no command.
spec fn runs_nothing(es: Seq<EffectView>) -> bool {
    forall|i: int| 0 <= i < es.len() ==> !((#[trigger] es[i]) is Run)
}

proof fn lemma_remove_no_more(st: SyncView, cfg: CfgView, effects: Seq<EffectView>)
    requires
        runs_nothing(effects),
    ensures
        does_no_more(remove_from(st, cfg, effects), cfg),
{
}

proof fn lemma_apply_no_more(
    st: SyncView,
    m: Apply<Text>,
    cfg: CfgView,
    reply: Reply,
    effects: Seq<EffectView>,
)
    requires
        runs_nothing(effects),
    ensures
        does_no_more(apply_from(st, m, cfg, reply, effects), cfg),
    decreases st.fresh.len() - st.at,
{
    if st.at >= st.fresh.len() {
        lemma_remove_no_more(SyncView { at: 0, ..st }, cfg, effects);
    } else {
        let p = st.fresh[st.at as int];
        match apply_next(m, cfg, p, reply, effects) {
            Next::Ask(m2, t) => {
                assert(runs_nothing(t.effects));
            },
            Next::Done(e, Applied::Done) => {
                assert(runs_nothing(e));
                if let Some(x) = byte_prefix(p.client_pubkey, 12) {
                    let said = e.push(Effect::Print(added_line(x, p)));
                    assert(runs_nothing(said));
                    lemma_apply_no_more(
                        SyncView { at: st.at + 1, count: st.count + 1, ..st },
                        Apply::Start,
                        cfg,
                        reply,
                        said,
                    );
                }
            },
            Next::Done(e, Applied::Failed(x)) => {
                assert(runs_nothing(e));
                let said = e.push(Effect::Complain("[vpnyellod] apply peer failed: "@ + x));
                assert(runs_nothing(said));
                lemma_apply_no_more(
                    SyncView { at: st.at + 1, ..st },
                    Apply::Start,
                    cfg,
                    reply,
                    said,
                );
            },
            Next::Done(e, Applied::Cut) => {
                assert(runs_nothing(e));
            },
        }
    }
}

proof fn lemma_step_no_more(st: SyncView, who: Who, reply: Reply)
    requires
        st.stage matches SyncStage::Remove(m) ==> m is Conf,
    ensures
        does_no_more(
            sync_next(st, who.cfg, who.id, who.secret, reply, Seq::empty()),
            who.cfg,
        ),
{
    let none = Seq::<EffectView>::empty();
    match st.stage {
        SyncStage::Peers => {
            let applied = shown_peers(reply.output());
            lemma_apply_no_more(
                SyncView {
                    fresh: fresh_peers(st.wanted, applied),
                    stale: stale_keys(applied, st.wanted),
                    at: 0,
                    count: 0,
                    ..st
                },
                Apply::Start,
                who.cfg,
                reply,
                none,
            );
        },
        SyncStage::Apply(m) => {
            lemma_apply_no_more(st, m, who.cfg, reply, none);
        },
        SyncStage::Remove(m) => {
            let e = match reply.text() {
                Some(c) => none.push(
                    Effect::Write(
                        who.cfg.conf_path,
                        conf_without(c, st.stale[st.at as int]),
                    ),
                ),
                None => none,
            };
            assert(runs_nothing(e));
            lemma_remove_no_more(SyncView { at: st.at + 1, ..st }, who.cfg, e);
        },
        _ => {},
    }
}

/// A heartbeat adds no peer but those that are wanted and were not there, and takes out none but
/// those that were there and are not wanted: the only other commands that it has the box run set
/// the box and the interface up.
pub proof fn law_heartbeat_does_no_more(who: Who, poll: Option<Text>, replies: Seq<Reply>)
    requires
        replies.len() > 0,
    ensures
        does_no_more(sync_after(who, poll, replies), who.cfg),
        sync_after(who, poll, replies) matches Next::Ask(st, _) ==> (st.stage is Apply
            || st.stage is Remove ==> is_planned(who, poll, replies, st)),
    decreases replies.len(),
{
    let before = replies.drop_last();
    lemma_sync(who, poll, replies);
    lemma_sync(who, poll, before);
    match sync_after(who, poll, before) {
        Next::Ask(st, _) => {
            lemma_step_no_more(st, who, replies.last());
        },
        Next::Done(_, _) => {
            assert(before.len() > 0);
            law_heartbeat_does_no_more(who, poll, before);
        },
    }
}

// ---------------------------------------------------------------- the count

/// The reply brings the peer at `st.at`, in stage `m`, to be added.
pub open spec fn ends_added(
    st: SyncView,
    m: Apply<Text>,
    cfg: CfgView,
    reply: Reply,
    effects: Seq<EffectView>,
) -> bool {
    st.at < st.fresh.len() && match apply_next(m, cfg, st.fresh[st.at as int], reply, effects) {
        Next::Done(_, Applied::Done) => true,
        _ => false,
    }
}

/// The reply brings the peer under way to be added.
pub open spec fn completes_peer(n: SyncNext, cfg: CfgView, reply: Reply) -> bool {
    match n {
        Next::Ask(st, _) => match st.stage {
            SyncStage::Apply(m) => ends_added(st, m, cfg, reply, Seq::empty()),
            _ => false,
        },
        Next::Done(_, _) => false,
    }
}

/// How many peers these replies brought to be added.
pub open spec fn completed(who: Who, poll: Option<Text>, replies: Seq<Reply>) -> nat
    decreases replies.len(),
{
    if replies.len() == 0 {
        0
    } else {
        let before = replies.drop_last();
        completed(who, poll, before) + if completes_peer(
            sync_after(who, poll, before),
            who.cfg,
            replies.last(),
        ) {
            1nat
        } else {
            0
        }
    }
}

proof fn lemma_apply_count(
    st: SyncView,
    m: Apply<Text>,
    cfg: CfgView,
    reply: Reply,
    effects: Seq<EffectView>,
)
    ensures
        apply_from(st, m, cfg, reply, effects) matches Next::Ask(s2, _) ==> s2.count == st.count + (
        if ends_added(st, m, cfg, reply, effects) {
            1int
        } else {
            0
        }),
    decreases st.fresh.len() - st.at,
{
    if st.at < st.fresh.len() {
        let p = st.fresh[st.at as int];
        match apply_next(m, cfg, p, reply, effects) {
            Next::Ask(m2, t) => {},
            Next::Done(e, Applied::Done) => {
                if let Some(x) = byte_prefix(p.client_pubkey, 12) {
                    let s1 = SyncView { at: st.at + 1, count: st.count + 1, ..st };
                    let said = e.push(Effect::Print(added_line(x, p)));
                    lemma_apply_count(s1, Apply::Start, cfg, reply, said);
                    lemma_start_is_not_done(s1, cfg, reply, said);
                }
            },
            Next::Done(e, Applied::Failed(x)) => {
                let s1 = SyncView { at: st.at + 1, ..st };
                let said = e.push(Effect::Complain("[vpnyellod] apply peer failed: "@ + x));
                lemma_apply_count(s1, Apply::Start, cfg, reply, said);
                lemma_start_is_not_done(s1, cfg, reply, said);
            },
            Next::Done(e, Applied::Cut) => {},
        }
    }
}

/// No peer is added without a question.
proof fn lemma_start_is_not_done(
    st: SyncView,
    cfg: CfgView,
    reply: Reply,
    effects: Seq<EffectView>,
)
    ensures
        !ends_added(st, Apply::Start, cfg, reply, effects),
{
}

/// The number of peers that a heartbeat gives as added is the number of those that were brought to
/// be added.
pub proof fn law_heartbeat_counts(who: Who, poll: Option<Text>, replies: Seq<Reply>)
    ensures
        match sync_after(who, poll, replies) {
            Next::Ask(st, _) => st.count == completed(who, poll, replies),
            Next::Done(_, r) => r.1 matches Synced::Done(n) ==> n == completed(
                who,
                poll,
                replies,
            ),
        },
    decreases replies.len(),
{
    if replies.len() > 0 {
        let before = replies.drop_last();
        let reply = replies.last();
        let none = Seq::<EffectView>::empty();
        law_heartbeat_counts(who, poll, before);
        lemma_sync(who, poll, before);
        if let Next::Ask(st, _) = sync_after(who, poll, before) {
            match st.stage {
                SyncStage::Peers => {
                    let applied = shown_peers(reply.output());
                    let planned = SyncView {
                        fresh: fresh_peers(st.wanted, applied),
                        stale: stale_keys(applied, st.wanted),
                        at: 0,
                        count: 0,
                        ..st
                    };
                    lemma_before_plan(who, poll, before);
                    lemma_apply_count(planned, Apply::Start, who.cfg, reply, none);
                    lemma_start_is_not_done(planned, who.cfg, reply, none);
                    lemma_apply_from(planned, Apply::Start, who.cfg, reply, none);
                },
                SyncStage::Apply(m) => {
                    lemma_apply_count(st, m, who.cfg, reply, none);
                    lemma_apply_from(st, m, who.cfg, reply, none);
                },
                _ => {},
            }
        }
    }
}

/// No peer was added before the plan was made.
proof fn lemma_before_plan(who: Who, poll: Option<Text>, replies: Seq<Reply>)
    requires
        sync_after(who, poll, replies) matches Next::Ask(st, _) && (st.stage is Start
            || st.stage is Survey || st.stage is Beat || st.stage is Iface || st.stage is Up
            || st.stage is Peers),
    ensures
        completed(who, poll, replies) == 0,
    decreases replies.len(),
{
    if replies.len() > 0 {
        let before = replies.drop_last();
        let reply = replies.last();
        let none = Seq::<EffectView>::empty();
        lemma_sync(who, poll, before);
        if let Next::Ask(st, _) = sync_after(who, poll, before) {
            match st.stage {
                SyncStage::Peers => {
                    let applied = shown_peers(reply.output());
                    lemma_apply_from(
                        SyncView {
                            fresh: fresh_peers(st.wanted, applied),
                            stale: stale_keys(applied, st.wanted),
                            at: 0,
                            count: 0,
                            ..st
                        },
                        Apply::Start,
                        who.cfg,
                        reply,
                        none,
                    );
                },
                SyncStage::Apply(m) => {
                    lemma_apply_from(st, m, who.cfg, reply, none);
                },
                SyncStage::Remove(_) => {},
                SyncStage::Count => {},
                SyncStage::Clock => {},
                _ => {
                    lemma_before_plan(who, poll, before);
                },
            }
        }
    }
}

// ---------------------------------------------------------------- keys that can be cut

/// The keys of the peers are ASCII.
pub open spec fn ascii_peers(ps: Seq<PeerView>) -> bool {
    forall|i: int|
        0 <= i < ps.len() ==> vstd::utf8::is_ascii_chars(#[trigger] ps[i].client_pubkey)
}

/// The keys are ASCII.
pub open spec fn ascii_keys(keys: Words) -> bool {
    forall|i: int| 0 <= i < keys.len() ==> vstd::utf8::is_ascii_chars(#[trigger] keys[i])
}

proof fn lemma_fresh_ascii(wanted: Seq<PeerView>, applied: Words)
    requires
        ascii_peers(wanted),
    ensures
        ascii_peers(fresh_peers(wanted, applied)),
    decreases wanted.len(),
{
    if wanted.len() > 0 {
        let init = wanted.drop_last();
        assert forall|i: int| 0 <= i < init.len() implies vstd::utf8::is_ascii_chars(
            #[trigger] init[i].client_pubkey,
        ) by {
            assert(init[i] == wanted[i]);
        }
        lemma_fresh_ascii(init, applied);
        assert(vstd::utf8::is_ascii_chars(wanted[wanted.len() - 1].client_pubkey));
    }
}

proof fn lemma_stale_ascii(applied: Words, wanted: Seq<PeerView>)
    requires
        ascii_keys(applied),
    ensures
        ascii_keys(stale_keys(applied, wanted)),
    decreases applied.len(),
{
    if applied.len() > 0 {
        let init = applied.drop_last();
        assert forall|i: int| 0 <= i < init.len() implies vstd::utf8::is_ascii_chars(
            #[trigger] init[i],
        ) by {
            assert(init[i] == applied[i]);
        }
        lemma_stale_ascii(init, wanted);
        assert(vstd::utf8::is_ascii_chars(applied[applied.len() - 1]));
    }
}

proof fn lemma_apply_ascii(
    st: SyncView,
    m: Apply<Text>,
    cfg: CfgView,
    reply: Reply,
    effects: Seq<EffectView>,
)
    requires
        ascii_peers(st.fresh),
        ascii_keys(st.stale),
    ensures
        !(apply_from(st, m, cfg, reply, effects) is Done),
    decreases st.fresh.len() - st.at,
{
    if st.at >= st.fresh.len() {
        lemma_remove_ascii(SyncView { at: 0, ..st }, cfg, effects);
    } else {
        let p = st.fresh[st.at as int];
        assert(vstd::utf8::is_ascii_chars(st.fresh[st.at as int].client_pubkey));
        law_ascii_is_cut_anywhere(p.client_pubkey, 8);
        law_ascii_is_cut_anywhere(p.client_pubkey, 12);
        match apply_next(m, cfg, p, reply, effects) {
            Next::Ask(m2, t) => {},
            Next::Done(e, Applied::Done) => {
                let x = byte_prefix(p.client_pubkey, 12)->0;
                lemma_apply_ascii(
                    SyncView { at: st.at + 1, count: st.count + 1, ..st },
                    Apply::Start,
                    cfg,
                    reply,
                    e.push(Effect::Print(added_line(x, p))),
                );
            },
            Next::Done(e, Applied::Failed(x)) => {
                lemma_apply_ascii(
                    SyncView { at: st.at + 1, ..st },
                    Apply::Start,
                    cfg,
                    reply,
                    e.push(Effect::Complain("[vpnyellod] apply peer failed: "@ + x)),
                );
            },
            Next::Done(e, Applied::Cut) => {},
        }
    }
}

proof fn lemma_remove_ascii(st: SyncView, cfg: CfgView, effects: Seq<EffectView>)
    requires
        ascii_keys(st.stale),
    ensures
        !(remove_from(st, cfg, effects) is Done),
{
    if st.at < st.stale.len() {
        assert(vstd::utf8::is_ascii_chars(st.stale[st.at as int]));
        law_ascii_is_cut_anywhere(st.stale[st.at as int], 12);
    }
}

/// A heartbeat whose keys are ASCII, as base64 is, never fails to cut one.
pub proof fn law_ascii_keys_never_abort(
    st: SyncView,
    who: Who,
    reply: Reply,
    effects: Seq<EffectView>,
)
    requires
        ascii_peers(st.wanted),
        ascii_peers(st.fresh),
        ascii_keys(st.stale),
        st.stage is Peers ==> ascii_keys(shown_peers(reply.output())),
    ensures
        sync_next(st, who.cfg, who.id, who.secret, reply, effects) matches Next::Done(_, r) ==> !(
        r.1 is Cut),
{
    match st.stage {
        SyncStage::Peers => {
            let applied = shown_peers(reply.output());
            lemma_fresh_ascii(st.wanted, applied);
            lemma_stale_ascii(applied, st.wanted);
            lemma_apply_ascii(
                SyncView {
                    fresh: fresh_peers(st.wanted, applied),
                    stale: stale_keys(applied, st.wanted),
                    at: 0,
                    count: 0,
                    ..st
                },
                Apply::Start,
                who.cfg,
                reply,
                effects,
            );
        },
        SyncStage::Apply(m) => {
            lemma_apply_ascii(st, m, who.cfg, reply, effects);
        },
        SyncStage::Remove(m) => {
            let e = match remove_next(
                m,
                who.cfg,
                st.stale[st.at as int],
                reply,
                effects,
            ) {
                Next::Ask(_, t) => t.effects,
                Next::Done(e, _) => e,
            };
            lemma_remove_ascii(SyncView { at: st.at + 1, ..st }, who.cfg, e);
        },
        _ => {},
    }
}

} // verus!
