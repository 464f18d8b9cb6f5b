//! Keeping the tunnel's peers in step with those that the registry wants.

use crate::conf::{conf_without, missing_section, section_to_add, without_peer};
use crate::config::{Cfg, CfgView};
use crate::registry::text_or_empty;
use crate::reply::{lemma_peer_views_push, peer_views, PeerView, WantedPeer};
use crate::text::{byte_len, byte_prefix, cut_bytes, has_byte_len, lemma_views_push, or_empty};
use crate::text::{same, split_words, view_of, views, words};
use crate::tunnel::Next;
use crate::world::{turn, Argv, Ask, Effect, EffectView, Effects, Reply, Text, Turn, TurnView};
use crate::world::Words;
use vstd::prelude::*;

verus! {

// ---------------------------------------------------------------- one peer in

/// What came of adding a peer.
pub enum Applied<S> {
    /// It is there.
    Done,
    /// It is not, and why.
    Failed(S),
    /// Its key was to be cut inside a character.
    Cut,
}

impl View for Applied<String> {
    type V = Applied<Text>;

    open spec fn view(&self) -> Applied<Text> {
        match self {
            Applied::Done => Applied::Done,
            Applied::Failed(e) => Applied::Failed(e@),
            Applied::Cut => Applied::Cut,
        }
    }
}

/// Stages of adding a peer. The path of the file with its preshared key is kept while that file
/// exists.
pub enum Apply<S> {
    /// Nothing was asked yet.
    Start,
    /// Asked to write the preshared key to a file.
    Store(S),
    /// Asked `wg` to set the peer.
    Install(S),
    /// Asked for the configuration file.
    Conf,
    /// Asked to add the peer to it.
    Append,
}

impl View for Apply<String> {
    type V = Apply<Text>;

    open spec fn view(&self) -> Apply<Text> {
        match self {
            Apply::Start => Apply::Start,
            Apply::Store(p) => Apply::Store(p@),
            Apply::Install(p) => Apply::Install(p@),
            Apply::Conf => Apply::Conf,
            Apply::Append => Apply::Append,
        }
    }
}

/// The file that holds a peer's preshared key for a moment: its name has the first eight bytes of
/// the peer's key.
pub open spec fn psk_path(pubkey: Text) -> Option<Text> {
    match byte_prefix(pubkey, 8) {
        Some(x) => Some("/tmp/vpnyellod-"@ + x + ".psk"@),
        None => None,
    }
}

fn psk_path_of(pubkey: &str) -> (r: Option<String>)
    ensures
        view_of(r) == psk_path(pubkey@),
{
    match cut_bytes(pubkey, 8) {
        Some(x) => Some("/tmp/vpnyellod-".to_owned().concat(x.as_str()).concat(".psk")),
        None => None,
    }
}

/// The command that sets a peer.
pub open spec fn set_words(cfg: CfgView, p: PeerView, psk: Text) -> Words {
    seq![
        "wg"@,
        "set"@,
        cfg.iface,
        "peer"@,
        p.client_pubkey,
        "preshared-key"@,
        psk,
        "allowed-ips"@,
        p.ip4 + "/32,"@ + p.ip6 + "/128"@,
    ]
}

fn set_command(cfg: &Cfg, p: &WantedPeer, psk: &str) -> (r: Argv)
    ensures
        r@ == set_words(cfg@, p@, psk@),
{
    let ips = p.ip4.clone().concat("/32,").concat(p.ip6.as_str()).concat("/128");
    Argv::new("wg").arg("set").arg(cfg.iface.as_str()).arg("peer").arg(
        p.client_pubkey.as_str(),
    ).arg("preshared-key").arg(psk).arg("allowed-ips").arg(ips.as_str())
}

/// Adding a peer: its record has to be complete and its preshared key 44 bytes long; `wg` sets it
/// with the key in a file that is then removed; the configuration file gets its section unless
/// its key is there.
pub open spec fn apply_next(
    stage: Apply<Text>,
    cfg: CfgView,
    p: PeerView,
    reply: Reply,
    effects: Seq<EffectView>,
) -> Next<Apply<Text>, TurnView, Seq<EffectView>, Applied<Text>> {
    match stage {
        Apply::Start => if p.ip4.len() == 0 || p.ip6.len() == 0 || p.preshared_b64.len() == 0 {
            Next::Done(effects, Applied::Failed("peer record incomplete"@))
        } else if byte_len(p.preshared_b64) != 44 {
            Next::Done(effects, Applied::Failed("bad preshared key"@))
        } else {
            match psk_path(p.client_pubkey) {
                Some(t) => Next::Ask(
                    Apply::Store(t),
                    turn(effects, Ask::Store(t, p.preshared_b64)),
                ),
                None => Next::Done(effects, Applied::Cut),
            }
        },
        Apply::Store(t) => match reply.done() {
            Ok(_) => Next::Ask(Apply::Install(t), turn(effects, Ask::Run(set_words(cfg, p, t)))),
            Err(e) => Next::Done(effects, Applied::Failed(e)),
        },
        Apply::Install(t) => if reply.yes() {
            Next::Ask(
                Apply::Conf,
                turn(effects.push(Effect::Remove(t)), Ask::Read(cfg.conf_path)),
            )
        } else {
            Next::Done(effects.push(Effect::Remove(t)), Applied::Failed("wg set failed"@))
        },
        Apply::Conf => match missing_section(or_empty(reply.text()), p) {
            Some(s) => Next::Ask(Apply::Append, turn(effects, Ask::Append(cfg.conf_path, s))),
            None => Next::Done(effects, Applied::Done),
        },
        Apply::Append => match reply.done() {
            Ok(_) => Next::Done(effects, Applied::Done),
            Err(e) => Next::Done(effects, Applied::Failed(e)),
        },
    }
}

/// Adds a peer, one question at a time.
pub fn apply_peer(
    stage: Apply<String>,
    cfg: &Cfg,
    p: &WantedPeer,
    reply: &Reply,
    effects: Effects,
) -> (r: Next<Apply<String>, Turn, Effects, Applied<String>>)
    ensures
        apply_next(stage@, cfg@, p@, *reply, effects@) == (match r {
            Next::Ask(m, t) => Next::Ask(m@, t@),
            Next::Done(e, x) => Next::Done(e@, x@),
        }),
{
    match stage {
        Apply::Start => {
            if p.ip4.as_str().is_empty() || p.ip6.as_str().is_empty()
                || p.preshared_b64.as_str().is_empty() {
                return Next::Done(effects, Applied::Failed("peer record incomplete".to_owned()));
            }
            if !has_byte_len(p.preshared_b64.as_str(), 44) {
                return Next::Done(effects, Applied::Failed("bad preshared key".to_owned()));
            }
            match psk_path_of(p.client_pubkey.as_str()) {
                Some(t) => {
                    let ask = Ask::Store(t.clone(), p.preshared_b64.clone());
                    Next::Ask(Apply::Store(t), effects.ask(ask))
                },
                None => Next::Done(effects, Applied::Cut),
            }
        },
        Apply::Store(t) => match reply.get_done() {
            Ok(_) => {
                let ask = Ask::Run(set_command(cfg, p, t.as_str()));
                Next::Ask(Apply::Install(t), effects.ask(ask))
            },
            Err(e) => Next::Done(effects, Applied::Failed(e)),
        },
        Apply::Install(t) => {
            let after = effects.remove(t.as_str());
            if reply.is_yes() {
                Next::Ask(Apply::Conf, after.ask(Ask::Read(cfg.conf_path.clone())))
            } else {
                Next::Done(after, Applied::Failed("wg set failed".to_owned()))
            }
        },
        Apply::Conf => match section_to_add(text_or_empty(&reply.get_text()).as_str(), p) {
            Some(s) => Next::Ask(Apply::Append, effects.ask(Ask::Append(cfg.conf_path.clone(), s))),
            None => Next::Done(effects, Applied::Done),
        },
        Apply::Append => match reply.get_done() {
            Ok(_) => Next::Done(effects, Applied::Done),
            Err(e) => Next::Done(effects, Applied::Failed(e)),
        },
    }
}

// ---------------------------------------------------------------- one peer out

/// Stages of taking a peer out.
#[derive(Debug, Clone, Copy)]
pub enum Remove {
    /// Nothing was asked yet.
    Start,
    /// Asked for the configuration file.
    Conf,
}

/// The command that takes a peer out.
pub open spec fn unset_words(cfg: CfgView, pubkey: Text) -> Words {
    seq!["wg"@, "set"@, cfg.iface, "peer"@, pubkey, "remove"@]
}

fn unset_command(cfg: &Cfg, pubkey: &str) -> (r: Argv)
    ensures
        r@ == unset_words(cfg@, pubkey@),
{
    Argv::new("wg").arg("set").arg(cfg.iface.as_str()).arg("peer").arg(pubkey).arg("remove")
}

/// Taking a peer out: of the interface, and of the configuration file where that can be read.
pub open spec fn remove_next(
    stage: Remove,
    cfg: CfgView,
    pubkey: Text,
    reply: Reply,
    effects: Seq<EffectView>,
) -> Next<Remove, TurnView, Seq<EffectView>, ()> {
    match stage {
        Remove::Start => Next::Ask(
            Remove::Conf,
            turn(effects.push(Effect::Run(unset_words(cfg, pubkey))), Ask::Read(cfg.conf_path)),
        ),
        Remove::Conf => match reply.text() {
            Some(c) => Next::Done(
                effects.push(Effect::Write(cfg.conf_path, conf_without(c, pubkey))),
                (),
            ),
            None => Next::Done(effects, ()),
        },
    }
}

/// Takes a peer out, one question at a time.
pub fn remove_peer(stage: Remove, cfg: &Cfg, pubkey: &str, reply: &Reply, effects: Effects) -> (r:
    Next<Remove, Turn, Effects, ()>)
    ensures
        remove_next(stage, cfg@, pubkey@, *reply, effects@) == (match r {
            Next::Ask(m, t) => Next::Ask(m, t@),
            Next::Done(e, x) => Next::Done(e@, x),
        }),
{
    match stage {
        Remove::Start => Next::Ask(
            Remove::Conf,
            effects.run(unset_command(cfg, pubkey)).ask(Ask::Read(cfg.conf_path.clone())),
        ),
        Remove::Conf => match reply.get_text() {
            Some(c) => {
                let text = without_peer(c.as_str(), pubkey);
                Next::Done(effects.and(Effect::Write(cfg.conf_path.clone(), text)), ())
            },
            None => Next::Done(effects, ()),
        },
    }
}

// ---------------------------------------------------------------- what is to be done

/// The keys of the peers in the output of `wg show`.
pub open spec fn shown_peers(out: Option<Text>) -> Words {
    match out {
        Some(s) => words(s),
        None => seq![],
    }
}

/// The keys of the peers in the output of `wg show`.
pub fn applied_peers(out: &Option<String>) -> (r: Vec<String>)
    ensures
        views(r@) == shown_peers(view_of(*out)),
{
    match out {
        Some(s) => split_words(s.as_str()),
        None => {
            let r: Vec<String> = Vec::new();
            assert(views(r@) =~= seq![]);
            r
        },
    }
}

/// Some wanted peer has the key.
pub open spec fn wants(wanted: Seq<PeerView>, key: Text) -> bool {
    exists|i: int| 0 <= i < wanted.len() && (#[trigger] wanted[i]).client_pubkey == key
}

/// The wanted peers that are not applied, in order.
pub open spec fn fresh_peers(wanted: Seq<PeerView>, applied: Words) -> Seq<PeerView>
    decreases wanted.len(),
{
    if wanted.len() == 0 {
        seq![]
    } else if applied.contains(wanted.last().client_pubkey) {
        fresh_peers(wanted.drop_last(), applied)
    } else {
        fresh_peers(wanted.drop_last(), applied).push(wanted.last())
    }
}

/// The applied keys that are not wanted, in order.
pub open spec fn stale_keys(applied: Words, wanted: Seq<PeerView>) -> Words
    decreases applied.len(),
{
    if applied.len() == 0 {
        seq![]
    } else if wants(wanted, applied.last()) {
        stale_keys(applied.drop_last(), wanted)
    } else {
        stale_keys(applied.drop_last(), wanted).push(applied.last())
    }
}

fn has_key(keys: &Vec<String>, key: &str) -> (r: bool)
    ensures
        r == views(keys@).contains(key@),
{
    let mut i: usize = 0;
    while i < keys.len()
        invariant
            i <= keys.len(),
            forall|j: int| 0 <= j < i ==> views(keys@)[j] != key@,
        decreases keys.len() - i,
    {
        assert(views(keys@)[i as int] == keys[i as int]@);
        if same(keys[i].as_str(), key) {
            return true;
        }
        i += 1;
    }
    false
}

fn is_wanted(wanted: &Vec<WantedPeer>, key: &str) -> (r: bool)
    ensures
        r == wants(peer_views(wanted@), key@),
{
    let mut i: usize = 0;
    while i < wanted.len()
        invariant
            i <= wanted.len(),
            forall|j: int|
                0 <= j < i ==> (#[trigger] peer_views(wanted@)[j]).client_pubkey != key@,
        decreases wanted.len() - i,
    {
        assert(peer_views(wanted@)[i as int] == wanted[i as int]@);
        if same(wanted[i].client_pubkey.as_str(), key) {
            return true;
        }
        i += 1;
    }
    false
}

fn copy_peer(p: &WantedPeer) -> (r: WantedPeer)
    ensures
        r@ == p@,
{
    WantedPeer {
        client_pubkey: p.client_pubkey.clone(),
        preshared_b64: p.preshared_b64.clone(),
        ip4: p.ip4.clone(),
        ip6: p.ip6.clone(),
    }
}

/// The wanted peers that are not applied, in order.
pub fn peers_to_apply(wanted: &Vec<WantedPeer>, applied: &Vec<String>) -> (r: Vec<WantedPeer>)
    ensures
        peer_views(r@) == fresh_peers(peer_views(wanted@), views(applied@)),
{
    broadcast use lemma_peer_views_push;

    let ghost all = peer_views(wanted@);
    let mut out: Vec<WantedPeer> = Vec::new();
    let mut i: usize = 0;
    assert(all.take(0) =~= seq![]);
    assert(peer_views(out@) =~= seq![]);
    while i < wanted.len()
        invariant
            i <= wanted.len(),
            all == peer_views(wanted@),
            peer_views(out@) == fresh_peers(all.take(i as int), views(applied@)),
        decreases wanted.len() - i,
    {
        assert(all.take(i + 1).drop_last() =~= all.take(i as int));
        assert(all.take(i + 1).last() == wanted[i as int]@);
        if !has_key(applied, wanted[i].client_pubkey.as_str()) {
            out.push(copy_peer(&wanted[i]));
        }
        i += 1;
    }
    assert(all.take(i as int) =~= all);
    out
}

/// The applied keys that are not wanted, in order.
pub fn keys_to_remove(applied: &Vec<String>, wanted: &Vec<WantedPeer>) -> (r: Vec<String>)
    ensures
        views(r@) == stale_keys(views(applied@), peer_views(wanted@)),
{
    broadcast use lemma_views_push;

    let ghost all = views(applied@);
    let mut out: Vec<String> = Vec::new();
    let mut i: usize = 0;
    assert(all.take(0) =~= seq![]);
    assert(views(out@) =~= seq![]);
    while i < applied.len()
        invariant
            i <= applied.len(),
            all == views(applied@),
            views(out@) == stale_keys(all.take(i as int), peer_views(wanted@)),
        decreases applied.len() - i,
    {
        assert(all.take(i + 1).drop_last() =~= all.take(i as int));
        assert(all.take(i + 1).last() == applied[i as int]@);
        if !is_wanted(wanted, applied[i].as_str()) {
            out.push(applied[i].clone());
        }
        i += 1;
    }
    assert(all.take(i as int) =~= all);
    out
}

} // verus!
