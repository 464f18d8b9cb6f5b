//! Which peers come and go.

use crate::config::CfgView;
use crate::peers::{apply_next, fresh_peers, stale_keys, wants, Apply};
use crate::reply::PeerView;
use crate::text::{byte_prefix, width};
use crate::tunnel::Next;
use crate::world::{Effect, EffectView, Reply, Text, Words};
use vstd::prelude::*;

verus! {

proof fn lemma_fresh(wanted: Seq<PeerView>, applied: Words, key: Text)
    ensures
        wants(fresh_peers(wanted, applied), key) <==> wants(wanted, key) && !applied.contains(key),
    decreases wanted.len(),
{
    let f = fresh_peers(wanted, applied);
    if wanted.len() == 0 {
        assert(f.len() == 0);
    } else {
        let init = wanted.drop_last();
        let g = fresh_peers(init, applied);
        let last = wanted.last();
        lemma_fresh(init, applied, key);
        assert(wants(wanted, key) <==> wants(init, key) || last.client_pubkey == key) by {
            if wants(init, key) {
                let i = choose|i: int| 0 <= i < init.len() && (#[trigger] init[i]).client_pubkey == key;
                assert(wanted[i].client_pubkey == key);
            }
            if last.client_pubkey == key {
                assert(wanted[wanted.len() - 1].client_pubkey == key);
            }
            if wants(wanted, key) && last.client_pubkey != key {
                let i = choose|i: int|
                    0 <= i < wanted.len() && (#[trigger] wanted[i]).client_pubkey == key;
                assert(init[i].client_pubkey == key);
            }
        }
        if !applied.contains(last.client_pubkey) {
            assert(wants(f, key) <==> wants(g, key) || last.client_pubkey == key) by {
                if wants(g, key) {
                    let i = choose|i: int| 0 <= i < g.len() && (#[trigger] g[i]).client_pubkey == key;
                    assert(f[i].client_pubkey == key);
                }
                if last.client_pubkey == key {
                    assert(f[f.len() - 1].client_pubkey == key);
                }
                if wants(f, key) && last.client_pubkey != key {
                    let i = choose|i: int| 0 <= i < f.len() && (#[trigger] f[i]).client_pubkey == key;
                    assert(g[i].client_pubkey == key);
                }
            }
        }
    }
}

proof fn lemma_stale(applied: Words, wanted: Seq<PeerView>, key: Text)
    ensures
        stale_keys(applied, wanted).contains(key) <==> applied.contains(key) && !wants(wanted, key),
    decreases applied.len(),
{
    let s = stale_keys(applied, wanted);
    if applied.len() == 0 {
        assert(s.len() == 0);
    } else {
        let init = applied.drop_last();
        let g = stale_keys(init, wanted);
        let last = applied.last();
        lemma_stale(init, wanted, key);
        assert(applied =~= init.push(last));
        assert(applied.contains(key) <==> init.contains(key) || last == key) by {
            if init.contains(key) {
                let i = choose|i: int| 0 <= i < init.len() && init[i] == key;
                assert(applied[i] == key);
            }
            if last == key {
                assert(applied[applied.len() - 1] == key);
            }
            if applied.contains(key) && last != key {
                let i = choose|i: int| 0 <= i < applied.len() && applied[i] == key;
                assert(init[i] == key);
            }
        }
        if !wants(wanted, last) {
            assert(s.contains(key) <==> g.contains(key) || last == key) by {
                if g.contains(key) {
                    let i = choose|i: int| 0 <= i < g.len() && g[i] == key;
                    assert(s[i] == key);
                }
                if last == key {
                    assert(s[s.len() - 1] == key);
                }
                if s.contains(key) && last != key {
                    let i = choose|i: int| 0 <= i < s.len() && s[i] == key;
                    assert(g[i] == key);
                }
            }
        }
    }
}

/// The peers to add are those that are wanted and not applied; the keys to take out are those
/// that are applied and not wanted. Adding the first and taking out the second leaves exactly
/// the wanted peers.
pub proof fn law_peers_converge(wanted: Seq<PeerView>, applied: Words, key: Text)
    ensures
        ({
            let fresh = wants(fresh_peers(wanted, applied), key);
            let stale = stale_keys(applied, wanted).contains(key);
            &&& fresh <==> wants(wanted, key) && !applied.contains(key)
            &&& stale <==> applied.contains(key) && !wants(wanted, key)
            &&& wants(wanted, key) <==> (applied.contains(key) && !stale) || fresh
        }),
{
    lemma_fresh(wanted, applied, key);
    lemma_stale(applied, wanted, key);
}

/// Once the applied peers are the wanted ones, there is nothing to add and nothing to take out.
pub proof fn law_in_step_is_left_alone(wanted: Seq<PeerView>, applied: Words)
    requires
        forall|key: Text| #[trigger] applied.contains(key) <==> wants(wanted, key),
    ensures
        fresh_peers(wanted, applied).len() == 0,
        stale_keys(applied, wanted).len() == 0,
{
    let f = fresh_peers(wanted, applied);
    let s = stale_keys(applied, wanted);
    if f.len() > 0 {
        let key = f[0].client_pubkey;
        assert(wants(f, key));
        lemma_fresh(wanted, applied, key);
        assert(!applied.contains(key));
    }
    if s.len() > 0 {
        let key = s[0];
        assert(s.contains(key));
        lemma_stale(applied, wanted, key);
    }
}

/// The file with a peer's preshared key is removed once `wg` was asked to set the peer, whatever
/// came of that.
pub proof fn law_preshared_file_is_removed(
    path: Text,
    cfg: CfgView,
    p: PeerView,
    reply: Reply,
    effects: Seq<EffectView>,
)
    ensures
        (match apply_next(Apply::Install(path), cfg, p, reply, effects) {
            Next::Ask(_, t) => t.effects,
            Next::Done(e, _) => e,
        }) == effects.push(Effect::Remove(path)),
{
}

/// The keys that `wg` deals in are ASCII, and such a text can be cut anywhere.
pub proof fn law_ascii_is_cut_anywhere(s: Text, n: nat)
    requires
        vstd::utf8::is_ascii_chars(s),
    ensures
        byte_prefix(s, n) == Some(
            if s.len() <= n {
                s
            } else {
                s.take(n as int)
            },
        ),
    decreases s.len(),
{
    if n > 0 && s.len() > 0 {
        let t = s.skip(1);
        assert(width(s[0]) == 1);
        assert forall|i: int| 0 <= i < t.len() implies t[i] as nat <= 127 by {
            assert(t[i] == s[i + 1]);
        }
        law_ascii_is_cut_anywhere(t, (n - 1) as nat);
        if s.len() <= n {
            assert(seq![s[0]] + t =~= s);
        } else {
            assert(seq![s[0]] + t.take(n - 1) =~= s.take(n as int));
        }
    } else if s.len() == 0 {
        assert(s =~= seq![]);
    } else {
        assert(s.take(0) =~= seq![]);
    }
}

} // verus!
