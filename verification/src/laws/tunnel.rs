//! The server's key is kept, and the interface comes up once.

use crate::config::CfgView;
use crate::laws::text::law_trim_twice;
use crate::text::trimmed;
use crate::tunnel::{bring_up_next, keys_next, with_addrs, BringUp, Keys, Next};
use crate::world::{turn, Ask, EffectView, Reply, Text, TurnView};
use vstd::prelude::*;

verus! {

/// The reply has a text that is not blank.
pub open spec fn has_text(reply: Reply) -> bool {
    reply.text() matches Some(k) && trimmed(k).len() > 0
}

/// A key file that is not blank gives the key, and nothing is written.
pub proof fn law_key_is_reused(path: Text, reply: Reply, effects: Seq<EffectView>)
    requires
        has_text(reply),
    ensures
        keys_next(Keys::Load, path, reply, effects) == Next::<
            Keys<Text>,
            TurnView,
            Seq<EffectView>,
            Result<Text, Text>,
        >::Done(effects, Ok(trimmed(reply.text()->0))),
{
}

/// The key that was made and stored is the key that the file gives from then on: what `wg`
/// printed, if it is not blank, goes to the file as it is used, and is read back unchanged.
pub proof fn law_stored_key_is_read_back(
    path: Text,
    made: Reply,
    dir: Reply,
    stored: Reply,
    later: Reply,
    effects: Seq<EffectView>,
)
    requires
        made.output() matches Some(k) && k.len() > 0,
        dir.done() is Ok,
        stored.done() is Ok,
        later.text() == made.output(),
    ensures
        ({
            let key = made.output()->0;
            let at_dir = Keys::Dir(key);
            let at_store = Keys::Store(key);
            &&& keys_next(Keys::Make, path, made, effects) matches Next::Ask(m, t) && m == at_dir
                && t == turn(effects, Ask::MakeParent(path))
            &&& keys_next(at_dir, path, dir, effects) matches Next::Ask(m, t) && m == at_store
                && t == turn(effects, Ask::Store(path, key))
            &&& keys_next(at_store, path, stored, effects) matches Next::Done(e, r) && e == effects
                && r == Ok::<Text, Text>(key)
            &&& keys_next(Keys::Load, path, later, effects) matches Next::Done(e, r) && e == effects
                && r == Ok::<Text, Text>(key)
        }),
{
    if let Reply::Ran(Some(x)) = made {
        law_trim_twice(x.stdout@);
    }
}

/// An interface that exists is not made again; it gets its addresses.
pub proof fn law_interface_is_kept(cfg: CfgView, reply: Reply, effects: Seq<EffectView>)
    requires
        reply.yes(),
    ensures
        bring_up_next(BringUp::Check, cfg, reply, effects) matches Next::Done(e, r) && r is Ok
            && e == with_addrs(with_addrs(effects, cfg), cfg),
{
}

} // verus!
