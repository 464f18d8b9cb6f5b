//! The commands that the agent has the box run, the addresses that it posts to, and what it makes
//! of what comes back.

use crate::address::{detected_v4, detected_v6};
use crate::conf::unlines;
use crate::config::{loaded, variable, CfgView};
use crate::laws::conf::lemma_pieces_cons;
use crate::laws::requests::lemma_regroup;
use crate::laws::text::{clean, law_lines_of_unlines, lemma_lacks_add, one_line};
use crate::laws::words::{law_byte_prefix, law_pieces};
use crate::number::{decimal, law_parse_of_decimal, parsed};
use crate::peers::{fresh_peers, psk_path, set_words, shown_peers, stale_keys, unset_words};
use crate::registry::{heartbeat_url, last_value, offline_url, pace, post_command, posted};
use crate::registry::{public_key, register_url, remembered, state_text, suggested_poll};
use crate::reply::{number_field, PeerView};
use crate::system::addresses_line;
use crate::text::{byte_len, lines, pieces, starts, trimmed, view_of, words};
use crate::tunnel::{addr_words, iface_words, replace_words, route_words, with_addrs};
use crate::world::{Effect, EffectView, Fed, Ran, Reply, Text, Words};
use vstd::prelude::*;

verus! {

// ---------------------------------------------------------------- addresses of the registry

/// A slash before a path makes an empty piece.
proof fn lemma_root(path: Text)
    ensures
        pieces("/"@ + path, '/') == seq![Seq::<char>::empty()] + pieces(path, '/'),
{
    let none = Seq::<char>::empty();
    reveal_strlit("/");
    assert("/"@ + path =~= none + (seq!['/'] + path));
    lemma_pieces_cons(none, '/', path);
}

/// A step of a path and what follows it.
proof fn lemma_under(step: Text, path: Text)
    requires
        !step.contains('/'),
    ensures
        pieces(step + ("/"@ + path), '/') == seq![step] + pieces(path, '/'),
{
    reveal_strlit("/");
    assert("/"@ =~= seq!['/']);
    lemma_pieces_cons(step, '/', path);
}

proof fn lemma_path2(a: Text, b: Text, c: Text)
    requires
        !a.contains('/'),
        !b.contains('/'),
        !c.contains('/'),
    ensures
        pieces("/"@ + (a + ("/"@ + (b + ("/"@ + c)))), '/') == seq![Seq::<char>::empty(), a, b, c],
{
    let none = Seq::<char>::empty();
    law_pieces(c, '/', none);
    lemma_under(b, c);
    lemma_under(a, b + ("/"@ + c));
    lemma_root(a + ("/"@ + (b + ("/"@ + c))));
    assert(seq![none] + (seq![a] + (seq![b] + seq![c])) =~= seq![none, a, b, c]);
}

proof fn lemma_path3(a: Text, b: Text, c: Text, d: Text)
    requires
        !a.contains('/'),
        !b.contains('/'),
        !c.contains('/'),
        !d.contains('/'),
    ensures
        pieces("/"@ + (a + ("/"@ + (b + ("/"@ + (c + ("/"@ + d)))))), '/') == seq![
            Seq::<char>::empty(),
            a,
            b,
            c,
            d,
        ],
{
    let none = Seq::<char>::empty();
    law_pieces(d, '/', none);
    lemma_under(c, d);
    lemma_under(b, c + ("/"@ + d));
    lemma_under(a, b + ("/"@ + (c + ("/"@ + d))));
    lemma_root(a + ("/"@ + (b + ("/"@ + (c + ("/"@ + d))))));
    assert(seq![none] + (seq![a] + (seq![b] + (seq![c] + seq![d]))) =~= seq![none, a, b, c, d]);
}

proof fn lemma_server_path(id: Text, what: Text, end: Text)
    requires
        !id.contains('/'),
        !what.contains('/'),
        end == "/"@ + what,
    ensures
        pieces("/api/servers/"@ + (id + end), '/') == seq![
            Seq::<char>::empty(),
            "api"@,
            "servers"@,
            id,
            what,
        ],
{
    reveal_strlit("api");
    reveal_strlit("servers");
    lemma_path3("api"@, "servers"@, id, what);
    let rest = id + end;
    assert("/api/servers/"@ + rest =~= "/"@ + ("api"@ + ("/"@ + ("servers"@ + ("/"@ + rest))))) by {
        reveal_strlit("/");
        reveal_strlit("/api/servers/");
    }
}

/// What the agent posts to is the registry's address and a path: `register` among the servers, or
/// `heartbeat` or `offline` of the server with the given number.
pub proof fn law_addresses_of_the_registry(registry: Text, id: Text)
    requires
        !id.contains('/'),
    ensures
        starts(register_url(registry), registry),
        starts(heartbeat_url(registry, id), registry),
        starts(offline_url(registry, id), registry),
        pieces(register_url(registry).skip(registry.len() as int), '/') == seq![
            Seq::<char>::empty(),
            "api"@,
            "servers"@,
            "register"@,
        ],
        pieces(heartbeat_url(registry, id).skip(registry.len() as int), '/') == seq![
            Seq::<char>::empty(),
            "api"@,
            "servers"@,
            id,
            "heartbeat"@,
        ],
        pieces(offline_url(registry, id).skip(registry.len() as int), '/') == seq![
            Seq::<char>::empty(),
            "api"@,
            "servers"@,
            id,
            "offline"@,
        ],
{
    let n = registry.len() as int;
    let api = "/api/servers/"@;
    reveal_strlit("api");
    reveal_strlit("servers");
    reveal_strlit("register");
    reveal_strlit("heartbeat");
    reveal_strlit("offline");
    lemma_regroup(registry + api, id, "/heartbeat"@);
    lemma_regroup(registry, api, id + "/heartbeat"@);
    lemma_regroup(registry + api, id, "/offline"@);
    lemma_regroup(registry, api, id + "/offline"@);
    let h = api + (id + "/heartbeat"@);
    let o = api + (id + "/offline"@);
    let r = "/api/servers/register"@;
    assert((registry + h).skip(n) =~= h);
    assert((registry + o).skip(n) =~= o);
    assert((registry + r).skip(n) =~= r);
    assert((registry + h).take(n) =~= registry);
    assert((registry + o).take(n) =~= registry);
    assert((registry + r).take(n) =~= registry);
    assert("/heartbeat"@ =~= "/"@ + "heartbeat"@) by {
        reveal_strlit("/");
        reveal_strlit("/heartbeat");
    }
    assert("/offline"@ =~= "/"@ + "offline"@) by {
        reveal_strlit("/");
        reveal_strlit("/offline");
    }
    lemma_server_path(id, "heartbeat"@, "/heartbeat"@);
    lemma_server_path(id, "offline"@, "/offline"@);
    lemma_path2("api"@, "servers"@, "register"@);
    assert(r =~= "/"@ + ("api"@ + ("/"@ + ("servers"@ + ("/"@ + "register"@))))) by {
        reveal_strlit("/");
        reveal_strlit("/api/servers/register");
    }
}

// ---------------------------------------------------------------- commands

/// The command is run, whatever comes of it.
pub open spec fn runs(words: Words) -> EffectView {
    Effect::Run(words)
}

/// Posting runs `curl`, which gives up after 25 seconds and fails on an error, posts its input as
/// JSON, and is the same for every address but for the address itself.
pub proof fn law_post_command(url: Text, other: Text)
    ensures
        post_command(url).len() == 11,
        post_command(url)[0] == "curl"@,
        post_command(url)[1] == "-fsSL"@,
        post_command(url)[2] == "-m"@ && post_command(url)[3] == "25"@,
        post_command(url)[4] == "-X"@ && post_command(url)[5] == "POST"@,
        post_command(url)[6] == url,
        post_command(url)[7] == "-H"@ && post_command(url)[8] == "Content-Type: application/json"@,
        post_command(url)[9] == "--data-binary"@ && post_command(url)[10] == "@-"@,
        post_command(url).update(6, other) == post_command(other),
{
    assert(post_command(url).update(6, other) =~= post_command(other));
}

/// A peer is set with its own key, the file of its preshared key, and both of its addresses as
/// the only ones that are allowed; it is taken out by its key. Both happen on the interface of
/// the configuration.
pub proof fn law_peer_commands(cfg: CfgView, p: PeerView, psk: Text, key: Text)
    requires
        !p.ip4.contains(','),
        !p.ip6.contains(','),
    ensures
        set_words(cfg, p, psk).len() == 9,
        set_words(cfg, p, psk)[0] == "wg"@ && set_words(cfg, p, psk)[1] == "set"@,
        set_words(cfg, p, psk)[2] == cfg.iface,
        set_words(cfg, p, psk)[3] == "peer"@ && set_words(cfg, p, psk)[4] == p.client_pubkey,
        set_words(cfg, p, psk)[5] == "preshared-key"@ && set_words(cfg, p, psk)[6] == psk,
        set_words(cfg, p, psk)[7] == "allowed-ips"@,
        pieces(set_words(cfg, p, psk)[8], ',') == seq![p.ip4 + "/32"@, p.ip6 + "/128"@],
        unset_words(cfg, key).len() == 6,
        unset_words(cfg, key)[0] == "wg"@ && unset_words(cfg, key)[1] == "set"@,
        unset_words(cfg, key)[2] == cfg.iface,
        unset_words(cfg, key)[3] == "peer"@ && unset_words(cfg, key)[4] == key,
        unset_words(cfg, key)[5] == "remove"@,
{
    let a = p.ip4 + "/32"@;
    let b = p.ip6 + "/128"@;
    reveal_strlit("/32");
    reveal_strlit("/128");
    reveal_strlit("/32,");
    lemma_lacks_add(p.ip4, "/32"@, ',');
    lemma_lacks_add(p.ip6, "/128"@, ',');
    assert(p.ip4 + "/32,"@ + p.ip6 + "/128"@ =~= a + seq![','] + b);
    law_pieces(b, ',', seq![]);
    law_pieces(a, ',', b);
    assert(seq![a] + seq![b] =~= seq![a, b]);
}

/// The file for a preshared key is named by the first eight bytes of the peer's key, whatever
/// follows them; a key that is shorter names it as a whole.
pub proof fn law_preshared_file(first: Text, more: Text)
    ensures
        byte_len(first) == 8 ==> psk_path(first + more) == Some(
            "/tmp/vpnyellod-"@ + first + ".psk"@,
        ),
        byte_len(first) <= 8 ==> psk_path(first) == Some("/tmp/vpnyellod-"@ + first + ".psk"@),
{
    law_byte_prefix(first, more, 'a', 8);
}

/// The box is asked for what it is asked for, family by family, and the interface gets both of
/// its addresses.
pub proof fn law_network_commands(cfg: CfgView, effects: Seq<EffectView>)
    ensures
        addr_words(false) == seq!["ip"@, "-4"@, "-o"@, "addr"@, "show"@],
        addr_words(true) == seq!["ip"@, "-6"@, "-o"@, "addr"@, "show"@],
        route_words(false) == seq!["ip"@, "route"@, "get"@, "8.8.8.8"@],
        route_words(true) == seq!["ip"@, "-6"@, "route"@, "get"@, "2001:4860:4860::8888"@],
        iface_words(cfg) == seq!["ip"@, "link"@, "show"@, "dev"@, cfg.iface],
        replace_words(false, cfg) == seq!["ip"@, "addr"@, "replace"@, cfg.vpn4, "dev"@, cfg.iface],
        replace_words(true, cfg) == seq![
            "ip"@,
            "-6"@,
            "addr"@,
            "replace"@,
            cfg.vpn6,
            "dev"@,
            cfg.iface,
        ],
        with_addrs(effects, cfg).len() == effects.len() + 2,
        with_addrs(effects, cfg).take(effects.len() as int) == effects,
        with_addrs(effects, cfg)[effects.len() as int] == runs(
            seq!["ip"@, "addr"@, "replace"@, cfg.vpn4, "dev"@, cfg.iface],
        ),
        with_addrs(effects, cfg).last() == runs(
            seq!["ip"@, "-6"@, "addr"@, "replace"@, cfg.vpn6, "dev"@, cfg.iface],
        ),
{
    assert(with_addrs(effects, cfg).take(effects.len() as int) =~= effects);
}

// ---------------------------------------------------------------- what comes back

/// A request is answered exactly where `curl` ran and ended well, and the answer is all that it
/// printed; otherwise there is an error.
pub proof fn law_answers(url: Text, reply: Reply)
    ensures
        posted(url, reply) is Ok <==> (reply matches Reply::Fed(Fed::Ended { ok, .. }) && ok),
        reply matches Reply::Fed(Fed::Ended { ok, stdout, .. }) ==> (ok ==> posted(url, reply)
            == Ok::<Text, Text>(stdout@)),
        reply matches Reply::Fed(Fed::Ended { ok, stderr, .. }) ==> (!ok ==> posted(url, reply)
            == Err::<Text, Text>("registry unreachable: "@ + url + " "@ + trimmed(stderr@))),
        reply matches Reply::Fed(Fed::NotStarted(e)) ==> posted(url, reply) == Err::<Text, Text>(
            "spawn curl: "@ + e@ + " (install curl first)"@,
        ) && public_key(reply) == Err::<Text, Text>(e@),
        reply matches Reply::Fed(Fed::Broken(e)) ==> posted(url, reply) == Err::<Text, Text>(e@)
            && public_key(reply) == Err::<Text, Text>(e@),
        public_key(reply) is Ok <==> (reply matches Reply::Fed(Fed::Ended { ok, .. }) && ok),
        reply matches Reply::Fed(Fed::Ended { ok, stdout, .. }) ==> (ok ==> public_key(reply)
            == Ok::<Text, Text>(trimmed(stdout@))),
{
}

/// A command has output exactly where it ran and ended well, and its output is what it printed
/// without the white space round it; a question is answered with yes only by the flag that says
/// so; the superuser is the one with the number zero, whatever the exit code. Files, clocks,
/// settings and surveys are taken as they come.
pub proof fn law_replies(reply: Reply, r: Ran, key: Text)
    ensures
        Reply::Ran(Some(r)).output() == (if r.ok {
            Some(trimmed(r.stdout@))
        } else {
            None
        }),
        Reply::Ran(None).output() is None,
        reply.yes() <==> reply == Reply::Flag(true),
        Reply::Ran(Some(r)).says_root() <==> trimmed(r.stdout@) == "0"@,
        !(reply is Ran) ==> !reply.says_root() && reply.output() is None,
        reply matches Reply::Text(t) ==> reply.text() == view_of(t),
        !(reply is Text) ==> reply.text() is None,
        reply matches Reply::Clock(Some(n)) ==> reply.seconds() == n,
        reply matches Reply::Clock(None) ==> reply.seconds() == 0,
        reply.done() is Ok <==> (reply matches Reply::Done(r) && r is Ok),
        reply matches Reply::Done(Err(e)) ==> reply.done() == Err::<(), Text>(e@),
        reply matches Reply::Settings(s) ==> reply.cfg() == loaded(
            s.vars@,
            view_of(s.file),
            view_of(s.hostname),
        ),
        reply matches Reply::Settings(s) ==> reply.variable(key) == variable(s.vars@, key),
        reply matches Reply::Survey(s) ==> reply.detected().0 == detected_v4(s)
            && reply.detected().1 == detected_v6(s),
{
}

/// The peers of an interface are the words that `wg` printed; without output there are none.
pub proof fn law_shown_peers(out: Text)
    ensures
        shown_peers(Some(out)) == words(out),
        shown_peers(None) == Seq::<Text>::empty(),
{
}

/// The pace of the heartbeats: a suggestion from 5 to 600 is taken and goes on to hold until the
/// next one, any other number changes nothing, and without a suggestion the configured pace holds.
pub proof fn law_pace(resp: Text, before: Option<Text>, poll: nat, n: nat)
    ensures
        number_field(resp, "poll_interval_secs"@) == Some(n) && 5 <= n <= 600 ==> pace(
            poll,
            suggested_poll(resp, before),
        ) == n,
        number_field(resp, "poll_interval_secs"@) == Some(n) && !(5 <= n <= 600)
            ==> suggested_poll(resp, before) == before,
        number_field(resp, "poll_interval_secs"@) is None ==> suggested_poll(resp, before)
            == before,
        pace(poll, None) == poll,
        n <= u64::MAX ==> pace(poll, Some(decimal(n))) == n,
        before matches Some(t) && parsed(t, u64::MAX as nat) is None ==> pace(poll, before) == poll,
{
    if n <= u64::MAX {
        law_parse_of_decimal(n, u64::MAX as nat);
    }
}

// ---------------------------------------------------------------- what is remembered

/// The registration is saved as two lines.
pub proof fn law_saved_lines(id: Text, secret: Text)
    requires
        one_line(id) && (id.len() > 0 ==> id.last() != '\r'),
        one_line(secret) && (secret.len() > 0 ==> secret.last() != '\r'),
    ensures
        lines(state_text(id, secret)) == seq!["SERVER_ID="@ + id, "SECRET="@ + secret],
{
    let a = "SERVER_ID="@ + id;
    let b = "SECRET="@ + secret;
    let ls = seq![a, b];
    let none = Seq::<char>::empty();
    reveal_strlit("SERVER_ID=");
    reveal_strlit("SECRET=");
    lemma_lacks_add("SERVER_ID="@, id, '\n');
    lemma_lacks_add("SECRET="@, secret, '\n');
    assert(a.last() != '\r' && b.last() != '\r');
    assert forall|i: int| 0 <= i < ls.len() implies one_line(#[trigger] ls[i]) by {
        assert(i == 0 || i == 1);
    }
    let l1 = ls.drop_last();
    assert(unlines(l1.drop_last()) =~= none);
    assert(l1.last() == a && ls.last() == b);
    assert(unlines(l1) =~= a.push('\n'));
    assert(unlines(ls) == a.push('\n') + b.push('\n'));
    assert(state_text(id, secret) =~= a.push('\n') + b.push('\n')) by {
        reveal_strlit("\nSECRET=");
        reveal_strlit("\n");
    }
    law_lines_of_unlines(ls, none);
    assert(unlines(ls) + none =~= unlines(ls));
    assert(clean(ls) =~= ls);
    assert(ls + lines(none) =~= ls);
}

/// The value behind a prefix is that of the last line with it, without the white space round it,
/// and empty without such a line.
pub proof fn law_last_line_wins(ls: Words, prefix: Text, i: int)
    ensures
        0 <= i < ls.len() && starts(ls[i], prefix) && (forall|j: int|
            i < j < ls.len() ==> !starts(#[trigger] ls[j], prefix)) ==> last_value(ls, prefix)
            == trimmed(ls[i].skip(prefix.len() as int)),
        (forall|j: int| 0 <= j < ls.len() ==> !starts(#[trigger] ls[j], prefix)) ==> last_value(
            ls,
            prefix,
        ) == Seq::<char>::empty(),
    decreases ls.len(),
{
    if ls.len() > 0 {
        let init = ls.drop_last();
        law_last_line_wins(init, prefix, i);
        if 0 <= i < ls.len() && starts(ls[i], prefix) && (forall|j: int|
            i < j < ls.len() ==> !starts(#[trigger] ls[j], prefix)) {
            if i < ls.len() - 1 {
                assert(!starts(ls[ls.len() - 1], prefix));
                assert(init[i] == ls[i]);
                assert forall|j: int| i < j < init.len() implies !starts(
                    #[trigger] init[j],
                    prefix,
                ) by {
                    assert(init[j] == ls[j]);
                }
            }
        }
        if forall|j: int| 0 <= j < ls.len() ==> !starts(#[trigger] ls[j], prefix) {
            assert(!starts(ls[ls.len() - 1], prefix));
            assert forall|j: int| 0 <= j < init.len() implies !starts(#[trigger] init[j], prefix) by {
                assert(init[j] == ls[j]);
            }
        }
    }
}

/// What is remembered is the value behind `SERVER_ID=` and the one behind `SECRET=`; of a file
/// that is missing, nothing.
pub proof fn law_remembered(text: Text)
    ensures
        remembered(Some(text)).0 == last_value(lines(text), "SERVER_ID="@),
        remembered(Some(text)).1 == last_value(lines(text), "SECRET="@),
        remembered(None).0 == Seq::<char>::empty(),
        remembered(None).1 == Seq::<char>::empty(),
{
    assert(lines(Seq::<char>::empty()) =~= Seq::<Text>::empty());
}

// ---------------------------------------------------------------- what is to be done

/// Which wanted peers are to be added is decided one by one, in their order, by whether the
/// interface has their key already.
pub proof fn law_fresh_in_turn(first: Seq<PeerView>, p: PeerView, applied: Words)
    ensures
        fresh_peers(first.push(p), applied) == (if applied.contains(p.client_pubkey) {
            fresh_peers(first, applied)
        } else {
            fresh_peers(first, applied).push(p)
        }),
        fresh_peers(Seq::empty(), applied) == Seq::<PeerView>::empty(),
{
    assert(first.push(p).drop_last() =~= first);
}

/// Which keys are to be taken out is decided one by one, in their order, by whether some wanted
/// peer has them.
pub proof fn law_stale_in_turn(first: Words, key: Text, wanted: Seq<PeerView>)
    ensures
        (exists|i: int| 0 <= i < wanted.len() && (#[trigger] wanted[i]).client_pubkey == key)
            ==> stale_keys(first.push(key), wanted) == stale_keys(first, wanted),
        (forall|i: int| 0 <= i < wanted.len() ==> (#[trigger] wanted[i]).client_pubkey != key)
            ==> stale_keys(first.push(key), wanted) == stale_keys(first, wanted).push(key),
        stale_keys(Seq::empty(), wanted) == Seq::<Text>::empty(),
{
    assert(first.push(key).drop_last() =~= first);
}

/// Both addresses are shown, each with a dash where it is missing, whatever the other one is.
pub proof fn law_addresses_line(title: Text, a: Text, b: Text)
    ensures
        addresses_line(title, Some(a), Some(b)) == title + "ipv4="@ + a + " ipv6="@ + b,
        addresses_line(title, Some(a), None) == title + "ipv4="@ + a + " ipv6="@ + "-"@,
        addresses_line(title, None, Some(b)) == title + "ipv4="@ + "-"@ + " ipv6="@ + b,
        addresses_line(title, None, None) == title + "ipv4="@ + "-"@ + " ipv6="@ + "-"@,
{
}

} // verus!
