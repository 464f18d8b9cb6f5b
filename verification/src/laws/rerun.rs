//! Switching on again: the files that a run reads and leaves, and what a second run makes of them.

use crate::address::{route_dev, word_after};
use crate::conf::conf_text;
use crate::config::{overridden, CfgView};
use crate::laws::conf::{header_read, law_peers_are_kept, no_peer_header, peers_in};
use crate::laws::jobs::{is_pubkey, lemma_on, lemma_pubkey_stays, on_after, on_cfg, on_inv};
use crate::laws::jobs::{on_step, on_turn};
use crate::laws::text::{clean, law_trim_twice, lemma_span_free, one_line};
use crate::on::{registered, On, OnView};
use crate::registry::{post_command, posted, register_body, register_url, state_text};
use crate::reply::string_field;
use crate::system::{conf_dir, state_file};
use crate::text::{is_space, lemma_span_bound, or_empty, span, trimmed, words, CharClass};
use crate::tunnel::{Keys, WriteConf};
use crate::world::{Ask, AskView, Effect, EffectView, Reply, Text, Words};
use vstd::prelude::*;

verus! {

// ---------------------------------------------------------------- files

/// The files of the box: the text at each path.
pub type Files = Map<Text, Text>;

/// What reading a file gives.
pub open spec fn read_of(files: Files, path: Text) -> Option<Text> {
    if files.contains_key(path) {
        Some(files[path])
    } else {
        None
    }
}

/// The files after an effect.
pub open spec fn after_effect(files: Files, e: EffectView) -> Files {
    match e {
        Effect::Write(p, t) => files.insert(p, t),
        Effect::Remove(p) => files.remove(p),
        _ => files,
    }
}

/// The files after effects, in order.
pub open spec fn after_effects(files: Files, es: Seq<EffectView>) -> Files
    decreases es.len(),
{
    if es.len() == 0 {
        files
    } else {
        after_effect(after_effects(files, es.drop_last()), es.last())
    }
}

/// The files after a question was answered: what was stored is there.
pub open spec fn after_answer(files: Files, ask: AskView, reply: Reply) -> Files {
    match ask {
        Ask::Store(p, t) => if reply.done() is Ok {
            files.insert(p, t)
        } else {
            files
        },
        Ask::Append(p, t) => if reply.done() is Ok {
            files.insert(p, files[p] + t)
        } else {
            files
        },
        _ => files,
    }
}

/// Where the question was for a file, the reply is what the file holds.
pub open spec fn is_honest(files: Files, ask: AskView, reply: Reply) -> bool {
    ask matches Ask::Read(p) ==> reply.text() == read_of(files, p)
}

/// The files after switching on has taken these replies, where it found `files`.
pub open spec fn on_files(
    args: Words,
    version: Text,
    replies: Seq<Reply>,
    files: Files,
) -> Files
    decreases replies.len(),
{
    if replies.len() == 0 {
        files
    } else {
        let before = replies.drop_last();
        let found = on_files(args, version, before, files);
        let answered = if before.len() == 0 {
            found
        } else {
            after_answer(found, on_turn(args, version, before).ask, replies.last())
        };
        after_effects(answered, on_turn(args, version, replies).effects)
    }
}

/// Whenever the run asked for a file, the reply was what the file held at that time.
pub open spec fn reads_files(
    args: Words,
    version: Text,
    replies: Seq<Reply>,
    files: Files,
) -> bool
    decreases replies.len(),
{
    replies.len() <= 1 || {
        let before = replies.drop_last();
        &&& reads_files(args, version, before, files)
        &&& is_honest(
            on_files(args, version, before, files),
            on_turn(args, version, before).ask,
            replies.last(),
        )
    }
}

/// The file has a text that is not blank.
pub open spec fn has_content(files: Files, path: Text) -> bool {
    files.contains_key(path) && trimmed(files[path]).len() > 0
}

/// The key, the configuration and the registration are kept in three different files.
pub open spec fn is_separate(cfg: CfgView) -> bool {
    &&& cfg.key_path != cfg.conf_path
    &&& cfg.key_path != state_file()
    &&& cfg.conf_path != state_file()
}

// ---------------------------------------------------------------- what a run does

/// The run ends with success.
pub open spec fn succeeds(args: Words, version: Text, replies: Seq<Reply>) -> bool {
    &&& replies.len() > 0
    &&& on_turn(args, version, replies).ask == Ask::<Text, Words>::Exit(0)
    &&& !(on_after(args, version, replies.drop_last()) is Over)
}

/// The run sends its registration upon the last of these replies, with the public key `p` that
/// `wg` printed for the private key `key`.
pub open spec fn sends_registration(
    args: Words,
    version: Text,
    replies: Seq<Reply>,
    cfg: CfgView,
    key: Text,
    p: Text,
) -> bool {
    &&& on_after(args, version, replies) == On::<CfgView, Text>::Register(cfg)
    &&& is_pubkey(args, version, replies, key, p)
    &&& on_turn(args, version, replies).ask == Ask::<Text, Words>::Feed(
        post_command(register_url(cfg.registry)),
        register_body(
            cfg.name,
            p,
            replies[7].detected().0,
            replies[7].detected().1,
            cfg.port,
            version,
        ),
    )
}

/// The run sent its registration, with the public key `p` that `wg` printed for the private key
/// `key`.
#[verifier::opaque]
pub open spec fn registers(
    args: Words,
    version: Text,
    replies: Seq<Reply>,
    cfg: CfgView,
    key: Text,
    p: Text,
) -> bool {
    exists|j: int|
        0 <= j <= replies.len() && #[trigger] sends_registration(
            args,
            version,
            replies.take(j),
            cfg,
            key,
            p,
        )
}

/// The text that remembers the registration that a reply grants.
pub open spec fn granted(cfg: CfgView, reply: Reply) -> Option<Text> {
    match posted(register_url(cfg.registry), reply) {
        Ok(resp) => match string_field(resp, "server_id"@) {
            Some(id) => Some(state_text(id, or_empty(string_field(resp, "secret"@)))),
            None => None,
        },
        Err(_) => None,
    }
}

/// At this step the registration was sent, and `reply` grants what `files` remembers.
pub open spec fn remembers(st: OnView, cfg: CfgView, reply: Reply, files: Files) -> bool {
    &&& st == On::<CfgView, Text>::Register(cfg)
    &&& granted(cfg, reply) is Some
    &&& granted(cfg, reply) == read_of(files, state_file())
}

/// The files remember the registration that the registry's reply in this run granted.
#[verifier::opaque]
pub open spec fn is_saved(
    args: Words,
    version: Text,
    replies: Seq<Reply>,
    cfg: CfgView,
    files: Files,
) -> bool {
    exists|j: int|
        0 <= j < replies.len() && #[trigger] remembers(
            on_after(args, version, replies.take(j)),
            cfg,
            replies[j],
            files,
        )
}

/// The stage at which a new key goes to the key file.
pub open spec fn stores_key(st: OnView) -> bool {
    st matches On::Keys(_, _, _, m) && m is Store
}

/// No new key went to the key file in this run.
pub open spec fn stores_no_key(args: Words, version: Text, replies: Seq<Reply>) -> bool {
    forall|i: int|
        0 <= i <= replies.len() ==> !stores_key(#[trigger] on_after(args, version, replies.take(i)))
}

// ---------------------------------------------------------------- small facts

proof fn lemma_after_push(files: Files, es: Seq<EffectView>, e: EffectView)
    ensures
        after_effects(files, es.push(e)) == after_effect(after_effects(files, es), e),
{
    assert(es.push(e).drop_last() =~= es);
}

/// An effect that leaves the files alone.
spec fn is_plain(e: EffectView) -> bool {
    !(e is Write) && !(e is Remove)
}

proof fn lemma_plain_effects(files: Files, es: Seq<EffectView>)
    requires
        forall|i: int| 0 <= i < es.len() ==> is_plain(#[trigger] es[i]),
    ensures
        after_effects(files, es) == files,
    decreases es.len(),
{
    if es.len() > 0 {
        let init = es.drop_last();
        assert forall|i: int| 0 <= i < init.len() implies is_plain(#[trigger] init[i]) by {
            assert(init[i] == es[i]);
        }
        assert(is_plain(es[es.len() - 1]));
        lemma_plain_effects(files, init);
    }
}

proof fn lemma_words_one_line(s: Text)
    ensures
        forall|i: int| 0 <= i < words(s).len() ==> one_line(#[trigger] words(s)[i]),
    decreases s.len(),
{
    let sp = CharClass::Space;
    if s.len() > 0 {
        if is_space(s[0]) {
            lemma_words_one_line(s.skip(1));
            assert(words(s) == words(s.skip(1)));
        } else {
            let k = span(s, sp) as int;
            lemma_span_bound(s, sp);
            lemma_span_free(s, sp);
            let head = s.take(k);
            assert(one_line(head)) by {
                if head.contains('\n') {
                    let i = choose|i: int| 0 <= i < head.len() && head[i] == '\n';
                    assert(!sp.contains(s[i]));
                }
            }
            lemma_words_one_line(s.skip(k));
            let rest = words(s.skip(k));
            let all = seq![head] + rest;
            assert forall|i: int| 0 <= i < all.len() implies one_line(#[trigger] all[i]) by {
                if i > 0 {
                    assert(all[i] == rest[i - 1]);
                }
            }
            assert(words(s) == all);
        }
    }
}

proof fn lemma_word_after(ws: Words, key: Text)
    requires
        forall|i: int| 0 <= i < ws.len() ==> one_line(#[trigger] ws[i]),
    ensures
        word_after(ws, key) matches Some(w) ==> one_line(w),
    decreases ws.len(),
{
    if ws.len() >= 2 {
        assert(one_line(ws[1]));
        let tail = ws.skip(1);
        assert forall|i: int| 0 <= i < tail.len() implies one_line(#[trigger] tail[i]) by {
            assert(tail[i] == ws[i + 1]);
        }
        lemma_word_after(tail, key);
    }
}

/// A device is one line.
proof fn lemma_route_dev(out: Option<Text>)
    ensures
        route_dev(out) matches Some(w) ==> one_line(w),
        one_line("eth0"@),
{
    reveal_strlit("eth0");
    if let Some(s) = out {
        lemma_words_one_line(s);
        lemma_word_after(words(s), "dev"@);
    }
}

// ---------------------------------------------------------------- the files at each stage

/// The key file is as it was found where that was not blank, and else holds a new key.
spec fn key_is_there(files: Files, found: Files, cfg: CfgView) -> bool {
    &&& files.contains_key(cfg.key_path)
    &&& if has_content(found, cfg.key_path) {
        files[cfg.key_path] == found[cfg.key_path]
    } else {
        trimmed(files[cfg.key_path]) == files[cfg.key_path]
    }
}

/// The private key in the key file.
pub open spec fn key_in(files: Files, cfg: CfgView) -> Text {
    trimmed(files[cfg.key_path])
}

/// The text is that of the configuration file for a device: the interface section, and the peer
/// lines of the file that was found.
pub open spec fn is_conf(text: Text, key: Text, wan: Text, found: Files, cfg: CfgView) -> bool {
    one_line(wan) && text == conf_text(
        cfg.vpn4,
        cfg.vpn6,
        cfg.port,
        key,
        wan,
        read_of(found, cfg.conf_path),
    )
}

/// The configuration file is the one that the run writes.
spec fn conf_is_there(files: Files, found: Files, cfg: CfgView) -> bool {
    files.contains_key(cfg.conf_path) && exists|wan: Text| #[trigger]
        is_conf(files[cfg.conf_path], key_in(files, cfg), wan, found, cfg)
}

/// The question changes no file.
spec fn changes_nothing(ask: AskView) -> bool {
    !(ask is Store) && !(ask is Append)
}

spec fn keys_files(m: Keys<Text>, ask: AskView, found: Files, cfg: CfgView) -> bool {
    match m {
        Keys::Start => false,
        Keys::Load => ask == Ask::<Text, Words>::Read(cfg.key_path),
        Keys::Make => changes_nothing(ask) && !has_content(found, cfg.key_path),
        Keys::Dir(k) => changes_nothing(ask) && !has_content(found, cfg.key_path) && trimmed(k)
            == k,
        Keys::Store(k) => ask == Ask::<Text, Words>::Store(cfg.key_path, k) && !has_content(
            found,
            cfg.key_path,
        ) && trimmed(k) == k,
    }
}

spec fn conf_files(
    m: WriteConf<Text>,
    ask: AskView,
    key: Text,
    found: Files,
    cfg: CfgView,
) -> bool {
    match m {
        WriteConf::Start => false,
        WriteConf::Route4 => changes_nothing(ask),
        WriteConf::Route6 => changes_nothing(ask),
        WriteConf::Dir(w) => changes_nothing(ask) && one_line(w),
        WriteConf::Old(w) => ask == Ask::<Text, Words>::Read(cfg.conf_path) && one_line(w),
        WriteConf::Store => ask matches Ask::Store(p, t) && p == cfg.conf_path && exists|wan: Text|
            #[trigger] is_conf(t, key, wan, found, cfg),
    }
}

/// What holds of the files at each stage, while the question `ask` stands.
spec fn files_inv(st: OnView, ask: AskView, files: Files, found: Files, cfg: CfgView) -> bool {
    match st {
        On::Start => files == found,
        On::Root => files == found && changes_nothing(ask),
        On::Load => files == found && changes_nothing(ask),
        On::Tool(_, _) => files == found && changes_nothing(ask),
        On::Survey(_) => files == found && changes_nothing(ask),
        On::Keys(_, _, _, m) => files == found && keys_files(m, ask, found, cfg),
        On::Pubkey(_, _, _, k) => {
            &&& key_is_there(files, found, cfg)
            &&& k == key_in(files, cfg)
            &&& read_of(files, cfg.conf_path) == read_of(found, cfg.conf_path)
            &&& changes_nothing(ask)
        },
        On::Conf(_, _, _, k, _, m) => {
            &&& key_is_there(files, found, cfg)
            &&& k == key_in(files, cfg)
            &&& read_of(files, cfg.conf_path) == read_of(found, cfg.conf_path)
            &&& conf_files(m, ask, k, found, cfg)
        },
        On::Over => true,
        _ => {
            &&& key_is_there(files, found, cfg)
            &&& conf_is_there(files, found, cfg)
            &&& changes_nothing(ask)
        },
    }
}

/// The configuration that a stage carries.
spec fn cfg_at(st: OnView, cfg: CfgView) -> bool {
    match st {
        On::Tool(c, _) => c == cfg,
        On::Survey(c) => c == cfg,
        On::Keys(c, _, _, _) => c == cfg,
        On::Pubkey(c, _, _, _) => c == cfg,
        On::Conf(c, _, _, _, _, _) => c == cfg,
        On::Up(c, _, _, _, _) => c == cfg,
        On::Register(c) => c == cfg,
        On::Systemd(c) => c == cfg,
        On::Unit(c) => c == cfg,
        On::Program(c) => c == cfg,
        _ => true,
    }
}

/// Only the turn that takes the registry's reply writes or removes a file by an effect.
proof fn lemma_on_effects(st: OnView, args: Words, version: Text, reply: Reply)
    requires
        !(st is Register),
    ensures
        forall|i: int|
            0 <= i < on_step(st, args, version, reply).1.effects.len() ==> is_plain(
                #[trigger] on_step(st, args, version, reply).1.effects[i],
            ),
{
    reveal(on_step);
}

/// The stages up to the key.
proof fn lemma_files_early(
    st: OnView,
    ask: AskView,
    found: Files,
    cfg: CfgView,
    args: Words,
    version: Text,
    reply: Reply,
)
    requires
        st is Start || st is Root || st is Load || st is Tool || st is Survey,
        cfg_at(st, cfg),
        st is Load ==> overridden(reply.cfg(), args) == cfg,
    ensures
        ({
            let (next, t) = on_step(st, args, version, reply);
            files_inv(next, t.ask, found, found, cfg) && cfg_at(next, cfg)
        }),
{
    reveal(on_step);
}

/// The stages of getting the key.
proof fn lemma_files_keys(
    st: OnView,
    m: Keys<Text>,
    ask: AskView,
    found: Files,
    cfg: CfgView,
    args: Words,
    version: Text,
    reply: Reply,
)
    requires
        st matches On::Keys(c, _, _, m2) && c == cfg && m2 == m,
        files_inv(st, ask, found, found, cfg),
        is_honest(found, ask, reply),
        is_separate(cfg),
    ensures
        ({
            let (next, t) = on_step(st, args, version, reply);
            files_inv(next, t.ask, after_answer(found, ask, reply), found, cfg) && cfg_at(next, cfg)
        }),
{
    reveal(on_step);
    if let Reply::Ran(Some(x)) = reply {
        law_trim_twice(x.stdout@);
    }
}

/// The stage of the public key.
proof fn lemma_files_pubkey(
    st: OnView,
    ask: AskView,
    files: Files,
    found: Files,
    cfg: CfgView,
    args: Words,
    version: Text,
    reply: Reply,
)
    requires
        st is Pubkey,
        cfg_at(st, cfg),
        files_inv(st, ask, files, found, cfg),
    ensures
        ({
            let (next, t) = on_step(st, args, version, reply);
            files_inv(next, t.ask, files, found, cfg) && cfg_at(next, cfg)
        }),
{
    reveal(on_step);
}

/// The stages of the configuration file before the old one is read.
proof fn lemma_files_route(
    st: OnView,
    m: WriteConf<Text>,
    ask: AskView,
    files: Files,
    found: Files,
    cfg: CfgView,
    args: Words,
    version: Text,
    reply: Reply,
)
    requires
        st matches On::Conf(c, _, _, _, _, m2) && c == cfg && m2 == m,
        files_inv(st, ask, files, found, cfg),
        is_honest(files, ask, reply),
        is_separate(cfg),
        !(m is Old) && !(m is Store),
    ensures
        ({
            let (next, t) = on_step(st, args, version, reply);
            files_inv(next, t.ask, after_answer(files, ask, reply), found, cfg) && cfg_at(next, cfg)
        }),
{
    reveal(on_step);
    let (next, t) = on_step(st, args, version, reply);
    lemma_route_dev(reply.output());
    assert(changes_nothing(ask));
    assert(changes_nothing(t.ask));
    match m {
        WriteConf::Route4 => {
            assert(next matches On::Conf(_, _, _, _, _, m2) && (m2 is Dir || m2 is Route6));
        },
        WriteConf::Route6 => {
            assert(next matches On::Conf(_, _, _, _, _, m2) && m2 is Dir);
        },
        WriteConf::Dir(w) => {
            assert(next is Over || next matches On::Conf(_, _, _, _, _, m2));
        },
        _ => {},
    }
}

/// The stage at which the old configuration file was asked for.
proof fn lemma_files_old(
    st: OnView,
    m: WriteConf<Text>,
    ask: AskView,
    files: Files,
    found: Files,
    cfg: CfgView,
    args: Words,
    version: Text,
    reply: Reply,
)
    requires
        st matches On::Conf(c, _, _, _, _, m2) && c == cfg && m2 == m,
        files_inv(st, ask, files, found, cfg),
        is_honest(files, ask, reply),
        is_separate(cfg),
        m is Old,
    ensures
        ({
            let (next, t) = on_step(st, args, version, reply);
            files_inv(next, t.ask, after_answer(files, ask, reply), found, cfg) && cfg_at(next, cfg)
        }),
{
    reveal(on_step);
    let key = key_in(files, cfg);
    let w = m->Old_0;
    let text = conf_text(cfg.vpn4, cfg.vpn6, cfg.port, key, w, reply.text());
    let (next, t) = on_step(st, args, version, reply);
    assert(is_conf(text, key, w, found, cfg));
    assert(t.ask == Ask::<Text, Words>::Store(cfg.conf_path, text));
    assert(is_conf(t.ask->Store_1, key, w, found, cfg));
    assert(conf_files(WriteConf::Store, t.ask, key, found, cfg));
    assert(next matches On::Conf(c, _, _, k, _, m2) && m2 == WriteConf::<Text>::Store && k == key
        && c == cfg);
    assert(after_answer(files, ask, reply) == files);
}

/// The stage at which the configuration file was written.
proof fn lemma_files_store(
    st: OnView,
    m: WriteConf<Text>,
    ask: AskView,
    files: Files,
    found: Files,
    cfg: CfgView,
    args: Words,
    version: Text,
    reply: Reply,
)
    requires
        st matches On::Conf(c, _, _, _, _, m2) && c == cfg && m2 == m,
        files_inv(st, ask, files, found, cfg),
        is_honest(files, ask, reply),
        is_separate(cfg),
        m is Store,
    ensures
        ({
            let (next, t) = on_step(st, args, version, reply);
            files_inv(next, t.ask, after_answer(files, ask, reply), found, cfg) && cfg_at(next, cfg)
        }),
{
    reveal(on_step);
    let key = key_in(files, cfg);
    let t = ask->Store_1;
    let wan = choose|wan: Text| #[trigger] is_conf(t, key, wan, found, cfg);
    let after = after_answer(files, ask, reply);
    if reply.done() is Ok {
        assert(after[cfg.conf_path] == t);
        assert(after[cfg.key_path] == files[cfg.key_path]);
        assert(is_conf(after[cfg.conf_path], key_in(after, cfg), wan, found, cfg));
    }
}

/// The stages from the interface on.
proof fn lemma_files_late(
    st: OnView,
    ask: AskView,
    files: Files,
    found: Files,
    cfg: CfgView,
    args: Words,
    version: Text,
    reply: Reply,
)
    requires
        st is Up || st is Systemd || st is Unit || st is Program,
        cfg_at(st, cfg),
        files_inv(st, ask, files, found, cfg),
    ensures
        ({
            let (next, t) = on_step(st, args, version, reply);
            files_inv(next, t.ask, files, found, cfg) && cfg_at(next, cfg)
        }),
{
    reveal(on_step);
}

/// The stage of the registration.
proof fn lemma_files_register(
    st: OnView,
    ask: AskView,
    files: Files,
    found: Files,
    cfg: CfgView,
    args: Words,
    version: Text,
    reply: Reply,
)
    requires
        st == On::<CfgView, Text>::Register(cfg),
        files_inv(st, ask, files, found, cfg),
        is_separate(cfg),
    ensures
        ({
            let (next, t) = on_step(st, args, version, reply);
            let after = after_effects(files, t.effects);
            &&& files_inv(next, t.ask, after, found, cfg)
            &&& cfg_at(next, cfg)
            &&& next is Systemd ==> remembers(st, cfg, reply, after)
            &&& next is Systemd || next is Over
        }),
{
    reveal(on_step);
    let (next, t) = on_step(st, args, version, reply);
    let none = Seq::<EffectView>::empty();
    if next is Systemd {
        let text = granted(cfg, reply)->0;
        let e1 = none.push(Effect::MakeDir(conf_dir()));
        let e2 = e1.push(Effect::Write(state_file(), text));
        lemma_after_push(files, none, Effect::MakeDir(conf_dir()));
        lemma_after_push(files, e1, Effect::Write(state_file(), text));
        lemma_after_push(files, e2, t.effects.last());
        assert(t.effects =~= e2.push(t.effects.last()));
        let after = files.insert(state_file(), text);
        assert(after_effects(files, t.effects) == after);
        let wan = choose|wan: Text| #[trigger]
            is_conf(files[cfg.conf_path], key_in(files, cfg), wan, found, cfg);
        assert(is_conf(after[cfg.conf_path], key_in(after, cfg), wan, found, cfg));
    }
}

/// The end is the end.
proof fn lemma_over(st: OnView, args: Words, version: Text, reply: Reply)
    requires
        st is Over,
    ensures
        on_step(st, args, version, reply).0 is Over,
{
    reveal(on_step);
}

/// What holds of the files after any replies.
proof fn lemma_files(args: Words, version: Text, replies: Seq<Reply>, found: Files, cfg: CfgView)
    requires
        replies.len() >= 3 ==> on_cfg(args, replies) == cfg,
        is_separate(cfg),
        reads_files(args, version, replies, found),
    ensures
        files_inv(
            on_after(args, version, replies),
            on_turn(args, version, replies).ask,
            on_files(args, version, replies, found),
            found,
            cfg,
        ) || replies.len() == 0,
        cfg_at(on_after(args, version, replies), cfg),
        replies.len() == 0 ==> on_files(args, version, replies, found) == found,
    decreases replies.len(),
{
    if replies.len() > 0 {
        let before = replies.drop_last();
        let reply = replies.last();
        let st = on_after(args, version, before);
        let ask = on_turn(args, version, before).ask;
        let files = on_files(args, version, before, found);
        lemma_files(args, version, before, found, cfg);
        lemma_on(args, version, before);
        if !(st is Register) {
            lemma_on_effects(st, args, version, reply);
            lemma_plain_effects(
                if before.len() == 0 {
                    files
                } else {
                    after_answer(files, ask, reply)
                },
                on_turn(args, version, replies).effects,
            );
        }
        match st {
            On::Start => lemma_files_early(st, ask, found, cfg, args, version, reply),
            On::Root => lemma_files_early(st, ask, found, cfg, args, version, reply),
            On::Load => lemma_files_early(st, ask, found, cfg, args, version, reply),
            On::Tool(_, _) => lemma_files_early(st, ask, found, cfg, args, version, reply),
            On::Survey(_) => lemma_files_early(st, ask, found, cfg, args, version, reply),
            On::Keys(_, _, _, m) => lemma_files_keys(
                st,
                m,
                ask,
                found,
                cfg,
                args,
                version,
                reply,
            ),
            On::Pubkey(_, _, _, _) => lemma_files_pubkey(
                st,
                ask,
                files,
                found,
                cfg,
                args,
                version,
                reply,
            ),
            On::Conf(_, _, _, _, _, m) => if m is Old {
                lemma_files_old(st, m, ask, files, found, cfg, args, version, reply);
            } else if m is Store {
                lemma_files_store(st, m, ask, files, found, cfg, args, version, reply);
            } else {
                lemma_files_route(st, m, ask, files, found, cfg, args, version, reply);
            },
            On::Register(_) => lemma_files_register(
                st,
                ask,
                files,
                found,
                cfg,
                args,
                version,
                reply,
            ),
            On::Over => lemma_over(st, args, version, reply),
            _ => lemma_files_late(st, ask, files, found, cfg, args, version, reply),
        }
    }
}

/// From the configuration file on, a step changes neither the key nor, once it is there, the
/// registration that is remembered.
proof fn lemma_key_stays(
    args: Words,
    version: Text,
    replies: Seq<Reply>,
    found: Files,
    cfg: CfgView,
)
    requires
        replies.len() > 3,
        on_cfg(args, replies) == cfg,
        is_separate(cfg),
        reads_files(args, version, replies, found),
        match on_after(args, version, replies.drop_last()) {
            On::Conf(_, _, _, _, _, _) => true,
            On::Up(_, _, _, _, _) => true,
            On::Register(_) => true,
            On::Systemd(_) => true,
            On::Unit(_) => true,
            On::Program(_) => true,
            _ => false,
        },
    ensures
        ({
            let before = replies.drop_last();
            let st = on_after(args, version, before);
            let old_files = on_files(args, version, before, found);
            let files = on_files(args, version, replies, found);
            &&& files[cfg.key_path] == old_files[cfg.key_path]
            &&& !(st is Register) ==> read_of(files, state_file()) == read_of(
                old_files,
                state_file(),
            )
        }),
{
    let before = replies.drop_last();
    let reply = replies.last();
    let st = on_after(args, version, before);
    let ask = on_turn(args, version, before).ask;
    let files = on_files(args, version, before, found);
    let es = on_turn(args, version, replies).effects;
    lemma_files(args, version, before, found, cfg);
    if st is Register {
        let none = Seq::<EffectView>::empty();
        let (next, t) = registered(cfg, reply);
        assert(on_step(st, args, version, reply) == (next, t)) by {
            reveal(on_step);
        }
        if next is Systemd {
            let text = granted(cfg, reply)->0;
            let e1 = none.push(Effect::MakeDir(conf_dir()));
            let e2 = e1.push(Effect::Write(state_file(), text));
            lemma_after_push(files, none, Effect::MakeDir(conf_dir()));
            lemma_after_push(files, e1, Effect::Write(state_file(), text));
            lemma_after_push(files, e2, t.effects.last());
            assert(t.effects =~= e2.push(t.effects.last()));
        } else {
            lemma_plain_effects(files, t.effects);
        }
    } else {
        lemma_on_effects(st, args, version, reply);
        lemma_plain_effects(after_answer(files, ask, reply), es);
        if let On::Conf(_, _, _, _, _, m) = st {
            assert(ask matches Ask::Store(p, _) ==> p == cfg.conf_path);
            assert(!(ask is Append));
        }
    }
}

/// The public key that goes into the registration was printed for the key in the key file; the
/// registration that is remembered is the one that was granted.
spec fn run_inv(
    args: Words,
    version: Text,
    replies: Seq<Reply>,
    st: OnView,
    files: Files,
    cfg: CfgView,
) -> bool {
    let key = key_in(files, cfg);
    match st {
        On::Up(_, _, _, p, _) => is_pubkey(args, version, replies, key, p),
        On::Register(_) => exists|p: Text| #[trigger]
            sends_registration(args, version, replies, cfg, key, p),
        On::Systemd(_) => is_complete_run(args, version, replies, files, cfg),
        On::Unit(_) => is_complete_run(args, version, replies, files, cfg),
        On::Program(_) => is_complete_run(args, version, replies, files, cfg),
        _ => true,
    }
}

/// The registration was sent with the public key of the key in the key file, and what was granted
/// is remembered.
spec fn is_complete_run(
    args: Words,
    version: Text,
    replies: Seq<Reply>,
    files: Files,
    cfg: CfgView,
) -> bool {
    &&& is_saved(args, version, replies, cfg, files)
    &&& exists|p: Text| #[trigger] registers(args, version, replies, cfg, key_in(files, cfg), p)
}

proof fn lemma_registers_stays(
    args: Words,
    version: Text,
    replies: Seq<Reply>,
    cfg: CfgView,
    key: Text,
    p: Text,
)
    requires
        replies.len() > 0,
        registers(args, version, replies.drop_last(), cfg, key, p),
    ensures
        registers(args, version, replies, cfg, key, p),
{
    reveal(registers);
    let before = replies.drop_last();
    let j = choose|j: int|
        0 <= j <= before.len() && #[trigger] sends_registration(
            args,
            version,
            before.take(j),
            cfg,
            key,
            p,
        );
    assert(before.take(j) =~= replies.take(j));
    assert(sends_registration(args, version, replies.take(j), cfg, key, p));
}

proof fn lemma_saved_stays(
    args: Words,
    version: Text,
    replies: Seq<Reply>,
    cfg: CfgView,
    files: Files,
    after: Files,
)
    requires
        replies.len() > 0,
        is_saved(args, version, replies.drop_last(), cfg, files),
        read_of(after, state_file()) == read_of(files, state_file()),
    ensures
        is_saved(args, version, replies, cfg, after),
{
    reveal(is_saved);
    let before = replies.drop_last();
    let j = choose|j: int|
        0 <= j < before.len() && #[trigger] remembers(
            on_after(args, version, before.take(j)),
            cfg,
            before[j],
            files,
        );
    assert(before.take(j) =~= replies.take(j));
    assert(remembers(on_after(args, version, replies.take(j)), cfg, replies[j], after));
}

/// The step that takes the registry's reply.
proof fn lemma_run_register(
    args: Words,
    version: Text,
    replies: Seq<Reply>,
    found: Files,
    cfg: CfgView,
)
    requires
        replies.len() > 3,
        on_cfg(args, replies) == cfg,
        is_separate(cfg),
        reads_files(args, version, replies, found),
        on_after(args, version, replies.drop_last()) == On::<CfgView, Text>::Register(cfg),
        run_inv(
            args,
            version,
            replies.drop_last(),
            On::Register(cfg),
            on_files(args, version, replies.drop_last(), found),
            cfg,
        ),
    ensures
        run_inv(
            args,
            version,
            replies,
            on_after(args, version, replies),
            on_files(args, version, replies, found),
            cfg,
        ),
{
    let before = replies.drop_last();
    let reply = replies.last();
    let n = before.len() as int;
    let st = on_after(args, version, before);
    let ask = on_turn(args, version, before).ask;
    let files = on_files(args, version, before, found);
    let after = on_files(args, version, replies, found);
    lemma_files(args, version, before, found, cfg);
    lemma_files_register(st, ask, files, found, cfg, args, version, reply);
    lemma_key_stays(args, version, replies, found, cfg);
    assert(replies.take(n) =~= before);
    assert(replies[n] == reply);
    if on_after(args, version, replies) is Systemd {
        let key = key_in(files, cfg);
        let p = choose|p: Text| #[trigger]
            sends_registration(args, version, before, cfg, key, p);
        assert(sends_registration(args, version, replies.take(n), cfg, key, p));
        assert(registers(args, version, replies, cfg, key, p)) by {
            reveal(registers);
        }
        assert(remembers(on_after(args, version, replies.take(n)), cfg, replies[n], after));
        assert(is_saved(args, version, replies, cfg, after)) by {
            reveal(is_saved);
        }
    }
}

/// Where writing the configuration file leads.
proof fn lemma_conf_step(st: OnView, args: Words, version: Text, reply: Reply)
    requires
        st is Conf,
    ensures
        match on_step(st, args, version, reply).0 {
            On::Conf(_, _, _, _, _, _) => true,
            On::Up(_, _, _, q, _) => st matches On::Conf(_, _, _, _, p, _) && q == p,
            On::Over => true,
            _ => false,
        },
{
    reveal(on_step);
}

/// Where bringing the interface up leads.
proof fn lemma_up_step(st: OnView, args: Words, version: Text, reply: Reply)
    requires
        st is Up,
    ensures
        ({
            let (next, t) = on_step(st, args, version, reply);
            st matches On::Up(cfg, v4, v6, p, _) && match next {
                On::Up(_, _, _, q, _) => q == p,
                On::Register(c) => c == cfg && t.ask == Ask::<Text, Words>::Feed(
                    post_command(register_url(cfg.registry)),
                    register_body(cfg.name, p, v4, v6, cfg.port, version),
                ),
                On::Over => true,
                _ => false,
            }
        }),
{
    reveal(on_step);
}

/// The steps of writing the configuration file and bringing the interface up.
proof fn lemma_run_up(
    args: Words,
    version: Text,
    replies: Seq<Reply>,
    found: Files,
    cfg: CfgView,
)
    requires
        replies.len() > 3,
        on_cfg(args, replies) == cfg,
        is_separate(cfg),
        reads_files(args, version, replies, found),
        on_after(args, version, replies.drop_last()) is Conf || on_after(
            args,
            version,
            replies.drop_last(),
        ) is Up,
        run_inv(
            args,
            version,
            replies.drop_last(),
            on_after(args, version, replies.drop_last()),
            on_files(args, version, replies.drop_last(), found),
            cfg,
        ),
    ensures
        run_inv(
            args,
            version,
            replies,
            on_after(args, version, replies),
            on_files(args, version, replies, found),
            cfg,
        ),
{
    let before = replies.drop_last();
    let reply = replies.last();
    let st = on_after(args, version, before);
    let key = key_in(on_files(args, version, before, found), cfg);
    lemma_files(args, version, before, found, cfg);
    lemma_key_stays(args, version, replies, found, cfg);
    lemma_on(args, version, before);
    assert(on_after(args, version, replies) == on_step(st, args, version, reply).0);
    assert(key_in(on_files(args, version, replies, found), cfg) == key);
    match st {
        On::Conf(c, v4, v6, k, p, m) => {
            assert(k == key);
            lemma_pubkey_stays(args, version, replies, key, p);
            lemma_conf_step(st, args, version, reply);
        },
        On::Up(c, v4, v6, p, m) => {
            lemma_pubkey_stays(args, version, replies, key, p);
            lemma_up_step(st, args, version, reply);
            if on_after(args, version, replies) is Register {
                assert(replies[7] == before[7]);
                assert(sends_registration(args, version, replies, cfg, key, p));
            }
        },
        _ => {},
    }
}

proof fn lemma_run(args: Words, version: Text, replies: Seq<Reply>, found: Files, cfg: CfgView)
    requires
        replies.len() >= 3 ==> on_cfg(args, replies) == cfg,
        is_separate(cfg),
        reads_files(args, version, replies, found),
    ensures
        run_inv(
            args,
            version,
            replies,
            on_after(args, version, replies),
            on_files(args, version, replies, found),
            cfg,
        ),
        has_content(found, cfg.key_path) ==> stores_no_key(args, version, replies),
    decreases replies.len(),
{
    lemma_files(args, version, replies, found, cfg);
    assert(replies.take(replies.len() as int) =~= replies);
    if replies.len() > 0 {
        let before = replies.drop_last();
        let st = on_after(args, version, before);
        let files = on_files(args, version, before, found);
        let after = on_files(args, version, replies, found);
        lemma_run(args, version, before, found, cfg);
        lemma_files(args, version, before, found, cfg);
        lemma_on(args, version, before);
        assert forall|i: int|
            has_content(found, cfg.key_path) && 0 <= i <= replies.len() implies !stores_key(
            #[trigger] on_after(args, version, replies.take(i)),
        ) by {
            if i < replies.len() {
                assert(replies.take(i) =~= before.take(i));
            }
        }
        lemma_run_step(args, version, replies, found, cfg);
    }
}

proof fn lemma_run_step(
    args: Words,
    version: Text,
    replies: Seq<Reply>,
    found: Files,
    cfg: CfgView,
)
    requires
        replies.len() > 0,
        replies.len() >= 3 ==> on_cfg(args, replies) == cfg,
        is_separate(cfg),
        reads_files(args, version, replies, found),
        on_inv(
            args,
            version,
            replies.drop_last(),
            on_after(args, version, replies.drop_last()),
        ),
        cfg_at(on_after(args, version, replies.drop_last()), cfg),
        run_inv(
            args,
            version,
            replies.drop_last(),
            on_after(args, version, replies.drop_last()),
            on_files(args, version, replies.drop_last(), found),
            cfg,
        ),
    ensures
        run_inv(
            args,
            version,
            replies,
            on_after(args, version, replies),
            on_files(args, version, replies, found),
            cfg,
        ),
{
    let before = replies.drop_last();
    let st = on_after(args, version, before);
    let files = on_files(args, version, before, found);
    let after = on_files(args, version, replies, found);
    assert(on_after(args, version, replies) == on_step(st, args, version, replies.last()).0);
    match st {
        On::Conf(_, _, _, _, _, _) => lemma_run_up(args, version, replies, found, cfg),
        On::Up(_, _, _, _, _) => lemma_run_up(args, version, replies, found, cfg),
        On::Register(_) => lemma_run_register(args, version, replies, found, cfg),
        On::Systemd(_) => {
            lemma_registered_is_late(args, version, before);
            lemma_late_step(st, args, version, replies.last());
            lemma_key_stays(args, version, replies, found, cfg);
            lemma_saved_stays(args, version, replies, cfg, files, after);
            let p = choose|p: Text| #[trigger]
                registers(args, version, before, cfg, key_in(files, cfg), p);
            lemma_registers_stays(args, version, replies, cfg, key_in(files, cfg), p);
            assert(registers(args, version, replies, cfg, key_in(after, cfg), p));
            assert(is_complete_run(args, version, replies, after, cfg));
        },
        _ => {
            lemma_not_late(st, args, version, replies.last());
        },
    }
}

/// The other stages lead to none that speaks of the registration.
proof fn lemma_not_late(st: OnView, args: Words, version: Text, reply: Reply)
    requires
        !(st is Conf) && !(st is Up) && !(st is Register) && !(st is Systemd),
    ensures
        ({
            let next = on_step(st, args, version, reply).0;
            !(next is Up) && !(next is Register) && !(next is Systemd) && !(next is Unit) && !(
            next is Program)
        }),
{
    reveal(on_step);
}

/// What comes before the last stages.
proof fn lemma_late_step(st: OnView, args: Words, version: Text, reply: Reply)
    ensures
        ({
            let next = on_step(st, args, version, reply).0;
            &&& next is Systemd ==> st is Register
            &&& next is Unit || next is Program ==> st is Systemd
            &&& st is Systemd ==> next is Unit || next is Program
        }),
{
    reveal(on_step);
}

/// The registration comes after the settings were read.
proof fn lemma_registered_is_late(args: Words, version: Text, replies: Seq<Reply>)
    requires
        on_after(args, version, replies) is Systemd,
    ensures
        replies.len() > 3,
{
    let before = replies.drop_last();
    lemma_late_step(on_after(args, version, before), args, version, replies.last());
    lemma_on(args, version, before);
}

// ---------------------------------------------------------------- twice

/// `wg` prints the same public key for the same private key in both runs.
pub open spec fn same_pubkeys(
    args: Words,
    version: Text,
    first: Seq<Reply>,
    second: Seq<Reply>,
) -> bool {
    forall|key: Text, p: Text, q: Text|
        #![trigger is_pubkey(args, version, first, key, p), is_pubkey(args, version, second, key, q)]
        is_pubkey(args, version, first, key, p) && is_pubkey(args, version, second, key, q) ==> p
            == q
}

/// The settings and the key make an interface section without a peer header, whatever the device.
pub open spec fn makes_no_peer(cfg: CfgView, key: Text) -> bool {
    forall|wan: Text|
        one_line(wan) ==> no_peer_header(
            #[trigger] header_read(cfg.vpn4, cfg.vpn6, cfg.port, key, wan),
        )
}

/// What a run that succeeds leaves.
proof fn lemma_success(
    args: Words,
    version: Text,
    replies: Seq<Reply>,
    found: Files,
    cfg: CfgView,
)
    requires
        succeeds(args, version, replies),
        on_cfg(args, replies) == cfg,
        is_separate(cfg),
        reads_files(args, version, replies, found),
    ensures
        ({
            let files = on_files(args, version, replies, found);
            &&& is_complete_run(args, version, replies, files, cfg)
            &&& key_is_there(files, found, cfg)
            &&& conf_is_there(files, found, cfg)
        }),
        has_content(found, cfg.key_path) ==> stores_no_key(args, version, replies),
{
    let before = replies.drop_last();
    let reply = replies.last();
    let st = on_after(args, version, before);
    let ask = on_turn(args, version, before).ask;
    let files = on_files(args, version, before, found);
    lemma_ends(st, args, version, reply);
    lemma_on(args, version, before);
    lemma_late(args, version, before);
    lemma_run(args, version, replies, found, cfg);
    lemma_run(args, version, before, found, cfg);
    lemma_files(args, version, before, found, cfg);
    lemma_on_effects(st, args, version, reply);
    lemma_plain_effects(
        after_answer(files, ask, reply),
        on_turn(args, version, replies).effects,
    );
    assert(on_files(args, version, replies, found) == files);
    lemma_saved_stays(args, version, replies, cfg, files, files);
    let p = choose|p: Text| #[trigger]
        registers(args, version, before, cfg, key_in(files, cfg), p);
    lemma_registers_stays(args, version, replies, cfg, key_in(files, cfg), p);
}

/// Success comes from the stage that starts the daemon.
proof fn lemma_ends(st: OnView, args: Words, version: Text, reply: Reply)
    requires
        on_step(st, args, version, reply).1.ask == Ask::<Text, Words>::Exit(0),
        !(st is Over),
    ensures
        st is Unit || st is Program,
{
    reveal(on_step);
}

proof fn lemma_late(args: Words, version: Text, replies: Seq<Reply>)
    requires
        on_after(args, version, replies) is Unit || on_after(args, version, replies) is Program,
    ensures
        replies.len() > 3,
{
    let before = replies.drop_last();
    lemma_late_step(on_after(args, version, before), args, version, replies.last());
    lemma_registered_is_late(args, version, before);
}

/// Switching on is idempotent. Where two runs with the same arguments and settings succeed, and
/// the second finds the key file as the first left it, the second stores no key and leaves the key
/// file as it is. Both register under the public key that `wg` prints for that key. The second
/// writes the interface section and, after it, every line of the peer sections that it finds;
/// these are the peer sections of the new file where the interface section makes none and no such
/// line is read with a carriage return at its end. It remembers the id and the secret that the
/// registry's newest reply grants. The key file must not be blank, and the key, the configuration
/// and the registration must be in different files.
pub proof fn law_on_is_idempotent(
    args: Words,
    version: Text,
    first: Seq<Reply>,
    second: Seq<Reply>,
    found: Files,
    between: Files,
    cfg: CfgView,
)
    requires
        succeeds(args, version, first),
        succeeds(args, version, second),
        on_cfg(args, first) == cfg,
        on_cfg(args, second) == cfg,
        is_separate(cfg),
        reads_files(args, version, first, found),
        reads_files(args, version, second, between),
        read_of(between, cfg.key_path) == read_of(
            on_files(args, version, first, found),
            cfg.key_path,
        ),
        has_content(between, cfg.key_path),
        same_pubkeys(args, version, first, second),
    ensures
        ({
            let left = on_files(args, version, second, between);
            let key = key_in(between, cfg);
            &&& stores_no_key(args, version, second)
            &&& read_of(left, cfg.key_path) == read_of(between, cfg.key_path)
            &&& exists|p: Text|
                #![trigger registers(args, version, first, cfg, key, p)]
                registers(args, version, first, cfg, key, p) && registers(
                    args,
                    version,
                    second,
                    cfg,
                    key,
                    p,
                )
            &&& is_saved(args, version, second, cfg, left)
            &&& left.contains_key(cfg.conf_path)
            &&& exists|wan: Text| #[trigger]
                is_conf(left[cfg.conf_path], key, wan, between, cfg)
            &&& between.contains_key(cfg.conf_path) && makes_no_peer(cfg, key) && clean(
                peers_in(between[cfg.conf_path]),
            ) == peers_in(between[cfg.conf_path]) ==> peers_in(left[cfg.conf_path]) == peers_in(
                between[cfg.conf_path],
            )
        }),
{
    let once = on_files(args, version, first, found);
    let left = on_files(args, version, second, between);
    let key = key_in(between, cfg);
    lemma_success(args, version, first, found, cfg);
    lemma_success(args, version, second, between, cfg);
    assert(key_in(once, cfg) == key);
    assert(key_in(left, cfg) == key);
    let p = choose|p: Text| #[trigger] registers(args, version, first, cfg, key, p);
    let q = choose|q: Text| #[trigger] registers(args, version, second, cfg, key, q);
    lemma_registers_pubkey(args, version, first, cfg, key, p);
    lemma_registers_pubkey(args, version, second, cfg, key, q);
    assert(p == q);
    let wan = choose|wan: Text| #[trigger]
        is_conf(left[cfg.conf_path], key_in(left, cfg), wan, between, cfg);
    if between.contains_key(cfg.conf_path) && makes_no_peer(cfg, key) && clean(
        peers_in(between[cfg.conf_path]),
    ) == peers_in(between[cfg.conf_path]) {
        assert(no_peer_header(header_read(cfg.vpn4, cfg.vpn6, cfg.port, key, wan)));
        law_peers_are_kept(
            cfg.vpn4,
            cfg.vpn6,
            cfg.port,
            key,
            wan,
            between[cfg.conf_path],
        );
    }
}

/// The public key of a registration was printed in the run.
proof fn lemma_registers_pubkey(
    args: Words,
    version: Text,
    replies: Seq<Reply>,
    cfg: CfgView,
    key: Text,
    p: Text,
)
    requires
        registers(args, version, replies, cfg, key, p),
    ensures
        is_pubkey(args, version, replies, key, p),
{
    reveal(registers);
    let j = choose|j: int|
        0 <= j <= replies.len() && #[trigger] sends_registration(
            args,
            version,
            replies.take(j),
            cfg,
            key,
            p,
        );
    lemma_pubkey_from(args, version, replies, j, key, p);
}

proof fn lemma_pubkey_from(
    args: Words,
    version: Text,
    replies: Seq<Reply>,
    j: int,
    key: Text,
    p: Text,
)
    requires
        0 <= j <= replies.len(),
        is_pubkey(args, version, replies.take(j), key, p),
    ensures
        is_pubkey(args, version, replies, key, p),
    decreases replies.len() - j,
{
    if j == replies.len() {
        assert(replies.take(j) =~= replies);
    } else {
        assert(replies.take(j + 1).drop_last() =~= replies.take(j));
        lemma_pubkey_stays(args, version, replies.take(j + 1), key, p);
        lemma_pubkey_from(args, version, replies, j + 1, key, p);
    }
}

} // verus!
