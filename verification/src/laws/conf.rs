//! What the agent does to the configuration file.

use crate::address::{numbers, octets};
use crate::conf::{before_gap, body_len, conf_text, conf_without, first_four, has_line, has_peer};
use crate::conf::{has_empty_section, header_lines, headers_joined, in_peer_at, is_header};
use crate::conf::{is_peer_header, joined, key_line, lemma_body_len};
use crate::conf::{lines_without, mask, missing_section, network_v4, network_v6, packed, peer_lines};
use crate::conf::{prefix_bits, pruned, rules, section_len, section_without, unlines};
use crate::laws::text::{all_one_line, blank, clean, law_lines_of_unlines, lemma_lacks_add};
use crate::laws::text::{lemma_lines_add, lemma_lines_are_lines, lemma_span_of};
use crate::laws::text::{lemma_stripped_is_blank, lemma_trim_blank};
use crate::laws::text::{lemma_trim_keeps_first, lemma_trim_without_cr, one_line};
use crate::laws::words::law_trimmed;
use crate::number::{decimal, is_digit, law_parse_of_decimal, lemma_decimal};
use crate::reply::PeerView;
use crate::text::{find, halves, lemma_find, lemma_span_bound, lines, occurs, occurs_at, pieces};
use crate::text::{span, starts, strip_back, strip_front, trimmed, without_cr, CharClass};
use vstd::prelude::*;

verus! {

proof fn lemma_literals()
    ensures
        one_line("# Generated by vpnyellod — peers below are managed (do not hand-edit header)."@),
        one_line("[Interface]"@),
        one_line("Address = "@),
        one_line(", "@),
        one_line("ListenPort = "@),
        one_line("PrivateKey = "@),
        one_line("PostUp = "@),
        one_line("PostDown = "@),
        one_line("iptables"@),
        one_line("ip6tables"@),
        one_line("A"@),
        one_line("D"@),
        one_line(" -"@),
        one_line(" FORWARD -i %i -j ACCEPT; "@),
        one_line(" FORWARD -o %i -j ACCEPT; "@),
        one_line(" -t nat -"@),
        one_line(" POSTROUTING -s "@),
        one_line(" -o "@),
        one_line(" -j MASQUERADE"@),
        one_line("."@),
        one_line("/"@),
        one_line(":"@),
        one_line("::/64"@),
{
    reveal_strlit("# Generated by vpnyellod — peers below are managed (do not hand-edit header).");
    reveal_strlit("[Interface]");
    reveal_strlit("Address = ");
    reveal_strlit(", ");
    reveal_strlit("ListenPort = ");
    reveal_strlit("PrivateKey = ");
    reveal_strlit("PostUp = ");
    reveal_strlit("PostDown = ");
    reveal_strlit("iptables");
    reveal_strlit("ip6tables");
    reveal_strlit("A");
    reveal_strlit("D");
    reveal_strlit(" -");
    reveal_strlit(" FORWARD -i %i -j ACCEPT; ");
    reveal_strlit(" FORWARD -o %i -j ACCEPT; ");
    reveal_strlit(" -t nat -");
    reveal_strlit(" POSTROUTING -s ");
    reveal_strlit(" -o ");
    reveal_strlit(" -j MASQUERADE");
    reveal_strlit(".");
    reveal_strlit("/");
    reveal_strlit(":");
    reveal_strlit("::/64");
}

/// Two texts without a newline make one without a newline.
proof fn lemma_one_line_add(a: Seq<char>, b: Seq<char>)
    requires
        one_line(a),
        one_line(b),
    ensures
        one_line(a + b),
{
    lemma_lacks_add(a, b, '\n');
}

proof fn lemma_one_line_part(s: Seq<char>, from: int, to: int)
    requires
        one_line(s),
        0 <= from <= to <= s.len(),
    ensures
        one_line(s.subrange(from, to)),
{
    let t = s.subrange(from, to);
    if t.contains('\n') {
        let i = choose|i: int| 0 <= i < t.len() && t[i] == '\n';
        assert(s[from + i] == '\n');
    }
}

proof fn lemma_one_line_decimal(n: nat)
    ensures
        one_line(decimal(n)),
{
    lemma_decimal(n);
    let d = decimal(n);
    if d.contains('\n') {
        let i = choose|i: int| 0 <= i < d.len() && d[i] == '\n';
        assert(is_digit(d[i]));
    }
}

proof fn lemma_one_line_pieces(s: Seq<char>, c: char)
    requires
        one_line(s),
    ensures
        all_one_line(pieces(s, c)),
    decreases s.len(),
{
    let k = span(s, CharClass::Only(c)) as int;
    lemma_span_bound(s, CharClass::Only(c));
    if k < s.len() {
        assert(s.take(k) =~= s.subrange(0, k));
        lemma_one_line_part(s, 0, k);
        assert(s.skip(k + 1) =~= s.subrange(k + 1, s.len() as int));
        lemma_one_line_part(s, k + 1, s.len() as int);
        lemma_one_line_pieces(s.skip(k + 1), c);
        let tail = pieces(s.skip(k + 1), c);
        let all = seq![s.take(k)] + tail;
        assert forall|i: int| 0 <= i < all.len() implies one_line(#[trigger] all[i]) by {
            if i > 0 {
                assert(all[i] == tail[i - 1]);
            }
        }
    }
}

proof fn lemma_one_line_joined(ps: Seq<Seq<char>>)
    requires
        all_one_line(ps),
    ensures
        one_line(joined(ps)),
    decreases ps.len(),
{
    lemma_literals();
    if ps.len() == 1 {
        assert(one_line(ps[0]));
    } else if ps.len() > 1 {
        let init = ps.drop_last();
        assert forall|i: int| 0 <= i < init.len() implies one_line(#[trigger] init[i]) by {
            assert(init[i] == ps[i]);
        }
        lemma_one_line_joined(init);
        assert(one_line(ps[ps.len() - 1]));
        lemma_one_line_add(joined(init), ":"@);
        lemma_one_line_add(joined(init) + ":"@, ps.last());
    }
}

proof fn lemma_one_line_v4(vpn4: Seq<char>)
    requires
        one_line(vpn4),
    ensures
        one_line(network_v4(vpn4)),
{
    lemma_literals();
    let (ip, prefix) = match halves(vpn4, '/') {
        Some(h) => h,
        None => (vpn4, "24"@),
    };
    let o = octets(ip);
    let p = prefix_bits(prefix);
    if o.len() == 4 {
        let net = packed(o[0] as u32, o[1] as u32, o[2] as u32, o[3] as u32) & mask(p as u32);
        let a = decimal(((net >> 24) & 255) as nat);
        let b = decimal(((net >> 16) & 255) as nat);
        let c = decimal(((net >> 8) & 255) as nat);
        let d = decimal((net & 255) as nat);
        lemma_one_line_decimal(((net >> 24) & 255) as nat);
        lemma_one_line_decimal(((net >> 16) & 255) as nat);
        lemma_one_line_decimal(((net >> 8) & 255) as nat);
        lemma_one_line_decimal((net & 255) as nat);
        lemma_one_line_decimal(p);
        lemma_one_line_add(a, "."@);
        lemma_one_line_add(a + "."@, b);
        lemma_one_line_add(a + "."@ + b, "."@);
        lemma_one_line_add(a + "."@ + b + "."@, c);
        lemma_one_line_add(a + "."@ + b + "."@ + c, "."@);
        lemma_one_line_add(a + "."@ + b + "."@ + c + "."@, d);
        lemma_one_line_add(a + "."@ + b + "."@ + c + "."@ + d, "/"@);
        lemma_one_line_add(a + "."@ + b + "."@ + c + "."@ + d + "/"@, decimal(p));
    }
}

proof fn lemma_one_line_v6(vpn6: Seq<char>)
    requires
        one_line(vpn6),
    ensures
        one_line(network_v6(vpn6)),
{
    lemma_literals();
    if occurs(vpn6, "/64"@) {
        lemma_find(vpn6, "::"@);
        let base = before_gap(vpn6);
        if let Some(i) = find(vpn6, "::"@) {
            assert(base =~= vpn6.subrange(0, i));
            lemma_one_line_part(vpn6, 0, i);
        }
        lemma_one_line_pieces(base, ':');
        let ps = first_four(pieces(base, ':'));
        assert forall|i: int| 0 <= i < ps.len() implies one_line(#[trigger] ps[i]) by {
            assert(ps[i] == pieces(base, ':')[i]);
        }
        lemma_one_line_joined(ps);
        lemma_one_line_add(joined(ps), "::/64"@);
    }
}

proof fn lemma_one_line_rules(cmd: Seq<char>, op: Seq<char>, net: Seq<char>, wan: Seq<char>)
    requires
        one_line(cmd),
        one_line(op),
        one_line(net),
        one_line(wan),
    ensures
        one_line(rules(cmd, op, net, wan)),
{
    lemma_literals();
    let r1 = cmd + " -"@;
    let r2 = r1 + op;
    let r3 = r2 + " FORWARD -i %i -j ACCEPT; "@;
    let r4 = r3 + cmd;
    let r5 = r4 + " -"@;
    let r6 = r5 + op;
    let r7 = r6 + " FORWARD -o %i -j ACCEPT; "@;
    let r8 = r7 + cmd;
    let r9 = r8 + " -t nat -"@;
    let r10 = r9 + op;
    let r11 = r10 + " POSTROUTING -s "@;
    let r12 = r11 + net;
    let r13 = r12 + " -o "@;
    let r14 = r13 + wan;
    lemma_one_line_add(cmd, " -"@);
    lemma_one_line_add(r1, op);
    lemma_one_line_add(r2, " FORWARD -i %i -j ACCEPT; "@);
    lemma_one_line_add(r3, cmd);
    lemma_one_line_add(r4, " -"@);
    lemma_one_line_add(r5, op);
    lemma_one_line_add(r6, " FORWARD -o %i -j ACCEPT; "@);
    lemma_one_line_add(r7, cmd);
    lemma_one_line_add(r8, " -t nat -"@);
    lemma_one_line_add(r9, op);
    lemma_one_line_add(r10, " POSTROUTING -s "@);
    lemma_one_line_add(r11, net);
    lemma_one_line_add(r12, " -o "@);
    lemma_one_line_add(r13, wan);
    lemma_one_line_add(r14, " -j MASQUERADE"@);
}

/// A text that starts with neither white space nor a bracket is no peer header.
proof fn lemma_no_header(s: Seq<char>)
    requires
        s.len() > 0,
        s[0] == '#' || s[0] == 'A' || s[0] == 'L' || s[0] == 'P',
    ensures
        trimmed(s) != "[Peer]"@,
{
    reveal_strlit("[Peer]");
    lemma_trim_keeps_first(s);
}

/// Texts without a newline make an interface section whose lines are lines, none of them a peer
/// header.
proof fn lemma_header(
    vpn4: Seq<char>,
    vpn6: Seq<char>,
    port: nat,
    key: Seq<char>,
    wan: Seq<char>,
)
    requires
        one_line(vpn4),
        one_line(vpn6),
        one_line(trimmed(key)),
        one_line(wan),
    ensures
        all_one_line(header_lines(vpn4, vpn6, port, key, wan)),
        forall|i: int|
            0 <= i < 10 ==> trimmed(#[trigger] header_lines(vpn4, vpn6, port, key, wan)[i])
                != "[Peer]"@,
{
    let n4 = network_v4(vpn4);
    let n6 = network_v6(vpn6);
    let h = header_lines(vpn4, vpn6, port, key, wan);
    lemma_literals();
    lemma_one_line_v4(vpn4);
    lemma_one_line_v6(vpn6);
    lemma_one_line_decimal(port);
    lemma_one_line_add("Address = "@, vpn4);
    lemma_one_line_add("Address = "@ + vpn4, ", "@);
    lemma_one_line_add("Address = "@ + vpn4 + ", "@, vpn6);
    lemma_one_line_add("ListenPort = "@, decimal(port));
    lemma_one_line_add("PrivateKey = "@, trimmed(key));
    lemma_one_line_rules("iptables"@, "A"@, n4, wan);
    lemma_one_line_rules("iptables"@, "D"@, n4, wan);
    lemma_one_line_rules("ip6tables"@, "A"@, n6, wan);
    lemma_one_line_rules("ip6tables"@, "D"@, n6, wan);
    lemma_one_line_add("PostUp = "@, rules("iptables"@, "A"@, n4, wan));
    lemma_one_line_add("PostDown = "@, rules("iptables"@, "D"@, n4, wan));
    lemma_one_line_add("PostUp = "@, rules("ip6tables"@, "A"@, n6, wan));
    lemma_one_line_add("PostDown = "@, rules("ip6tables"@, "D"@, n6, wan));
    reveal_strlit("# Generated by vpnyellod — peers below are managed (do not hand-edit header).");
    reveal_strlit("[Interface]");
    reveal_strlit("[Peer]");
    reveal_strlit("Address = ");
    reveal_strlit("ListenPort = ");
    reveal_strlit("PrivateKey = ");
    reveal_strlit("PostUp = ");
    reveal_strlit("PostDown = ");
    lemma_no_header(h[0]);
    lemma_no_header(h[2]);
    lemma_no_header(h[3]);
    lemma_no_header(h[4]);
    lemma_no_header(h[5]);
    lemma_no_header(h[6]);
    lemma_no_header(h[7]);
    lemma_no_header(h[8]);
    assert(trimmed("[Interface]"@) == "[Interface]"@) by {
        assert(!CharClass::Space.contains("[Interface]"@[0]));
        assert(!CharClass::Space.contains("[Interface]"@.last()));
    }
    assert(trimmed(h[9]) =~= seq![]);
    assert(one_line(h[9]));
}

// ---------------------------------------------------------------- peers are carried over

proof fn lemma_peer_lines_skip(ls: Seq<Seq<char>>, rest: Seq<Seq<char>>)
    requires
        forall|i: int| 0 <= i < ls.len() ==> trimmed(#[trigger] ls[i]) != "[Peer]"@,
    ensures
        peer_lines(ls + rest, false) == peer_lines(rest, false),
    decreases ls.len(),
{
    if ls.len() == 0 {
        assert(ls + rest =~= rest);
    } else {
        let all = ls + rest;
        assert(all[0] == ls[0]);
        assert(trimmed(ls[0]) != "[Peer]"@);
        assert(all.skip(1) =~= ls.skip(1) + rest);
        assert forall|i: int| 0 <= i < ls.skip(1).len() implies trimmed(#[trigger] ls.skip(1)[i])
            != "[Peer]"@ by {
            assert(ls.skip(1)[i] == ls[i + 1]);
        }
        lemma_peer_lines_skip(ls.skip(1), rest);
    }
}

/// What is outside a peer section starts one with its header.
proof fn lemma_peer_lines_first(ls: Seq<Seq<char>>)
    ensures
        peer_lines(ls, false).len() > 0 ==> trimmed(peer_lines(ls, false)[0]) == "[Peer]"@,
    decreases ls.len(),
{
    if ls.len() > 0 && !in_peer_at(ls[0], false) {
        lemma_peer_lines_first(ls.skip(1));
    }
}

/// The lines of peer sections are all kept when they are looked through again.
proof fn lemma_peer_lines_twice(ls: Seq<Seq<char>>, b: bool)
    ensures
        peer_lines(peer_lines(ls, b), b) == peer_lines(ls, b),
    decreases ls.len(),
{
    if ls.len() > 0 {
        let now = in_peer_at(ls[0], b);
        let rest = peer_lines(ls.skip(1), now);
        lemma_peer_lines_twice(ls.skip(1), now);
        if now {
            let kept = seq![ls[0]] + rest;
            assert(kept[0] == ls[0]);
            assert(kept.skip(1) =~= rest);
        } else if b {
            lemma_peer_lines_first(ls.skip(1));
        }
    }
}

proof fn lemma_peer_lines_one_line(ls: Seq<Seq<char>>, b: bool)
    requires
        all_one_line(ls),
    ensures
        all_one_line(peer_lines(ls, b)),
    decreases ls.len(),
{
    if ls.len() > 0 {
        let now = in_peer_at(ls[0], b);
        let tail = ls.skip(1);
        assert forall|i: int| 0 <= i < tail.len() implies one_line(#[trigger] tail[i]) by {
            assert(tail[i] == ls[i + 1]);
        }
        lemma_peer_lines_one_line(tail, now);
        let rest = peer_lines(tail, now);
        let kept = seq![ls[0]] + rest;
        assert forall|i: int| 0 <= i < kept.len() implies one_line(#[trigger] kept[i]) by {
            if i > 0 {
                assert(kept[i] == rest[i - 1]);
            }
        }
    }
}

/// The lines of the peer sections of a configuration.
pub open spec fn peers_in(conf: Seq<char>) -> Seq<Seq<char>> {
    peer_lines(lines(conf), false)
}

/// No line is a peer header.
pub open spec fn no_peer_header(ls: Seq<Seq<char>>) -> bool {
    forall|i: int| 0 <= i < ls.len() ==> trimmed(#[trigger] ls[i]) != "[Peer]"@
}

/// The lines of the interface section, as they are read.
pub open spec fn header_read(
    vpn4: Seq<char>,
    vpn6: Seq<char>,
    port: nat,
    key: Seq<char>,
    wan: Seq<char>,
) -> Seq<Seq<char>> {
    lines(unlines(header_lines(vpn4, vpn6, port, key, wan)))
}

/// Settings without a newline make an interface section without a peer header.
pub proof fn law_plain_settings_make_no_peer(
    vpn4: Seq<char>,
    vpn6: Seq<char>,
    port: nat,
    key: Seq<char>,
    wan: Seq<char>,
)
    requires
        one_line(vpn4),
        one_line(vpn6),
        one_line(trimmed(key)),
        one_line(wan),
    ensures
        no_peer_header(header_read(vpn4, vpn6, port, key, wan)),
{
    let h = header_lines(vpn4, vpn6, port, key, wan);
    let empty = Seq::<char>::empty();
    lemma_header(vpn4, vpn6, port, key, wan);
    law_lines_of_unlines(h, empty);
    assert(unlines(h) + empty =~= unlines(h));
    assert(clean(h) + lines(empty) =~= clean(h));
    assert forall|i: int| 0 <= i < clean(h).len() implies trimmed(#[trigger] clean(h)[i])
        != "[Peer]"@ by {
        assert(clean(h)[i] == without_cr(h[i]));
        lemma_trim_without_cr(h[i]);
    }
}

/// Writing the configuration file anew keeps the peer sections of the old file, line for line,
/// where the settings make no peer header and no line of a peer section is read with a carriage
/// return at its end.
pub proof fn law_peers_are_kept(
    vpn4: Seq<char>,
    vpn6: Seq<char>,
    port: nat,
    key: Seq<char>,
    wan: Seq<char>,
    conf: Seq<char>,
)
    requires
        no_peer_header(header_read(vpn4, vpn6, port, key, wan)),
        clean(peers_in(conf)) == peers_in(conf),
    ensures
        peers_in(conf_text(vpn4, vpn6, port, key, wan, Some(conf))) == peers_in(conf),
{
    let h = header_lines(vpn4, vpn6, port, key, wan);
    let kept = peers_in(conf);
    let empty = Seq::<char>::empty();
    lemma_lines_are_lines(conf);
    lemma_peer_lines_one_line(lines(conf), false);
    assert(unlines(h).last() == '\n') by {
        assert(h.last().push('\n').last() == '\n');
    }
    lemma_lines_add(unlines(h), unlines(kept));
    law_lines_of_unlines(kept, empty);
    assert(unlines(kept) + empty =~= unlines(kept));
    assert(clean(kept) + lines(empty) =~= kept);
    lemma_peer_lines_skip(lines(unlines(h)), kept);
    lemma_peer_lines_twice(lines(conf), false);
}

/// Writing the configuration file a second time, from the file that the first time left, changes
/// nothing.
pub proof fn law_second_write_changes_nothing(
    vpn4: Seq<char>,
    vpn6: Seq<char>,
    port: nat,
    key: Seq<char>,
    wan: Seq<char>,
    conf: Seq<char>,
)
    requires
        no_peer_header(header_read(vpn4, vpn6, port, key, wan)),
        clean(peers_in(conf)) == peers_in(conf),
    ensures
        ({
            let first = conf_text(vpn4, vpn6, port, key, wan, Some(conf));
            conf_text(vpn4, vpn6, port, key, wan, Some(first)) == first
        }),
{
    law_peers_are_kept(vpn4, vpn6, port, key, wan, conf);
}

// ---------------------------------------------------------------- a peer is added once

/// A configuration to which a peer was added needs no more adding of that peer.
pub proof fn law_added_once(conf: Seq<char>, p: PeerView)
    ensures
        missing_section(conf, p) matches Some(s) ==> missing_section(conf + s, p) is None,
{
    if let Some(s) = missing_section(conf, p) {
        let key = key_line(p.client_pubkey);
        let all = conf + s;
        let at = (conf.len() + "\n[Peer]\n"@.len()) as int;
        assert(all.subrange(at, at + key.len()) =~= key);
        assert(occurs_at(all, key, at));
    }
}

// ---------------------------------------------------------------- a peer is taken out

proof fn lemma_pruned(ls: Seq<Seq<char>>, key: Seq<char>, skip: bool)
    ensures
        !has_line(pruned(ls, key, skip), key),
        all_one_line(ls) ==> all_one_line(pruned(ls, key, skip)),
    decreases ls.len(),
{
    if ls.len() > 0 {
        let tail = ls.skip(1);
        assert(all_one_line(ls) ==> all_one_line(tail)) by {
            assert forall|i: int| all_one_line(ls) && 0 <= i < tail.len() implies one_line(
                #[trigger] tail[i],
            ) by {
                assert(tail[i] == ls[i + 1]);
            }
        }
        lemma_pruned(tail, key, false);
        lemma_pruned(tail, key, true);
        let rest = pruned(tail, key, false);
        let kept = seq![ls[0]] + rest;
        if trimmed(ls[0]) != key {
            assert forall|i: int| 0 <= i < kept.len() implies trimmed(#[trigger] kept[i]) != key by {
                if i > 0 {
                    assert(kept[i] == rest[i - 1]);
                }
            }
        }
        assert forall|i: int| all_one_line(ls) && 0 <= i < kept.len() implies one_line(
            #[trigger] kept[i],
        ) by {
            if i > 0 {
                assert(kept[i] == rest[i - 1]);
            }
        }
    }
}

proof fn lemma_pruned_same(ls: Seq<Seq<char>>, key: Seq<char>)
    requires
        !has_line(ls, key),
    ensures
        pruned(ls, key, false) == ls,
    decreases ls.len(),
{
    if ls.len() > 0 {
        let tail = ls.skip(1);
        assert(trimmed(ls[0]) != key);
        assert(!has_line(tail, key)) by {
            assert forall|i: int| 0 <= i < tail.len() implies trimmed(#[trigger] tail[i]) != key by {
                assert(tail[i] == ls[i + 1]);
            }
        }
        lemma_pruned_same(tail, key);
        assert(seq![ls[0]] + tail =~= ls);
    } else {
        assert(pruned(ls, key, false) =~= ls);
    }
}

proof fn lemma_lines_without(ls: Seq<Seq<char>>, key: Seq<char>)
    ensures
        !has_line(lines_without(ls, key), key),
        all_one_line(ls) ==> all_one_line(lines_without(ls, key)),
    decreases ls.len(),
{
    if ls.len() > 0 {
        let n = section_len(ls) as int;
        lemma_body_len(ls.skip(1));
        let section = ls.take(n);
        let left = section_without(section, key);
        let rest = lines_without(ls.skip(n), key);
        lemma_pruned(section, key, false);
        lemma_lines_without(ls.skip(n), key);
        let all = left + rest;
        assert forall|i: int| 0 <= i < all.len() implies trimmed(#[trigger] all[i]) != key by {
            if i < left.len() {
                assert(all[i] == left[i]);
            } else {
                assert(all[i] == rest[i - left.len()]);
            }
        }
        if all_one_line(ls) {
            assert forall|i: int| 0 <= i < section.len() implies one_line(#[trigger] section[i]) by {
                assert(section[i] == ls[i]);
            }
            assert forall|i: int| 0 <= i < ls.skip(n).len() implies one_line(
                #[trigger] ls.skip(n)[i],
            ) by {
                assert(ls.skip(n)[i] == ls[i + n]);
            }
            assert forall|i: int| 0 <= i < all.len() implies one_line(#[trigger] all[i]) by {
                if i < left.len() {
                    assert(all[i] == left[i]);
                } else {
                    assert(all[i] == rest[i - left.len()]);
                }
            }
        }
    }
}

/// Two peer headers make one.
proof fn lemma_joined_line(ls: Seq<Seq<char>>)
    requires
        has_empty_section(ls),
    ensures
        is_peer_header(ls[0] + ls[2].skip("[Peer]"@.len() as int)),
        one_line(ls[0]) && one_line(ls[2]) ==> one_line(
            ls[0] + ls[2].skip("[Peer]"@.len() as int),
        ),
{
    let k = CharClass::Space;
    let l = ls[2];
    let tail = l.skip("[Peer]"@.len() as int);
    reveal_strlit("[Peer]");
    assert(l[0] == l.take("[Peer]"@.len() as int)[0]);
    assert(strip_front(l, k) == l);
    lemma_stripped_is_blank(l);
    lemma_trim_blank(ls[0], tail);
    if one_line(ls[0]) && one_line(l) {
        lemma_one_line_part(l, "[Peer]"@.len() as int, l.len() as int);
        assert(tail =~= l.subrange("[Peer]"@.len() as int, l.len() as int));
        lemma_one_line_add(ls[0], tail);
    }
}

proof fn lemma_headers_joined(ls: Seq<Seq<char>>, key: Seq<char>)
    requires
        key != "[Peer]"@,
        !has_line(ls, key),
    ensures
        !has_line(headers_joined(ls), key),
        all_one_line(ls) ==> all_one_line(headers_joined(ls)),
    decreases ls.len(),
{
    if ls.len() > 0 {
        let n: int = if has_empty_section(ls) {
            3
        } else {
            1
        };
        let line = headers_joined(ls)[0];
        let tail = ls.skip(n);
        if has_empty_section(ls) {
            lemma_joined_line(ls);
        } else {
            assert(trimmed(ls[0]) != key);
        }
        assert forall|i: int| 0 <= i < tail.len() implies trimmed(#[trigger] tail[i]) != key by {
            assert(tail[i] == ls[i + n]);
        }
        assert(all_one_line(ls) ==> all_one_line(tail)) by {
            assert forall|i: int| all_one_line(ls) && 0 <= i < tail.len() implies one_line(
                #[trigger] tail[i],
            ) by {
                assert(tail[i] == ls[i + n]);
            }
        }
        lemma_headers_joined(tail, key);
        let rest = headers_joined(tail);
        let all = seq![line] + rest;
        assert(headers_joined(ls) =~= all);
        assert forall|i: int| 0 <= i < all.len() implies trimmed(#[trigger] all[i]) != key by {
            if i > 0 {
                assert(all[i] == rest[i - 1]);
            }
        }
        assert forall|i: int| all_one_line(ls) && 0 <= i < all.len() implies one_line(
            #[trigger] all[i],
        ) by {
            if i > 0 {
                assert(all[i] == rest[i - 1]);
            }
        }
    }
}

/// The lines that are neither empty nor a peer header.
pub open spec fn contents(ls: Seq<Seq<char>>) -> Seq<Seq<char>>
    decreases ls.len(),
{
    if ls.len() == 0 {
        seq![]
    } else if ls[0].len() == 0 || is_peer_header(ls[0]) {
        contents(ls.skip(1))
    } else {
        seq![ls[0]] + contents(ls.skip(1))
    }
}

/// Joining headers drops no line but empty ones and peer headers.
pub proof fn law_joining_keeps_contents(ls: Seq<Seq<char>>)
    ensures
        contents(headers_joined(ls)) == contents(ls),
    decreases ls.len(),
{
    if ls.len() > 0 {
        let all = headers_joined(ls);
        if has_empty_section(ls) {
            lemma_joined_line(ls);
            law_joining_keeps_contents(ls.skip(3));
            assert(all.skip(1) =~= headers_joined(ls.skip(3)));
            assert(ls.skip(1).skip(1) =~= ls.skip(2));
            assert(ls.skip(2).skip(1) =~= ls.skip(3));
            assert(ls.skip(1)[0] == ls[1]);
            assert(ls.skip(2)[0] == ls[2]);
            assert(contents(ls.skip(2)) == contents(ls.skip(3)));
            assert(contents(ls.skip(1)) == contents(ls.skip(2)));
        } else {
            law_joining_keeps_contents(ls.skip(1));
            assert(all.skip(1) =~= headers_joined(ls.skip(1)));
        }
    }
}

/// Lines without an empty peer section stay as they are when headers are joined.
pub proof fn law_nothing_to_join(ls: Seq<Seq<char>>)
    requires
        forall|i: int| 0 <= i <= ls.len() ==> !has_empty_section(#[trigger] ls.skip(i)),
    ensures
        headers_joined(ls) == ls,
    decreases ls.len(),
{
    assert(ls.skip(0) =~= ls);
    if ls.len() > 0 {
        let tail = ls.skip(1);
        assert forall|i: int| 0 <= i <= tail.len() implies !has_empty_section(
            #[trigger] tail.skip(i),
        ) by {
            assert(tail.skip(i) =~= ls.skip(i + 1));
        }
        assert(!has_empty_section(ls.skip(0)));
        law_nothing_to_join(tail);
        assert(seq![ls[0]] + tail =~= ls);
    } else {
        assert(headers_joined(ls) =~= ls);
    }
}

/// Two peer headers with nothing but an empty line between them become one, with the white space
/// before the first and after the second; a line that does not start such a stretch stays.
pub proof fn law_headers_are_joined(ls: Seq<Seq<char>>, a: Seq<char>, b: Seq<char>)
    requires
        ls.len() > 0,
    ensures
        ls.len() >= 3 && ls[0] == "[Peer]"@ && ls[1].len() == 0 && ls[2] == "[Peer]"@
            ==> headers_joined(ls) == seq!["[Peer]"@] + headers_joined(ls.skip(3)),
        trimmed(ls[0]) != "[Peer]"@ ==> headers_joined(ls) == seq![ls[0]] + headers_joined(
            ls.skip(1),
        ),
        ls.len() < 3 || ls[1].len() > 0 || trimmed(ls[2]) != "[Peer]"@ ==> headers_joined(ls)
            == seq![ls[0]] + headers_joined(ls.skip(1)),
        ls.len() >= 3 && blank(a) && blank(b) && ls[0] == a + "[Peer]"@ && ls[1].len() == 0 && ls[2]
            == "[Peer]"@ + b ==> headers_joined(ls) == seq![a + "[Peer]"@ + b] + headers_joined(
            ls.skip(3),
        ),
        ls[0].len() > 0 && ls[0].last() != ']' ==> headers_joined(ls) == seq![ls[0]]
            + headers_joined(ls.skip(1)),
        ls.len() >= 3 && ls[2].len() > 0 && ls[2][0] != '[' ==> headers_joined(ls) == seq![ls[0]]
            + headers_joined(ls.skip(1)),
{
    let h = "[Peer]"@;
    let none = Seq::<char>::empty();
    if ls.len() >= 3 && blank(a) && blank(b) && ls[0] == a + h && ls[1].len() == 0 && ls[2] == h
        + b {
        reveal_strlit("[Peer]");
        law_trimmed(a, h, none);
        assert(a + h + none =~= a + h);
        law_trimmed(none, h, b);
        assert(none + h + b =~= h + b);
        assert((h + b).take(h.len() as int) =~= h);
        assert((h + b).skip(h.len() as int) =~= b);
    }
    if ls.len() >= 3 && starts(ls[2], h) {
        reveal_strlit("[Peer]");
        assert(ls[2].take(h.len() as int)[0] == '[');
    }
    reveal_strlit("[Peer]");
    let k = CharClass::Space;
    assert(strip_front(h, k) == h);
    assert(strip_back(h, k) == h);
    assert(trimmed(h) == h);
    assert(h.take(h.len() as int) =~= h);
    assert(h + h.skip(h.len() as int) =~= h);
}

/// The lines of a configuration that a peer was taken out of are those that are left of its
/// lines, with empty peer sections joined.
pub proof fn law_left_lines(conf: Seq<char>, pubkey: Seq<char>)
    ensures
        lines(conf_without(conf, pubkey)) == clean(
            headers_joined(lines_without(lines(conf), "PublicKey = "@ + pubkey)),
        ),
{
    let key = key_line(pubkey);
    let kept = lines_without(lines(conf), key);
    let left = headers_joined(kept);
    let empty = Seq::<char>::empty();
    lemma_lines_are_lines(conf);
    lemma_lines_without(lines(conf), key);
    assert(key != "[Peer]"@) by {
        reveal_strlit("[Peer]");
        reveal_strlit("PublicKey = ");
        assert(key[0] == 'P');
    }
    lemma_headers_joined(kept, key);
    law_lines_of_unlines(left, empty);
    assert(unlines(left) + empty =~= unlines(left));
    assert(clean(left) + lines(empty) =~= clean(left));
}

/// A configuration that a peer was taken out of names it in no line.
pub proof fn law_removed_peer_is_gone(conf: Seq<char>, pubkey: Seq<char>)
    ensures
        !has_line(lines(conf_without(conf, pubkey)), key_line(pubkey)),
{
    let key = key_line(pubkey);
    let kept = lines_without(lines(conf), key);
    let left = headers_joined(kept);
    let empty = Seq::<char>::empty();
    lemma_lines_are_lines(conf);
    lemma_lines_without(lines(conf), key);
    assert(key != "[Peer]"@) by {
        reveal_strlit("[Peer]");
        reveal_strlit("PublicKey = ");
        assert(key[0] == 'P');
    }
    lemma_headers_joined(kept, key);
    law_lines_of_unlines(left, empty);
    assert(unlines(left) + empty =~= unlines(left));
    assert(clean(left) + lines(empty) =~= clean(left));
    assert forall|i: int| 0 <= i < clean(left).len() implies trimmed(#[trigger] clean(left)[i])
        != key by {
        lemma_trim_without_cr(left[i]);
        assert(trimmed(left[i]) != key);
    }
}

/// The lines up to a header are looked at by themselves.
proof fn lemma_without_split(a: Seq<Seq<char>>, b: Seq<Seq<char>>, key: Seq<char>)
    requires
        b.len() > 0 ==> is_header(b[0]),
    ensures
        lines_without(a + b, key) == lines_without(a, key) + lines_without(b, key),
    decreases a.len(),
{
    let all = a + b;
    if a.len() == 0 {
        assert(all =~= b);
        assert(lines_without(a, key) + lines_without(b, key) =~= lines_without(b, key));
    } else {
        let n = section_len(a) as int;
        lemma_body_len(a.skip(1));
        assert(all.skip(1) =~= a.skip(1) + b);
        lemma_body_split(a.skip(1), b);
        assert(all.take(n) =~= a.take(n));
        assert(all.skip(n) =~= a.skip(n) + b);
        lemma_without_split(a.skip(n), b, key);
        let left = section_without(a.take(n), key);
        assert(left + (lines_without(a.skip(n), key) + lines_without(b, key)) =~= left
            + lines_without(a.skip(n), key) + lines_without(b, key));
    }
}

proof fn lemma_body_split(a: Seq<Seq<char>>, b: Seq<Seq<char>>)
    requires
        b.len() > 0 ==> is_header(b[0]),
    ensures
        body_len(a + b) == body_len(a),
    decreases a.len(),
{
    let all = a + b;
    if a.len() == 0 {
        assert(all =~= b);
    } else {
        assert(all[0] == a[0]);
        assert(all.skip(1) =~= a.skip(1) + b);
        lemma_body_split(a.skip(1), b);
    }
}

/// Lines that do not name a peer stay as they are when it is taken out, before headers are joined.
pub proof fn law_unknown_peer_changes_no_line(ls: Seq<Seq<char>>, key: Seq<char>)
    requires
        !has_line(ls, key),
    ensures
        lines_without(ls, key) == ls,
    decreases ls.len(),
{
    if ls.len() > 0 {
        let n = section_len(ls) as int;
        lemma_body_len(ls.skip(1));
        let section = ls.take(n);
        let rest = ls.skip(n);
        assert forall|i: int| 0 <= i < section.len() implies trimmed(#[trigger] section[i]) != key by {
            assert(section[i] == ls[i]);
        }
        assert forall|i: int| 0 <= i < rest.len() implies trimmed(#[trigger] rest[i]) != key by {
            assert(rest[i] == ls[i + n]);
        }
        lemma_pruned_same(section, key);
        law_unknown_peer_changes_no_line(rest, key);
        assert(section + rest =~= ls);
    } else {
        assert(lines_without(ls, key) =~= ls);
    }
}

/// Taking out a peer leaves every section that does not name it as it is, whatever stands before
/// and after that section, before headers are joined.
pub proof fn law_other_sections_are_kept(
    before: Seq<Seq<char>>,
    section: Seq<Seq<char>>,
    after: Seq<Seq<char>>,
    key: Seq<char>,
)
    requires
        section.len() > 0,
        is_header(section[0]),
        !has_line(section, key),
        after.len() > 0 ==> is_header(after[0]),
    ensures
        lines_without(before + section + after, key) == lines_without(before, key) + section
            + lines_without(after, key),
{
    lemma_without_split(before + section, after, key);
    lemma_without_split(before, section, key);
    law_unknown_peer_changes_no_line(section, key);
}

/// The section of a peer: a peer header, and no other header after it.
pub open spec fn is_peer_section(section: Seq<Seq<char>>) -> bool {
    &&& section.len() > 0
    &&& trimmed(section[0]) == "[Peer]"@
    &&& forall|i: int| 0 < i < section.len() ==> !is_header(#[trigger] section[i])
}

/// Taking out a peer drops its section, header and all, whatever stands before and after it,
/// where the section has no key but that peer's.
pub proof fn law_section_is_dropped(
    before: Seq<Seq<char>>,
    section: Seq<Seq<char>>,
    after: Seq<Seq<char>>,
    key: Seq<char>,
)
    requires
        is_peer_section(section),
        has_line(section, key),
        forall|i: int|
            0 <= i < section.len() && starts(trimmed(#[trigger] section[i]), "PublicKey = "@)
                ==> trimmed(section[i]) == key,
        after.len() > 0 ==> is_header(after[0]),
    ensures
        lines_without(before + section + after, key) == lines_without(before, key)
            + lines_without(after, key),
{
    let none = Seq::<Seq<char>>::empty();
    lemma_without_split(before + section, after, key);
    lemma_without_split(before, section, key);
    lemma_all_body(section.skip(1));
    assert(section_len(section) == section.len());
    assert(section.take(section.len() as int) =~= section);
    assert(section.skip(section.len() as int) =~= none);
    assert(lines_without(none, key) =~= none);
    lemma_left_has_no_peer(section, key, false);
    assert(section_without(section, key) =~= none);
    assert(lines_without(section, key) =~= none);
    assert(lines_without(before, key) + none =~= lines_without(before, key));
}

/// Taking out a peer whose section has the key of another one leaves that other block, and the
/// header with it.
pub proof fn law_other_block_is_kept(
    head: Seq<Seq<char>>,
    line: Seq<char>,
    block: Seq<Seq<char>>,
    other: Seq<Seq<char>>,
    key: Seq<char>,
)
    requires
        trimmed(line) == key,
        !has_line(head, key),
        !has_peer(block),
        other.len() > 0,
        starts(trimmed(other[0]), "PublicKey = "@),
        !has_line(other, key),
    ensures
        section_without(head + (seq![line] + (block + other)), key) == head + other,
{
    let rest = seq![line] + (block + other);
    let all = head + rest;
    lemma_pruned_head(head, rest, key);
    assert(rest.skip(1) =~= block + other);
    lemma_pruned_block(block, other, key);
    let left = head + other;
    assert(left[head.len() as int] == other[0]);
    assert(has_peer(left));
}

proof fn lemma_pruned_head(head: Seq<Seq<char>>, rest: Seq<Seq<char>>, key: Seq<char>)
    requires
        !has_line(head, key),
    ensures
        pruned(head + rest, key, false) == head + pruned(rest, key, false),
    decreases head.len(),
{
    let all = head + rest;
    if head.len() == 0 {
        assert(all =~= rest);
        assert(head + pruned(rest, key, false) =~= pruned(rest, key, false));
    } else {
        let tail = head.skip(1);
        assert(all[0] == head[0]);
        assert(all.skip(1) =~= tail + rest);
        assert(trimmed(head[0]) != key);
        assert forall|i: int| 0 <= i < tail.len() implies trimmed(#[trigger] tail[i]) != key by {
            assert(tail[i] == head[i + 1]);
        }
        lemma_pruned_head(tail, rest, key);
        assert(seq![head[0]] + (tail + pruned(rest, key, false)) =~= head + pruned(
            rest,
            key,
            false,
        ));
    }
}

proof fn lemma_pruned_block(block: Seq<Seq<char>>, other: Seq<Seq<char>>, key: Seq<char>)
    requires
        !has_peer(block),
        other.len() > 0,
        starts(trimmed(other[0]), "PublicKey = "@),
        !has_line(other, key),
    ensures
        pruned(block + other, key, true) == other,
    decreases block.len(),
{
    let all = block + other;
    if block.len() == 0 {
        assert(all =~= other);
        assert(trimmed(other[0]) != key);
        lemma_pruned_same(other, key);
    } else {
        let tail = block.skip(1);
        assert(all[0] == block[0]);
        assert(all.skip(1) =~= tail + other);
        assert(!starts(trimmed(block[0]), "PublicKey = "@));
        assert forall|i: int| 0 <= i < tail.len() implies !starts(
            trimmed(#[trigger] tail[i]),
            "PublicKey = "@,
        ) by {
            assert(tail[i] == block[i + 1]);
        }
        lemma_pruned_block(tail, other, key);
    }
}

proof fn lemma_all_body(ls: Seq<Seq<char>>)
    requires
        forall|i: int| 0 <= i < ls.len() ==> !is_header(#[trigger] ls[i]),
    ensures
        body_len(ls) == ls.len(),
    decreases ls.len(),
{
    if ls.len() > 0 {
        let tail = ls.skip(1);
        assert(!is_header(ls[0]));
        assert forall|i: int| 0 <= i < tail.len() implies !is_header(#[trigger] tail[i]) by {
            assert(tail[i] == ls[i + 1]);
        }
        lemma_all_body(tail);
    }
}

proof fn lemma_left_has_no_peer(ls: Seq<Seq<char>>, key: Seq<char>, skip: bool)
    requires
        forall|i: int|
            0 <= i < ls.len() && starts(trimmed(#[trigger] ls[i]), "PublicKey = "@) ==> trimmed(
                ls[i],
            ) == key,
    ensures
        !has_peer(pruned(ls, key, skip)),
    decreases ls.len(),
{
    if ls.len() > 0 {
        let tail = ls.skip(1);
        assert forall|i: int|
            0 <= i < tail.len() && starts(
                trimmed(#[trigger] tail[i]),
                "PublicKey = "@,
            ) implies trimmed(tail[i]) == key by {
            assert(tail[i] == ls[i + 1]);
        }
        lemma_left_has_no_peer(tail, key, false);
        lemma_left_has_no_peer(tail, key, true);
        let rest = pruned(tail, key, false);
        let kept = seq![ls[0]] + rest;
        if trimmed(ls[0]) != key {
            assert forall|i: int| 0 <= i < kept.len() implies !starts(
                trimmed(#[trigger] kept[i]),
                "PublicKey = "@,
            ) by {
                if i > 0 {
                    assert(kept[i] == rest[i - 1]);
                }
            }
        }
    }
}

// ---------------------------------------------------------------- networks

/// The network of an address has the bits of the address under the prefix, and no others.
pub proof fn law_network_bits(addr: u32, p: u32, i: u32)
    requires
        p <= 32,
        i < 32,
    ensures
        ((addr & mask(p)) >> i) & 1 == if i + p >= 32 {
            (addr >> i) & 1
        } else {
            0
        },
{
    assert(p <= 32 && i < 32 ==> ((addr & mask(p)) >> i) & 1 == if i + p >= 32 {
        (addr >> i) & 1
    } else {
        0
    }) by (bit_vector);
}

/// What stands before the first `c` is the first piece.
pub proof fn lemma_pieces_cons(a: Seq<char>, c: char, b: Seq<char>)
    requires
        !a.contains(c),
    ensures
        pieces(a + (seq![c] + b), c) == seq![a] + pieces(b, c),
        halves(a + (seq![c] + b), c) == Some((a, b)),
{
    let k = CharClass::Only(c);
    let s = a + (seq![c] + b);
    assert forall|i: int| 0 <= i < a.len() implies !k.contains(#[trigger] a[i]) by {
        assert(a.contains(a[i]));
    }
    lemma_span_of(a, seq![c] + b, k);
    assert(s.take(a.len() as int) =~= a);
    assert(s.skip(a.len() as int + 1) =~= b);
}

/// A number in decimal notation holds nothing but digits.
pub proof fn lemma_decimal_lacks(n: nat, c: char)
    requires
        !is_digit(c),
    ensures
        !decimal(n).contains(c),
{
    lemma_decimal(n);
    let d = decimal(n);
    if d.contains(c) {
        let i = choose|i: int| 0 <= i < d.len() && d[i] == c;
        assert(is_digit(d[i]));
    }
}

/// Four numbers in dotted notation.
pub open spec fn quad(a: nat, b: nat, c: nat, d: nat) -> Seq<char> {
    decimal(a) + "."@ + decimal(b) + "."@ + decimal(c) + "."@ + decimal(d)
}

/// Dotted notation has no slash.
pub proof fn lemma_quad_lacks_slash(a: nat, b: nat, c: nat, d: nat)
    ensures
        !quad(a, b, c, d).contains('/'),
{
    let dot = "."@;
    reveal_strlit(".");
    assert(!dot.contains('/'));
    lemma_decimal_lacks(a, '/');
    lemma_decimal_lacks(b, '/');
    lemma_decimal_lacks(c, '/');
    lemma_decimal_lacks(d, '/');
    let t1 = decimal(a) + dot;
    let t2 = t1 + decimal(b);
    let t3 = t2 + dot;
    let t4 = t3 + decimal(c);
    let t5 = t4 + dot;
    lemma_lacks_add(decimal(a), dot, '/');
    lemma_lacks_add(t1, decimal(b), '/');
    lemma_lacks_add(t2, dot, '/');
    lemma_lacks_add(t3, decimal(c), '/');
    lemma_lacks_add(t4, dot, '/');
    lemma_lacks_add(t5, decimal(d), '/');
}

proof fn lemma_pieces_of_quad(ta: Seq<char>, tb: Seq<char>, tc: Seq<char>, td: Seq<char>)
    requires
        !ta.contains('.'),
        !tb.contains('.'),
        !tc.contains('.'),
        !td.contains('.'),
    ensures
        pieces(ta + "."@ + tb + "."@ + tc + "."@ + td, '.') == seq![ta, tb, tc, td],
{
    let dot = seq!['.'];
    let k = CharClass::Only('.');
    reveal_strlit(".");
    assert("."@ =~= dot);
    let r3 = tc + (dot + td);
    let r2 = tb + (dot + r3);
    let r1 = ta + (dot + r2);
    assert(ta + dot + tb + dot + tc + dot + td =~= r1);
    lemma_pieces_cons(ta, '.', r2);
    lemma_pieces_cons(tb, '.', r3);
    lemma_pieces_cons(tc, '.', td);
    assert forall|i: int| 0 <= i < td.len() implies !k.contains(#[trigger] td[i]) by {
        assert(td.contains(td[i]));
    }
    lemma_span_of(td, seq![], k);
    assert(td + Seq::<char>::empty() =~= td);
    assert(seq![ta] + (seq![tb] + (seq![tc] + seq![td])) =~= seq![ta, tb, tc, td]);
}

/// A dotted address is read as the four numbers that it was made of.
pub proof fn lemma_octets_of_quad(a: nat, b: nat, c: nat, d: nat)
    requires
        a < 256,
        b < 256,
        c < 256,
        d < 256,
    ensures
        octets(quad(a, b, c, d)) == seq![a, b, c, d],
{
    let ps = seq![decimal(a), decimal(b), decimal(c), decimal(d)];
    lemma_decimal_lacks(a, '.');
    lemma_decimal_lacks(b, '.');
    lemma_decimal_lacks(c, '.');
    lemma_decimal_lacks(d, '.');
    lemma_pieces_of_quad(decimal(a), decimal(b), decimal(c), decimal(d));
    law_parse_of_decimal(a, u32::MAX as nat);
    law_parse_of_decimal(b, u32::MAX as nat);
    law_parse_of_decimal(c, u32::MAX as nat);
    law_parse_of_decimal(d, u32::MAX as nat);
    let p3 = ps.drop_last();
    let p2 = p3.drop_last();
    let p1 = p2.drop_last();
    assert(numbers(p1.drop_last()) =~= seq![]);
    assert(numbers(p1) =~= seq![a]);
    assert(numbers(p2) =~= seq![a, b]);
    assert(numbers(p3) =~= seq![a, b, c]);
    assert(numbers(ps) =~= seq![a, b, c, d]);
}

/// The network of a network is that network.
pub proof fn law_network_of_network(vpn4: Seq<char>)
    ensures
        network_v4(network_v4(vpn4)) == network_v4(vpn4),
{
    let (ip, prefix) = match halves(vpn4, '/') {
        Some(h) => h,
        None => (vpn4, "24"@),
    };
    let o = octets(ip);
    let p = prefix_bits(prefix);
    if o.len() == 4 {
        let m = mask(p as u32);
        let addr = packed(o[0] as u32, o[1] as u32, o[2] as u32, o[3] as u32);
        let net = addr & m;
        let (a, b, c, d) = ((net >> 24) & 255, (net >> 16) & 255, (net >> 8) & 255, net & 255);
        assert((net >> 24) & 255 < 256 && (net >> 16) & 255 < 256 && (net >> 8) & 255 < 256 && net
            & 255 < 256) by (bit_vector);
        let text = quad(a as nat, b as nat, c as nat, d as nat);
        lemma_octets_of_quad(a as nat, b as nat, c as nat, d as nat);
        lemma_quad_lacks_slash(a as nat, b as nat, c as nat, d as nat);
        reveal_strlit("/");
        assert(network_v4(vpn4) =~= text + (seq!['/'] + decimal(p)));
        lemma_pieces_cons(text, '/', decimal(p));
        law_parse_of_decimal(p, u32::MAX as nat);
        assert(packed((net >> 24) & 255, (net >> 16) & 255, (net >> 8) & 255, net & 255) == net)
            by (bit_vector);
        assert((addr & m) & m == addr & m) by (bit_vector);
    }
}

} // verus!
