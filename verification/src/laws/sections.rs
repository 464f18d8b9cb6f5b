//! What stands in the configuration file: each setting and each peer is read back from its text.

use crate::conf::{conf_text, header_lines, in_peer_at, is_header, key_line, missing_section};
use crate::conf::{network_v4, network_v6, peer_lines, peer_section, rules, unlines};
use crate::laws::requests::lemma_regroup;
use crate::laws::text::{clean, law_lines_of_unlines, lemma_lacks_add, lemma_lines_add, one_line};
use crate::laws::words::{are_words, law_words_of_spaced, solid, spaced};
use crate::number::decimal;
use crate::reply::PeerView;
use crate::text::{lines, occurs, starts, trimmed, without_cr, words};
use vstd::prelude::*;

verus! {

// ---------------------------------------------------------------- rules

proof fn lemma_spaced_cons(w: Seq<char>, ws: Seq<Seq<char>>)
    requires
        ws.len() > 0,
    ensures
        spaced(seq![w] + ws) == w + (seq![' '] + spaced(ws)),
{
    assert((seq![w] + ws).skip(1) =~= ws);
}

proof fn lemma_spaced_one(w: Seq<char>)
    ensures
        spaced(seq![w]) == w,
{
}

/// The words of the rule that accepts what goes through the tunnel: `side` is `-i` for what comes
/// out of it and `-o` for what goes into it.
pub open spec fn accept_words(cmd: Seq<char>, op: Seq<char>, side: Seq<char>) -> Seq<Seq<char>> {
    seq![cmd, op, "FORWARD"@, side, "%i"@, "-j"@, "ACCEPT"@]
}

/// The words of the rule that hides the network `net` behind the address of the device `wan`.
pub open spec fn masquerade_words(
    cmd: Seq<char>,
    op: Seq<char>,
    net: Seq<char>,
    wan: Seq<char>,
) -> Seq<Seq<char>> {
    seq![cmd, "-t"@, "nat"@, op, "POSTROUTING"@, "-s"@, net, "-o"@, wan, "-j"@, "MASQUERADE"@]
}

/// The three rules of a family, as one line of a shell.
pub open spec fn script(cmd: Seq<char>, op: Seq<char>, net: Seq<char>, wan: Seq<char>) -> Seq<char> {
    spaced(accept_words(cmd, op, "-i"@)) + seq![';', ' '] + spaced(accept_words(cmd, op, "-o"@))
        + seq![';', ' '] + spaced(masquerade_words(cmd, op, net, wan))
}

proof fn lemma_accept(cmd: Seq<char>, op: Seq<char>)
    ensures
        spaced(accept_words(cmd, "-"@ + op, "-i"@)) + seq![';', ' '] == cmd + (" -"@ + (op
            + " FORWARD -i %i -j ACCEPT; "@)),
        spaced(accept_words(cmd, "-"@ + op, "-o"@)) + seq![';', ' '] == cmd + (" -"@ + (op
            + " FORWARD -o %i -j ACCEPT; "@)),
{
    lemma_accept_side(cmd, op, "-i"@, " FORWARD -i %i -j ACCEPT; "@);
    lemma_accept_side(cmd, op, "-o"@, " FORWARD -o %i -j ACCEPT; "@);
}

proof fn lemma_accept_side(cmd: Seq<char>, op: Seq<char>, side: Seq<char>, text: Seq<char>)
    requires
        (side == "-i"@ && text == " FORWARD -i %i -j ACCEPT; "@) || (side == "-o"@ && text
            == " FORWARD -o %i -j ACCEPT; "@),
    ensures
        spaced(accept_words(cmd, "-"@ + op, side)) + seq![';', ' '] == cmd + (" -"@ + (op + text)),
{
    let o = "-"@ + op;
    let w7 = seq!["ACCEPT"@];
    let w6 = seq!["-j"@] + w7;
    let w5 = seq!["%i"@] + w6;
    let w4 = seq![side] + w5;
    let w3 = seq!["FORWARD"@] + w4;
    let w2 = seq![o] + w3;
    lemma_spaced_one("ACCEPT"@);
    lemma_spaced_cons("-j"@, w7);
    lemma_spaced_cons("%i"@, w6);
    lemma_spaced_cons(side, w5);
    lemma_spaced_cons("FORWARD"@, w4);
    lemma_spaced_cons(o, w3);
    lemma_spaced_cons(cmd, w2);
    assert(accept_words(cmd, o, side) =~= seq![cmd] + w2);
    let space = seq![' '];
    let end = seq![';', ' '];
    let tail = space + spaced(w3);
    assert(tail + end =~= text) by {
        reveal_strlit("ACCEPT");
        reveal_strlit("-j");
        reveal_strlit("%i");
        reveal_strlit("-i");
        reveal_strlit("-o");
        reveal_strlit("FORWARD");
        reveal_strlit(" FORWARD -i %i -j ACCEPT; ");
        reveal_strlit(" FORWARD -o %i -j ACCEPT; ");
    }
    // cmd + (space + (o + tail)) + end
    lemma_regroup(cmd, space + (o + tail), end);
    lemma_regroup(space, o + tail, end);
    lemma_regroup(o, tail, end);
    lemma_regroup("-"@, op, text);
    assert(space + ("-"@ + (op + text)) =~= " -"@ + (op + text)) by {
        reveal_strlit("-");
        reveal_strlit(" -");
    }
}

proof fn lemma_masquerade(cmd: Seq<char>, op: Seq<char>, net: Seq<char>, wan: Seq<char>)
    ensures
        spaced(masquerade_words(cmd, "-"@ + op, net, wan)) == cmd + (" -t nat -"@ + (op + (
        " POSTROUTING -s "@ + (net + (" -o "@ + (wan + " -j MASQUERADE"@)))))),
{
    let o = "-"@ + op;
    let space = seq![' '];
    let wb = seq!["MASQUERADE"@];
    let wa = seq!["-j"@] + wb;
    let w9 = seq![wan] + wa;
    let w8 = seq!["-o"@] + w9;
    let w7 = seq![net] + w8;
    let w6 = seq!["-s"@] + w7;
    let w5 = seq!["POSTROUTING"@] + w6;
    let w4 = seq![o] + w5;
    let w3 = seq!["nat"@] + w4;
    let w2 = seq!["-t"@] + w3;
    lemma_spaced_one("MASQUERADE"@);
    lemma_spaced_cons("-j"@, wb);
    lemma_spaced_cons(wan, wa);
    lemma_spaced_cons("-o"@, w9);
    lemma_spaced_cons(net, w8);
    lemma_spaced_cons("-s"@, w7);
    lemma_spaced_cons("POSTROUTING"@, w6);
    lemma_spaced_cons(o, w5);
    lemma_spaced_cons("nat"@, w4);
    lemma_spaced_cons("-t"@, w3);
    lemma_spaced_cons(cmd, w2);
    assert(masquerade_words(cmd, o, net, wan) =~= seq![cmd] + w2);
    let t1 = wan + " -j MASQUERADE"@;
    assert(space + spaced(wa) =~= " -j MASQUERADE"@) by {
        reveal_strlit("MASQUERADE");
        reveal_strlit("-j");
        reveal_strlit(" -j MASQUERADE");
    }
    assert(spaced(w9) == t1);
    let t2 = net + (" -o "@ + t1);
    assert(space + ("-o"@ + (space + t1)) =~= " -o "@ + t1) by {
        reveal_strlit("-o");
        reveal_strlit(" -o ");
    }
    assert(spaced(w7) == t2);
    let t3 = op + (" POSTROUTING -s "@ + t2);
    assert(space + ("POSTROUTING"@ + (space + ("-s"@ + (space + t2)))) =~= " POSTROUTING -s "@ + t2)
        by {
        reveal_strlit("POSTROUTING");
        reveal_strlit("-s");
        reveal_strlit(" POSTROUTING -s ");
    }
    lemma_regroup("-"@, op, " POSTROUTING -s "@ + t2);
    assert(spaced(w4) == "-"@ + t3);
    assert(space + ("-t"@ + (space + ("nat"@ + (space + ("-"@ + t3))))) =~= " -t nat -"@ + t3) by {
        reveal_strlit("-t");
        reveal_strlit("nat");
        reveal_strlit("-");
        reveal_strlit(" -t nat -");
    }
}

/// The rules of a family are three commands: two accept what goes through the tunnel, one way and
/// the other, and the third hides the tunnel's network behind the device that leads out.
pub proof fn law_rules(cmd: Seq<char>, op: Seq<char>, net: Seq<char>, wan: Seq<char>)
    ensures
        rules(cmd, op, net, wan) == script(cmd, "-"@ + op, net, wan),
{
    let dash = " -"@;
    let i = " FORWARD -i %i -j ACCEPT; "@;
    let o = " FORWARD -o %i -j ACCEPT; "@;
    let table = " -t nat -"@;
    let s = " POSTROUTING -s "@;
    let out = " -o "@;
    let end = " -j MASQUERADE"@;
    lemma_accept(cmd, op);
    lemma_masquerade(cmd, op, net, wan);
    let a = cmd + (dash + (op + i));
    let b = cmd + (dash + (op + o));
    let c = cmd + (table + (op + (s + (net + (out + (wan + end))))));
    let a1 = cmd + dash + op + i;
    lemma_regroup(cmd, dash, op);
    lemma_regroup(cmd, dash + op, i);
    lemma_regroup(dash, op, i);
    assert(a1 == a);
    let b1 = a1 + cmd + dash + op + o;
    lemma_regroup(a1, cmd, dash);
    lemma_regroup(a1, cmd + dash, op);
    lemma_regroup(a1, cmd + dash + op, o);
    lemma_regroup(cmd, dash + op, o);
    lemma_regroup(dash, op, o);
    assert(b1 == a + b);
    let c1 = b1 + cmd + table + op + s + net + out + wan + end;
    lemma_regroup(b1 + cmd + table + op + s + net + out, wan, end);
    lemma_regroup(b1 + cmd + table + op + s + net, out, wan + end);
    lemma_regroup(b1 + cmd + table + op + s, net, out + (wan + end));
    lemma_regroup(b1 + cmd + table + op, s, net + (out + (wan + end)));
    lemma_regroup(b1 + cmd + table, op, s + (net + (out + (wan + end))));
    lemma_regroup(b1 + cmd, table, op + (s + (net + (out + (wan + end)))));
    lemma_regroup(b1, cmd, table + (op + (s + (net + (out + (wan + end))))));
    assert(c1 == b1 + c);
    assert(rules(cmd, op, net, wan) == c1);
    let sep = seq![';', ' '];
    let p = spaced(accept_words(cmd, "-"@ + op, "-i"@));
    let q = spaced(accept_words(cmd, "-"@ + op, "-o"@));
    lemma_regroup(p + sep, q, sep);
    assert(script(cmd, "-"@ + op, net, wan) == a + b + c);
}

/// The commands that the rules are made of are read as the words that they were made of, where
/// the network and the device are words.
pub proof fn law_rule_words(cmd: Seq<char>, op: Seq<char>, net: Seq<char>, wan: Seq<char>)
    requires
        are_words(seq![cmd, op, net, wan]),
    ensures
        words(spaced(accept_words(cmd, op, "-i"@))) == accept_words(cmd, op, "-i"@),
        words(spaced(accept_words(cmd, op, "-o"@))) == accept_words(cmd, op, "-o"@),
        words(spaced(masquerade_words(cmd, op, net, wan))) == masquerade_words(cmd, op, net, wan),
{
    let given = seq![cmd, op, net, wan];
    assert(given[0] == cmd && given[1] == op && given[2] == net && given[3] == wan);
    assert(solid(given[0]) && solid(given[1]) && solid(given[2]) && solid(given[3]));
    reveal_strlit("FORWARD");
    reveal_strlit("-i");
    reveal_strlit("-o");
    reveal_strlit("%i");
    reveal_strlit("-j");
    reveal_strlit("ACCEPT");
    reveal_strlit("-t");
    reveal_strlit("nat");
    reveal_strlit("POSTROUTING");
    reveal_strlit("-s");
    reveal_strlit("MASQUERADE");
    assert(are_words(accept_words(cmd, op, "-i"@)));
    assert(are_words(accept_words(cmd, op, "-o"@)));
    assert(are_words(masquerade_words(cmd, op, net, wan)));
    law_words_of_spaced(accept_words(cmd, op, "-i"@));
    law_words_of_spaced(accept_words(cmd, op, "-o"@));
    law_words_of_spaced(masquerade_words(cmd, op, net, wan));
}

// ---------------------------------------------------------------- the interface section

/// The values of the setting `name` on the lines, in order: what stands behind the name, a space,
/// an equals sign and a space.
pub open spec fn values(ls: Seq<Seq<char>>, name: Seq<char>) -> Seq<Seq<char>>
    decreases ls.len(),
{
    if ls.len() == 0 {
        seq![]
    } else {
        let prefix = name + " = "@;
        if starts(ls[0], prefix) {
            seq![ls[0].skip(prefix.len() as int)] + values(ls.skip(1), name)
        } else {
            values(ls.skip(1), name)
        }
    }
}

proof fn lemma_values_cons(line: Seq<char>, ls: Seq<Seq<char>>, name: Seq<char>)
    ensures
        starts(line, name + " = "@) ==> values(seq![line] + ls, name) == seq![
            line.skip((name + " = "@).len() as int),
        ] + values(ls, name),
        !starts(line, name + " = "@) ==> values(seq![line] + ls, name) == values(ls, name),
{
    assert((seq![line] + ls).skip(1) =~= ls);
}

/// A line of the form `name = value`.
proof fn lemma_setting_line(literal: Seq<char>, name: Seq<char>, value: Seq<char>)
    requires
        literal == name + " = "@,
    ensures
        starts(literal + value, name + " = "@),
        (literal + value).skip((name + " = "@).len() as int) == value,
{
    assert((literal + value).take(literal.len() as int) =~= literal);
    assert((literal + value).skip(literal.len() as int) =~= value);
}

proof fn lemma_other_line(line: Seq<char>, name: Seq<char>, i: int)
    requires
        0 <= i < name.len(),
        i < line.len() ==> line[i] != name[i],
    ensures
        !starts(line, name + " = "@),
{
    let prefix = name + " = "@;
    if starts(line, prefix) {
        assert(line.take(prefix.len() as int)[i] == prefix[i]);
    }
}

/// The name of a setting of the interface section.
spec fn is_setting(name: Seq<char>) -> bool {
    name == "Address"@ || name == "ListenPort"@ || name == "PrivateKey"@ || name == "PostUp"@
        || name == "PostDown"@
}

proof fn lemma_setting_names()
    ensures
        "Address = "@ == "Address"@ + " = "@,
        "ListenPort = "@ == "ListenPort"@ + " = "@,
        "PrivateKey = "@ == "PrivateKey"@ + " = "@,
        "PostUp = "@ == "PostUp"@ + " = "@,
        "PostDown = "@ == "PostDown"@ + " = "@,
{
    reveal_strlit("Address = ");
    reveal_strlit("ListenPort = ");
    reveal_strlit("PrivateKey = ");
    reveal_strlit("PostUp = ");
    reveal_strlit("PostDown = ");
    reveal_strlit("Address");
    reveal_strlit("ListenPort");
    reveal_strlit("PrivateKey");
    reveal_strlit("PostUp");
    reveal_strlit("PostDown");
    reveal_strlit(" = ");
    assert("Address = "@ =~= "Address"@ + " = "@);
    assert("ListenPort = "@ =~= "ListenPort"@ + " = "@);
    assert("PrivateKey = "@ =~= "PrivateKey"@ + " = "@);
    assert("PostUp = "@ =~= "PostUp"@ + " = "@);
    assert("PostDown = "@ =~= "PostDown"@ + " = "@);
}

/// A line that starts with the name of one setting gives no other.
proof fn lemma_names_apart(a: Seq<char>, b: Seq<char>, value: Seq<char>)
    requires
        is_setting(a),
        is_setting(b),
        a != b,
    ensures
        !starts(a + " = "@ + value, b + " = "@),
{
    reveal_strlit("Address");
    reveal_strlit("ListenPort");
    reveal_strlit("PrivateKey");
    reveal_strlit("PostUp");
    reveal_strlit("PostDown");
    let line = a + " = "@ + value;
    if a[0] != b[0] {
        assert(line[0] == a[0]);
        lemma_other_line(line, b, 0);
    } else if a[1] != b[1] {
        assert(line[1] == a[1]);
        lemma_other_line(line, b, 1);
    } else {
        assert(line[4] == a[4]);
        lemma_other_line(line, b, 4);
    }
}

/// Lines that give none of the settings.
proof fn lemma_plain_lines(name: Seq<char>)
    requires
        is_setting(name),
    ensures
        !starts(
            "# Generated by vpnyellod — peers below are managed (do not hand-edit header)."@,
            name + " = "@,
        ),
        !starts("[Interface]"@, name + " = "@),
        !starts(Seq::<char>::empty(), name + " = "@),
{
    reveal_strlit("Address");
    reveal_strlit("ListenPort");
    reveal_strlit("PrivateKey");
    reveal_strlit("PostUp");
    reveal_strlit("PostDown");
    reveal_strlit("# Generated by vpnyellod — peers below are managed (do not hand-edit header).");
    reveal_strlit("[Interface]");
    lemma_other_line(
        "# Generated by vpnyellod — peers below are managed (do not hand-edit header)."@,
        name,
        0,
    );
    lemma_other_line("[Interface]"@, name, 0);
    lemma_other_line(Seq::<char>::empty(), name, 0);
}

/// What a line `of = value` gives to `name`.
spec fn line_values(of: Seq<char>, value: Seq<char>, name: Seq<char>) -> Seq<Seq<char>> {
    if of == name {
        seq![value]
    } else {
        seq![]
    }
}

proof fn lemma_line_values(
    literal: Seq<char>,
    of: Seq<char>,
    value: Seq<char>,
    ls: Seq<Seq<char>>,
    name: Seq<char>,
)
    requires
        literal == of + " = "@,
        is_setting(of),
        is_setting(name),
    ensures
        values(seq![literal + value] + ls, name) == line_values(of, value, name) + values(ls, name),
{
    lemma_values_cons(literal + value, ls, name);
    if of == name {
        lemma_setting_line(literal, name, value);
    } else {
        lemma_names_apart(of, name, value);
        assert(Seq::<Seq<char>>::empty() + values(ls, name) =~= values(ls, name));
    }
}

proof fn lemma_header_values(
    vpn4: Seq<char>,
    vpn6: Seq<char>,
    port: nat,
    key: Seq<char>,
    wan: Seq<char>,
    name: Seq<char>,
)
    requires
        is_setting(name),
    ensures
        values(header_lines(vpn4, vpn6, port, key, wan), name) == line_values(
            "Address"@,
            vpn4 + ", "@ + vpn6,
            name,
        ) + (line_values("ListenPort"@, decimal(port), name) + (line_values(
            "PrivateKey"@,
            trimmed(key),
            name,
        ) + (line_values("PostUp"@, script("iptables"@, "-A"@, network_v4(vpn4), wan), name) + (
        line_values("PostDown"@, script("iptables"@, "-D"@, network_v4(vpn4), wan), name) + (
        line_values("PostUp"@, script("ip6tables"@, "-A"@, network_v6(vpn6), wan), name)
            + line_values("PostDown"@, script("ip6tables"@, "-D"@, network_v6(vpn6), wan), name)))))),
{
    let ls = header_lines(vpn4, vpn6, port, key, wan);
    let none = Seq::<Seq<char>>::empty();
    let n4 = network_v4(vpn4);
    let n6 = network_v6(vpn6);
    lemma_setting_names();
    lemma_plain_lines(name);
    reveal_strlit("A");
    reveal_strlit("D");
    reveal_strlit("-");
    reveal_strlit("-A");
    reveal_strlit("-D");
    assert("-"@ + "A"@ =~= "-A"@);
    assert("-"@ + "D"@ =~= "-D"@);
    law_rules("iptables"@, "A"@, n4, wan);
    law_rules("iptables"@, "D"@, n4, wan);
    law_rules("ip6tables"@, "A"@, n6, wan);
    law_rules("ip6tables"@, "D"@, n6, wan);
    let l9 = seq![ls[9]] + none;
    let l8 = seq![ls[8]] + l9;
    let l7 = seq![ls[7]] + l8;
    let l6 = seq![ls[6]] + l7;
    let l5 = seq![ls[5]] + l6;
    let l4 = seq![ls[4]] + l5;
    let l3 = seq![ls[3]] + l4;
    let l2 = seq![ls[2]] + l3;
    let l1 = seq![ls[1]] + l2;
    assert(ls =~= seq![ls[0]] + l1);
    assert(ls[9] =~= Seq::<char>::empty());
    lemma_values_cons(ls[9], none, name);
    assert(values(none, name) =~= none);
    lemma_line_values(
        "PostDown = "@,
        "PostDown"@,
        script("ip6tables"@, "-D"@, n6, wan),
        l9,
        name,
    );
    lemma_line_values("PostUp = "@, "PostUp"@, script("ip6tables"@, "-A"@, n6, wan), l8, name);
    lemma_line_values("PostDown = "@, "PostDown"@, script("iptables"@, "-D"@, n4, wan), l7, name);
    lemma_line_values("PostUp = "@, "PostUp"@, script("iptables"@, "-A"@, n4, wan), l6, name);
    lemma_line_values("PrivateKey = "@, "PrivateKey"@, trimmed(key), l5, name);
    lemma_line_values("ListenPort = "@, "ListenPort"@, decimal(port), l4, name);
    let both = vpn4 + ", "@ + vpn6;
    lemma_regroup("Address = "@ + vpn4, ", "@, vpn6);
    lemma_regroup("Address = "@, vpn4, ", "@ + vpn6);
    lemma_regroup(vpn4, ", "@, vpn6);
    assert(ls[2] == "Address = "@ + both);
    lemma_line_values("Address = "@, "Address"@, both, l3, name);
    lemma_values_cons(ls[1], l2, name);
    lemma_values_cons(ls[0], l1, name);
    let last = line_values("PostDown"@, script("ip6tables"@, "-D"@, n6, wan), name);
    assert(last + none =~= last);
}

proof fn lemma_names_differ()
    ensures
        "Address"@ != "ListenPort"@ && "Address"@ != "PrivateKey"@ && "Address"@ != "PostUp"@
            && "Address"@ != "PostDown"@,
        "ListenPort"@ != "PrivateKey"@ && "ListenPort"@ != "PostUp"@ && "ListenPort"@
            != "PostDown"@,
        "PrivateKey"@ != "PostUp"@ && "PrivateKey"@ != "PostDown"@ && "PostUp"@ != "PostDown"@,
{
    reveal_strlit("Address");
    reveal_strlit("ListenPort");
    reveal_strlit("PrivateKey");
    reveal_strlit("PostUp");
    reveal_strlit("PostDown");
    assert("Address"@[0] == 'A' && "ListenPort"@[0] == 'L');
    assert("PrivateKey"@[1] == 'r' && "PostUp"@[1] == 'o' && "PostDown"@[1] == 'o');
    assert("PostUp"@.len() == 6 && "PostDown"@.len() == 8);
}

/// The settings of the interface section are read back from its lines: both addresses, the port,
/// the key without the white space round it, and for either family the rules that are set up and
/// the same rules taken down again.
pub proof fn law_interface_is_read(
    vpn4: Seq<char>,
    vpn6: Seq<char>,
    port: nat,
    key: Seq<char>,
    wan: Seq<char>,
)
    ensures
        ({
            let ls = header_lines(vpn4, vpn6, port, key, wan);
            &&& ls.len() == 10
            &&& ls[1] == "[Interface]"@
            &&& ls[9].len() == 0
            &&& values(ls, "Address"@) == seq![vpn4 + ", "@ + vpn6]
            &&& values(ls, "ListenPort"@) == seq![decimal(port)]
            &&& values(ls, "PrivateKey"@) == seq![trimmed(key)]
            &&& values(ls, "PostUp"@) == seq![
                script("iptables"@, "-A"@, network_v4(vpn4), wan),
                script("ip6tables"@, "-A"@, network_v6(vpn6), wan),
            ]
            &&& values(ls, "PostDown"@) == seq![
                script("iptables"@, "-D"@, network_v4(vpn4), wan),
                script("ip6tables"@, "-D"@, network_v6(vpn6), wan),
            ]
        }),
{
    lemma_names_differ();
    lemma_header_values(vpn4, vpn6, port, key, wan, "Address"@);
    lemma_header_values(vpn4, vpn6, port, key, wan, "ListenPort"@);
    lemma_header_values(vpn4, vpn6, port, key, wan, "PrivateKey"@);
    lemma_header_values(vpn4, vpn6, port, key, wan, "PostUp"@);
    lemma_header_values(vpn4, vpn6, port, key, wan, "PostDown"@);
    let ls = header_lines(vpn4, vpn6, port, key, wan);
    assert(values(ls, "Address"@) =~= seq![vpn4 + ", "@ + vpn6]);
    assert(values(ls, "ListenPort"@) =~= seq![decimal(port)]);
    assert(values(ls, "PrivateKey"@) =~= seq![trimmed(key)]);
    assert(values(ls, "PostUp"@) =~= seq![
        script("iptables"@, "-A"@, network_v4(vpn4), wan),
        script("ip6tables"@, "-A"@, network_v6(vpn6), wan),
    ]);
    assert(values(ls, "PostDown"@) =~= seq![
        script("iptables"@, "-D"@, network_v4(vpn4), wan),
        script("ip6tables"@, "-D"@, network_v6(vpn6), wan),
    ]);
}

/// The configuration is the interface section, and then the lines of the peer sections of the
/// old one; without an old one there is nothing after the interface section.
pub proof fn law_configuration(
    vpn4: Seq<char>,
    vpn6: Seq<char>,
    port: nat,
    key: Seq<char>,
    wan: Seq<char>,
    old_conf: Seq<char>,
)
    ensures
        conf_text(vpn4, vpn6, port, key, wan, None) == unlines(
            header_lines(vpn4, vpn6, port, key, wan),
        ),
        conf_text(vpn4, vpn6, port, key, wan, Some(old_conf)) == conf_text(
            vpn4,
            vpn6,
            port,
            key,
            wan,
            None,
        ) + unlines(peer_lines(lines(old_conf), false)),
{
    let h = unlines(header_lines(vpn4, vpn6, port, key, wan));
    assert(h + Seq::<char>::empty() =~= h);
}

// ---------------------------------------------------------------- which lines belong to peers

/// The line is, but for white space at its ends, the header `name`.
pub open spec fn is_line(line: Seq<char>, name: Seq<char>) -> bool {
    trimmed(line) == name
}

proof fn lemma_headers_differ()
    ensures
        "[Peer]"@ != "[Interface]"@,
{
    reveal_strlit("[Peer]");
    reveal_strlit("[Interface]");
    assert("[Peer]"@.len() == 6 && "[Interface]"@.len() == 11);
}

/// Which lines belong to peer sections is decided line by line, from the last header before them.
pub proof fn law_peer_lines_in_turn(ls: Seq<Seq<char>>, ms: Seq<Seq<char>>, in_peer: bool)
    requires
        ms.len() > 0 ==> is_line(ms[0], "[Peer]"@) || is_line(ms[0], "[Interface]"@),
    ensures
        peer_lines(ls + ms, in_peer) == peer_lines(ls, in_peer) + peer_lines(ms, false),
    decreases ls.len(),
{
    let all = ls + ms;
    lemma_headers_differ();
    if ls.len() == 0 {
        assert(all =~= ms);
        assert(peer_lines(ls, in_peer) + peer_lines(ms, false) =~= peer_lines(ms, false));
        if ms.len() > 0 {
            assert(in_peer_at(ms[0], in_peer) == in_peer_at(ms[0], false));
        }
    } else {
        let now = in_peer_at(ls[0], in_peer);
        assert(all[0] == ls[0]);
        assert(all.skip(1) =~= ls.skip(1) + ms);
        law_peer_lines_in_turn(ls.skip(1), ms, now);
        assert(peer_lines(all, in_peer) =~= peer_lines(ls, in_peer) + peer_lines(ms, false));
    }
}

proof fn lemma_lines_in_peer(ls: Seq<Seq<char>>, in_peer: bool)
    requires
        in_peer ==> forall|i: int| 0 <= i < ls.len() ==> !is_line(#[trigger] ls[i], "[Interface]"@),
        !in_peer ==> forall|i: int| 0 <= i < ls.len() ==> !is_line(#[trigger] ls[i], "[Peer]"@),
    ensures
        peer_lines(ls, in_peer) == if in_peer {
            ls
        } else {
            seq![]
        },
    decreases ls.len(),
{
    if ls.len() == 0 {
        assert(ls =~= seq![]);
    } else {
        let tail = ls.skip(1);
        lemma_headers_differ();
        assert(is_line(ls[0], "[Peer]"@) || !is_line(ls[0], "[Peer]"@));
        assert(in_peer ==> !is_line(ls[0], "[Interface]"@));
        assert(!in_peer ==> !is_line(ls[0], "[Peer]"@));
        assert forall|i: int| 0 <= i < tail.len() implies (in_peer ==> !is_line(
            #[trigger] tail[i],
            "[Interface]"@,
        )) && (!in_peer ==> !is_line(tail[i], "[Peer]"@)) by {
            assert(tail[i] == ls[i + 1]);
            assert(in_peer ==> !is_line(ls[i + 1], "[Interface]"@));
            assert(!in_peer ==> !is_line(ls[i + 1], "[Peer]"@));
        }
        lemma_lines_in_peer(tail, in_peer);
        assert(seq![ls[0]] + tail =~= ls);
    }
}

/// Every line from a peer header on belongs to the peers, up to the next interface section, and
/// no line of an interface section or before the first header does.
pub proof fn law_peer_lines(section: Seq<Seq<char>>)
    requires
        section.len() > 0,
    ensures
        is_line(section[0], "[Peer]"@) && (forall|i: int|
            0 < i < section.len() ==> !is_line(#[trigger] section[i], "[Interface]"@))
            ==> peer_lines(section, false) == section,
        (forall|i: int| 0 <= i < section.len() ==> !is_line(#[trigger] section[i], "[Peer]"@))
            ==> peer_lines(section, false) == Seq::<Seq<char>>::empty(),
{
    let tail = section.skip(1);
    lemma_headers_differ();
    if is_line(section[0], "[Peer]"@) && (forall|i: int|
        0 < i < section.len() ==> !is_line(#[trigger] section[i], "[Interface]"@)) {
        assert forall|i: int| 0 <= i < tail.len() implies !is_line(
            #[trigger] tail[i],
            "[Interface]"@,
        ) by {
            assert(tail[i] == section[i + 1]);
        }
        lemma_lines_in_peer(tail, true);
        assert(seq![section[0]] + tail =~= section);
    }
    if forall|i: int| 0 <= i < section.len() ==> !is_line(#[trigger] section[i], "[Peer]"@) {
        lemma_lines_in_peer(section, false);
    }
}

// ---------------------------------------------------------------- the section of a peer

/// The lines that a peer is written as.
pub open spec fn section_lines(p: PeerView) -> Seq<Seq<char>> {
    seq![
        seq![],
        "[Peer]"@,
        "PublicKey = "@ + p.client_pubkey,
        "PresharedKey = "@ + p.preshared_b64,
        "AllowedIPs = "@ + p.ip4 + "/32, "@ + p.ip6 + "/128"@,
    ]
}

proof fn lemma_section_text(p: PeerView)
    ensures
        peer_section(p) == unlines(section_lines(p)),
{
    let ls = section_lines(p);
    let l4 = ls.drop_last();
    let l3 = l4.drop_last();
    let l2 = l3.drop_last();
    let l1 = l2.drop_last();
    let key = "PublicKey = "@ + p.client_pubkey;
    let psk = p.preshared_b64;
    reveal_strlit("\n[Peer]\n");
    reveal_strlit("[Peer]");
    assert(unlines(l1.drop_last()) =~= seq![]);
    assert(l1.last() =~= Seq::<char>::empty());
    assert(unlines(l1) =~= seq!['\n']);
    assert(l2.last() == "[Peer]"@);
    assert(unlines(l2) =~= "\n[Peer]\n"@);
    let t2 = unlines(l2);
    assert(l3.last() == key);
    let t3 = unlines(l3);
    assert(t3 == t2 + key.push('\n'));
    assert(l4.last() == "PresharedKey = "@ + psk);
    let t4 = unlines(l4);
    assert(t4 == t3 + ("PresharedKey = "@ + psk).push('\n'));
    let ips = "AllowedIPs = "@ + p.ip4 + "/32, "@ + p.ip6 + "/128"@;
    assert(ls.last() == ips);
    assert(unlines(ls) == t4 + ips.push('\n'));
    assert(t2 + key + "\nPresharedKey = "@ =~= t3 + "PresharedKey = "@) by {
        reveal_strlit("\nPresharedKey = ");
        reveal_strlit("PresharedKey = ");
    }
    assert(t3 + "PresharedKey = "@ + psk + "\nAllowedIPs = "@ =~= t4 + "AllowedIPs = "@) by {
        reveal_strlit("\nAllowedIPs = ");
        reveal_strlit("AllowedIPs = ");
    }
    let a = "AllowedIPs = "@;
    let m = "/32, "@;
    let e = "/128"@;
    assert(ips.push('\n') =~= a + p.ip4 + m + p.ip6 + "/128\n"@) by {
        reveal_strlit("/128");
        reveal_strlit("/128\n");
    }
    lemma_regroup(t4, a + p.ip4 + m + p.ip6, "/128\n"@);
    lemma_regroup(t4, a + p.ip4 + m, p.ip6);
    lemma_regroup(t4, a + p.ip4, m);
    lemma_regroup(t4, a, p.ip4);
    assert(unlines(ls) == t4 + a + p.ip4 + m + p.ip6 + "/128\n"@);
}

/// A text that can stand at the end of a line.
pub open spec fn line_end(s: Seq<char>) -> bool {
    one_line(s) && (s.len() > 0 ==> s.last() != '\r')
}

proof fn lemma_kept_line(literal: Seq<char>, value: Seq<char>)
    requires
        line_end(value),
        one_line(literal),
        literal.len() > 0,
        literal.last() != '\r',
    ensures
        one_line(literal + value),
        without_cr(literal + value) == literal + value,
{
    lemma_lacks_add(literal, value, '\n');
    let l = literal + value;
    assert(l.last() == if value.len() > 0 {
        value.last()
    } else {
        literal.last()
    });
}

/// What is added to a configuration for a peer is read as five lines: an empty one, the header,
/// and the key, the preshared key and both addresses of the peer. The lines before it stay.
pub proof fn law_added_peer_is_read(conf: Seq<char>, p: PeerView)
    requires
        line_end(p.client_pubkey),
        line_end(p.preshared_b64),
        one_line(p.ip4),
        one_line(p.ip6),
        conf.len() > 0 ==> conf.last() == '\n',
    ensures
        lines(conf + peer_section(p)) == lines(conf) + section_lines(p),
{
    let ls = section_lines(p);
    let none = Seq::<char>::empty();
    lemma_section_text(p);
    reveal_strlit("[Peer]");
    reveal_strlit("PublicKey = ");
    reveal_strlit("PresharedKey = ");
    reveal_strlit("AllowedIPs = ");
    reveal_strlit("/32, ");
    reveal_strlit("/128");
    lemma_kept_line("PublicKey = "@, p.client_pubkey);
    lemma_kept_line("PresharedKey = "@, p.preshared_b64);
    let a = "AllowedIPs = "@ + p.ip4;
    lemma_lacks_add("AllowedIPs = "@, p.ip4, '\n');
    lemma_lacks_add(a, "/32, "@, '\n');
    lemma_lacks_add(a + "/32, "@, p.ip6, '\n');
    lemma_lacks_add(a + "/32, "@ + p.ip6, "/128"@, '\n');
    let ips = a + "/32, "@ + p.ip6 + "/128"@;
    assert(ips.last() == '8');
    assert(without_cr("[Peer]"@) == "[Peer]"@);
    assert forall|i: int| 0 <= i < ls.len() implies one_line(#[trigger] ls[i]) && without_cr(ls[i])
        == ls[i] by {
        assert(i == 0 || i == 1 || i == 2 || i == 3 || i == 4);
    }
    law_lines_of_unlines(ls, none);
    assert(unlines(ls) + none =~= unlines(ls));
    assert(clean(ls) =~= ls);
    assert(ls + lines(none) =~= ls);
    lemma_lines_add(conf, peer_section(p));
}

/// A peer is added exactly where its key stands nowhere in the configuration.
pub proof fn law_peer_is_missing(conf: Seq<char>, p: PeerView)
    ensures
        missing_section(conf, p) is None <==> occurs(conf, "PublicKey = "@ + p.client_pubkey),
        missing_section(conf, p) matches Some(s) ==> s == peer_section(p),
        key_line(p.client_pubkey) == "PublicKey = "@ + p.client_pubkey,
{
}

/// A line starts a section exactly where it is one of the two headers.
pub proof fn law_headers(line: Seq<char>)
    ensures
        is_header(line) <==> is_line(line, "[Peer]"@) || is_line(line, "[Interface]"@),
{
}

} // verus!
