//! The text of the WireGuard configuration file: the interface section that the agent writes,
//! the peers that it carries over, adds and takes out.

use crate::address::{as_nats, octets, parse_octets};
use crate::number::{decimal, parse, parsed, to_decimal};
use crate::reply::{PeerView, WantedPeer};
use crate::text::{chars_of, contains, find, find_from, halves, lemma_views_push, lines, occurs};
use crate::text::{pieces, same, split_lines, split_on, split_once, starts};
use crate::text::{starts_with, string_of, strip_prefix, trim, trimmed, view_of, views};
use vstd::prelude::*;

verus! {

// ---------------------------------------------------------------- networks

/// Four numbers as the bytes of a 32-bit address; what is over a byte runs into the byte above.
pub open spec fn packed(a: u32, b: u32, c: u32, d: u32) -> u32 {
    (a << 24) | (b << 16) | (c << 8) | d
}

/// The mask of a network whose prefix has `p` bits.
pub open spec fn mask(p: u32) -> u32 {
    if p == 0 {
        0
    } else {
        0xffff_ffffu32 << ((32 - p) as u32)
    }
}

/// A 32-bit address in dotted notation, with the length of its prefix.
pub open spec fn dotted(net: u32, p: nat) -> Seq<char> {
    decimal(((net >> 24) & 255) as nat) + "."@ + decimal(((net >> 16) & 255) as nat) + "."@
        + decimal(((net >> 8) & 255) as nat) + "."@ + decimal((net & 255) as nat) + "/"@ + decimal(
        p,
    )
}

/// The number of bits in a network's prefix: 24 where it is no number, and at most 32.
pub open spec fn prefix_bits(prefix: Seq<char>) -> nat {
    match parsed(prefix, u32::MAX as nat) {
        Some(n) => if n < 32 {
            n
        } else {
            32
        },
        None => 24,
    }
}

/// The IPv4 network of an address with a prefix length (24 bits where it has none); the text
/// itself where that is no dotted address.
pub open spec fn network_v4(vpn4: Seq<char>) -> Seq<char> {
    let (ip, prefix) = match halves(vpn4, '/') {
        Some(h) => h,
        None => (vpn4, "24"@),
    };
    let o = octets(ip);
    let p = prefix_bits(prefix);
    if o.len() == 4 {
        dotted(packed(o[0] as u32, o[1] as u32, o[2] as u32, o[3] as u32) & mask(p as u32), p)
    } else {
        vpn4
    }
}

/// The IPv4 network of an address with a prefix length.
pub fn v4net(vpn4: &str) -> (r: String)
    ensures
        r@ == network_v4(vpn4@),
{
    let (ip, prefix) = match split_once(vpn4, '/') {
        Some(h) => h,
        None => (vpn4.to_owned(), "24".to_owned()),
    };
    let o = parse_octets(ip.as_str());
    if o.len() == 4 {
        let n: u64 = match parse(prefix.as_str(), u32::MAX as u64) {
            Some(n) => n,
            None => 24,
        };
        let p: u32 = if n < 32 {
            n as u32
        } else {
            32
        };
        let m: u32 = if p == 0 {
            0
        } else {
            0xffff_ffffu32 << (32 - p)
        };
        assert(as_nats(o@)[0] == o[0] && as_nats(o@)[1] == o[1] && as_nats(o@)[2] == o[2]
            && as_nats(o@)[3] == o[3]);
        let addr: u32 = (o[0] << 24) | (o[1] << 16) | (o[2] << 8) | o[3];
        let net: u32 = addr & m;
        return to_decimal(((net >> 24) & 255) as u64).concat(".").concat(
            to_decimal(((net >> 16) & 255) as u64).as_str(),
        ).concat(".").concat(to_decimal(((net >> 8) & 255) as u64).as_str()).concat(".").concat(
            to_decimal((net & 255) as u64).as_str(),
        ).concat("/").concat(to_decimal(p as u64).as_str());
    }
    vpn4.to_owned()
}

/// The pieces with a colon between them.
pub open spec fn joined(ps: Seq<Seq<char>>) -> Seq<char>
    decreases ps.len(),
{
    if ps.len() == 0 {
        seq![]
    } else if ps.len() == 1 {
        ps[0]
    } else {
        joined(ps.drop_last()) + ":"@ + ps.last()
    }
}

/// What stands before the first `::`; all of `s` where there is none.
pub open spec fn before_gap(s: Seq<char>) -> Seq<char> {
    match find(s, "::"@) {
        Some(i) => s.take(i),
        None => s,
    }
}

/// At most the first four of the pieces.
pub open spec fn first_four(ps: Seq<Seq<char>>) -> Seq<Seq<char>> {
    if ps.len() > 4 {
        ps.take(4)
    } else {
        ps
    }
}

/// The IPv6 network of an address in a `/64`: its first four groups; the text itself for any
/// other address.
pub open spec fn network_v6(vpn6: Seq<char>) -> Seq<char> {
    if occurs(vpn6, "/64"@) {
        joined(first_four(pieces(before_gap(vpn6), ':'))) + "::/64"@
    } else {
        vpn6
    }
}

/// The IPv6 network of an address in a `/64`.
pub fn v6net(vpn6: &str) -> (r: String)
    ensures
        r@ == network_v6(vpn6@),
{
    if !contains(vpn6, "/64") {
        return vpn6.to_owned();
    }
    let v = chars_of(vpn6);
    assert(v@.skip(0) =~= v@);
    let end: usize = match find_from(&v, 0, &chars_of("::")) {
        Some(i) => i,
        None => v.len(),
    };
    assert(v@.subrange(0, end as int) =~= before_gap(vpn6@));
    let groups = split_on(string_of(&v, 0, end).as_str(), ':');
    let ghost all = views(groups@);
    let n: usize = if groups.len() > 4 {
        4
    } else {
        groups.len()
    };
    let mut out = String::new();
    let mut i: usize = 0;
    assert(all.take(0) =~= seq![]);
    assert(out@ =~= joined(all.take(0)));
    while i < n
        invariant
            i <= n <= groups.len(),
            all == views(groups@),
            out@ == joined(all.take(i as int)),
        decreases n - i,
    {
        let ghost next = all.take(i + 1);
        assert(next.drop_last() =~= all.take(i as int));
        assert(next.last() == groups[i as int]@);
        if i > 0 {
            out.append(":");
        } else {
            assert(out@ + groups[i as int]@ =~= next[0]);
        }
        out.append(groups[i].as_str());
        i += 1;
    }
    assert(all.take(n as int) =~= first_four(all));
    out.append("::/64");
    out
}

// ---------------------------------------------------------------- lines

/// The lines, each ended by a newline.
pub open spec fn unlines(ls: Seq<Seq<char>>) -> Seq<char>
    decreases ls.len(),
{
    if ls.len() == 0 {
        seq![]
    } else {
        unlines(ls.drop_last()) + ls.last().push('\n')
    }
}

/// The lines, each ended by a newline.
fn join_lines(ls: &Vec<String>) -> (r: String)
    ensures
        r@ == unlines(views(ls@)),
{
    let ghost all = views(ls@);
    let mut out = String::new();
    let mut i: usize = 0;
    assert(out@ =~= unlines(all.take(0)));
    while i < ls.len()
        invariant
            i <= ls.len(),
            all == views(ls@),
            out@ == unlines(all.take(i as int)),
        decreases ls.len() - i,
    {
        let ghost next = all.take(i + 1);
        assert(next.drop_last() =~= all.take(i as int));
        assert(next.last() == ls[i as int]@);
        let ghost done = out@;
        out.append(ls[i].as_str());
        out.push('\n');
        assert(out@ =~= done + ls[i as int]@.push('\n'));
        i += 1;
    }
    assert(all.take(i as int) =~= all);
    out
}

// ---------------------------------------------------------------- the interface section

/// The forwarding and NAT rules of one family: `cmd` is the tool, `op` adds or deletes.
pub open spec fn rules(cmd: Seq<char>, op: Seq<char>, net: Seq<char>, wan: Seq<char>) -> Seq<char> {
    cmd + " -"@ + op + " FORWARD -i %i -j ACCEPT; "@ + cmd + " -"@ + op
        + " FORWARD -o %i -j ACCEPT; "@ + cmd + " -t nat -"@ + op + " POSTROUTING -s "@ + net
        + " -o "@ + wan + " -j MASQUERADE"@
}

fn rules_text(cmd: &str, op: &str, net: &str, wan: &str) -> (r: String)
    ensures
        r@ == rules(cmd@, op@, net@, wan@),
{
    cmd.to_owned().concat(" -").concat(op).concat(" FORWARD -i %i -j ACCEPT; ").concat(cmd).concat(
        " -",
    ).concat(op).concat(" FORWARD -o %i -j ACCEPT; ").concat(cmd).concat(" -t nat -").concat(
        op,
    ).concat(" POSTROUTING -s ").concat(net).concat(" -o ").concat(wan).concat(" -j MASQUERADE")
}

/// The lines of the interface section.
pub open spec fn header_lines(
    vpn4: Seq<char>,
    vpn6: Seq<char>,
    port: nat,
    key: Seq<char>,
    wan: Seq<char>,
) -> Seq<Seq<char>> {
    let n4 = network_v4(vpn4);
    let n6 = network_v6(vpn6);
    seq![
        "# Generated by vpnyellod — peers below are managed (do not hand-edit header)."@,
        "[Interface]"@,
        "Address = "@ + vpn4 + ", "@ + vpn6,
        "ListenPort = "@ + decimal(port),
        "PrivateKey = "@ + trimmed(key),
        "PostUp = "@ + rules("iptables"@, "A"@, n4, wan),
        "PostDown = "@ + rules("iptables"@, "D"@, n4, wan),
        "PostUp = "@ + rules("ip6tables"@, "A"@, n6, wan),
        "PostDown = "@ + rules("ip6tables"@, "D"@, n6, wan),
        seq![],
    ]
}

fn header_text(vpn4: &str, vpn6: &str, port: u16, key: &str, wan: &str) -> (r: String)
    ensures
        r@ == unlines(header_lines(vpn4@, vpn6@, port as nat, key@, wan@)),
{
    let n4 = v4net(vpn4);
    let n6 = v6net(vpn6);
    let title = "# Generated by vpnyellod — peers below are managed (do not hand-edit header).";
    let ls: Vec<String> = vec![
        title.to_owned(),
        "[Interface]".to_owned(),
        "Address = ".to_owned().concat(vpn4).concat(", ").concat(vpn6),
        "ListenPort = ".to_owned().concat(to_decimal(port as u64).as_str()),
        "PrivateKey = ".to_owned().concat(trim(key).as_str()),
        "PostUp = ".to_owned().concat(rules_text("iptables", "A", n4.as_str(), wan).as_str()),
        "PostDown = ".to_owned().concat(rules_text("iptables", "D", n4.as_str(), wan).as_str()),
        "PostUp = ".to_owned().concat(rules_text("ip6tables", "A", n6.as_str(), wan).as_str()),
        "PostDown = ".to_owned().concat(rules_text("ip6tables", "D", n6.as_str(), wan).as_str()),
        String::new(),
    ];
    assert(ls@[9]@ =~= seq![]);
    assert(views(ls@) =~= header_lines(vpn4@, vpn6@, port as nat, key@, wan@));
    join_lines(&ls)
}

// ---------------------------------------------------------------- carrying peers over

/// Whether a line is inside a peer section, given whether the one before it is.
pub open spec fn in_peer_at(line: Seq<char>, before: bool) -> bool {
    let t = trimmed(line);
    if t == "[Peer]"@ {
        true
    } else if t == "[Interface]"@ {
        false
    } else {
        before
    }
}

/// The lines of `ls` that belong to peer sections; `in_peer` tells where the first one stands.
pub open spec fn peer_lines(ls: Seq<Seq<char>>, in_peer: bool) -> Seq<Seq<char>>
    decreases ls.len(),
{
    if ls.len() == 0 {
        seq![]
    } else {
        let now = in_peer_at(ls[0], in_peer);
        if now {
            seq![ls[0]] + peer_lines(ls.skip(1), now)
        } else {
            peer_lines(ls.skip(1), now)
        }
    }
}

/// The text of the peer sections of a configuration.
pub fn peer_sections(conf: &str) -> (r: String)
    ensures
        r@ == unlines(peer_lines(lines(conf@), false)),
{
    broadcast use lemma_views_push;

    let ls = split_lines(conf);
    let ghost all = views(ls@);
    let mut kept: Vec<String> = Vec::new();
    let mut in_peer = false;
    let mut i: usize = 0;
    assert(all.skip(0) =~= all);
    assert(views(kept@) + peer_lines(all, false) =~= peer_lines(all, false));
    while i < ls.len()
        invariant
            i <= ls.len(),
            all == views(ls@),
            views(kept@) + peer_lines(all.skip(i as int), in_peer) == peer_lines(all, false),
        decreases ls.len() - i,
    {
        let ghost rest = all.skip(i as int);
        let ghost done = views(kept@);
        assert(rest[0] == ls[i as int]@);
        assert(rest.skip(1) =~= all.skip(i + 1));
        let t = trim(ls[i].as_str());
        if same(t.as_str(), "[Peer]") {
            in_peer = true;
        } else if same(t.as_str(), "[Interface]") {
            in_peer = false;
        }
        if in_peer {
            kept.push(ls[i].clone());
            assert(views(kept@) + peer_lines(all.skip(i + 1), true) =~= done + (seq![rest[0]]
                + peer_lines(all.skip(i + 1), true)));
        }
        i += 1;
    }
    assert(views(kept@) + peer_lines(all.skip(i as int), in_peer) =~= views(kept@));
    join_lines(&kept)
}

/// The text of the configuration file: the interface section, and the peer sections of the
/// old file where there was one.
pub open spec fn conf_text(
    vpn4: Seq<char>,
    vpn6: Seq<char>,
    port: nat,
    key: Seq<char>,
    wan: Seq<char>,
    old_conf: Option<Seq<char>>,
) -> Seq<char> {
    unlines(header_lines(vpn4, vpn6, port, key, wan)) + (match old_conf {
        Some(c) => unlines(peer_lines(lines(c), false)),
        None => seq![],
    })
}

/// The text of the configuration file.
pub fn render_conf(
    vpn4: &str,
    vpn6: &str,
    port: u16,
    key: &str,
    wan: &str,
    old_conf: &Option<String>,
) -> (r: String)
    ensures
        r@ == conf_text(
            vpn4@,
            vpn6@,
            port as nat,
            key@,
            wan@,
            view_of(*old_conf),
        ),
{
    let header = header_text(vpn4, vpn6, port, key, wan);
    match old_conf {
        Some(c) => header.concat(peer_sections(c.as_str()).as_str()),
        None => {
            assert(header@ + seq![] =~= header@);
            header
        },
    }
}

// ---------------------------------------------------------------- adding a peer

/// The line that names a peer's key.
pub open spec fn key_line(pubkey: Seq<char>) -> Seq<char> {
    "PublicKey = "@ + pubkey
}

/// The line that names a peer's key.
pub fn key_line_of(pubkey: &str) -> (r: String)
    ensures
        r@ == key_line(pubkey@),
{
    "PublicKey = ".to_owned().concat(pubkey)
}

/// The section of a peer, with an empty line before it.
pub open spec fn peer_section(p: PeerView) -> Seq<char> {
    "\n[Peer]\n"@ + key_line(p.client_pubkey) + "\nPresharedKey = "@ + p.preshared_b64
        + "\nAllowedIPs = "@ + p.ip4 + "/32, "@ + p.ip6 + "/128\n"@
}

/// What to add to the configuration so that it holds the peer: nothing where its key is there.
pub open spec fn missing_section(conf: Seq<char>, p: PeerView) -> Option<Seq<char>> {
    if occurs(conf, key_line(p.client_pubkey)) {
        None
    } else {
        Some(peer_section(p))
    }
}

/// What to add to the configuration so that it holds the peer.
pub fn section_to_add(conf: &str, p: &WantedPeer) -> (r: Option<String>)
    ensures
        view_of(r) == missing_section(conf@, p@),
{
    let key = key_line_of(p.client_pubkey.as_str());
    if contains(conf, key.as_str()) {
        None
    } else {
        Some(
            "\n[Peer]\n".to_owned().concat(key.as_str()).concat("\nPresharedKey = ").concat(
                p.preshared_b64.as_str(),
            ).concat("\nAllowedIPs = ").concat(p.ip4.as_str()).concat("/32, ").concat(
                p.ip6.as_str(),
            ).concat("/128\n"),
        )
    }
}

// ---------------------------------------------------------------- taking a peer out

/// `line` starts a section.
pub open spec fn is_header(line: Seq<char>) -> bool {
    trimmed(line) == "[Peer]"@ || trimmed(line) == "[Interface]"@
}

/// How many lines stand before the next header.
pub open spec fn body_len(ls: Seq<Seq<char>>) -> nat
    decreases ls.len(),
{
    if ls.len() == 0 || is_header(ls[0]) {
        0
    } else {
        1 + body_len(ls.skip(1))
    }
}

/// The lines before the next header are no more than there are.
pub proof fn lemma_body_len(ls: Seq<Seq<char>>)
    ensures
        body_len(ls) <= ls.len(),
    decreases ls.len(),
{
    if ls.len() > 0 && !is_header(ls[0]) {
        lemma_body_len(ls.skip(1));
    }
}

/// How many lines the first section has: its first line, and those before the next header.
pub open spec fn section_len(ls: Seq<Seq<char>>) -> nat {
    1 + body_len(ls.skip(1))
}

/// Some line is `key`, but for white space at its ends.
pub open spec fn has_line(ls: Seq<Seq<char>>, key: Seq<char>) -> bool {
    exists|i: int| 0 <= i < ls.len() && trimmed(#[trigger] ls[i]) == key
}

/// Some line names the key of a peer.
pub open spec fn has_peer(ls: Seq<Seq<char>>) -> bool {
    exists|i: int| 0 <= i < ls.len() && starts(trimmed(#[trigger] ls[i]), "PublicKey = "@)
}

/// The lines of a section without the block of the peer named by the line `key`: that line goes,
/// and so do those after it, up to the next key. `skip` tells whether the first line is among
/// those.
pub open spec fn pruned(ls: Seq<Seq<char>>, key: Seq<char>, skip: bool) -> Seq<Seq<char>>
    decreases ls.len(),
{
    if ls.len() == 0 {
        seq![]
    } else {
        let t = trimmed(ls[0]);
        if t == key {
            pruned(ls.skip(1), key, true)
        } else if skip && !starts(t, "PublicKey = "@) {
            pruned(ls.skip(1), key, true)
        } else {
            seq![ls[0]] + pruned(ls.skip(1), key, false)
        }
    }
}

/// A section without the peer named by the line `key`. A peer section goes as a whole, header
/// and all, unless it has the key of another peer.
pub open spec fn section_without(section: Seq<Seq<char>>, key: Seq<char>) -> Seq<Seq<char>> {
    let left = pruned(section, key, false);
    if trimmed(section[0]) == "[Peer]"@ && has_line(section, key) && !has_peer(left) {
        seq![]
    } else {
        left
    }
}

/// The sections of `ls`, each without the peer named by the line `key`.
pub open spec fn lines_without(ls: Seq<Seq<char>>, key: Seq<char>) -> Seq<Seq<char>>
    decreases ls.len(),
{
    if ls.len() == 0 {
        seq![]
    } else {
        let n = section_len(ls) as int;
        proof {
            lemma_body_len(ls.skip(1));
        }
        section_without(ls.take(n), key) + lines_without(ls.skip(n), key)
    }
}

/// `line` is a peer header.
pub open spec fn is_peer_header(line: Seq<char>) -> bool {
    trimmed(line) == "[Peer]"@
}

/// The lines start with a peer header and nothing after it, an empty line, and a peer header with
/// nothing before it.
pub open spec fn has_empty_section(ls: Seq<Seq<char>>) -> bool {
    &&& ls.len() >= 3
    &&& is_peer_header(ls[0]) && ls[0].len() > 0 && ls[0].last() == ']'
    &&& ls[1].len() == 0
    &&& is_peer_header(ls[2]) && starts(ls[2], "[Peer]"@)
}

/// The lines with one peer header for each two that have nothing but an empty line between them,
/// from the top; what stands after the second one stays.
pub open spec fn headers_joined(ls: Seq<Seq<char>>) -> Seq<Seq<char>>
    decreases ls.len(),
{
    if ls.len() == 0 {
        seq![]
    } else if has_empty_section(ls) {
        seq![ls[0] + ls[2].skip("[Peer]"@.len() as int)] + headers_joined(ls.skip(3))
    } else {
        seq![ls[0]] + headers_joined(ls.skip(1))
    }
}

/// The configuration without the peer with the given key; of two peer headers with nothing but an
/// empty line between them, one is left.
pub open spec fn conf_without(conf: Seq<char>, pubkey: Seq<char>) -> Seq<char> {
    unlines(headers_joined(lines_without(lines(conf), key_line(pubkey))))
}

/// The header of the section that follows line `from`, or the end of the lines.
fn next_header(ls: &Vec<String>, from: usize) -> (r: usize)
    requires
        from <= ls.len(),
    ensures
        from <= r <= ls.len(),
        r - from == body_len(views(ls@).skip(from as int)),
{
    let ghost all = views(ls@);
    let mut i: usize = from;
    while i < ls.len()
        invariant
            from <= i <= ls.len(),
            all == views(ls@),
            i - from + body_len(all.skip(i as int)) == body_len(all.skip(from as int)),
        decreases ls.len() - i,
    {
        assert(all.skip(i as int)[0] == ls[i as int]@);
        assert(all.skip(i as int).skip(1) =~= all.skip(i + 1));
        let t = trim(ls[i].as_str());
        if same(t.as_str(), "[Peer]") || same(t.as_str(), "[Interface]") {
            return i;
        }
        i += 1;
    }
    i
}

/// The lines from `from` up to `to`, a section, without the peer named by the line `key`.
fn prune_section(ls: &Vec<String>, from: usize, to: usize, key: &str) -> (r: Vec<String>)
    requires
        from < to <= ls.len(),
    ensures
        views(r@) == section_without(views(ls@).subrange(from as int, to as int), key@),
{
    broadcast use lemma_views_push;

    let ghost section = views(ls@).subrange(from as int, to as int);
    let mut left: Vec<String> = Vec::new();
    let mut skip = false;
    let mut named = false;
    let mut other = false;
    let mut i: usize = from;
    assert(section.skip(0) =~= section);
    assert(views(left@) + pruned(section, key@, false) =~= pruned(section, key@, false));
    while i < to
        invariant
            from <= i <= to <= ls.len(),
            section == views(ls@).subrange(from as int, to as int),
            views(left@) + pruned(section.skip(i - from), key@, skip) == pruned(
                section,
                key@,
                false,
            ),
            named == (exists|j: int| 0 <= j < i - from && trimmed(#[trigger] section[j]) == key@),
            other == has_peer(views(left@)),
        decreases to - i,
    {
        let ghost rest = section.skip(i - from);
        let ghost tail = section.skip(i - from + 1);
        let ghost done = views(left@);
        assert(rest[0] == ls[i as int]@);
        assert(section[i - from] == ls[i as int]@);
        assert(rest.skip(1) =~= tail);
        let t = trim(ls[i].as_str());
        let is_key = starts_with(t.as_str(), "PublicKey = ");
        if same(t.as_str(), key) {
            skip = true;
            named = true;
        } else if is_key {
            skip = false;
        }
        if !skip {
            left.push(ls[i].clone());
            let ghost now = views(left@);
            assert(now + pruned(tail, key@, false) =~= done + (seq![rest[0]] + pruned(
                tail,
                key@,
                false,
            )));
            assert(has_peer(now) == (other || is_key)) by {
                if other {
                    let j = choose|j: int|
                        0 <= j < done.len() && starts(trimmed(#[trigger] done[j]), "PublicKey = "@);
                    assert(now[j] == done[j]);
                }
                if is_key {
                    assert(now[now.len() - 1] == ls[i as int]@);
                }
                if has_peer(now) && !is_key {
                    let j = choose|j: int|
                        0 <= j < now.len() && starts(trimmed(#[trigger] now[j]), "PublicKey = "@);
                    assert(now[j] == done[j]);
                }
            }
            other = other || is_key;
        }
        i += 1;
    }
    assert(views(left@) + pruned(section.skip(i - from), key@, skip) =~= views(left@));
    assert(section[0] == ls[from as int]@);
    if same(trim(ls[from].as_str()).as_str(), "[Peer]") && named && !other {
        let none: Vec<String> = Vec::new();
        assert(views(none@) =~= seq![]);
        return none;
    }
    left
}

/// What stands after the second peer header where the lines from `at` on have an empty section.
fn after_empty_section(ls: &Vec<String>, at: usize) -> (r: Option<String>)
    requires
        at < ls.len(),
    ensures
        match r {
            Some(s) => has_empty_section(views(ls@).skip(at as int)) && s@ == views(ls@)[at
                + 2].skip("[Peer]"@.len() as int),
            None => !has_empty_section(views(ls@).skip(at as int)),
        },
{
    let ghost rest = views(ls@).skip(at as int);
    if ls.len() - at < 3 {
        return None;
    }
    assert(rest[0] == ls[at as int]@ && rest[1] == ls[at + 1]@ && rest[2] == ls[at + 2]@);
    assert(views(ls@)[at + 2] == ls[at + 2]@);
    let first = chars_of(ls[at].as_str());
    if first.len() == 0 || first[first.len() - 1] != ']' || !ls[at + 1].as_str().is_empty() {
        return None;
    }
    if !same(trim(ls[at].as_str()).as_str(), "[Peer]") || !same(
        trim(ls[at + 2].as_str()).as_str(),
        "[Peer]",
    ) {
        return None;
    }
    strip_prefix(ls[at + 2].as_str(), "[Peer]")
}

/// The lines with one peer header for each two that have nothing but an empty line between them.
fn join_headers(ls: &Vec<String>) -> (r: Vec<String>)
    ensures
        views(r@) == headers_joined(views(ls@)),
{
    broadcast use lemma_views_push;

    let ghost all = views(ls@);
    let mut out: Vec<String> = Vec::new();
    let mut i: usize = 0;
    assert(all.skip(0) =~= all);
    assert(views(out@) + headers_joined(all) =~= headers_joined(all));
    while i < ls.len()
        invariant
            i <= ls.len(),
            all == views(ls@),
            views(out@) + headers_joined(all.skip(i as int)) == headers_joined(all),
        decreases ls.len() - i,
    {
        let ghost rest = all.skip(i as int);
        let ghost done = views(out@);
        assert(rest[0] == ls[i as int]@);
        match after_empty_section(ls, i) {
            Some(tail) => {
                assert(rest[2] == all[i + 2]);
                let line = ls[i].clone().concat(tail.as_str());
                out.push(line);
                assert(rest.skip(3) =~= all.skip(i + 3));
                assert(views(out@) + headers_joined(all.skip(i + 3)) =~= done + (seq![line@]
                    + headers_joined(all.skip(i + 3))));
                i += 3;
            },
            None => {
                out.push(ls[i].clone());
                assert(rest.skip(1) =~= all.skip(i + 1));
                assert(views(out@) + headers_joined(all.skip(i + 1)) =~= done + (seq![rest[0]]
                    + headers_joined(all.skip(i + 1))));
                i += 1;
            },
        }
    }
    assert(views(out@) + headers_joined(all.skip(i as int)) =~= views(out@));
    out
}

/// The configuration without the peer with the given key.
pub fn without_peer(conf: &str, pubkey: &str) -> (r: String)
    ensures
        r@ == conf_without(conf@, pubkey@),
{
    let ls = split_lines(conf);
    let key = key_line_of(pubkey);
    let ghost all = views(ls@);
    let mut kept: Vec<String> = Vec::new();
    let mut i: usize = 0;
    assert(all.skip(0) =~= all);
    assert(views(kept@) + lines_without(all, key@) =~= lines_without(all, key@));
    while i < ls.len()
        invariant
            i <= ls.len(),
            all == views(ls@),
            views(kept@) + lines_without(all.skip(i as int), key@) == lines_without(all, key@),
        decreases ls.len() - i,
    {
        let j = next_header(&ls, i + 1);
        let ghost rest = all.skip(i as int);
        assert(rest.skip(1) =~= all.skip(i + 1));
        assert(rest.take(j - i) =~= all.subrange(i as int, j as int));
        assert(rest.skip(j - i) =~= all.skip(j as int));
        let ghost done = views(kept@);
        let mut left = prune_section(&ls, i, j, key.as_str());
        let ghost more = views(left@);
        kept.append(&mut left);
        assert(views(kept@) =~= done + more);
        assert(done + (more + lines_without(all.skip(j as int), key@)) =~= done + more
            + lines_without(all.skip(j as int), key@));
        i = j;
    }
    assert(views(kept@) + lines_without(all.skip(i as int), key@) =~= views(kept@));
    join_lines(&join_headers(&kept))
}

} // verus!
