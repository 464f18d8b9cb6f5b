//! Addresses as numbers: which of them are global, and the network that an address lies in.

use crate::address::{global_v6, is_v4_global, is_v6_global, numbers, octets};
use crate::conf::{before_gap, dotted, joined, mask, network_v4, network_v6, packed, prefix_bits};
use crate::laws::conf::{law_network_bits, lemma_octets_of_quad, lemma_pieces_cons};
use crate::laws::conf::{lemma_quad_lacks_slash, quad};
use crate::laws::text::lemma_span_of;
use crate::laws::words::law_pieces;
use crate::number::{decimal, law_parse_of_decimal, parsed};
use crate::text::{before, find, lemma_find, lowercase, occurs, occurs_at, pieces, starts, CharClass};
use vstd::prelude::*;

verus! {

// ---------------------------------------------------------------- global addresses

/// The 32-bit value of the IPv4 address with these four bytes.
pub open spec fn address_value(a: nat, b: nat, c: nat, d: nat) -> nat {
    a * 0x100_0000 + b * 0x1_0000 + c * 0x100 + d
}

/// The IPv4 address with the value `x` is not global: it lies in `0.0.0.0/8`, `10.0.0.0/8`,
/// `100.64.0.0/10`, `127.0.0.0/8`, `169.254.0.0/16`, `172.16.0.0/12`, `192.168.0.0/16` or
/// `224.0.0.0/3`.
pub open spec fn not_routed(x: nat) -> bool {
    ||| x < 0x0100_0000
    ||| 0x0a00_0000 <= x < 0x0b00_0000
    ||| 0x6440_0000 <= x < 0x6480_0000
    ||| 0x7f00_0000 <= x < 0x8000_0000
    ||| 0xa9fe_0000 <= x < 0xa9ff_0000
    ||| 0xac10_0000 <= x < 0xac20_0000
    ||| 0xc0a8_0000 <= x < 0xc0a9_0000
    ||| 0xe000_0000 <= x
}

/// A text is a global IPv4 address exactly where it has four numbers, all of them bytes, and the
/// address that they make lies outside the networks that are not routed.
pub proof fn law_global_v4(ip: Seq<char>)
    ensures
        is_v4_global(ip) <==> ({
            let o = octets(ip);
            &&& o.len() == 4
            &&& o[0] < 256 && o[1] < 256 && o[2] < 256 && o[3] < 256
            &&& !not_routed(address_value(o[0], o[1], o[2], o[3]))
        }),
{
    let o = octets(ip);
    if o.len() == 4 && o[0] < 256 && o[1] < 256 && o[2] < 256 && o[3] < 256 {
        assert forall|i: int| 0 <= i < 4 implies #[trigger] o[i] <= 255 by {
            assert(i == 0 || i == 1 || i == 2 || i == 3);
        }
    }
}

/// Every dotted quad of bytes is a global address exactly where its value lies outside the
/// networks that are not routed.
pub proof fn law_global_v4_by_value(a: nat, b: nat, c: nat, d: nat)
    requires
        a < 256,
        b < 256,
        c < 256,
        d < 256,
    ensures
        is_v4_global(quad(a, b, c, d)) <==> !not_routed(address_value(a, b, c, d)),
{
    lemma_octets_of_quad(a, b, c, d);
    law_global_v4(quad(a, b, c, d));
}

/// The numbers of more pieces are those of the first and then those of the others; a piece by
/// itself gives its number, or nothing.
pub proof fn law_numbers_in_turn(ps: Seq<Seq<char>>, qs: Seq<Seq<char>>)
    ensures
        numbers(ps + qs) == numbers(ps) + numbers(qs),
        qs.len() == 1 ==> numbers(qs) == (match parsed(qs[0], 0xffff_ffff) {
            Some(n) => seq![n],
            None => seq![],
        }),
    decreases qs.len(),
{
    if qs.len() == 0 {
        assert(ps + qs =~= ps);
        assert(numbers(ps) + numbers(qs) =~= numbers(ps));
    } else {
        let all = ps + qs;
        assert(all.drop_last() =~= ps + qs.drop_last());
        assert(all.last() == qs.last());
        law_numbers_in_turn(ps, qs.drop_last());
        assert(numbers(all) =~= numbers(ps) + numbers(qs));
        if qs.len() == 1 {
            assert(numbers(qs.drop_last()) =~= seq![]);
            assert(qs.last() == qs[0]);
        }
    }
}

/// An IPv6 address in lower case is global exactly where its first digit is a 2 or a 3 and it is
/// not in the documentation network `2001:db8`.
pub proof fn law_global_v6(ip: Seq<char>)
    ensures
        global_v6(ip) <==> ip.len() > 0 && (ip[0] == '2' || ip[0] == '3') && !(ip.len() >= 8
            && ip[0] == '2' && ip[1] == '0' && ip[2] == '0' && ip[3] == '1' && ip[4] == ':' && ip[5]
            == 'd' && ip[6] == 'b' && ip[7] == '8'),
{
    let doc = "2001:db8"@;
    reveal_strlit("2001:db8");
    if ip.len() >= 8 && ip[0] == '2' && ip[1] == '0' && ip[2] == '0' && ip[3] == '1' && ip[4] == ':'
        && ip[5] == 'd' && ip[6] == 'b' && ip[7] == '8' {
        assert(ip.take(8) =~= doc);
    } else if starts(ip, doc) {
        let t = ip.take(8);
        assert(t[0] == doc[0] && t[1] == doc[1] && t[2] == doc[2] && t[3] == doc[3] && t[4]
            == doc[4] && t[5] == doc[5] && t[6] == doc[6] && t[7] == doc[7]);
    }
}

/// The zone of an IPv6 address makes no difference to whether it is global, and it is looked at
/// in lower case.
pub proof fn law_zone_is_ignored(ip: Seq<char>, zone: Seq<char>)
    requires
        !ip.contains('%'),
    ensures
        is_v6_global(ip + seq!['%'] + zone) == is_v6_global(ip),
        is_v6_global(ip) == global_v6(lowercase(ip)),
{
    let k = CharClass::Only('%');
    assert forall|i: int| 0 <= i < ip.len() implies !k.contains(#[trigger] ip[i]) by {
        assert(ip.contains(ip[i]));
    }
    let t = ip + (seq!['%'] + zone);
    assert(ip + seq!['%'] + zone =~= t);
    lemma_span_of(ip, seq!['%'] + zone, k);
    assert(t.take(ip.len() as int) =~= ip);
    assert(before(t, '%') == ip);
    lemma_span_of(ip, seq![], k);
    assert(ip + Seq::<char>::empty() =~= ip);
    assert(ip.take(ip.len() as int) =~= ip);
}

// ---------------------------------------------------------------- IPv6 networks

/// The groups with a colon between them.
pub open spec fn colons(gs: Seq<Seq<char>>) -> Seq<char>
    decreases gs.len(),
{
    if gs.len() == 0 {
        seq![]
    } else if gs.len() == 1 {
        gs[0]
    } else {
        gs[0] + (seq![':'] + colons(gs.skip(1)))
    }
}

/// Groups of an address: none is empty, none holds a colon.
pub open spec fn are_groups(gs: Seq<Seq<char>>) -> bool {
    forall|i: int| 0 <= i < gs.len() ==> (#[trigger] gs[i]).len() > 0 && !gs[i].contains(':')
}

proof fn lemma_groups_part(gs: Seq<Seq<char>>, from: int, to: int)
    requires
        are_groups(gs),
        0 <= from <= to <= gs.len(),
    ensures
        are_groups(gs.subrange(from, to)),
{
    let hs = gs.subrange(from, to);
    assert forall|i: int| 0 <= i < hs.len() implies (#[trigger] hs[i]).len() > 0
        && !hs[i].contains(':') by {
        assert(hs[i] == gs[from + i]);
    }
}

/// Between groups no two colons stand next to each other, nor does one stand at an end.
proof fn lemma_no_gap(gs: Seq<Seq<char>>)
    requires
        are_groups(gs),
    ensures
        gs.len() > 0 ==> colons(gs).len() > 0 && colons(gs)[0] != ':',
        forall|i: int|
            0 <= i < colons(gs).len() && #[trigger] colons(gs)[i] == ':' ==> i + 1 < colons(gs).len()
                && colons(gs)[i + 1] != ':',
    decreases gs.len(),
{
    let t = colons(gs);
    if gs.len() > 0 {
        let g = gs[0];
        assert forall|i: int| 0 <= i < g.len() implies #[trigger] g[i] != ':' by {
            assert(g.contains(g[i]));
        }
        assert(g[0] != ':');
        if gs.len() > 1 {
            let hs = gs.skip(1);
            let u = colons(hs);
            assert(hs =~= gs.subrange(1, gs.len() as int));
            lemma_groups_part(gs, 1, gs.len() as int);
            lemma_no_gap(hs);
            assert(t == g + (seq![':'] + u));
            assert(t[0] == g[0]);
            assert forall|i: int| 0 <= i < t.len() && #[trigger] t[i] == ':' implies i + 1 < t.len()
                && t[i + 1] != ':' by {
                if i < g.len() {
                    assert(t[i] == g[i]);
                } else if i == g.len() {
                    assert(t[i + 1] == u[0]);
                } else {
                    let j = i - g.len() - 1;
                    assert(t[i] == u[j]);
                    assert(t[i + 1] == u[j + 1]);
                }
            }
        }
    }
}

proof fn lemma_pieces_of_colons(gs: Seq<Seq<char>>)
    requires
        are_groups(gs),
        gs.len() > 0,
    ensures
        pieces(colons(gs), ':') == gs,
    decreases gs.len(),
{
    let g = gs[0];
    assert(!g.contains(':'));
    if gs.len() == 1 {
        let k = CharClass::Only(':');
        assert forall|i: int| 0 <= i < g.len() implies !k.contains(#[trigger] g[i]) by {
            assert(g.contains(g[i]));
        }
        lemma_span_of(g, seq![], k);
        assert(g + Seq::<char>::empty() =~= g);
        assert(seq![g] =~= gs);
    } else {
        let hs = gs.skip(1);
        assert(hs =~= gs.subrange(1, gs.len() as int));
        lemma_groups_part(gs, 1, gs.len() as int);
        lemma_pieces_of_colons(hs);
        lemma_pieces_cons(g, ':', colons(hs));
        assert(seq![g] + hs =~= gs);
    }
}

proof fn lemma_colons_push(gs: Seq<Seq<char>>, g: Seq<char>)
    requires
        gs.len() > 0,
    ensures
        colons(gs.push(g)) == colons(gs) + seq![':'] + g,
    decreases gs.len(),
{
    let all = gs.push(g);
    assert(all.skip(1) =~= gs.skip(1).push(g));
    assert(all[0] == gs[0]);
    if gs.len() == 1 {
        assert(all.skip(1) =~= seq![g]);
        assert(colons(all.skip(1)) == g);
        assert(gs[0] + (seq![':'] + g) =~= gs[0] + seq![':'] + g);
    } else {
        lemma_colons_push(gs.skip(1), g);
        let u = colons(gs.skip(1));
        assert(gs[0] + (seq![':'] + (u + seq![':'] + g)) =~= gs[0] + (seq![':'] + u) + seq![':']
            + g);
    }
}

proof fn lemma_joined_is_colons(gs: Seq<Seq<char>>)
    ensures
        joined(gs) == colons(gs),
    decreases gs.len(),
{
    if gs.len() > 1 {
        reveal_strlit(":");
        assert(":"@ =~= seq![':']);
        lemma_joined_is_colons(gs.drop_last());
        lemma_colons_push(gs.drop_last(), gs.last());
        assert(gs.drop_last().push(gs.last()) =~= gs);
    }
}

/// The first four groups, or all of them where there are fewer.
pub open spec fn up_to_four(gs: Seq<Seq<char>>) -> Seq<Seq<char>> {
    if gs.len() <= 4 {
        gs
    } else {
        seq![gs[0], gs[1], gs[2], gs[3]]
    }
}

proof fn lemma_network_of_base(text: Seq<char>, base: Seq<char>, gs: Seq<Seq<char>>)
    requires
        occurs(text, "/64"@),
        before_gap(text) == base,
        gs.len() > 0 ==> pieces(base, ':') == gs,
        gs.len() == 0 ==> base.len() == 0,
    ensures
        network_v6(text) == colons(up_to_four(gs)) + "::/64"@,
{
    if gs.len() == 0 {
        let ps = pieces(base, ':');
        assert(ps =~= seq![base]);
        assert(joined(ps) =~= seq![]);
    } else {
        lemma_joined_is_colons(up_to_four(gs));
        if gs.len() > 4 {
            assert(gs.take(4) =~= up_to_four(gs));
        }
    }
}

/// The network of an address in a `/64` has all of the groups that stand before its gap, and of
/// more than four the first four: it keeps the first 64 bits of the address. What stands after
/// the gap makes no difference.
pub proof fn law_v6_network(gs: Seq<Seq<char>>, rest: Seq<char>)
    requires
        are_groups(gs),
        occurs(colons(gs) + "::"@ + rest, "/64"@),
    ensures
        network_v6(colons(gs) + "::"@ + rest) == colons(up_to_four(gs)) + "::/64"@,
{
    let base = colons(gs);
    let text = base + "::"@ + rest;
    let n = "::"@;
    reveal_strlit("::");
    lemma_no_gap(gs);
    let k = base.len() as int;
    assert(text.subrange(k, k + 2) =~= n);
    assert(occurs_at(text, n, k));
    lemma_find(text, n);
    assert forall|j: int| 0 <= j < k implies !occurs_at(text, n, j) by {
        if occurs_at(text, n, j) {
            let w = text.subrange(j, j + 2);
            assert(w[0] == ':' && w[1] == ':');
            assert(text[j] == ':' && text[j + 1] == ':');
            assert(base[j] == ':');
            assert(base[j + 1] == text[j + 1]);
        }
    }
    assert(find(text, n) == Some(k)) by {
        assert(occurs(text, n));
        let i = find(text, n)->0;
        if i < k {
            assert(!occurs_at(text, n, i));
        }
    }
    assert(text.take(k) =~= base);
    if gs.len() > 0 {
        lemma_pieces_of_colons(gs);
    }
    lemma_network_of_base(text, base, gs);
}

/// The network of an address in a `/64` that is written without a gap has its first four groups,
/// or all of them where there are fewer.
pub proof fn law_v6_network_without_gap(gs: Seq<Seq<char>>)
    requires
        are_groups(gs),
        gs.len() > 0,
        occurs(colons(gs), "/64"@),
    ensures
        network_v6(colons(gs)) == colons(up_to_four(gs)) + "::/64"@,
{
    let text = colons(gs);
    let n = "::"@;
    reveal_strlit("::");
    lemma_no_gap(gs);
    lemma_find(text, n);
    if let Some(i) = find(text, n) {
        let w = text.subrange(i, i + 2);
        assert(w[0] == ':' && w[1] == ':');
        assert(text[i] == ':' && text[i + 1] == ':');
    }
    lemma_pieces_of_colons(gs);
    lemma_network_of_base(text, text, gs);
}

/// An address that is not in a `/64` is taken as its network.
pub proof fn law_other_v6_network(vpn6: Seq<char>)
    requires
        !occurs(vpn6, "/64"@),
    ensures
        network_v6(vpn6) == vpn6,
{
}

// ---------------------------------------------------------------- IPv4 networks

/// Bit `i` of a 32-bit value.
pub open spec fn bit(x: u32, i: u32) -> bool {
    (x >> i) & 1 == 1
}

/// The network of an IPv4 address is written as four bytes and the same prefix length. Under the
/// prefix it has the bits of the address, and elsewhere it has none.
pub proof fn law_v4_network(a: nat, b: nat, c: nat, d: nat, p: nat) -> (net: (nat, nat, nat, nat))
    requires
        a < 256,
        b < 256,
        c < 256,
        d < 256,
        p <= 32,
    ensures
        net.0 < 256 && net.1 < 256 && net.2 < 256 && net.3 < 256,
        network_v4(quad(a, b, c, d) + "/"@ + decimal(p)) == quad(net.0, net.1, net.2, net.3) + "/"@
            + decimal(p),
        forall|i: u32|
            i < 32 ==> (#[trigger] bit(address_value(net.0, net.1, net.2, net.3) as u32, i) <==> i + p
                >= 32 && bit(address_value(a, b, c, d) as u32, i)),
{
    let text = quad(a, b, c, d);
    lemma_octets_of_quad(a, b, c, d);
    lemma_quad_lacks_slash(a, b, c, d);
    reveal_strlit("/");
    assert(text + "/"@ + decimal(p) =~= text + (seq!['/'] + decimal(p)));
    lemma_pieces_cons(text, '/', decimal(p));
    law_parse_of_decimal(p, u32::MAX as nat);
    assert(prefix_bits(decimal(p)) == p);
    let (wa, wb, wc, wd, wp) = (a as u32, b as u32, c as u32, d as u32, p as u32);
    let addr = packed(wa, wb, wc, wd);
    let m = mask(wp);
    let n = addr & m;
    let (na, nb, nc, nd) = ((n >> 24) & 255, (n >> 16) & 255, (n >> 8) & 255, n & 255);
    assert((n >> 24) & 255 < 256 && (n >> 16) & 255 < 256 && (n >> 8) & 255 < 256 && n & 255 < 256)
        by (bit_vector);
    assert(wa < 256 && wb < 256 && wc < 256 && wd < 256 ==> (wa << 24) | (wb << 16) | (wc << 8) | wd
        == wa * 0x100_0000 + wb * 0x1_0000 + wc * 0x100 + wd) by (bit_vector);
    assert(((n >> 24) & 255) * 0x100_0000 + ((n >> 16) & 255) * 0x1_0000 + ((n >> 8) & 255) * 0x100
        + (n & 255) == n) by (bit_vector);
    let x = address_value(a, b, c, d) as u32;
    let y = address_value(na as nat, nb as nat, nc as nat, nd as nat) as u32;
    assert(x == addr);
    assert(y == n);
    assert forall|i: u32| i < 32 implies (#[trigger] bit(y, i) <==> i + p >= 32 && bit(x, i)) by {
        law_network_bits(addr, wp, i);
        assert((addr >> i) & 1 == 0 || (addr >> i) & 1 == 1) by (bit_vector);
    }
    assert(network_v4(text + "/"@ + decimal(p)) =~= quad(
        na as nat,
        nb as nat,
        nc as nat,
        nd as nat,
    ) + "/"@ + decimal(p));
    (na as nat, nb as nat, nc as nat, nd as nat)
}

/// Bit `i` of a number that is moved `by` bits to the left.
pub open spec fn moved_bit(x: u32, by: u32, i: u32) -> bool {
    i >= by && bit(x, (i - by) as u32)
}

/// The network of four numbers that need not be bytes: what is over a byte runs into the bytes
/// above, and what is over 32 bits is lost.
pub proof fn law_v4_network_of_numbers(
    ip: Seq<char>,
    a: u32,
    b: u32,
    c: u32,
    d: u32,
    p: nat,
) -> (net: (nat, nat, nat, nat))
    requires
        !ip.contains('/'),
        octets(ip) == seq![a as nat, b as nat, c as nat, d as nat],
        p <= 32,
    ensures
        net.0 < 256 && net.1 < 256 && net.2 < 256 && net.3 < 256,
        network_v4(ip + seq!['/'] + decimal(p)) == quad(net.0, net.1, net.2, net.3) + "/"@
            + decimal(p),
        forall|i: u32|
            i < 32 ==> (#[trigger] bit(address_value(net.0, net.1, net.2, net.3) as u32, i) <==> i + p
                >= 32 && (moved_bit(a, 24, i) || moved_bit(b, 16, i) || moved_bit(c, 8, i)
                || moved_bit(d, 0, i))),
{
    law_pieces(ip, '/', decimal(p));
    law_parse_of_decimal(p, u32::MAX as nat);
    assert(prefix_bits(decimal(p)) == p);
    let o = octets(ip);
    assert(o[0] as u32 == a && o[1] as u32 == b && o[2] as u32 == c && o[3] as u32 == d);
    let wp = p as u32;
    let addr = packed(a, b, c, d);
    let n = addr & mask(wp);
    let (na, nb, nc, nd) = ((n >> 24) & 255, (n >> 16) & 255, (n >> 8) & 255, n & 255);
    assert((n >> 24) & 255 < 256 && (n >> 16) & 255 < 256 && (n >> 8) & 255 < 256 && n & 255 < 256)
        by (bit_vector);
    assert(((n >> 24) & 255) * 0x100_0000 + ((n >> 16) & 255) * 0x1_0000 + ((n >> 8) & 255) * 0x100
        + (n & 255) == n) by (bit_vector);
    let y = address_value(na as nat, nb as nat, nc as nat, nd as nat) as u32;
    assert(y == n);
    assert forall|i: u32| i < 32 implies (#[trigger] bit(y, i) <==> i + p >= 32 && (moved_bit(
        a,
        24,
        i,
    ) || moved_bit(b, 16, i) || moved_bit(c, 8, i) || moved_bit(d, 0, i))) by {
        law_network_bits(addr, wp, i);
        lemma_packed_bit(a, b, c, d, i);
        assert((addr >> i) & 1 == 0 || (addr >> i) & 1 == 1) by (bit_vector);
    }
    assert(network_v4(ip + seq!['/'] + decimal(p)) =~= quad(
        na as nat,
        nb as nat,
        nc as nat,
        nd as nat,
    ) + "/"@ + decimal(p));
    (na as nat, nb as nat, nc as nat, nd as nat)
}

proof fn lemma_packed_bit(a: u32, b: u32, c: u32, d: u32, i: u32)
    requires
        i < 32,
    ensures
        bit(packed(a, b, c, d), i) <==> moved_bit(a, 24, i) || moved_bit(b, 16, i) || moved_bit(
            c,
            8,
            i,
        ) || moved_bit(d, 0, i),
{
    assert((((a << 24) | (b << 16) | (c << 8) | d) >> i) & 1 == 1 <==> ((a << 24) >> i) & 1 == 1 || ((
    b << 16) >> i) & 1 == 1 || ((c << 8) >> i) & 1 == 1 || (d >> i) & 1 == 1) by (bit_vector);
    lemma_shifted_bit(a, 24, i);
    lemma_shifted_bit(b, 16, i);
    lemma_shifted_bit(c, 8, i);
    lemma_shifted_bit(d, 0, i);
    assert((d << 0) == d) by (bit_vector);
}

proof fn lemma_shifted_bit(x: u32, by: u32, i: u32)
    requires
        i < 32,
        by < 32,
    ensures
        ((x << by) >> i) & 1 == 1 <==> moved_bit(x, by, i),
{
    if i >= by {
        let j = (i - by) as u32;
        assert(((x << by) >> i) & 1 == (x >> j) & 1) by (bit_vector)
            requires
                i < 32,
                by < 32,
                i >= by,
                j == i - by,
        ;
    } else {
        assert(((x << by) >> i) & 1 == 0) by (bit_vector)
            requires
                i < by,
                by < 32,
        ;
    }
}

/// The network of a dotted quad, with the text of its prefix length.
proof fn lemma_network_of_quad(a: nat, b: nat, c: nat, d: nat, prefix: Seq<char>)
    requires
        a < 256,
        b < 256,
        c < 256,
        d < 256,
    ensures
        network_v4(quad(a, b, c, d) + "/"@ + prefix) == dotted(
            packed(a as u32, b as u32, c as u32, d as u32) & mask(prefix_bits(prefix) as u32),
            prefix_bits(prefix),
        ),
        network_v4(quad(a, b, c, d)) == dotted(
            packed(a as u32, b as u32, c as u32, d as u32) & mask(prefix_bits("24"@) as u32),
            prefix_bits("24"@),
        ),
{
    let text = quad(a, b, c, d);
    lemma_octets_of_quad(a, b, c, d);
    lemma_quad_lacks_slash(a, b, c, d);
    assert("/"@ =~= seq!['/']) by {
        reveal_strlit("/");
    }
    law_pieces(text, '/', prefix);
}

/// An IPv4 address without a prefix length is in a `/24`, and so is one whose prefix length is no
/// number; one whose prefix length is over 32 has 32 bits. Any notation of a length will do.
pub proof fn law_v4_prefix(a: nat, b: nat, c: nat, d: nat, prefix: Seq<char>)
    requires
        a < 256,
        b < 256,
        c < 256,
        d < 256,
    ensures
        network_v4(quad(a, b, c, d)) == network_v4(quad(a, b, c, d) + "/"@ + decimal(24)),
        parsed(prefix, 0xffff_ffff) is None ==> network_v4(quad(a, b, c, d) + "/"@ + prefix)
            == network_v4(quad(a, b, c, d) + "/"@ + decimal(24)),
        parsed(prefix, 0xffff_ffff) matches Some(n) && n > 32 ==> network_v4(
            quad(a, b, c, d) + "/"@ + prefix,
        ) == network_v4(quad(a, b, c, d) + "/"@ + decimal(32)),
        parsed(prefix, 0xffff_ffff) matches Some(n) ==> (n <= 32 ==> network_v4(
            quad(a, b, c, d) + "/"@ + prefix,
        ) == network_v4(quad(a, b, c, d) + "/"@ + decimal(n))),
{
    lemma_network_of_quad(a, b, c, d, prefix);
    lemma_network_of_quad(a, b, c, d, decimal(24));
    lemma_network_of_quad(a, b, c, d, decimal(32));
    law_parse_of_decimal(24, u32::MAX as nat);
    law_parse_of_decimal(32, u32::MAX as nat);
    if let Some(n) = parsed(prefix, 0xffff_ffff) {
        lemma_network_of_quad(a, b, c, d, decimal(n));
        law_parse_of_decimal(n, u32::MAX as nat);
    }
    assert("24"@ =~= decimal(24)) by {
        reveal_strlit("24");
        assert(decimal(2) =~= seq!['2']);
        assert(decimal(24) =~= seq!['2', '4']);
    }
}

/// A text that is no dotted address is taken as its network, with or without a prefix length.
pub proof fn law_other_v4_network(ip: Seq<char>, prefix: Seq<char>)
    requires
        !ip.contains('/'),
        octets(ip).len() != 4,
    ensures
        network_v4(ip) == ip,
        network_v4(ip + seq!['/'] + prefix) == ip + seq!['/'] + prefix,
{
    law_pieces(ip, '/', prefix);
}

} // verus!
