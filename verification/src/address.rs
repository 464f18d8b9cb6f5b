//! Finding the address under which the server can be reached: what `ip addr` and `ip route`
//! print, which addresses are global, and which one is best.

use crate::number::{parse, parsed};
use crate::text::{ascii_lowercase, before, contains, first_piece, lemma_span_bound, lines};
use crate::text::{lowercase, occurs, pieces, same, span, split_lines, split_on, split_words};
use crate::text::{starts, starts_with, strip_suffixes, trim_end_str, view_of, views, words};
use crate::text::CharClass;
use vstd::prelude::*;

verus! {

/// The word that follows the first occurrence of `key`.
pub open spec fn word_after(ws: Seq<Seq<char>>, key: Seq<char>) -> Option<Seq<char>>
    decreases ws.len(),
{
    if ws.len() < 2 {
        None
    } else if ws[0] == key {
        Some(ws[1])
    } else {
        word_after(ws.skip(1), key)
    }
}

fn find_word_after(text: &str, key: &str) -> (r: Option<String>)
    ensures
        view_of(r) == word_after(words(text@), key@),
{
    let ws = split_words(text);
    let ghost all = views(ws@);
    let mut i: usize = 0;
    assert(all.skip(0) =~= all);
    while ws.len() >= 2 && i < ws.len() - 1
        invariant
            i <= ws.len(),
            all == views(ws@),
            all == words(text@),
            word_after(all.skip(i as int), key@) == word_after(all, key@),
        decreases ws.len() - i,
    {
        assert(all.skip(i as int)[0] == ws[i as int]@);
        assert(all.skip(i as int)[1] == ws[i + 1]@);
        if same(ws[i].as_str(), key) {
            return Some(ws[i + 1].clone());
        }
        assert(all.skip(i as int).skip(1) =~= all.skip(i + 1));
        i += 1;
    }
    None
}

// ---------------------------------------------------------------- lifetimes

/// The preferred lifetime in seconds that a word such as `86395sec` or `forever` stands for.
pub open spec fn lifetime(w: Seq<char>) -> nat {
    if w == "forever"@ {
        u64::MAX as nat
    } else {
        match parsed(strip_suffixes(w, "sec"@), u64::MAX as nat) {
            Some(n) => n,
            None => 0,
        }
    }
}

/// The preferred lifetime on a line of `ip addr`; zero where it has none.
pub open spec fn line_lifetime(line: Seq<char>) -> nat {
    match word_after(words(line), "preferred_lft"@) {
        Some(w) => lifetime(w),
        None => 0,
    }
}

/// The preferred lifetime on a line of `ip addr`.
pub fn preferred_lft(line: &str) -> (r: u64)
    ensures
        r == line_lifetime(line@),
{
    match find_word_after(line, "preferred_lft") {
        Some(w) => {
            if same(w.as_str(), "forever") {
                u64::MAX
            } else {
                match parse(trim_end_str(w.as_str(), "sec").as_str(), u64::MAX) {
                    Some(n) => n,
                    None => 0,
                }
            }
        },
        None => 0,
    }
}

// ---------------------------------------------------------------- global addresses

/// The numbers among the pieces, in order; a piece that is no 32-bit number is left out.
pub open spec fn numbers(ps: Seq<Seq<char>>) -> Seq<nat>
    decreases ps.len(),
{
    if ps.len() == 0 {
        seq![]
    } else {
        match parsed(ps.last(), u32::MAX as nat) {
            Some(n) => numbers(ps.drop_last()).push(n),
            None => numbers(ps.drop_last()),
        }
    }
}

/// The numbers of a dotted address.
pub open spec fn octets(ip: Seq<char>) -> Seq<nat> {
    numbers(pieces(ip, '.'))
}

/// An IPv4 address whose first two octets are `a` and `b` is neither private, loopback,
/// link-local, carrier-grade NAT, multicast, reserved nor in network zero.
pub open spec fn public_v4(a: nat, b: nat) -> bool {
    &&& a != 10
    &&& !(a == 172 && 16 <= b < 32)
    &&& !(a == 192 && b == 168)
    &&& a != 127
    &&& !(a == 169 && b == 254)
    &&& !(a == 100 && 64 <= b < 128)
    &&& a != 0
    &&& a < 224
}

/// `ip` is a global IPv4 address.
pub open spec fn is_v4_global(ip: Seq<char>) -> bool {
    let o = octets(ip);
    &&& o.len() == 4
    &&& forall|i: int| 0 <= i < 4 ==> #[trigger] o[i] <= 255
    &&& public_v4(o[0], o[1])
}

/// The numbers of an exec list.
pub open spec fn as_nats(v: Seq<u32>) -> Seq<nat> {
    v.map_values(|x: u32| x as nat)
}

/// The numbers of a dotted address.
pub fn parse_octets(ip: &str) -> (r: Vec<u32>)
    ensures
        as_nats(r@) == octets(ip@),
{
    let ps = split_on(ip, '.');
    let ghost all = views(ps@);
    let mut out: Vec<u32> = Vec::new();
    let mut i: usize = 0;
    assert(as_nats(out@) =~= numbers(all.take(0)));
    while i < ps.len()
        invariant
            i <= ps.len(),
            all == views(ps@),
            as_nats(out@) == numbers(all.take(i as int)),
        decreases ps.len() - i,
    {
        let ghost next = all.take(i + 1);
        assert(next.drop_last() =~= all.take(i as int));
        assert(next.last() == ps[i as int]@);
        let ghost done = out@;
        match parse(ps[i].as_str(), u32::MAX as u64) {
            Some(n) => {
                out.push(n as u32);
                assert(as_nats(out@) =~= as_nats(done).push(n as nat));
            },
            None => {},
        }
        i += 1;
    }
    assert(all.take(i as int) =~= all);
    out
}

/// Whether `ip` is a global IPv4 address.
pub fn v4_global(ip: &str) -> (r: bool)
    ensures
        r == is_v4_global(ip@),
{
    let o = parse_octets(ip);
    let ghost n = as_nats(o@);
    if o.len() != 4 {
        return false;
    }
    assert(n[0] == o[0] && n[1] == o[1] && n[2] == o[2] && n[3] == o[3]);
    if o[0] > 255 || o[1] > 255 || o[2] > 255 || o[3] > 255 {
        return false;
    }
    let a = o[0];
    let b = o[1];
    if a == 10 || (a == 172 && 16 <= b && b < 32) || (a == 192 && b == 168) {
        return false;
    }
    if a == 127 || (a == 169 && b == 254) || (a == 100 && 64 <= b && b < 128) {
        return false;
    }
    if a == 0 || a >= 224 {
        return false;
    }
    true
}

/// An IPv6 address in lower case is global: it lies in `2000::/3` as far as its first digit
/// tells, and not in the documentation network.
pub open spec fn global_v6(ip: Seq<char>) -> bool {
    ip.len() > 0 && (ip[0] == '2' || ip[0] == '3') && !starts(ip, "2001:db8"@)
}

/// `ip`, with or without a zone, is a global IPv6 address.
pub open spec fn is_v6_global(ip: Seq<char>) -> bool {
    global_v6(lowercase(before(ip, '%')))
}

/// Whether an IPv6 address in lower case and without a zone is global.
pub fn v6_global_lower(ip: &str) -> (r: bool)
    ensures
        r == global_v6(ip@),
{
    proof {
        reveal_strlit("::1");
    }
    if same(ip, "::1") || ip.is_empty() {
        return false;
    }
    let head = first_piece(ip, ':');
    proof {
        lemma_span_bound(ip@, CharClass::Only(':'));
        assert(span(ip@, CharClass::Only(':')) == 0 <==> ip@[0] == ':');
    }
    if head.as_str().is_empty() {
        return false;
    }
    let c = head.as_str().get_char(0);
    if c != '2' && c != '3' {
        return false;
    }
    !starts_with(ip, "2001:db8")
}

/// Whether `ip` is a global IPv6 address.
pub fn v6_global(ip: &str) -> (r: bool)
    ensures
        r == is_v6_global(ip@),
        vstd::utf8::is_ascii_chars(before(ip@, '%')) ==> r == global_v6(
            ascii_lowercase(before(ip@, '%')),
        ),
{
    v6_global_lower(first_piece(ip, '%').as_str().to_lowercase().as_str())
}

// ---------------------------------------------------------------- the addresses of the box

/// An address of the box.
#[derive(Debug)]
pub struct Addr {
    pub ip: String,
    pub stable: bool,
    pub deprecated: bool,
    pub preferred_lft: u64,
}

/// What an address is, with its text as characters.
pub struct AddrView {
    pub ip: Seq<char>,
    pub stable: bool,
    pub deprecated: bool,
    pub preferred_lft: nat,
}

impl View for Addr {
    type V = AddrView;

    open spec fn view(&self) -> AddrView {
        AddrView {
            ip: self.ip@,
            stable: self.stable,
            deprecated: self.deprecated,
            preferred_lft: self.preferred_lft as nat,
        }
    }
}

/// The views of a list of addresses.
pub open spec fn addr_views(v: Seq<Addr>) -> Seq<AddrView> {
    v.map_values(|a: Addr| a@)
}

/// `ip` is global in its family.
pub open spec fn is_global(family: Seq<char>, ip: Seq<char>) -> bool {
    if family == "inet"@ {
        is_v4_global(ip)
    } else {
        is_v6_global(ip)
    }
}

/// The address on a line of `ip -o addr show`, where it is a global one of `family`.
pub open spec fn line_addr(line: Seq<char>, family: Seq<char>) -> Option<AddrView> {
    let t = words(line);
    let ip = before(t[3], '/');
    if t.len() >= 4 && t[2] == family && occurs(line, "scope global"@) && is_global(family, ip) {
        Some(
            AddrView {
                ip,
                stable: !occurs(line, " temporary"@),
                deprecated: occurs(line, " deprecated"@),
                preferred_lft: line_lifetime(line),
            },
        )
    } else {
        None
    }
}

/// The global addresses of `family` on the lines, in order.
pub open spec fn line_addrs(ls: Seq<Seq<char>>, family: Seq<char>) -> Seq<AddrView>
    decreases ls.len(),
{
    if ls.len() == 0 {
        seq![]
    } else {
        match line_addr(ls.last(), family) {
            Some(a) => line_addrs(ls.drop_last(), family).push(a),
            None => line_addrs(ls.drop_last(), family),
        }
    }
}

/// The global addresses of `family` in the output of `ip -o addr show`; none without output.
pub open spec fn listed_addrs(family: Seq<char>, out: Option<Seq<char>>) -> Seq<AddrView> {
    match out {
        Some(s) => line_addrs(lines(s), family),
        None => seq![],
    }
}

fn read_line(line: &str, family: &str) -> (r: Option<Addr>)
    ensures
        match r {
            Some(a) => line_addr(line@, family@) == Some(a@),
            None => line_addr(line@, family@) is None,
        },
{
    let t = split_words(line);
    let ghost ws = views(t@);
    if t.len() < 4 {
        return None;
    }
    assert(ws[2] == t[2]@ && ws[3] == t[3]@);
    if !same(t[2].as_str(), family) || !contains(line, "scope global") {
        return None;
    }
    let ip = first_piece(t[3].as_str(), '/');
    let global = if same(family, "inet") {
        v4_global(ip.as_str())
    } else {
        v6_global(ip.as_str())
    };
    if !global {
        return None;
    }
    Some(
        Addr {
            ip,
            stable: !contains(line, " temporary"),
            deprecated: contains(line, " deprecated"),
            preferred_lft: preferred_lft(line),
        },
    )
}

/// The global addresses of `family` in the output of `ip -o addr show`.
pub fn list_addrs(family: &str, out: &Option<String>) -> (r: Vec<Addr>)
    ensures
        addr_views(r@) == listed_addrs(family@, view_of(*out)),
{
    let mut v: Vec<Addr> = Vec::new();
    assert(addr_views(v@) =~= seq![]);
    let s = match out {
        Some(s) => s,
        None => {
            return v;
        },
    };
    let ls = split_lines(s.as_str());
    let ghost all = views(ls@);
    let mut i: usize = 0;
    assert(all.take(0) =~= seq![]);
    while i < ls.len()
        invariant
            i <= ls.len(),
            all == views(ls@),
            addr_views(v@) == line_addrs(all.take(i as int), family@),
        decreases ls.len() - i,
    {
        let ghost next = all.take(i + 1);
        assert(next.drop_last() =~= all.take(i as int));
        assert(next.last() == ls[i as int]@);
        let ghost done = v@;
        match read_line(ls[i].as_str(), family) {
            Some(a) => {
                v.push(a);
                assert(addr_views(v@) =~= addr_views(done).push(a@));
            },
            None => {},
        }
        i += 1;
    }
    assert(all.take(i as int) =~= all);
    v
}

/// The source address in the output of `ip route get`.
pub open spec fn route_src(out: Option<Seq<char>>) -> Option<Seq<char>> {
    match out {
        Some(s) => word_after(words(s), "src"@),
        None => None,
    }
}

/// The source address in the output of `ip route get`.
pub fn default_src(out: &Option<String>) -> (r: Option<String>)
    ensures
        view_of(r) == route_src(view_of(*out)),
{
    match out {
        Some(s) => find_word_after(s.as_str(), "src"),
        None => None,
    }
}

/// The device in the output of `ip route get`.
pub open spec fn route_dev(out: Option<Seq<char>>) -> Option<Seq<char>> {
    match out {
        Some(s) => word_after(words(s), "dev"@),
        None => None,
    }
}

/// The device of the IPv4 route, or else of the IPv6 route.
pub open spec fn first_dev(v4: Option<Seq<char>>, v6: Option<Seq<char>>) -> Option<Seq<char>> {
    match route_dev(v4) {
        Some(d) => Some(d),
        None => route_dev(v6),
    }
}

/// The device of the IPv4 route to the internet, or else of the IPv6 route.
pub fn default_iface(v4: &Option<String>, v6: &Option<String>) -> (r: Option<String>)
    ensures
        view_of(r) == first_dev(view_of(*v4), view_of(*v6)),
{
    if let Some(s) = v4 {
        let d = find_word_after(s.as_str(), "dev");
        if d.is_some() {
            return d;
        }
    }
    match v6 {
        Some(s) => find_word_after(s.as_str(), "dev"),
        None => None,
    }
}

// ---------------------------------------------------------------- the best address

/// How an address ranks before lifetimes count: temporary ones last, deprecated ones next.
pub open spec fn score(a: AddrView) -> int {
    (if a.stable {
        0int
    } else {
        -1000
    }) - (if a.deprecated {
        100int
    } else {
        0
    })
}

/// `a` ranks before `b`: by score, then by preferred lifetime.
pub open spec fn better(a: AddrView, b: AddrView) -> bool {
    score(a) > score(b) || (score(a) == score(b) && a.preferred_lft > b.preferred_lft)
}

/// No candidate ranks before `a`.
pub open spec fn is_best(cands: Seq<AddrView>, a: AddrView) -> bool {
    forall|i: int| 0 <= i < cands.len() ==> !better(#[trigger] cands[i], a)
}

/// The candidates that none ranks before, in order.
pub open spec fn tied(cands: Seq<AddrView>) -> Seq<AddrView> {
    cands.filter(|a: AddrView| is_best(cands, a))
}

/// Some candidate is stable.
pub open spec fn has_stable(cands: Seq<AddrView>) -> bool {
    exists|i: int| 0 <= i < cands.len() && (#[trigger] cands[i]).stable
}

/// The default-route source `src` is a candidate that is not deprecated, and that is stable where
/// any candidate is.
pub open spec fn is_good_src(cands: Seq<AddrView>, src: Seq<char>) -> bool {
    exists|i: int|
        0 <= i < cands.len() && (#[trigger] cands[i]).ip == src && !cands[i].deprecated && (
        cands[i].stable || !has_stable(cands))
}

/// The address to use: the default-route source where it is good, else the one among the tied
/// best that `pick` falls on; none without candidates.
pub open spec fn selected(cands: Seq<AddrView>, def: Option<Seq<char>>, pick: nat) -> Option<
    Seq<char>,
> {
    if cands.len() == 0 {
        None
    } else if def matches Some(src) && is_good_src(cands, src) {
        def
    } else {
        Some(tied(cands)[(pick % tied(cands).len()) as int].ip)
    }
}

/// Where there are candidates, some are the best.
pub proof fn lemma_tied(cands: Seq<AddrView>)
    requires
        cands.len() > 0,
    ensures
        tied(cands).len() > 0,
        forall|j: int|
            0 <= j < tied(cands).len() ==> cands.contains(#[trigger] tied(cands)[j]) && is_best(
                cands,
                tied(cands)[j],
            ),
        forall|i: int|
            0 <= i < cands.len() && is_best(cands, #[trigger] cands[i]) ==> tied(cands).contains(
                cands[i],
            ),
{
    let p = |a: AddrView| is_best(cands, a);
    broadcast use vstd::seq_lib::group_filter_ensures;

    let i = lemma_best_exists(cands, cands.len() as int);
    assert(is_best(cands, cands[i]));
    assert(p(cands[i]));
    assert(tied(cands).contains(cands[i]));
    assert forall|j: int| 0 <= j < tied(cands).len() implies cands.contains(
        #[trigger] tied(cands)[j],
    ) && is_best(cands, tied(cands)[j]) by {
        assert(p(tied(cands)[j]));
        cands.lemma_filter_contains_rev(p, tied(cands)[j]);
    }
    assert forall|k: int| 0 <= k < cands.len() && is_best(cands, #[trigger] cands[k]) implies tied(
        cands,
    ).contains(cands[k]) by {
        assert(p(cands[k]));
    }
}

proof fn lemma_best_exists(cands: Seq<AddrView>, n: int) -> (best: int)
    requires
        0 < n <= cands.len(),
    ensures
        0 <= best < n,
        forall|i: int| 0 <= i < n ==> !better(#[trigger] cands[i], cands[best]),
    decreases n,
{
    if n == 1 {
        0
    } else {
        let b = lemma_best_exists(cands, n - 1);
        if better(cands[n - 1], cands[b]) {
            n - 1
        } else {
            b
        }
    }
}

fn any_stable(cands: &Vec<Addr>) -> (r: bool)
    ensures
        r == has_stable(addr_views(cands@)),
{
    let ghost cs = addr_views(cands@);
    let mut i: usize = 0;
    while i < cands.len()
        invariant
            i <= cands.len(),
            cs == addr_views(cands@),
            forall|j: int| 0 <= j < i ==> !(#[trigger] cs[j]).stable,
        decreases cands.len() - i,
    {
        assert(cs[i as int] == cands[i as int]@);
        if cands[i].stable {
            return true;
        }
        i += 1;
    }
    false
}

fn score_of(a: &Addr) -> (s: i64)
    ensures
        s == score(a@),
{
    let mut s: i64 = 0;
    if !a.stable {
        s -= 1000;
    }
    if a.deprecated {
        s -= 100;
    }
    s
}

/// The address to use. `nanos` decides among candidates that rank the same.
pub fn select_best(cands: &Vec<Addr>, def: &Option<String>, nanos: u64) -> (r: Option<String>)
    ensures
        view_of(r) == selected(addr_views(cands@), view_of(*def), nanos as nat),
{
    let ghost cs = addr_views(cands@);
    if cands.len() == 0 {
        return None;
    }
    if let Some(src) = def {
        let stable = any_stable(cands);
        let mut i: usize = 0;
        while i < cands.len()
            invariant
                i <= cands.len(),
                cs == addr_views(cands@),
                cands.len() > 0,
                *def == Some(*src),
                stable == has_stable(cs),
                forall|j: int|
                    0 <= j < i ==> !((#[trigger] cs[j]).ip == src@ && !cs[j].deprecated && (
                    cs[j].stable || !stable)),
            decreases cands.len() - i,
        {
            let a = &cands[i];
            assert(cs[i as int] == a@);
            if same(a.ip.as_str(), src.as_str()) && !a.deprecated && (a.stable || !stable) {
                return Some(a.ip.clone());
            }
            i += 1;
        }
    }
    let mut bs: i64 = i64::MIN;
    let mut bl: u64 = 0;
    let mut i: usize = 0;
    let ghost mut b: int = 0;
    while i < cands.len()
        invariant
            i <= cands.len(),
            cs == addr_views(cands@),
            i == 0 ==> bs == i64::MIN,
            i > 0 ==> 0 <= b < i && bs == score(cs[b]) && bl == cs[b].preferred_lft,
            forall|j: int| 0 <= j < i ==> !better(#[trigger] cs[j], cs[b]),
        decreases cands.len() - i,
    {
        let a = &cands[i];
        assert(cs[i as int] == a@);
        let s = score_of(a);
        if s > bs || (s == bs && a.preferred_lft > bl) {
            bs = s;
            bl = a.preferred_lft;
            proof {
                b = i as int;
            }
        }
        i += 1;
    }
    let ghost p = |a: AddrView| is_best(cs, a);
    let mut best: Vec<&Addr> = Vec::new();
    let ghost mut best_views: Seq<AddrView> = seq![];
    i = 0;
    assert(cs.take(0).filter(p) =~= seq![]) by {
        reveal(Seq::filter);
    }
    while i < cands.len()
        invariant
            i <= cands.len(),
            cs == addr_views(cands@),
            0 <= b < cands.len(),
            bs == score(cs[b]),
            bl == cs[b].preferred_lft,
            forall|j: int| 0 <= j < cs.len() ==> !better(#[trigger] cs[j], cs[b]),
            p == (|a: AddrView| is_best(cs, a)),
            best_views == cs.take(i as int).filter(p),
            best.len() == best_views.len(),
            forall|j: int| 0 <= j < best.len() ==> best_views[j] == (#[trigger] best@[j])@,
        decreases cands.len() - i,
    {
        let a = &cands[i];
        assert(cs[i as int] == a@);
        let s = score_of(a);
        let good = s == bs && a.preferred_lft == bl;
        assert(good == p(a@)) by {
            if is_best(cs, a@) {
                assert(!better(cs[b], a@));
                assert(!better(cs[i as int], cs[b]));
            }
            if good {
                assert forall|j: int| 0 <= j < cs.len() implies !better(#[trigger] cs[j], a@) by {
                    assert(!better(cs[j], cs[b]));
                }
            }
        }
        assert(cs.take(i + 1).drop_last() =~= cs.take(i as int));
        assert(cs.take(i + 1).filter(p) == if good {
            best_views.push(a@)
        } else {
            best_views
        }) by {
            reveal(Seq::filter);
        }
        if good {
            best.push(a);
            proof {
                best_views = best_views.push(a@);
            }
        }
        i += 1;
    }
    assert(cs.take(i as int) =~= cs);
    proof {
        lemma_tied(cs);
        assert(tied(cs) == best_views);
    }
    let k = nanos % (best.len() as u64);
    Some(best[k as usize].ip.clone())
}

/// The clock's nanoseconds since the epoch as a 64-bit number; one where the clock stands
/// before the epoch.
pub fn nanos(since_epoch: Option<u128>) -> (r: u64)
    ensures
        r == (match since_epoch {
            Some(n) => n as int % 0x1_0000_0000_0000_0000,
            None => 1,
        }),
{
    match since_epoch {
        Some(n) => (n % 0x1_0000_0000_0000_0000) as u64,
        None => 1,
    }
}

/// What the box says about its addresses: the outputs of `ip -o addr show` and `ip route get`
/// for both families, and the clock as each family's address is chosen.
pub struct Survey {
    pub inet: Option<String>,
    pub inet6: Option<String>,
    pub route4: Option<String>,
    pub route6: Option<String>,
    pub clock4: Option<u128>,
    pub clock6: Option<u128>,
}

/// The clock as `select_best` uses it.
pub open spec fn pick_of(clock: Option<u128>) -> nat {
    match clock {
        Some(n) => (n as int % 0x1_0000_0000_0000_0000) as nat,
        None => 1,
    }
}

/// The best global IPv4 address.
pub open spec fn detected_v4(s: Survey) -> Option<Seq<char>> {
    selected(
        listed_addrs("inet"@, view_of(s.inet)),
        route_src(view_of(s.route4)),
        pick_of(s.clock4),
    )
}

/// The best global IPv6 address.
pub open spec fn detected_v6(s: Survey) -> Option<Seq<char>> {
    selected(
        listed_addrs("inet6"@, view_of(s.inet6)),
        route_src(view_of(s.route6)),
        pick_of(s.clock6),
    )
}

/// The best global IPv4 address and the best global IPv6 address.
pub fn detect(s: &Survey) -> (r: (Option<String>, Option<String>))
    ensures
        view_of(r.0) == detected_v4(*s),
        view_of(r.1) == detected_v6(*s),
{
    let v4 = select_best(&list_addrs("inet", &s.inet), &default_src(&s.route4), nanos(s.clock4));
    let v6 = select_best(&list_addrs("inet6", &s.inet6), &default_src(&s.route6), nanos(s.clock6));
    (v4, v6)
}

} // verus!
