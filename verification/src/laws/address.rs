//! Which addresses are found, and which of them is used.

use crate::address::{better, detected_v4, detected_v6, first_dev, has_stable, is_best, is_global};
use crate::address::{is_good_src, is_v4_global, is_v6_global, lemma_tied, line_addr, line_addrs};
use crate::address::{line_lifetime, listed_addrs, pick_of, route_dev, route_src, selected, tied};
use crate::address::{word_after, AddrView, Survey};
use crate::laws::words::{law_pieces, law_unit_is_cut_off};
use crate::number::{decimal, is_digit, law_parse_of_decimal, lemma_decimal, parsed};
use crate::text::{lines, occurs, strip_suffixes, view_of, words};
use vstd::prelude::*;

verus! {

proof fn lemma_line_addrs(ls: Seq<Seq<char>>, family: Seq<char>, i: int)
    requires
        0 <= i < line_addrs(ls, family).len(),
    ensures
        is_global(family, line_addrs(ls, family)[i].ip),
    decreases ls.len(),
{
    let init = line_addrs(ls.drop_last(), family);
    if i < init.len() {
        lemma_line_addrs(ls.drop_last(), family, i);
    } else {
        assert(line_addr(ls.last(), family) is Some);
    }
}

/// Every address that is listed is a global one of its family.
pub proof fn law_listed_are_global(family: Seq<char>, out: Option<Seq<char>>)
    ensures
        forall|i: int|
            0 <= i < listed_addrs(family, out).len() ==> is_global(
                family,
                (#[trigger] listed_addrs(family, out)[i]).ip,
            ),
{
    if let Some(s) = out {
        assert forall|i: int| 0 <= i < listed_addrs(family, out).len() implies is_global(
            family,
            (#[trigger] listed_addrs(family, out)[i]).ip,
        ) by {
            lemma_line_addrs(lines(s), family, i);
        }
    }
}

/// Some candidate has the address `ip`.
pub open spec fn is_candidate(cands: Seq<AddrView>, ip: Seq<char>) -> bool {
    exists|i: int| 0 <= i < cands.len() && (#[trigger] cands[i]).ip == ip
}

/// An address is chosen exactly where there are candidates, and it is one of theirs.
pub proof fn law_choice_is_a_candidate(cands: Seq<AddrView>, def: Option<Seq<char>>, pick: nat)
    ensures
        match selected(cands, def, pick) {
            Some(ip) => is_candidate(cands, ip),
            None => cands.len() == 0,
        },
{
    if cands.len() > 0 {
        lemma_tied(cands);
        if def is Some && is_good_src(cands, def->0) {
            let src = def->0;
            let i = choose|i: int|
                0 <= i < cands.len() && (#[trigger] cands[i]).ip == src && !cands[i].deprecated && (
                cands[i].stable || !has_stable(cands));
            assert(cands[i].ip == src);
        } else {
            let j = (pick % tied(cands).len()) as int;
            let i = choose|i: int| 0 <= i < cands.len() && cands[i] == tied(cands)[j];
            assert(cands[i].ip == tied(cands)[j].ip);
        }
    }
}

/// The source address of the default route is chosen where it is stable and not deprecated,
/// whatever the clock says.
pub proof fn law_default_route_wins(cands: Seq<AddrView>, pick: nat, k: int)
    requires
        0 <= k < cands.len(),
        cands[k].stable,
        !cands[k].deprecated,
    ensures
        selected(cands, Some(cands[k].ip), pick) == Some(cands[k].ip),
{
    assert(is_good_src(cands, cands[k].ip));
}

/// A temporary source address of the default route that is not deprecated is chosen too, where no
/// candidate is stable.
pub proof fn law_temporary_default_route_wins(cands: Seq<AddrView>, pick: nat, k: int)
    requires
        0 <= k < cands.len(),
        !cands[k].deprecated,
        !has_stable(cands),
    ensures
        selected(cands, Some(cands[k].ip), pick) == Some(cands[k].ip),
{
    assert(is_good_src(cands, cands[k].ip));
}

/// A temporary address is never chosen while there is a stable one.
pub proof fn law_stable_before_temporary(
    cands: Seq<AddrView>,
    def: Option<Seq<char>>,
    pick: nat,
    k: int,
)
    requires
        0 <= k < cands.len(),
        cands[k].stable,
    ensures
        exists|i: int|
            0 <= i < cands.len() && selected(cands, def, pick) == Some((#[trigger] cands[i]).ip)
                && cands[i].stable,
{
    assert(has_stable(cands));
    lemma_tied(cands);
    if def is Some && is_good_src(cands, def->0) {
        let src = def->0;
        let i = choose|i: int|
            0 <= i < cands.len() && (#[trigger] cands[i]).ip == src && !cands[i].deprecated && (
            cands[i].stable || !has_stable(cands));
        assert(cands[i].ip == src);
    } else {
        let j = (pick % tied(cands).len()) as int;
        let t = tied(cands)[j];
        assert(is_best(cands, t));
        let i = choose|i: int| 0 <= i < cands.len() && cands[i] == t;
        assert(!better(cands[k], t));
        assert(cands[i].ip == t.ip);
    }
}

/// A deprecated address is never chosen while there is one that is as stable and not deprecated.
pub proof fn law_deprecated_comes_last(
    cands: Seq<AddrView>,
    def: Option<Seq<char>>,
    pick: nat,
    k: int,
)
    requires
        0 <= k < cands.len(),
        !cands[k].deprecated,
    ensures
        exists|i: int|
            0 <= i < cands.len() && selected(cands, def, pick) == Some((#[trigger] cands[i]).ip) && (
            cands[i].deprecated ==> cands[i].stable != cands[k].stable),
{
    lemma_tied(cands);
    if def is Some && is_good_src(cands, def->0) {
        let src = def->0;
        let i = choose|i: int|
            0 <= i < cands.len() && (#[trigger] cands[i]).ip == src && !cands[i].deprecated && (
            cands[i].stable || !has_stable(cands));
        assert(cands[i].ip == src);
    } else {
        let j = (pick % tied(cands).len()) as int;
        let t = tied(cands)[j];
        assert(is_best(cands, t));
        let i = choose|i: int| 0 <= i < cands.len() && cands[i] == t;
        assert(!better(cands[k], t));
        assert(cands[i].ip == t.ip);
    }
}

/// Where the default route does not decide, the choice is among the candidates that none ranks
/// before, and the clock can make it fall on each of them.
pub proof fn law_every_tie_can_win(cands: Seq<AddrView>, def: Option<Seq<char>>, j: int)
    requires
        0 <= j < tied(cands).len(),
        j < 0x1_0000_0000_0000_0000,
        !(def matches Some(src) && is_good_src(cands, src)),
    ensures
        is_best(cands, tied(cands)[j]),
        selected(cands, def, pick_of(Some(j as u128))) == Some(tied(cands)[j].ip),
{
    if cands.len() == 0 {
        reveal(Seq::filter);
        assert(tied(cands) =~= seq![]);
    } else {
        lemma_tied(cands);
        vstd::arithmetic::div_mod::lemma_small_mod(j as nat, tied(cands).len());
        vstd::arithmetic::div_mod::lemma_small_mod(j as nat, 0x1_0000_0000_0000_0000);
    }
}

/// What is detected is a global address of its family; nothing is detected exactly where no
/// global address of that family is listed, whatever there is of the other family.
pub proof fn law_detected_is_global(s: Survey)
    ensures
        match detected_v4(s) {
            Some(ip) => is_v4_global(ip),
            None => listed_addrs("inet"@, view_of(s.inet)).len() == 0,
        },
        match detected_v6(s) {
            Some(ip) => is_v6_global(ip),
            None => listed_addrs("inet6"@, view_of(s.inet6)).len() == 0,
        },
{
    reveal_strlit("inet");
    reveal_strlit("inet6");
    assert("inet"@.len() != "inet6"@.len());
    law_listed_are_global("inet"@, view_of(s.inet));
    law_listed_are_global("inet6"@, view_of(s.inet6));
    let c4 = listed_addrs("inet"@, view_of(s.inet));
    let c6 = listed_addrs("inet6"@, view_of(s.inet6));
    law_choice_is_a_candidate(c4, route_src(view_of(s.route4)), pick_of(s.clock4));
    law_choice_is_a_candidate(c6, route_src(view_of(s.route6)), pick_of(s.clock6));
    if let Some(ip) = detected_v4(s) {
        let i = choose|i: int| 0 <= i < c4.len() && (#[trigger] c4[i]).ip == ip;
        assert(is_global("inet"@, c4[i].ip));
    }
    if let Some(ip) = detected_v6(s) {
        let i = choose|i: int| 0 <= i < c6.len() && (#[trigger] c6[i]).ip == ip;
        assert(is_global("inet6"@, c6[i].ip));
    }
}

// ---------------------------------------------------------------- what a line says

/// The word after the first occurrence of a key is the one that stands behind it; without the
/// key, or with the key as the last word only, there is none.
pub proof fn law_word_after(
    first: Seq<Seq<char>>,
    key: Seq<char>,
    word: Seq<char>,
    more: Seq<Seq<char>>,
)
    requires
        !first.contains(key),
    ensures
        word_after(first + seq![key, word] + more, key) == Some(word),
        word_after(first, key) is None,
        word_after(first + seq![key], key) is None,
    decreases first.len(),
{
    let all = first + seq![key, word] + more;
    let cut = first + seq![key];
    if first.len() == 0 {
        assert(all[0] == key && all[1] == word);
    } else {
        let rest = first.skip(1);
        assert(all[0] == first[0]);
        assert(first.contains(first[0]));
        assert(all.skip(1) =~= rest + seq![key, word] + more);
        assert(cut.skip(1) =~= rest + seq![key]);
        assert(!rest.contains(key)) by {
            if rest.contains(key) {
                let i = choose|i: int| 0 <= i < rest.len() && rest[i] == key;
                assert(first[i + 1] == key);
            }
        }
        law_word_after(rest, key, word, more);
    }
}

/// The preferred lifetime on a line is the number of seconds after the word `preferred_lft`, for
/// every such number; `forever` is longer than any of them, and a line without the word has none,
/// nor has one with anything else behind it.
pub proof fn law_lifetime(
    line: Seq<char>,
    first: Seq<Seq<char>>,
    n: nat,
    word: Seq<char>,
    more: Seq<Seq<char>>,
)
    requires
        !first.contains("preferred_lft"@),
        n <= u64::MAX,
    ensures
        words(line) == first + seq!["preferred_lft"@, decimal(n) + "sec"@] + more
            ==> line_lifetime(line) == n,
        words(line) == first + seq!["preferred_lft"@, decimal(n)] + more ==> line_lifetime(line)
            == n,
        words(line) == first + seq!["preferred_lft"@, "forever"@] + more ==> line_lifetime(line)
            == 0xffff_ffff_ffff_ffff,
        words(line) == first ==> line_lifetime(line) == 0,
        words(line) == first + seq!["preferred_lft"@, word] + more && word != "forever"@ && parsed(
            strip_suffixes(word, "sec"@),
            0xffff_ffff_ffff_ffff,
        ) is None ==> line_lifetime(line) == 0,
{
    let key = "preferred_lft"@;
    law_word_after(first, key, word, more);
    let d = decimal(n);
    reveal_strlit("sec");
    reveal_strlit("forever");
    law_word_after(first, key, d + "sec"@, more);
    law_word_after(first, key, d, more);
    law_word_after(first, key, "forever"@, more);
    law_unit_is_cut_off(n, "sec"@);
    law_parse_of_decimal(n, u64::MAX as nat);
    lemma_decimal(n);
    assert(is_digit(d[0]));
    assert((d + "sec"@)[0] == d[0]);
    assert("forever"@[0] == 'f');
    assert(d + "sec"@ != "forever"@);
    assert(d != "forever"@);
}

/// A line of `ip -o addr show` gives the address before the slash of its fourth word exactly
/// where its third word is the family, its scope is global and the address is. It is temporary
/// where the line says so, deprecated where the line says so, and has the line's lifetime.
pub proof fn law_line_is_read(line: Seq<char>, family: Seq<char>, ip: Seq<char>, prefix: Seq<char>)
    requires
        words(line).len() >= 4,
        words(line)[3] == ip + seq!['/'] + prefix,
        !ip.contains('/'),
    ensures
        line_addr(line, family) is Some <==> words(line)[2] == family && occurs(
            line,
            "scope global"@,
        ) && (if family == "inet"@ {
            is_v4_global(ip)
        } else {
            is_v6_global(ip)
        }),
        line_addr(line, family) matches Some(a) ==> {
            &&& a.ip == ip
            &&& a.stable <==> !occurs(line, " temporary"@)
            &&& a.deprecated <==> occurs(line, " deprecated"@)
            &&& a.preferred_lft == line_lifetime(line)
        },
{
    law_pieces(ip, '/', prefix);
}

/// A line with fewer than four words gives no address.
pub proof fn law_short_line(line: Seq<char>, family: Seq<char>)
    requires
        words(line).len() < 4,
    ensures
        line_addr(line, family) is None,
{
}

/// The addresses on lines are those on the first of them, and then those on the others; a line by
/// itself gives its address, or nothing. Without output there are none.
pub proof fn law_lines_are_read_in_turn(
    ls: Seq<Seq<char>>,
    ms: Seq<Seq<char>>,
    family: Seq<char>,
)
    ensures
        line_addrs(ls + ms, family) == line_addrs(ls, family) + line_addrs(ms, family),
        ms.len() == 1 ==> line_addrs(ms, family) == (match line_addr(ms[0], family) {
            Some(a) => seq![a],
            None => seq![],
        }),
        listed_addrs(family, None) == Seq::<AddrView>::empty(),
    decreases ms.len(),
{
    if ms.len() == 0 {
        assert(ls + ms =~= ls);
        assert(line_addrs(ls, family) + line_addrs(ms, family) =~= line_addrs(ls, family));
    } else {
        let all = ls + ms;
        assert(all.drop_last() =~= ls + ms.drop_last());
        assert(all.last() == ms.last());
        law_lines_are_read_in_turn(ls, ms.drop_last(), family);
        assert(line_addrs(all, family) =~= line_addrs(ls, family) + line_addrs(ms, family));
        if ms.len() == 1 {
            assert(line_addrs(ms.drop_last(), family) =~= seq![]);
            assert(ms.last() == ms[0]);
        }
    }
}

/// The source address and the device of a route stand behind the words `src` and `dev` in what
/// `ip route get` prints.
pub proof fn law_route_is_read(
    out: Seq<char>,
    first: Seq<Seq<char>>,
    word: Seq<char>,
    more: Seq<Seq<char>>,
)
    ensures
        words(out) == first + seq!["src"@, word] + more && !first.contains("src"@) ==> route_src(
            Some(out),
        ) == Some(word),
        words(out) == first + seq!["dev"@, word] + more && !first.contains("dev"@) ==> route_dev(
            Some(out),
        ) == Some(word),
        words(out) == first && !first.contains("src"@) ==> route_src(Some(out)) is None,
        words(out) == first && !first.contains("dev"@) ==> route_dev(Some(out)) is None,
        route_src(None) is None,
        route_dev(None) is None,
{
    if !first.contains("src"@) {
        law_word_after(first, "src"@, word, more);
    }
    if !first.contains("dev"@) {
        law_word_after(first, "dev"@, word, more);
    }
}

/// The device of the IPv4 route decides, and that of the IPv6 route only where the other has
/// none.
pub proof fn law_v4_device_first(v4: Option<Seq<char>>, v6: Option<Seq<char>>)
    ensures
        route_dev(v4) is Some ==> first_dev(v4, v6) == route_dev(v4),
        route_dev(v4) is None ==> first_dev(v4, v6) == route_dev(v6),
{
}

// ---------------------------------------------------------------- which address is best

/// `a` is to be preferred to `b`: a stable address to a temporary one, else one that is not
/// deprecated to one that is, else the one with the longer preferred lifetime.
pub open spec fn preferred(a: AddrView, b: AddrView) -> bool {
    ||| a.stable && !b.stable
    ||| a.stable == b.stable && !a.deprecated && b.deprecated
    ||| a.stable == b.stable && a.deprecated == b.deprecated && a.preferred_lft > b.preferred_lft
}

/// No candidate is to be preferred to candidate `i`.
pub open spec fn unbeaten(cands: Seq<AddrView>, i: int) -> bool {
    &&& 0 <= i < cands.len()
    &&& forall|k: int| 0 <= k < cands.len() ==> !preferred(#[trigger] cands[k], cands[i])
}

/// The source of the default route decides the choice: it is one of the candidates, is not
/// deprecated, and is temporary only where they all are.
pub open spec fn route_decides(cands: Seq<AddrView>, def: Option<Seq<char>>) -> bool {
    def is Some && exists|i: int|
        0 <= i < cands.len() && (#[trigger] cands[i]).ip == def->0 && !cands[i].deprecated && (
        cands[i].stable || forall|k: int| 0 <= k < cands.len() ==> !(#[trigger] cands[k]).stable)
}

/// The source of the default route is chosen where it decides; otherwise an address is chosen to
/// which no other candidate is to be preferred, and the default route makes no difference.
pub proof fn law_choice_is_unbeaten(cands: Seq<AddrView>, def: Option<Seq<char>>, pick: nat)
    requires
        cands.len() > 0,
    ensures
        route_decides(cands, def) ==> selected(cands, def, pick) == def,
        !route_decides(cands, def) ==> selected(cands, def, pick) == selected(cands, None, pick),
        exists|i: int|
            unbeaten(cands, i) && selected(cands, None, pick) == Some((#[trigger] cands[i]).ip),
{
    lemma_tied(cands);
    if route_decides(cands, def) {
        let i = choose|i: int|
            0 <= i < cands.len() && (#[trigger] cands[i]).ip == def->0 && !cands[i].deprecated && (
            cands[i].stable || forall|k: int|
                0 <= k < cands.len() ==> !(#[trigger] cands[k]).stable);
        assert(cands[i].ip == def->0);
        assert(is_good_src(cands, def->0));
    } else if def is Some && is_good_src(cands, def->0) {
        let i = choose|i: int|
            0 <= i < cands.len() && (#[trigger] cands[i]).ip == def->0 && !cands[i].deprecated && (
            cands[i].stable || !has_stable(cands));
        assert(cands[i].ip == def->0);
        assert(route_decides(cands, def));
    }
    let j = (pick % tied(cands).len()) as int;
    let t = tied(cands)[j];
    assert(cands.contains(t) && is_best(cands, t));
    let i = choose|i: int| 0 <= i < cands.len() && cands[i] == t;
    assert forall|k: int| 0 <= k < cands.len() implies !preferred(
        #[trigger] cands[k],
        cands[i],
    ) by {
        assert(!better(cands[k], t));
    }
    assert(unbeaten(cands, i) && selected(cands, None, pick) == Some(cands[i].ip));
}

/// Every candidate to which no other is to be preferred can be the one that is chosen: it is for
/// some reading of the clock. Two readings that differ by the number of such candidates make the
/// same choice.
pub proof fn law_every_unbeaten_can_win(cands: Seq<AddrView>, i: int, pick: nat)
    requires
        unbeaten(cands, i),
    ensures
        exists|p: nat|
            p < cands.len() && #[trigger] selected(cands, None, p) == Some(cands[i].ip),
        exists|n: nat|
            0 < n <= cands.len() && #[trigger] selected(cands, None, pick + n) == selected(
                cands,
                None,
                pick,
            ),
{
    let good = |a: AddrView| is_best(cands, a);
    lemma_tied(cands);
    assert(is_best(cands, cands[i])) by {
        assert forall|k: int| 0 <= k < cands.len() implies !better(
            #[trigger] cands[k],
            cands[i],
        ) by {
            assert(!preferred(cands[k], cands[i]));
        }
    }
    broadcast use vstd::seq_lib::group_filter_ensures;

    assert(good(cands[i]));
    assert(cands.filter(good).contains(cands[i]));
    assert(tied(cands).contains(cands[i]));
    let j = choose|j: int| 0 <= j < tied(cands).len() && tied(cands)[j] == cands[i];
    let p = j as nat;
    vstd::arithmetic::div_mod::lemma_small_mod(p, tied(cands).len());
    assert(selected(cands, None, p) == Some(cands[i].ip));
    let n = tied(cands).len();
    assert((pick + n) % n == pick % n) by {
        vstd::arithmetic::div_mod::lemma_mod_add_multiples_vanish(pick as int, n as int);
    }
    assert(selected(cands, None, pick + n) == selected(cands, None, pick));
}

/// The clock's reading decides as it is, up to 64 bits; where it cannot be read it counts as one.
pub proof fn law_clock(n: u128)
    ensures
        n <= u64::MAX ==> pick_of(Some(n)) == n,
        pick_of(None) == 1,
{
    if n <= u64::MAX {
        vstd::arithmetic::div_mod::lemma_small_mod(n as nat, 0x1_0000_0000_0000_0000);
    }
}

/// Each family's address is detected from what was found out about that family alone.
pub proof fn law_families_are_apart(s: Survey, t: Survey)
    ensures
        s.inet == t.inet && s.route4 == t.route4 && s.clock4 == t.clock4 ==> detected_v4(s)
            == detected_v4(t),
        s.inet6 == t.inet6 && s.route6 == t.route6 && s.clock6 == t.clock6 ==> detected_v6(s)
            == detected_v6(t),
        route_decides(listed_addrs("inet"@, view_of(s.inet)), route_src(view_of(s.route4)))
            ==> detected_v4(s) == route_src(view_of(s.route4)),
        route_decides(listed_addrs("inet6"@, view_of(s.inet6)), route_src(view_of(s.route6)))
            ==> detected_v6(s) == route_src(view_of(s.route6)),
{
    let c4 = listed_addrs("inet"@, view_of(s.inet));
    let c6 = listed_addrs("inet6"@, view_of(s.inet6));
    if c4.len() > 0 {
        law_choice_is_unbeaten(c4, route_src(view_of(s.route4)), pick_of(s.clock4));
    }
    if c6.len() > 0 {
        law_choice_is_unbeaten(c6, route_src(view_of(s.route6)), pick_of(s.clock6));
    }
}

} // verus!
