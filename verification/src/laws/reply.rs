//! What is read back from a well-formed reply.

use crate::laws::text::{blank, lemma_lacks_add, lemma_span_of};
use crate::number::{all_digits, decimal, is_digit, law_parse_of_decimal, lemma_decimal, parsed};
use crate::reply::{after_colon, digit_run, listed_peers, number_field, peer_of, peers_of};
use crate::reply::{quoted, scan, string_field, PeerView};
use crate::text::{find, is_space, lemma_find, occurs, starts, strip_front, CharClass};
use vstd::prelude::*;

verus! {

/// `s` holds no double quote.
pub open spec fn unquoted(s: Seq<char>) -> bool {
    !s.contains('"')
}

// ---------------------------------------------------------------- single fields

/// Stripping takes a blank start away.
pub proof fn lemma_strip_blank(w: Seq<char>, s: Seq<char>)
    requires
        blank(w),
        s.len() > 0,
        !CharClass::Space.contains(s[0]),
    ensures
        strip_front(w + s, CharClass::Space) == s,
    decreases w.len(),
{
    let t = w + s;
    if w.len() == 0 {
        assert(t =~= s);
    } else {
        assert(t[0] == w[0]);
        assert(t.skip(1) =~= w.skip(1) + s);
        assert forall|i: int| 0 <= i < w.skip(1).len() implies CharClass::Space.contains(
            #[trigger] w.skip(1)[i],
        ) by {
            assert(w.skip(1)[i] == w[i + 1]);
        }
        lemma_strip_blank(w.skip(1), s);
    }
}

/// What follows a colon with white space round it.
pub proof fn lemma_after_colon(w1: Seq<char>, w2: Seq<char>, s: Seq<char>)
    requires
        blank(w1),
        blank(w2),
        s.len() > 0,
        !CharClass::Space.contains(s[0]),
    ensures
        after_colon(w1 + seq![':'] + w2 + s) == Some(s),
{
    let rest = seq![':'] + (w2 + s);
    assert(w1 + seq![':'] + w2 + s =~= w1 + rest);
    lemma_strip_blank(w1, rest);
    assert(rest.skip(1) =~= w2 + s);
    lemma_strip_blank(w2, s);
}

/// The value of a string field is read from the first place where the quoted field stands, with
/// any white space round the colon, whatever follows the value.
pub proof fn law_string_field(
    before: Seq<char>,
    field: Seq<char>,
    w1: Seq<char>,
    w2: Seq<char>,
    value: Seq<char>,
    after: Seq<char>,
)
    requires
        blank(w1),
        blank(w2),
        unquoted(value),
        find(
            before + quoted(field) + (w1 + seq![':'] + w2 + (quoted(value) + after)),
            quoted(field),
        ) == Some(before.len() as int),
    ensures
        string_field(
            before + quoted(field) + (w1 + seq![':'] + w2 + (quoted(value) + after)),
            field,
        ) == Some(value),
{
    let n = quoted(field);
    let s = quoted(value) + after;
    let tail = w1 + seq![':'] + w2 + s;
    let body = before + n + tail;
    let k = CharClass::Only('"');
    assert(body.skip(before.len() + n.len() as int) =~= tail);
    lemma_after_colon(w1, w2, s);
    assert(s.skip(1) =~= value + (seq!['"'] + after));
    assert forall|i: int| 0 <= i < value.len() implies !k.contains(#[trigger] value[i]) by {
        assert(value.contains(value[i]));
    }
    lemma_span_of(value, seq!['"'] + after, k);
    assert(s.skip(1).take(value.len() as int) =~= value);
}

/// Digits before something else are a run of their own.
pub proof fn lemma_digit_run(d: Seq<char>, after: Seq<char>)
    requires
        all_digits(d),
        after.len() > 0 ==> !is_digit(after[0]),
    ensures
        digit_run(d + after) == d.len(),
    decreases d.len(),
{
    let s = d + after;
    if d.len() == 0 {
        assert(s =~= after);
    } else {
        assert(s[0] == d[0]);
        assert(s.skip(1) =~= d.skip(1) + after);
        assert forall|i: int| 0 <= i < d.skip(1).len() implies is_digit(#[trigger] d.skip(1)[i]) by {
            assert(d.skip(1)[i] == d[i + 1]);
        }
        lemma_digit_run(d.skip(1), after);
    }
}

/// A number is read from the first place where the quoted field stands, with any white space
/// round the colon.
pub proof fn law_number_field(
    before: Seq<char>,
    field: Seq<char>,
    w1: Seq<char>,
    w2: Seq<char>,
    n: nat,
    after: Seq<char>,
)
    requires
        blank(w1),
        blank(w2),
        n <= u64::MAX,
        after.len() > 0 ==> !is_digit(after[0]),
        find(
            before + quoted(field) + (w1 + seq![':'] + w2 + (decimal(n) + after)),
            quoted(field),
        ) == Some(before.len() as int),
    ensures
        number_field(
            before + quoted(field) + (w1 + seq![':'] + w2 + (decimal(n) + after)),
            field,
        ) == Some(n),
{
    let q = quoted(field);
    let s = decimal(n) + after;
    let tail = w1 + seq![':'] + w2 + s;
    let body = before + q + tail;
    assert(body.skip(before.len() + q.len() as int) =~= tail);
    lemma_decimal(n);
    assert(is_digit(decimal(n)[0]));
    lemma_after_colon(w1, w2, s);
    lemma_digit_run(decimal(n), after);
    assert(s.take(decimal(n).len() as int) =~= decimal(n));
    law_parse_of_decimal(n, u64::MAX as nat);
}

// ---------------------------------------------------------------- the list of peers

/// `find` after something that `n` cannot start in.
pub proof fn lemma_find_skip(p: Seq<char>, s: Seq<char>, n: Seq<char>)
    requires
        n.len() > 0,
        !p.contains(n[0]),
    ensures
        find(p + s, n) == (match find(s, n) {
            Some(i) => Some(i + p.len()),
            None => None,
        }),
    decreases p.len(),
{
    let t = p + s;
    if p.len() == 0 {
        assert(t =~= s);
    } else {
        assert(t[0] == p[0]);
        assert(p.contains(p[0]));
        assert(!starts(t, n)) by {
            if starts(t, n) {
                assert(t.take(n.len() as int)[0] == n[0]);
            }
        }
        assert(t.skip(1) =~= p.skip(1) + s);
        assert(!p.skip(1).contains(n[0])) by {
            if p.skip(1).contains(n[0]) {
                let i = choose|i: int| 0 <= i < p.skip(1).len() && p.skip(1)[i] == n[0];
                assert(p[i + 1] == n[0]);
            }
        }
        lemma_find_skip(p.skip(1), s, n);
    }
}

/// Looking for a quoted field goes past another quoted text.
pub proof fn lemma_find_past(p: Seq<char>, v: Seq<char>, rest: Seq<char>, f: Seq<char>)
    requires
        unquoted(p),
        unquoted(v),
        unquoted(f),
        f.len() > 0,
        v != f,
        rest.len() > 0,
        rest[0] != f[0],
    ensures
        find(p + quoted(v) + rest, quoted(f)) == (match find(rest, quoted(f)) {
            Some(i) => Some(i + p.len() + v.len() + 2),
            None => None,
        }),
{
    let n = quoted(f);
    let quote = seq!['"'];
    let s3 = quote + rest;
    let s2 = v + s3;
    let s1 = quote + s2;
    assert(p + quoted(v) + rest =~= p + s1);
    lemma_find_skip(p, s1, n);
    // The opening quote of `v`.
    assert(!starts(s1, n)) by {
        if starts(s1, n) {
            let head = s1.take(n.len() as int);
            if f.len() < v.len() {
                assert(head[f.len() as int + 1] == '"');
                assert(v[f.len() as int] == '"');
                assert(v.contains('"'));
            } else if f.len() > v.len() {
                assert(head[v.len() as int + 1] == f[v.len() as int]);
                assert(s1[v.len() as int + 1] == '"');
                assert(f.contains('"'));
            } else {
                assert forall|i: int| 0 <= i < f.len() implies v[i] == f[i] by {
                    assert(head[i + 1] == n[i + 1]);
                }
                assert(v =~= f);
            }
        }
    }
    assert(s1.skip(1) =~= s2);
    lemma_find_skip(v, s3, n);
    // Its closing quote.
    assert(!starts(s3, n)) by {
        if starts(s3, n) {
            assert(s3.take(n.len() as int)[1] == n[1]);
        }
    }
    assert(s3.skip(1) =~= rest);
}

/// `find` where the quoted field stands after something without quotes.
pub proof fn lemma_find_here(p: Seq<char>, rest: Seq<char>, f: Seq<char>)
    requires
        unquoted(p),
    ensures
        find(p + quoted(f) + rest, quoted(f)) == Some(p.len() as int),
{
    let n = quoted(f);
    assert(p + n + rest =~= p + (n + rest));
    lemma_find_skip(p, n + rest, n);
    assert((n + rest).take(n.len() as int) =~= n);
}

/// A quoted text that is not the field, or that no colon follows, makes no difference to what is
/// read after it.
pub proof fn law_other_text_is_passed_over(
    p: Seq<char>,
    v: Seq<char>,
    rest: Seq<char>,
    f: Seq<char>,
)
    requires
        unquoted(p),
        unquoted(v),
        unquoted(f),
        f.len() > 0,
        rest.len() > 0,
        rest[0] != f[0],
        v != f || after_colon(rest) is None,
    ensures
        string_field(p + quoted(v) + rest, f) == string_field(rest, f),
{
    let n = quoted(f);
    let body = p + quoted(v) + rest;
    if v == f {
        lemma_find_here(p, rest, f);
        assert(body.skip(p.len() + n.len() as int) =~= rest);
    } else {
        lemma_find_past(p, v, rest, f);
        lemma_find(rest, n);
        if let Some(i) = find(rest, n) {
            let at = i + p.len() + v.len() + 2;
            assert(body.skip(at + n.len()) =~= rest.skip(i + n.len()));
        }
    }
}

/// The text of a string field: its quoted name, a colon, its quoted value.
pub open spec fn member(m: (Seq<char>, Seq<char>)) -> Seq<char> {
    quoted(m.0) + seq![':'] + quoted(m.1)
}

/// The text of string fields, each with a comma before it.
pub open spec fn members(ms: Seq<(Seq<char>, Seq<char>)>) -> Seq<char>
    decreases ms.len(),
{
    if ms.len() == 0 {
        seq![]
    } else {
        seq![','] + member(ms[0]) + members(ms.skip(1))
    }
}

/// The names and values hold no quotes.
pub open spec fn all_unquoted(ms: Seq<(Seq<char>, Seq<char>)>) -> bool {
    forall|i: int|
        0 <= i < ms.len() ==> unquoted((#[trigger] ms[i]).0) && unquoted(ms[i].1)
}

/// A field's value is read from the first member with its name, whatever the values are.
pub proof fn law_member_is_read(ms: Seq<(Seq<char>, Seq<char>)>, j: int, after: Seq<char>)
    requires
        all_unquoted(ms),
        0 <= j < ms.len(),
        forall|i: int| 0 <= i < j ==> (#[trigger] ms[i]).0 != ms[j].0,
        ms[j].0.len() > 0,
        ms[j].0[0] != ',' && ms[j].0[0] != ':',
    ensures
        string_field(members(ms) + after, ms[j].0) == Some(ms[j].1),
    decreases ms.len(),
{
    let f = ms[j].0;
    let (g, v) = ms[0];
    let comma = seq![','];
    let colon = seq![':'];
    let none = Seq::<char>::empty();
    let tail = members(ms.skip(1)) + after;
    let all = members(ms) + after;
    assert(unquoted(ms[0].0) && unquoted(ms[0].1));
    assert(unquoted(ms[j].0));
    assert(unquoted(comma) && unquoted(colon));
    if j == 0 {
        let rest = none + colon + none + (quoted(v) + tail);
        assert(all =~= comma + quoted(f) + rest);
        lemma_find_here(comma, rest, f);
        law_string_field(comma, f, none, none, v, tail);
    } else {
        let rest = colon + quoted(v) + tail;
        assert(g != f);
        assert(all =~= comma + quoted(g) + rest);
        assert(rest[0] == ':');
        law_other_text_is_passed_over(comma, g, rest, f);
        assert(ms.skip(1).len() > 0);
        assert(tail[0] == ',');
        assert(strip_front(tail, CharClass::Space) == tail);
        law_other_text_is_passed_over(colon, v, tail, f);
        let ns = ms.skip(1);
        assert forall|i: int| 0 <= i < ns.len() implies unquoted((#[trigger] ns[i]).0) && unquoted(
            ns[i].1,
        ) by {
            assert(ns[i] == ms[i + 1]);
        }
        assert forall|i: int| 0 <= i < j - 1 implies (#[trigger] ns[i]).0 != ns[j - 1].0 by {
            assert(ns[i] == ms[i + 1]);
        }
        law_member_is_read(ns, j - 1, after);
    }
}

/// The string fields of the object that lists a peer.
pub open spec fn peer_fields(p: PeerView) -> Seq<(Seq<char>, Seq<char>)> {
    seq![
        ("client_pubkey"@, p.client_pubkey),
        ("preshared"@, p.preshared_b64),
        ("client_ip4"@, p.ip4),
        ("client_ip6"@, p.ip6),
    ]
}

/// What stands between the braces of `object_text`.
pub open spec fn inner_text(id: nat, p: PeerView) -> Seq<char> {
    quoted("id"@) + (seq![':'] + decimal(id)) + members(peer_fields(p))
}

/// The text of the object that lists a peer, with the number by which the registry knows it.
pub open spec fn object_text(id: nat, p: PeerView) -> Seq<char> {
    seq!['{'] + inner_text(id, p) + seq!['}']
}

/// A text that can stand as a value in a reply: without quotes or braces.
pub open spec fn plain_value(v: Seq<char>) -> bool {
    &&& unquoted(v)
    &&& !v.contains('{')
    &&& !v.contains('}')
}

/// A peer that a reply can list: it has a key and its fields are plain.
pub open spec fn plain_peer(p: PeerView) -> bool {
    &&& p.client_pubkey.len() > 0
    &&& plain_value(p.client_pubkey)
    &&& plain_value(p.preshared_b64)
    &&& plain_value(p.ip4)
    &&& plain_value(p.ip6)
}

proof fn lemma_names()
    ensures
        plain_value("id"@),
        "id"@.len() == 2,
        forall|p: PeerView, i: int|
            0 <= i < 4 ==> {
                let f = (#[trigger] peer_fields(p)[i]).0;
                plain_value(f) && f.len() > 2 && (f[0] == 'c' || f[0] == 'p')
            },
        "client_pubkey"@ != "preshared"@,
        "client_pubkey"@ != "client_ip4"@,
        "client_pubkey"@ != "client_ip6"@,
        "preshared"@ != "client_ip4"@,
        "preshared"@ != "client_ip6"@,
        "client_ip4"@ != "client_ip6"@,
{
    reveal_strlit("id");
    reveal_strlit("client_pubkey");
    reveal_strlit("preshared");
    reveal_strlit("client_ip4");
    reveal_strlit("client_ip6");
    assert("client_ip4"@[9] != "client_ip6"@[9]);
    assert("client_pubkey"@.len() != "preshared"@.len());
    assert("client_pubkey"@.len() != "client_ip4"@.len());
    assert("preshared"@.len() != "client_ip4"@.len());
    assert("client_ip6"@.len() == "client_ip4"@.len());
    assert forall|p: PeerView, i: int| 0 <= i < 4 implies {
        let f = (#[trigger] peer_fields(p)[i]).0;
        plain_value(f) && f.len() > 2 && (f[0] == 'c' || f[0] == 'p')
    } by {
        if i == 0 {
        } else if i == 1 {
        } else if i == 2 {
        } else {
        }
    }
}

/// A field of an object is read back.
proof fn lemma_field_of_object(id: nat, p: PeerView, lead: Seq<char>, j: int)
    requires
        plain_peer(p),
        unquoted(lead),
        0 <= j < 4,
    ensures
        string_field(lead + object_text(id, p), peer_fields(p)[j].0) == Some(peer_fields(p)[j].1),
{
    let ms = peer_fields(p);
    let f = ms[j].0;
    let open = lead + seq!['{'];
    let end = seq!['}'];
    let num = seq![':'] + decimal(id);
    let tail = members(ms) + end;
    let rest = num + tail;
    lemma_names();
    lemma_lacks_add(lead, seq!['{'], '"');
    assert(lead + object_text(id, p) =~= open + quoted("id"@) + rest);
    assert(rest[0] == ':');
    law_other_text_is_passed_over(open, "id"@, rest, f);
    // The number holds no quote, so that the first field stands first.
    lemma_decimal(id);
    assert(unquoted(num)) by {
        if num.contains('"') {
            let i = choose|i: int| 0 <= i < num.len() && num[i] == '"';
            assert(is_digit(decimal(id)[i - 1]));
        }
    }
    lemma_find_skip(num, tail, quoted(f));
    lemma_find(tail, quoted(f));
    if let Some(i) = find(tail, quoted(f)) {
        let at = i + num.len();
        assert(rest.skip(at + quoted(f).len()) =~= tail.skip(i + quoted(f).len()));
    }
    assert(string_field(rest, f) == string_field(tail, f));
    assert(all_unquoted(ms)) by {
        assert forall|i: int| 0 <= i < ms.len() implies unquoted((#[trigger] ms[i]).0) && unquoted(
            ms[i].1,
        ) by {
            assert(plain_value(peer_fields(p)[i].0));
        }
    }
    law_member_is_read(ms, j, end);
}

/// The four fields of an object are read back.
proof fn lemma_peer_of_object(id: nat, p: PeerView, lead: Seq<char>)
    requires
        plain_peer(p),
        unquoted(lead),
    ensures
        peer_of(lead + object_text(id, p)) == p,
{
    lemma_field_of_object(id, p, lead, 0);
    lemma_field_of_object(id, p, lead, 1);
    lemma_field_of_object(id, p, lead, 2);
    lemma_field_of_object(id, p, lead, 3);
}

/// Text without braces inside an object is taken up.
proof fn lemma_scan_text(t: Seq<char>, rest: Seq<char>, cur: Seq<char>)
    requires
        !t.contains('{'),
        !t.contains('}'),
    ensures
        scan(t + rest, 2, cur) == scan(rest, 2, cur + t),
    decreases t.len(),
{
    let s = t + rest;
    if t.len() == 0 {
        assert(s =~= rest);
        assert(cur + t =~= cur);
    } else {
        assert(s[0] == t[0]);
        assert(t.contains(t[0]));
        assert(s.skip(1) =~= t.skip(1) + rest);
        let tail = t.skip(1);
        assert(!tail.contains('{') && !tail.contains('}')) by {
            if tail.contains('{') {
                let i = choose|i: int| 0 <= i < tail.len() && tail[i] == '{';
                assert(t[i + 1] == '{');
            }
            if tail.contains('}') {
                let i = choose|i: int| 0 <= i < tail.len() && tail[i] == '}';
                assert(t[i + 1] == '}');
            }
        }
        lemma_scan_text(tail, rest, cur.push(t[0]));
        assert(cur.push(t[0]) + tail =~= cur + t);
    }
}

proof fn lemma_scan_object(inner: Seq<char>, rest: Seq<char>, cur: Seq<char>)
    requires
        !inner.contains('{'),
        !inner.contains('}'),
    ensures
        scan(seq!['{'] + inner + seq!['}'] + rest, 1, cur) == peers_of(
            cur + (seq!['{'] + inner + seq!['}']),
        ) + scan(rest, 1, seq![]),
{
    let tail = seq!['}'] + rest;
    let s = seq!['{'] + inner + seq!['}'] + rest;
    assert(s.skip(1) =~= inner + tail);
    lemma_scan_text(inner, tail, cur.push('{'));
    assert(tail.skip(1) =~= rest);
    assert((cur.push('{') + inner).push('}') =~= cur + (seq!['{'] + inner + seq!['}']));
}

proof fn lemma_members_lack(ms: Seq<(Seq<char>, Seq<char>)>, c: char)
    requires
        c == '{' || c == '}',
        forall|i: int|
            0 <= i < ms.len() ==> !(#[trigger] ms[i]).0.contains(c) && !ms[i].1.contains(c),
    ensures
        !members(ms).contains(c),
    decreases ms.len(),
{
    if ms.len() > 0 {
        let (f, v) = ms[0];
        let quote = seq!['"'];
        let tail = ms.skip(1);
        assert(!ms[0].0.contains(c) && !ms[0].1.contains(c));
        assert(!quote.contains(c) && !seq![':'].contains(c) && !seq![','].contains(c));
        lemma_lacks_add(quote, f, c);
        lemma_lacks_add(quote + f, quote, c);
        lemma_lacks_add(quote, v, c);
        lemma_lacks_add(quote + v, quote, c);
        lemma_lacks_add(quoted(f), seq![':'], c);
        lemma_lacks_add(quoted(f) + seq![':'], quoted(v), c);
        lemma_lacks_add(seq![','], member(ms[0]), c);
        assert forall|i: int| 0 <= i < tail.len() implies !(#[trigger] tail[i]).0.contains(c)
            && !tail[i].1.contains(c) by {
            assert(tail[i] == ms[i + 1]);
        }
        lemma_members_lack(tail, c);
        lemma_lacks_add(seq![','] + member(ms[0]), members(tail), c);
    }
}

proof fn lemma_inner_lacks(id: nat, p: PeerView, c: char)
    requires
        c == '{' || c == '}',
        plain_peer(p),
    ensures
        !inner_text(id, p).contains(c),
{
    let ms = peer_fields(p);
    let num = seq![':'] + decimal(id);
    lemma_names();
    assert(!num.contains(c)) by {
        lemma_decimal(id);
        if num.contains(c) {
            let i = choose|i: int| 0 <= i < num.len() && num[i] == c;
            assert(is_digit(decimal(id)[i - 1]));
        }
    }
    assert(!seq!['"'].contains(c));
    lemma_lacks_add(seq!['"'], "id"@, c);
    lemma_lacks_add(seq!['"'] + "id"@, seq!['"'], c);
    assert forall|i: int| 0 <= i < ms.len() implies !(#[trigger] ms[i]).0.contains(c)
        && !ms[i].1.contains(c) by {
        assert(plain_value(peer_fields(p)[i].0));
    }
    lemma_members_lack(ms, c);
    lemma_lacks_add(quoted("id"@), num, c);
    lemma_lacks_add(quoted("id"@) + num, members(ms), c);
}

/// The objects of the peers, each with a comma before it.
pub open spec fn more_objects(ids: Seq<nat>, ps: Seq<PeerView>) -> Seq<char>
    decreases ps.len(),
{
    if ps.len() == 0 {
        seq![]
    } else {
        seq![','] + object_text(ids[0], ps[0]) + more_objects(ids.skip(1), ps.skip(1))
    }
}

/// The objects of the peers, with commas between them.
pub open spec fn objects(ids: Seq<nat>, ps: Seq<PeerView>) -> Seq<char> {
    if ps.len() == 0 {
        seq![]
    } else {
        object_text(ids[0], ps[0]) + more_objects(ids.skip(1), ps.skip(1))
    }
}

/// The part of a reply that lists the peers, and what follows it.
pub open spec fn peers_text(ids: Seq<nat>, ps: Seq<PeerView>, after: Seq<char>) -> Seq<char> {
    quoted("peers"@) + (seq![':', '['] + (objects(ids, ps) + (seq![']'] + after)))
}

proof fn lemma_scan_more(ids: Seq<nat>, ps: Seq<PeerView>, after: Seq<char>)
    requires
        forall|i: int| 0 <= i < ps.len() ==> plain_peer(#[trigger] ps[i]),
    ensures
        scan(more_objects(ids, ps) + (seq![']'] + after), 1, seq![]) == ps,
    decreases ps.len(),
{
    let end = seq![']'] + after;
    if ps.len() == 0 {
        assert(more_objects(ids, ps) + end =~= end);
        assert(scan(end, 1, seq![]) =~= ps);
    } else {
        let (is, qs) = (ids.skip(1), ps.skip(1));
        let inner = inner_text(ids[0], ps[0]);
        let rest = more_objects(is, qs) + end;
        let s = more_objects(ids, ps) + end;
        let none = Seq::<char>::empty();
        assert(plain_peer(ps[0]));
        lemma_inner_lacks(ids[0], ps[0], '{');
        lemma_inner_lacks(ids[0], ps[0], '}');
        assert(s[0] == ',');
        assert(s.skip(1) =~= seq!['{'] + inner + seq!['}'] + rest);
        assert(none.push(',') =~= seq![',']);
        lemma_scan_object(inner, rest, seq![',']);
        assert(unquoted(seq![',']));
        lemma_peer_of_object(ids[0], ps[0], seq![',']);
        assert forall|i: int| 0 <= i < qs.len() implies plain_peer(#[trigger] qs[i]) by {
            assert(qs[i] == ps[i + 1]);
        }
        lemma_scan_more(is, qs, after);
        assert(seq![ps[0]] + qs =~= ps);
    }
}

/// The peers that a reply lists are read back, in order, whatever numbers they carry and whatever
/// follows the list.
pub proof fn law_listed_peers(
    before: Seq<char>,
    ids: Seq<nat>,
    ps: Seq<PeerView>,
    after: Seq<char>,
)
    requires
        find(before + peers_text(ids, ps, after), quoted("peers"@)) == Some(before.len() as int),
        forall|i: int| 0 <= i < ps.len() ==> plain_peer(#[trigger] ps[i]),
    ensures
        listed_peers(before + peers_text(ids, ps, after)) == ps,
{
    let name = quoted("peers"@);
    let end = seq![']'] + after;
    let list = objects(ids, ps) + end;
    let t = peers_text(ids, ps, after);
    let k = CharClass::Only('[');
    let none = Seq::<char>::empty();
    reveal_strlit("peers");
    assert((before + t).skip(before.len() as int) =~= t);
    let lead = name + seq![':'];
    assert(t =~= lead + (seq!['['] + list));
    assert forall|i: int| 0 <= i < lead.len() implies !k.contains(#[trigger] lead[i]) by {}
    lemma_span_of(lead, seq!['['] + list, k);
    assert(t.skip(lead.len() as int) =~= seq!['['] + list);
    assert((seq!['['] + list).skip(1) =~= list);
    if ps.len() == 0 {
        assert(list =~= end);
        assert(scan(end, 1, none) =~= ps);
    } else {
        let (is, qs) = (ids.skip(1), ps.skip(1));
        let inner = inner_text(ids[0], ps[0]);
        let rest = more_objects(is, qs) + end;
        assert(plain_peer(ps[0]));
        lemma_inner_lacks(ids[0], ps[0], '{');
        lemma_inner_lacks(ids[0], ps[0], '}');
        assert(list =~= seq!['{'] + inner + seq!['}'] + rest);
        lemma_scan_object(inner, rest, none);
        lemma_peer_of_object(ids[0], ps[0], none);
        assert forall|i: int| 0 <= i < qs.len() implies plain_peer(#[trigger] qs[i]) by {
            assert(qs[i] == ps[i + 1]);
        }
        lemma_scan_more(is, qs, after);
        assert(seq![ps[0]] + qs =~= ps);
    }
}

// ---------------------------------------------------------------- lists of any layout

/// A field whose quoted name stands nowhere in a reply has no value.
pub proof fn law_missing_field(body: Seq<char>, field: Seq<char>)
    requires
        !occurs(body, quoted(field)),
    ensures
        string_field(body, field) is None,
        number_field(body, field) is None,
{
    lemma_find(body, quoted(field));
}

/// A string that does not end is none. A field that holds something other than a string, such as a
/// number, is passed over, and the value is looked for behind its colon.
pub proof fn law_no_string(
    before: Seq<char>,
    field: Seq<char>,
    w1: Seq<char>,
    w2: Seq<char>,
    rest: Seq<char>,
)
    requires
        blank(w1),
        blank(w2),
        rest.len() > 0,
        !is_space(rest[0]),
        find(before + quoted(field) + (w1 + seq![':'] + w2 + rest), quoted(field)) == Some(
            before.len() as int,
        ),
    ensures
        rest[0] == '"' && unquoted(rest.skip(1)) ==> string_field(
            before + quoted(field) + (w1 + seq![':'] + w2 + rest),
            field,
        ) is None,
        rest[0] != '"' ==> string_field(
            before + quoted(field) + (w1 + seq![':'] + w2 + rest),
            field,
        ) == string_field(w1 + seq![':'] + w2 + rest, field),
        !is_digit(rest[0]) ==> number_field(
            before + quoted(field) + (w1 + seq![':'] + w2 + rest),
            field,
        ) is None,
{
    let n = quoted(field);
    let tail = w1 + seq![':'] + w2 + rest;
    let body = before + n + tail;
    let k = CharClass::Only('"');
    assert(body.skip(before.len() + n.len() as int) =~= tail);
    lemma_after_colon(w1, w2, rest);
    if rest[0] == '"' && unquoted(rest.skip(1)) {
        let v = rest.skip(1);
        assert forall|i: int| 0 <= i < v.len() implies !k.contains(#[trigger] v[i]) by {
            assert(v.contains(v[i]));
        }
        lemma_span_of(v, seq![], k);
        assert(v + Seq::<char>::empty() =~= v);
    }
    if !is_digit(rest[0]) {
        assert(digit_run(rest) == 0);
        assert(rest.take(0) =~= Seq::<char>::empty());
    }
}

/// The number of a field is that of all the digits behind its colon, up to the first character
/// that is none; it is no number where they are too many for 64 bits.
pub proof fn law_digits_of_a_field(
    before: Seq<char>,
    field: Seq<char>,
    w1: Seq<char>,
    w2: Seq<char>,
    digits: Seq<char>,
    after: Seq<char>,
)
    requires
        blank(w1),
        blank(w2),
        all_digits(digits),
        digits.len() > 0,
        after.len() > 0 ==> !is_digit(after[0]),
        find(
            before + quoted(field) + (w1 + seq![':'] + w2 + (digits + after)),
            quoted(field),
        ) == Some(before.len() as int),
    ensures
        number_field(
            before + quoted(field) + (w1 + seq![':'] + w2 + (digits + after)),
            field,
        ) == parsed(digits, 0xffff_ffff_ffff_ffff),
{
    let q = quoted(field);
    let s = digits + after;
    let tail = w1 + seq![':'] + w2 + s;
    let body = before + q + tail;
    assert(body.skip(before.len() + q.len() as int) =~= tail);
    assert(is_digit(digits[0]));
    lemma_after_colon(w1, w2, s);
    lemma_digit_run(digits, after);
    assert(s.take(digits.len() as int) =~= digits);
}

/// Where no colon follows the first place at which a quoted field stands, the field has no
/// number.
pub proof fn law_no_number(before: Seq<char>, field: Seq<char>, rest: Seq<char>)
    requires
        find(before + quoted(field) + rest, quoted(field)) == Some(before.len() as int),
        after_colon(rest) is None,
    ensures
        number_field(before + quoted(field) + rest, field) is None,
        string_field(before + quoted(field) + rest, field) == string_field(rest, field),
{
    let n = quoted(field);
    assert((before + n + rest).skip(before.len() + n.len() as int) =~= rest);
}

/// An object lists a peer exactly where it has a key that is not empty; the peer's fields are the
/// strings of the object, and empty where they are missing.
pub proof fn law_peer_of_an_object(object: Seq<char>)
    ensures
        match string_field(object, "client_pubkey"@) {
            Some(k) => if k.len() > 0 {
                &&& peers_of(object).len() == 1
                &&& peers_of(object)[0].client_pubkey == k
            } else {
                peers_of(object).len() == 0
            },
            None => peers_of(object).len() == 0,
        },
        forall|i: int|
            0 <= i < peers_of(object).len() ==> {
                let p = #[trigger] peers_of(object)[i];
                &&& string_field(object, "preshared"@) matches Some(v) ==> p.preshared_b64 == v
                &&& string_field(object, "preshared"@) is None ==> p.preshared_b64.len() == 0
                &&& string_field(object, "client_ip4"@) matches Some(v) ==> p.ip4 == v
                &&& string_field(object, "client_ip4"@) is None ==> p.ip4.len() == 0
                &&& string_field(object, "client_ip6"@) matches Some(v) ==> p.ip6 == v
                &&& string_field(object, "client_ip6"@) is None ==> p.ip6.len() == 0
            },
{
}

/// A text without braces.
pub open spec fn flat(t: Seq<char>) -> bool {
    !t.contains('{') && !t.contains('}')
}

proof fn lemma_flat_skip(t: Seq<char>)
    requires
        flat(t),
        t.len() > 0,
    ensures
        flat(t.skip(1)),
        t[0] != '{',
        t[0] != '}',
{
    let tail = t.skip(1);
    assert(t.contains(t[0]));
    if tail.contains('{') {
        let i = choose|i: int| 0 <= i < tail.len() && tail[i] == '{';
        assert(t[i + 1] == '{');
    }
    if tail.contains('}') {
        let i = choose|i: int| 0 <= i < tail.len() && tail[i] == '}';
        assert(t[i + 1] == '}');
    }
}

proof fn lemma_scan_flat(t: Seq<char>, rest: Seq<char>, depth: int, cur: Seq<char>)
    requires
        flat(t),
        depth >= 2 || (depth == 1 && !t.contains(']')),
    ensures
        scan(t + rest, depth, cur) == scan(rest, depth, cur + t),
    decreases t.len(),
{
    let s = t + rest;
    if t.len() == 0 {
        assert(s =~= rest);
        assert(cur + t =~= cur);
    } else {
        let tail = t.skip(1);
        lemma_flat_skip(t);
        assert(s[0] == t[0]);
        assert(t.contains(t[0]));
        assert(s.skip(1) =~= tail + rest);
        if depth == 1 {
            if tail.contains(']') {
                let i = choose|i: int| 0 <= i < tail.len() && tail[i] == ']';
                assert(t[i + 1] == ']');
            }
        }
        lemma_scan_flat(tail, rest, depth, cur.push(t[0]));
        assert(cur.push(t[0]) + tail =~= cur + t);
    }
}

/// An object inside a listed object belongs to it, with all that it holds.
pub proof fn law_nested_object(inner: Seq<char>, rest: Seq<char>, depth: int, cur: Seq<char>)
    requires
        flat(inner),
        depth >= 2,
    ensures
        scan(seq!['{'] + inner + seq!['}'] + rest, depth, cur) == scan(
            rest,
            depth,
            cur + (seq!['{'] + inner + seq!['}']),
        ),
        scan(inner + rest, depth, cur) == scan(rest, depth, cur + inner),
{
    let tail = seq!['}'] + rest;
    let s = seq!['{'] + inner + seq!['}'] + rest;
    assert(s.skip(1) =~= inner + tail);
    lemma_scan_flat(inner, tail, depth + 1, cur.push('{'));
    assert(tail.skip(1) =~= rest);
    assert((cur.push('{') + inner).push('}') =~= cur + (seq!['{'] + inner + seq!['}']));
    lemma_scan_flat(inner, rest, depth, cur);
}

/// A list is read object by object, whatever stands between them, such as a comma and white
/// space: the peer of the first one, and then those of the rest; it ends at its bracket.
pub proof fn law_list_in_turn(
    gap: Seq<char>,
    inner: Seq<char>,
    rest: Seq<char>,
    cur: Seq<char>,
)
    requires
        flat(gap),
        !gap.contains(']'),
        flat(inner),
    ensures
        scan(gap + (seq!['{'] + inner + seq!['}'] + rest), 1, cur) == peers_of(
            cur + gap + (seq!['{'] + inner + seq!['}']),
        ) + scan(rest, 1, seq![]),
        scan(gap + (seq![']'] + rest), 1, cur) == Seq::<PeerView>::empty(),
{
    lemma_scan_flat(gap, seq!['{'] + inner + seq!['}'] + rest, 1, cur);
    lemma_scan_object(inner, rest, cur + gap);
    lemma_scan_flat(gap, seq![']'] + rest, 1, cur);
}

/// The list of peers starts at the first bracket after the first quoted `peers`, whatever stands
/// before it; a reply without that name lists none.
pub proof fn law_list_starts(before: Seq<char>, mid: Seq<char>, list: Seq<char>)
    requires
        find(before + quoted("peers"@) + (mid + (seq!['['] + list)), quoted("peers"@)) == Some(
            before.len() as int,
        ),
        !mid.contains('['),
    ensures
        listed_peers(before + quoted("peers"@) + (mid + (seq!['['] + list))) == scan(
            list,
            1,
            seq![],
        ),
        !occurs(list, quoted("peers"@)) ==> listed_peers(list) == Seq::<PeerView>::empty(),
{
    let name = quoted("peers"@);
    let k = CharClass::Only('[');
    let body = before + name + (mid + (seq!['['] + list));
    let lead = name + mid;
    let t = lead + (seq!['['] + list);
    reveal_strlit("peers");
    assert(body.skip(before.len() as int) =~= t);
    assert forall|i: int| 0 <= i < lead.len() implies !k.contains(#[trigger] lead[i]) by {
        if i >= name.len() {
            assert(lead[i] == mid[i - name.len()]);
            assert(mid.contains(mid[i - name.len()]));
        }
    }
    lemma_span_of(lead, seq!['['] + list, k);
    assert(t.skip(lead.len() as int) =~= seq!['['] + list);
    assert((seq!['['] + list).skip(1) =~= list);
    lemma_find(list, name);
}

} // verus!
