//! Reading the registry's replies: named fields in JSON text, and the list of wanted peers.
//!
//! The values are base64 keys, addresses and numbers, so no escapes are expected in strings.

use crate::number::{is_digit, parse, parsed};
use crate::text::{chars_of, find, find_from, lemma_find, next_of, or_empty, skip_front, span};
use crate::text::{string_of, strip_front, view_of, CharClass};
use vstd::prelude::*;

verus! {

/// `field` in double quotes.
pub open spec fn quoted(field: Seq<char>) -> Seq<char> {
    seq!['"'] + field + seq!['"']
}

/// What follows a colon at the start of `s`, with white space allowed on both sides of it.
pub open spec fn after_colon(s: Seq<char>) -> Option<Seq<char>> {
    let r = strip_front(s, CharClass::Space);
    if r.len() > 0 && r[0] == ':' {
        Some(strip_front(r.skip(1), CharClass::Space))
    } else {
        None
    }
}

/// What stands up to the next double quote; `None` where there is none.
pub open spec fn up_to_quote(s: Seq<char>) -> Option<Seq<char>> {
    let k = span(s, CharClass::Only('"')) as int;
    if k < s.len() {
        Some(s.take(k))
    } else {
        None
    }
}

/// The value of the first `"field": "value"` in `body`. An occurrence of the quoted field that is
/// not followed by a colon and a string is passed over.
pub open spec fn string_field(body: Seq<char>, field: Seq<char>) -> Option<Seq<char>>
    decreases body.len(),
{
    let n = quoted(field);
    match find(body, n) {
        None => None,
        Some(i) => {
            let rest = body.skip(i + n.len());
            if after_colon(rest) matches Some(r) && r.len() > 0 && r[0] == '"' {
                up_to_quote((after_colon(rest)->0).skip(1))
            } else {
                proof {
                    lemma_find(body, n);
                }
                string_field(rest, field)
            }
        },
    }
}

/// How many digits `s` starts with.
pub open spec fn digit_run(s: Seq<char>) -> nat
    decreases s.len(),
{
    if s.len() > 0 && is_digit(s[0]) {
        1 + digit_run(s.skip(1))
    } else {
        0
    }
}

/// The number after the first occurrence of the quoted field and a colon.
pub open spec fn number_field(body: Seq<char>, field: Seq<char>) -> Option<nat> {
    let n = quoted(field);
    match find(body, n) {
        None => None,
        Some(i) => match after_colon(body.skip(i + n.len())) {
            None => None,
            Some(r) => parsed(r.take(digit_run(r) as int), u64::MAX as nat),
        },
    }
}

/// A client that the registry wants to see connected.
#[derive(Debug)]
pub struct WantedPeer {
    pub client_pubkey: String,
    pub preshared_b64: String,
    pub ip4: String,
    pub ip6: String,
}

/// The text of a wanted peer's fields.
pub struct PeerView {
    pub client_pubkey: Seq<char>,
    pub preshared_b64: Seq<char>,
    pub ip4: Seq<char>,
    pub ip6: Seq<char>,
}

impl View for WantedPeer {
    type V = PeerView;

    open spec fn view(&self) -> PeerView {
        PeerView {
            client_pubkey: self.client_pubkey@,
            preshared_b64: self.preshared_b64@,
            ip4: self.ip4@,
            ip6: self.ip6@,
        }
    }
}

/// The views of a list of peers.
pub open spec fn peer_views(v: Seq<WantedPeer>) -> Seq<PeerView> {
    v.map_values(|p: WantedPeer| p@)
}

/// The peer that an object describes; a missing field counts as empty.
pub open spec fn peer_of(object: Seq<char>) -> PeerView {
    PeerView {
        client_pubkey: or_empty(string_field(object, "client_pubkey"@)),
        preshared_b64: or_empty(string_field(object, "preshared"@)),
        ip4: or_empty(string_field(object, "client_ip4"@)),
        ip6: or_empty(string_field(object, "client_ip6"@)),
    }
}

/// The peer that an object describes, if it names a key.
pub open spec fn peers_of(object: Seq<char>) -> Seq<PeerView> {
    if peer_of(object).client_pubkey.len() > 0 {
        seq![peer_of(object)]
    } else {
        seq![]
    }
}

/// The peers of the objects in `s`, the text of an array: `depth` brackets and braces are open
/// and `cur` is the text since the last object.
pub open spec fn scan(s: Seq<char>, depth: int, cur: Seq<char>) -> Seq<PeerView>
    decreases s.len(),
{
    if s.len() == 0 {
        seq![]
    } else {
        let c = s[0];
        let rest = s.skip(1);
        if c == '[' && depth == 0 {
            scan(rest, 1, cur)
        } else if c == '{' {
            scan(rest, depth + 1, cur.push(c))
        } else if c == '}' && depth == 2 {
            peers_of(cur.push(c)) + scan(rest, 1, seq![])
        } else if c == '}' {
            scan(rest, depth - 1, cur.push(c))
        } else if c == ']' && depth == 1 {
            seq![]
        } else if depth >= 1 {
            scan(rest, depth, cur.push(c))
        } else {
            scan(rest, depth, cur)
        }
    }
}

/// The peers listed in the array that follows `"peers"`.
pub open spec fn listed_peers(body: Seq<char>) -> Seq<PeerView> {
    match find(body, quoted("peers"@)) {
        None => seq![],
        Some(i) => {
            let t = body.skip(i);
            scan(t.skip(span(t, CharClass::Only('[')) as int), 0, seq![])
        },
    }
}

/// Adding a peer adds its view.
pub broadcast proof fn lemma_peer_views_push(v: Seq<WantedPeer>, p: WantedPeer)
    ensures
        #[trigger] peer_views(v.push(p)) == peer_views(v).push(p@),
{
    assert(peer_views(v.push(p)) =~= peer_views(v).push(p@));
}

/// `field` in double quotes, as characters.
fn quote(field: &str) -> (n: Vec<char>)
    ensures
        n@ == quoted(field@),
{
    let mut s = String::new();
    s.push('"');
    s.append(field);
    s.push('"');
    assert(s@ =~= quoted(field@));
    chars_of(s.as_str())
}

/// The position after a colon and the white space round it, from `from` on.
fn pass_colon(v: &Vec<char>, from: usize) -> (r: Option<usize>)
    requires
        from <= v.len(),
    ensures
        match r {
            Some(j) => from <= j <= v.len() && after_colon(v@.skip(from as int)) == Some(
                v@.skip(j as int),
            ),
            None => after_colon(v@.skip(from as int)) is None,
        },
{
    let i = skip_front(v, from, &CharClass::Space);
    if i < v.len() && v[i] == ':' {
        assert(v@.skip(i as int).skip(1) =~= v@.skip(i + 1));
        Some(skip_front(v, i + 1, &CharClass::Space))
    } else {
        None
    }
}

fn string_field_of(v: &Vec<char>, field: &str) -> (r: Option<String>)
    ensures
        view_of(r) == string_field(v@, field@),
{
    let n = quote(field);
    let mut from: usize = 0;
    assert(v@.skip(0) =~= v@);
    loop
        invariant
            n@ == quoted(field@),
            from <= v.len(),
            string_field(v@.skip(from as int), field@) == string_field(v@, field@),
        decreases v.len() - from,
    {
        let ghost body = v@.skip(from as int);
        match find_from(v, from, &n) {
            None => {
                return None;
            },
            Some(i) => {
                let at = i + n.len();
                assert(body.skip(i - from + n.len()) =~= v@.skip(at as int));
                match pass_colon(v, at) {
                    None => {},
                    Some(j) => {
                        if j < v.len() && v[j] == '"' {
                            assert(v@.skip(j as int).skip(1) =~= v@.skip(j + 1));
                            let end = next_of(v, j + 1, &CharClass::Only('"'));
                            if end < v.len() {
                                assert(v@.subrange(j + 1, end as int) =~= v@.skip(j + 1).take(
                                    end - (j + 1),
                                ));
                                return Some(string_of(v, j + 1, end));
                            }
                            return None;
                        }
                    },
                }
                from = at;
            },
        }
    }
}

/// The value of the first `"field": "value"` in `body`.
pub fn jstr(body: &str, field: &str) -> (r: Option<String>)
    ensures
        view_of(r) == string_field(body@, field@),
{
    string_field_of(&chars_of(body), field)
}

/// The number after the first occurrence of the quoted field and a colon.
pub fn jnum(body: &str, field: &str) -> (r: Option<u64>)
    ensures
        match r {
            Some(x) => number_field(body@, field@) == Some(x as nat),
            None => number_field(body@, field@) is None,
        },
{
    let v = chars_of(body);
    let n = quote(field);
    assert(v@.skip(0) =~= v@);
    match find_from(&v, 0, &n) {
        None => None,
        Some(i) => match pass_colon(&v, i + n.len()) {
            None => None,
            Some(j) => {
                let mut k: usize = j;
                while k < v.len() && '0' <= v[k] && v[k] <= '9'
                    invariant
                        j <= k <= v.len(),
                        k - j + digit_run(v@.skip(k as int)) == digit_run(v@.skip(j as int)),
                    decreases v.len() - k,
                {
                    assert(v@.skip(k as int).skip(1) =~= v@.skip(k + 1));
                    k += 1;
                }
                assert(v@.subrange(j as int, k as int) =~= v@.skip(j as int).take(k - j));
                parse(string_of(&v, j, k).as_str(), u64::MAX)
            },
        },
    }
}

fn field_or_empty(object: &Vec<char>, field: &str) -> (r: String)
    ensures
        r@ == or_empty(string_field(object@, field@)),
{
    match string_field_of(object, field) {
        Some(s) => s,
        None => {
            let s = String::new();
            assert(s@ =~= seq![]);
            s
        },
    }
}

/// The peers listed in the array that follows `"peers"`.
pub fn parse_peers(body: &str) -> (r: Vec<WantedPeer>)
    ensures
        peer_views(r@) == listed_peers(body@),
{
    broadcast use lemma_peer_views_push;

    let v = chars_of(body);
    let n = quote("peers");
    let mut out: Vec<WantedPeer> = Vec::new();
    assert(peer_views(out@) =~= seq![]);
    assert(v@.skip(0) =~= v@);
    let start = match find_from(&v, 0, &n) {
        Some(i) => i,
        None => {
            return out;
        },
    };
    let open = next_of(&v, start, &CharClass::Only('['));
    assert(v@.skip(start as int).skip(open - start) =~= v@.skip(open as int));
    let mut depth: i128 = 0;
    let mut cur: Vec<char> = Vec::new();
    let mut i: usize = open;
    assert(cur@ =~= seq![]);
    assert(peer_views(out@) + scan(v@.skip(i as int), 0, cur@) =~= listed_peers(body@));
    while i < v.len()
        invariant
            open <= i <= v.len(),
            -(i - open) <= depth <= i - open,
            peer_views(out@) + scan(v@.skip(i as int), depth as int, cur@) == listed_peers(body@),
        decreases v.len() - i,
    {
        let c = v[i];
        let ghost rest = v@.skip(i as int);
        let ghost done = peer_views(out@);
        assert(rest.skip(1) =~= v@.skip(i + 1));
        if c == '[' && depth == 0 {
            depth = 1;
        } else if c == '{' {
            depth += 1;
            cur.push(c);
        } else if c == '}' {
            depth -= 1;
            cur.push(c);
            if depth == 1 {
                let ghost object = cur@;
                let pk = field_or_empty(&cur, "client_pubkey");
                if !pk.as_str().is_empty() {
                    out.push(
                        WantedPeer {
                            client_pubkey: pk,
                            preshared_b64: field_or_empty(&cur, "preshared"),
                            ip4: field_or_empty(&cur, "client_ip4"),
                            ip6: field_or_empty(&cur, "client_ip6"),
                        },
                    );
                    assert(out@.last()@ == peer_of(object));
                }
                cur = Vec::new();
                assert(cur@ =~= seq![]);
                assert(peer_views(out@) =~= done + peers_of(object));
                assert(peer_views(out@) + scan(v@.skip(i + 1), 1, cur@) =~= done + (peers_of(object)
                    + scan(v@.skip(i + 1), 1, cur@)));
            }
        } else if c == ']' && depth == 1 {
            assert(done + seq![] =~= done);
            return out;
        } else if depth >= 1 {
            cur.push(c);
        }
        i += 1;
    }
    assert(peer_views(out@) + scan(v@.skip(i as int), depth as int, cur@) =~= peer_views(out@));
    out
}

} // verus!
