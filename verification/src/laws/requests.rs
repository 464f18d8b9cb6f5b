//! What stands in the requests to the registry: each field is read back from the text as it was
//! given.

use crate::laws::reply::{law_number_field, law_string_field, lemma_find_here, lemma_find_past};
use crate::laws::reply::{law_other_text_is_passed_over, lemma_find_skip, unquoted};
use crate::laws::text::lemma_lacks_add;
use crate::number::{decimal, is_digit, lemma_decimal};
use crate::registry::{heartbeat_body, heartbeat_note, offline_body, register_body};
use crate::reply::{number_field, quoted, string_field};
use crate::text::{find, lemma_find, strip_front, CharClass};
use vstd::prelude::*;

verus! {

// ---------------------------------------------------------------- objects

/// The value of a field.
pub enum FieldValue {
    Text(Seq<char>),
    Number(nat),
}

/// A field with its name.
pub type Field = (Seq<char>, FieldValue);

/// A value as it stands in an object: a string in quotes, a number in decimal notation.
pub open spec fn value_text(v: FieldValue) -> Seq<char> {
    match v {
        FieldValue::Text(t) => quoted(t),
        FieldValue::Number(n) => decimal(n),
    }
}

/// The fields, `lead` before the first and a comma before each of the others.
pub open spec fn fields_text(lead: char, fs: Seq<Field>) -> Seq<char>
    decreases fs.len(),
{
    if fs.len() == 0 {
        seq![]
    } else {
        seq![lead] + quoted(fs[0].0) + (seq![':'] + value_text(fs[0].1) + fields_text(
            ',',
            fs.skip(1),
        ))
    }
}

/// The text of an object with at least one field.
pub open spec fn json(fs: Seq<Field>) -> Seq<char> {
    fields_text('{', fs) + seq!['}']
}

/// A name or a string that can stand between quotes as it is.
pub open spec fn plain_value(v: FieldValue) -> bool {
    match v {
        FieldValue::Text(t) => unquoted(t),
        FieldValue::Number(n) => n <= u64::MAX,
    }
}

/// The fields are plain, and no two of them have the same name.
pub open spec fn plain_fields(fs: Seq<Field>) -> bool {
    &&& forall|i: int|
        0 <= i < fs.len() ==> plain_value((#[trigger] fs[i]).1) && unquoted(fs[i].0)
            && fs[i].0.len() > 0 && 'a' <= fs[i].0[0] <= 'z'
    &&& forall|i: int, j: int|
        0 <= i < j < fs.len() ==> (#[trigger] fs[i]).0 != (#[trigger] fs[j]).0
}

proof fn lemma_plain_skip(fs: Seq<Field>)
    requires
        plain_fields(fs),
        fs.len() > 0,
    ensures
        plain_fields(fs.skip(1)),
{
    let gs = fs.skip(1);
    assert forall|i: int| 0 <= i < gs.len() implies plain_value((#[trigger] gs[i]).1) && unquoted(
        gs[i].0,
    ) && gs[i].0.len() > 0 && 'a' <= gs[i].0[0] <= 'z' by {
        assert(gs[i] == fs[i + 1]);
    }
    assert forall|i: int, j: int| 0 <= i < j < gs.len() implies (#[trigger] gs[i]).0 != (
    #[trigger] gs[j]).0 by {
        assert(gs[i] == fs[i + 1]);
        assert(gs[j] == fs[j + 1]);
    }
}

proof fn lemma_unquoted_decimal(n: nat)
    ensures
        unquoted(decimal(n)),
        decimal(n).len() > 0,
        is_digit(decimal(n)[0]),
{
    lemma_decimal(n);
    let d = decimal(n);
    if d.contains('"') {
        let i = choose|i: int| 0 <= i < d.len() && d[i] == '"';
        assert(is_digit(d[i]));
    }
    assert(is_digit(d[0]));
}

/// Text without quotes before the rest makes no difference to what is read.
proof fn lemma_unquoted_start(p: Seq<char>, s: Seq<char>, f: Seq<char>)
    requires
        unquoted(p),
    ensures
        string_field(p + s, f) == string_field(s, f),
        number_field(p + s, f) == number_field(s, f),
{
    let n = quoted(f);
    assert(n[0] == '"');
    lemma_find_skip(p, s, n);
    lemma_find(s, n);
    if let Some(i) = find(s, n) {
        assert((p + s).skip(i + p.len() + n.len()) =~= s.skip(i + n.len()));
    }
}

/// Another quoted text makes no difference to which number is read.
proof fn lemma_number_past(p: Seq<char>, v: Seq<char>, rest: Seq<char>, f: Seq<char>)
    requires
        unquoted(p),
        unquoted(v),
        unquoted(f),
        f.len() > 0,
        v != f,
        rest.len() > 0,
        rest[0] != f[0],
    ensures
        number_field(p + quoted(v) + rest, f) == number_field(rest, f),
{
    let n = quoted(f);
    let body = p + quoted(v) + rest;
    lemma_find_past(p, v, rest, f);
    lemma_find(rest, n);
    if let Some(i) = find(rest, n) {
        let at = i + p.len() + v.len() + 2;
        assert(body.skip(at + n.len()) =~= rest.skip(i + n.len()));
    }
}

/// A string is read from its field, whatever the other fields hold.
proof fn lemma_text_is_read(lead: char, fs: Seq<Field>, j: int, after: Seq<char>)
    requires
        lead == '{' || lead == ',',
        plain_fields(fs),
        0 <= j < fs.len(),
        fs[j].1 is Text,
        after.len() > 0,
        after[0] == '}',
    ensures
        string_field(fields_text(lead, fs) + after, fs[j].0) == Some(fs[j].1->Text_0),
    decreases fs.len(),
{
    let f = fs[j].0;
    let g = fs[0].0;
    let l = seq![lead];
    let colon = seq![':'];
    let none = Seq::<char>::empty();
    let more = fields_text(',', fs.skip(1));
    let tail = more + after;
    let all = fields_text(lead, fs) + after;
    assert(unquoted(l) && unquoted(colon));
    assert(plain_value(fs[0].1) && plain_value(fs[j].1));
    if j == 0 {
        let v = fs[0].1->Text_0;
        let rest = none + colon + none + (quoted(v) + tail);
        assert(all =~= l + quoted(f) + rest);
        lemma_find_here(l, rest, f);
        law_string_field(l, f, none, none, v, tail);
    } else {
        let rest = colon + value_text(fs[0].1) + tail;
        assert(all =~= l + quoted(g) + rest);
        assert(rest[0] == ':');
        law_other_text_is_passed_over(l, g, rest, f);
        assert(tail[0] == ',');
        match fs[0].1 {
            FieldValue::Text(v) => {
                assert(strip_front(tail, CharClass::Space) == tail);
                law_other_text_is_passed_over(colon, v, tail, f);
            },
            FieldValue::Number(n) => {
                lemma_unquoted_decimal(n);
                assert(unquoted(colon + decimal(n))) by {
                    lemma_lacks_add(colon, decimal(n), '"');
                }
                lemma_unquoted_start(colon + decimal(n), tail, f);
            },
        }
        lemma_plain_skip(fs);
        assert(fs.skip(1)[j - 1] == fs[j]);
        lemma_text_is_read(',', fs.skip(1), j - 1, after);
    }
}

/// A number is read from its field, unless a string before it is the field's name.
proof fn lemma_number_is_read(lead: char, fs: Seq<Field>, j: int, after: Seq<char>)
    requires
        lead == '{' || lead == ',',
        plain_fields(fs),
        0 <= j < fs.len(),
        fs[j].1 is Number,
        forall|i: int| 0 <= i < j ==> (#[trigger] fs[i]).1 != FieldValue::Text(fs[j].0),
        after.len() > 0,
        after[0] == '}',
    ensures
        number_field(fields_text(lead, fs) + after, fs[j].0) == Some(fs[j].1->Number_0),
    decreases fs.len(),
{
    let f = fs[j].0;
    let g = fs[0].0;
    let l = seq![lead];
    let colon = seq![':'];
    let none = Seq::<char>::empty();
    let more = fields_text(',', fs.skip(1));
    let tail = more + after;
    let all = fields_text(lead, fs) + after;
    assert(unquoted(l) && unquoted(colon));
    assert(plain_value(fs[0].1) && plain_value(fs[j].1));
    assert(tail[0] == ',' || tail[0] == '}') by {
        if fs.skip(1).len() == 0 {
            assert(tail =~= after);
        }
    }
    if j == 0 {
        let n = fs[0].1->Number_0;
        let rest = none + colon + none + (decimal(n) + tail);
        assert(all =~= l + quoted(f) + rest);
        lemma_find_here(l, rest, f);
        law_number_field(l, f, none, none, n, tail);
    } else {
        let rest = colon + value_text(fs[0].1) + tail;
        assert(all =~= l + quoted(g) + rest);
        assert(rest[0] == ':');
        lemma_number_past(l, g, rest, f);
        match fs[0].1 {
            FieldValue::Text(v) => {
                lemma_number_past(colon, v, tail, f);
            },
            FieldValue::Number(n) => {
                lemma_unquoted_decimal(n);
                assert(unquoted(colon + decimal(n))) by {
                    lemma_lacks_add(colon, decimal(n), '"');
                }
                lemma_unquoted_start(colon + decimal(n), tail, f);
            },
        }
        lemma_plain_skip(fs);
        assert(fs.skip(1)[j - 1] == fs[j]);
        assert forall|i: int| 0 <= i < j - 1 implies (#[trigger] fs.skip(1)[i]).1
            != FieldValue::Text(f) by {
            assert(fs.skip(1)[i] == fs[i + 1]);
        }
        lemma_number_is_read(',', fs.skip(1), j - 1, after);
    }
}

/// Every field of an object is read back as it was written: a string whatever the other fields
/// hold, a number unless a string before it spells the number's own name.
pub proof fn law_fields_are_read(fs: Seq<Field>, j: int)
    requires
        plain_fields(fs),
        0 <= j < fs.len(),
    ensures
        fs[j].1 matches FieldValue::Text(t) ==> string_field(json(fs), fs[j].0) == Some(t),
        fs[j].1 is Number && (forall|i: int|
            0 <= i < j ==> (#[trigger] fs[i]).1 != FieldValue::Text(fs[j].0)) ==> number_field(
            json(fs),
            fs[j].0,
        ) == Some(fs[j].1->Number_0),
{
    if fs[j].1 is Text {
        lemma_text_is_read('{', fs, j, seq!['}']);
    } else if forall|i: int| 0 <= i < j ==> (#[trigger] fs[i]).1 != FieldValue::Text(fs[j].0) {
        lemma_number_is_read('{', fs, j, seq!['}']);
    }
}

proof fn lemma_fields_cons(lead: char, f: Field, fs: Seq<Field>)
    ensures
        fields_text(lead, seq![f] + fs) == seq![lead] + quoted(f.0) + (seq![':'] + value_text(f.1)
            + fields_text(',', fs)),
{
    assert((seq![f] + fs).skip(1) =~= fs);
}

/// Where the brackets stand makes no difference.
pub proof fn lemma_regroup(a: Seq<char>, b: Seq<char>, c: Seq<char>)
    ensures
        a + b + c == a + (b + c),
{
    assert(a + b + c =~= a + (b + c));
}

/// A string between the name of its field and the quote that ends it.
proof fn lemma_string_field(lead: char, name: Seq<char>, value: Seq<char>, rest: Seq<char>)
    ensures
        (seq![lead] + quoted(name) + seq![':'] + seq!['"']) + (value + (seq!['"'] + rest)) == seq![
            lead,
        ] + quoted(name) + (seq![':'] + quoted(value) + rest),
{
    assert((seq![lead] + quoted(name) + seq![':'] + seq!['"']) + (value + (seq!['"'] + rest))
        =~= seq![lead] + quoted(name) + (seq![':'] + quoted(value) + rest));
}

proof fn lemma_plain_field(lead: char, name: Seq<char>, value: Seq<char>, rest: Seq<char>)
    ensures
        (seq![lead] + quoted(name) + seq![':']) + (value + rest) == seq![lead] + quoted(name) + (
        seq![':'] + value + rest),
{
    assert((seq![lead] + quoted(name) + seq![':']) + (value + rest) =~= seq![lead] + quoted(name)
        + (seq![':'] + value + rest));
}

/// What follows the last field goes with it.
proof fn lemma_end(
    lead: char,
    name: Seq<char>,
    value: Seq<char>,
    rest: Seq<char>,
    end: Seq<char>,
)
    ensures
        seq![lead] + quoted(name) + (seq![':'] + value + rest) + end == seq![lead] + quoted(name)
            + (seq![':'] + value + (rest + end)),
{
    lemma_regroup(seq![lead] + quoted(name), seq![':'] + value + rest, end);
    lemma_regroup(seq![':'] + value, rest, end);
}

proof fn lemma_quote_apart(l: Seq<char>, rest: Seq<char>)
    ensures
        (seq!['"'] + l) + rest == seq!['"'] + (l + rest),
{
    lemma_regroup(seq!['"'], l, rest);
}

proof fn lemma_texts_between()
    ensures
        "{\"secret\":\""@ == seq!['{'] + quoted("secret"@) + seq![':'] + seq!['"'],
        "{\"name\":\""@ == seq!['{'] + quoted("name"@) + seq![':'] + seq!['"'],
        "\",\"pubkey\":\""@ == seq!['"'] + (seq![','] + quoted("pubkey"@) + seq![':'] + seq!['"']),
        "\",\"ipv4\":\""@ == seq!['"'] + (seq![','] + quoted("ipv4"@) + seq![':'] + seq!['"']),
        "\",\"ipv6\":\""@ == seq!['"'] + (seq![','] + quoted("ipv6"@) + seq![':'] + seq!['"']),
        "\",\"port\":"@ == seq!['"'] + (seq![','] + quoted("port"@) + seq![':']),
        "}"@ == seq!['}'],
        "\"}"@ == seq!['"'] + seq!['}'],
{
    reveal_strlit("secret");
    reveal_strlit("name");
    reveal_strlit("pubkey");
    reveal_strlit("ipv4");
    reveal_strlit("ipv6");
    reveal_strlit("port");
    reveal_strlit("{\"secret\":\"");
    reveal_strlit("{\"name\":\"");
    reveal_strlit("\",\"pubkey\":\"");
    reveal_strlit("\",\"ipv4\":\"");
    reveal_strlit("\",\"ipv6\":\"");
    reveal_strlit("\",\"port\":");
    reveal_strlit("}");
    reveal_strlit("\"}");
    assert("{\"secret\":\""@ =~= seq!['{'] + quoted("secret"@) + seq![':'] + seq!['"']);
    assert("{\"name\":\""@ =~= seq!['{'] + quoted("name"@) + seq![':'] + seq!['"']);
    assert("\",\"pubkey\":\""@ =~= seq!['"'] + (seq![','] + quoted("pubkey"@) + seq![':']
        + seq!['"']));
    assert("\",\"ipv4\":\""@ =~= seq!['"'] + (seq![','] + quoted("ipv4"@) + seq![':'] + seq!['"']));
    assert("\",\"ipv6\":\""@ =~= seq!['"'] + (seq![','] + quoted("ipv6"@) + seq![':'] + seq!['"']));
    assert("\",\"port\":"@ =~= seq!['"'] + (seq![','] + quoted("port"@) + seq![':']));
    assert("}"@ =~= seq!['}']);
    assert("\"}"@ =~= seq!['"'] + seq!['}']);
}

proof fn lemma_text_before_version()
    ensures
        ",\"version\":\"vpnyellod "@ == (seq![','] + quoted("version"@) + seq![':'] + seq!['"'])
            + "vpnyellod "@,
{
    reveal_strlit("version");
    reveal_strlit("vpnyellod ");
    reveal_strlit(",\"version\":\"vpnyellod ");
    assert(",\"version\":\"vpnyellod "@ =~= (seq![','] + quoted("version"@) + seq![':'] + seq!['"'])
        + "vpnyellod "@);
}

// ---------------------------------------------------------------- the bodies

/// An address that may be missing, as it stands in a request: empty where it is missing.
pub open spec fn address_text(v: Option<Seq<char>>) -> Seq<char> {
    match v {
        Some(a) => a,
        None => seq![],
    }
}

/// A string that may be missing holds no quotes.
pub open spec fn plain_option(v: Option<Seq<char>>) -> bool {
    v matches Some(a) ==> unquoted(a)
}

/// What a heartbeat reports, as the fields of an object.
pub open spec fn heartbeat_fields(
    secret: Seq<char>,
    v4: Option<Seq<char>>,
    v6: Option<Seq<char>>,
    port: nat,
) -> Seq<Field> {
    seq![
        ("secret"@, FieldValue::Text(secret)),
        ("ipv4"@, FieldValue::Text(address_text(v4))),
        ("ipv6"@, FieldValue::Text(address_text(v6))),
        ("port"@, FieldValue::Number(port)),
    ]
}

/// What a server registers with, as the fields of an object.
pub open spec fn register_fields(
    name: Seq<char>,
    pubkey: Seq<char>,
    v4: Option<Seq<char>>,
    v6: Option<Seq<char>>,
    port: nat,
    version: Seq<char>,
) -> Seq<Field> {
    seq![
        ("name"@, FieldValue::Text(name)),
        ("pubkey"@, FieldValue::Text(pubkey)),
        ("ipv4"@, FieldValue::Text(address_text(v4))),
        ("ipv6"@, FieldValue::Text(address_text(v6))),
        ("port"@, FieldValue::Number(port)),
        ("version"@, FieldValue::Text("vpnyellod "@ + version)),
    ]
}

proof fn lemma_field_names()
    ensures
        forall|s: Seq<char>|
            s == "secret"@ || s == "ipv4"@ || s == "ipv6"@ || s == "port"@ || s == "name"@ || s
                == "pubkey"@ || s == "version"@ ==> #[trigger] unquoted(s) && s.len() > 0 && 'a'
                <= s[0] <= 'z',
        "secret"@.len() == 6,
        "ipv4"@.len() == 4,
        "ipv6"@.len() == 4,
        "port"@.len() == 4,
        "name"@.len() == 4,
        "pubkey"@.len() == 6,
        "version"@.len() == 7,
        "secret"@[0] != "pubkey"@[0],
        "ipv4"@[3] != "ipv6"@[3],
        "port"@[0] != "ipv4"@[0],
        "port"@[0] != "ipv6"@[0],
        "port"@[0] != "name"@[0],
        "name"@[0] != "ipv4"@[0],
        "name"@[0] != "ipv6"@[0],
        unquoted("vpnyellod "@),
{
    reveal_strlit("secret");
    reveal_strlit("ipv4");
    reveal_strlit("ipv6");
    reveal_strlit("port");
    reveal_strlit("name");
    reveal_strlit("pubkey");
    reveal_strlit("version");
    reveal_strlit("vpnyellod ");
}

/// The body of a heartbeat is the text of an object with the secret, both addresses and the port.
pub proof fn law_heartbeat_is_an_object(
    secret: Seq<char>,
    v4: Option<Seq<char>>,
    v6: Option<Seq<char>>,
    port: nat,
)
    ensures
        heartbeat_body(secret, v4, v6, port) == json(heartbeat_fields(secret, v4, v6, port)),
{
    let fs = heartbeat_fields(secret, v4, v6, port);
    let (a, b, c, d) = (fs[0], fs[1], fs[2], fs[3]);
    let none = Seq::<Field>::empty();
    assert(fs =~= seq![a] + (seq![b] + (seq![c] + (seq![d] + none))));
    lemma_fields_cons(',', d, none);
    lemma_fields_cons(',', c, seq![d] + none);
    lemma_fields_cons(',', b, seq![c] + (seq![d] + none));
    lemma_fields_cons('{', a, seq![b] + (seq![c] + (seq![d] + none)));
    lemma_texts_between();
    let k1 = "{\"secret\":\""@;
    let k2 = "\",\"ipv4\":\""@;
    let k3 = "\",\"ipv6\":\""@;
    let k4 = "\",\"port\":"@;
    let k5 = "}"@;
    let a4 = address_text(v4);
    let a6 = address_text(v6);
    let n = decimal(port);
    let body = k1 + secret + k2 + a4 + k3 + a6 + k4 + n + k5;
    assert(heartbeat_body(secret, v4, v6, port) == body);
    // From the end: each value with what follows it.
    let r8 = n + k5;
    let r7 = k4 + r8;
    let r6 = a6 + r7;
    let r5 = k3 + r6;
    let r4 = a4 + r5;
    let r3 = k2 + r4;
    let r2 = secret + r3;
    lemma_regroup(k1 + secret + k2 + a4 + k3 + a6 + k4, n, k5);
    lemma_regroup(k1 + secret + k2 + a4 + k3 + a6, k4, r8);
    lemma_regroup(k1 + secret + k2 + a4 + k3, a6, r7);
    lemma_regroup(k1 + secret + k2 + a4, k3, r6);
    lemma_regroup(k1 + secret + k2, a4, r5);
    lemma_regroup(k1 + secret, k2, r4);
    lemma_regroup(k1, secret, r3);
    assert(body == k1 + r2);
    lemma_quote_apart(seq![','] + quoted("port"@) + seq![':'], r8);
    let l4 = seq![','] + quoted("port"@) + (seq![':'] + n + k5);
    lemma_plain_field(',', "port"@, n, k5);
    lemma_quote_apart(seq![','] + quoted("ipv6"@) + seq![':'] + seq!['"'], r6);
    let l3 = seq![','] + quoted("ipv6"@) + (seq![':'] + quoted(a6) + l4);
    lemma_string_field(',', "ipv6"@, a6, l4);
    lemma_quote_apart(seq![','] + quoted("ipv4"@) + seq![':'] + seq!['"'], r4);
    let l2 = seq![','] + quoted("ipv4"@) + (seq![':'] + quoted(a4) + l3);
    lemma_string_field(',', "ipv4"@, a4, l3);
    let l1 = seq!['{'] + quoted("secret"@) + (seq![':'] + quoted(secret) + l2);
    lemma_string_field('{', "secret"@, secret, l2);
    assert(body == l1);
    // The same from the fields.
    let g4 = fields_text(',', seq![d] + none);
    let g3 = fields_text(',', seq![c] + (seq![d] + none));
    let g2 = fields_text(',', seq![b] + (seq![c] + (seq![d] + none)));
    assert(fields_text(',', none) =~= seq![]);
    lemma_end(',', "port"@, n, seq![], k5);
    lemma_end(',', "ipv6"@, quoted(a6), g4, k5);
    lemma_end(',', "ipv4"@, quoted(a4), g3, k5);
    lemma_end('{', "secret"@, quoted(secret), g2, k5);
    assert(seq![] + k5 =~= k5);
    assert(json(fs) == l1);
}

/// Every field of a heartbeat is read back from its body as it was given, independently of the
/// others: the secret, each address (empty where it is missing, whether or not the other one is
/// there) and the port. The port's number is read where no string of the request is `port`.
pub proof fn law_heartbeat_is_read(
    secret: Seq<char>,
    v4: Option<Seq<char>>,
    v6: Option<Seq<char>>,
    port: nat,
)
    requires
        unquoted(secret),
        plain_option(v4),
        plain_option(v6),
        port <= u64::MAX,
    ensures
        ({
            let body = heartbeat_body(secret, v4, v6, port);
            &&& string_field(body, "secret"@) == Some(secret)
            &&& v4 matches Some(a) ==> string_field(body, "ipv4"@) == Some(a)
            &&& v4 is None ==> string_field(body, "ipv4"@) == Some(Seq::<char>::empty())
            &&& v6 matches Some(a) ==> string_field(body, "ipv6"@) == Some(a)
            &&& v6 is None ==> string_field(body, "ipv6"@) == Some(Seq::<char>::empty())
            &&& secret != "port"@ && v4 != Some("port"@) && v6 != Some("port"@) ==> number_field(
                body,
                "port"@,
            ) == Some(port)
        }),
{
    law_heartbeat_is_an_object(secret, v4, v6, port);
    let fs = heartbeat_fields(secret, v4, v6, port);
    lemma_field_names();
    assert(plain_fields(fs)) by {
        assert forall|i: int| 0 <= i < fs.len() implies plain_value((#[trigger] fs[i]).1)
            && unquoted(fs[i].0) && fs[i].0.len() > 0 && 'a' <= fs[i].0[0] <= 'z' by {
            assert(i == 0 || i == 1 || i == 2 || i == 3);
            assert(unquoted("secret"@) && unquoted("ipv4"@) && unquoted("ipv6"@) && unquoted(
                "port"@,
            ));
            assert(unquoted(address_text(v4)) && unquoted(address_text(v6)));
        }
    }
    law_fields_are_read(fs, 0);
    law_fields_are_read(fs, 1);
    law_fields_are_read(fs, 2);
    law_fields_are_read(fs, 3);
    assert(fs[3].1 is Number);
    if secret != "port"@ && v4 != Some("port"@) && v6 != Some("port"@) {
        assert forall|i: int| 0 <= i < 3 implies (#[trigger] fs[i]).1 != FieldValue::Text(
            fs[3].0,
        ) by {
            assert("port"@ != Seq::<char>::empty());
            assert(fs[i] == fs[0] || fs[i] == fs[1] || fs[i] == fs[2]);
        }
    }
}

/// The body of a registration is the text of an object with the name, the key, both addresses,
/// the port and the version.
pub proof fn law_registration_is_an_object(
    name: Seq<char>,
    pubkey: Seq<char>,
    v4: Option<Seq<char>>,
    v6: Option<Seq<char>>,
    port: nat,
    version: Seq<char>,
)
    ensures
        register_body(name, pubkey, v4, v6, port, version) == json(
            register_fields(name, pubkey, v4, v6, port, version),
        ),
{
    let fs = register_fields(name, pubkey, v4, v6, port, version);
    let (a, b, c, d, e, f) = (fs[0], fs[1], fs[2], fs[3], fs[4], fs[5]);
    let f0 = Seq::<Field>::empty();
    let f1 = seq![f] + f0;
    let f2 = seq![e] + f1;
    let f3 = seq![d] + f2;
    let f4 = seq![c] + f3;
    let f5 = seq![b] + f4;
    assert(fs =~= seq![a] + f5);
    lemma_fields_cons(',', f, f0);
    lemma_fields_cons(',', e, f1);
    lemma_fields_cons(',', d, f2);
    lemma_fields_cons(',', c, f3);
    lemma_fields_cons(',', b, f4);
    lemma_fields_cons('{', a, f5);
    lemma_texts_between();
    lemma_text_before_version();
    let k1 = "{\"name\":\""@;
    let k2 = "\",\"pubkey\":\""@;
    let k3 = "\",\"ipv4\":\""@;
    let k4 = "\",\"ipv6\":\""@;
    let k5 = "\",\"port\":"@;
    let k6 = seq![','] + quoted("version"@) + seq![':'] + seq!['"'];
    let k7 = "vpnyellod "@;
    let end = seq!['"'] + seq!['}'];
    let brace = seq!['}'];
    let a4 = address_text(v4);
    let a6 = address_text(v6);
    let n = decimal(port);
    let w = k7 + version;
    let body = k1 + name + k2 + pubkey + k3 + a4 + k4 + a6 + k5 + n + (k6 + k7) + version + end;
    assert(register_body(name, pubkey, v4, v6, port, version) == body);
    let p9 = k1 + name + k2 + pubkey + k3 + a4 + k4 + a6 + k5 + n;
    let r10 = w + end;
    lemma_regroup(p9, k6 + k7, version);
    lemma_regroup(k6, k7, version);
    lemma_regroup(p9, k6 + w, end);
    lemma_regroup(k6, w, end);
    assert(body == p9 + (k6 + r10));
    let r9 = k6 + r10;
    let r8 = n + r9;
    let r7 = k5 + r8;
    let r6 = a6 + r7;
    let r5 = k4 + r6;
    let r4 = a4 + r5;
    let r3 = k3 + r4;
    let r2 = pubkey + r3;
    let r1 = k2 + r2;
    let r0 = name + r1;
    lemma_regroup(k1 + name + k2 + pubkey + k3 + a4 + k4 + a6 + k5, n, r9);
    lemma_regroup(k1 + name + k2 + pubkey + k3 + a4 + k4 + a6, k5, r8);
    lemma_regroup(k1 + name + k2 + pubkey + k3 + a4 + k4, a6, r7);
    lemma_regroup(k1 + name + k2 + pubkey + k3 + a4, k4, r6);
    lemma_regroup(k1 + name + k2 + pubkey + k3, a4, r5);
    lemma_regroup(k1 + name + k2 + pubkey, k3, r4);
    lemma_regroup(k1 + name + k2, pubkey, r3);
    lemma_regroup(k1 + name, k2, r2);
    lemma_regroup(k1, name, r1);
    assert(body == k1 + r0);
    lemma_string_field(',', "version"@, w, brace);
    let l6 = seq![','] + quoted("version"@) + (seq![':'] + quoted(w) + brace);
    assert(r9 == l6);
    lemma_plain_field(',', "port"@, n, l6);
    lemma_quote_apart(seq![','] + quoted("port"@) + seq![':'], r8);
    let l5 = seq![','] + quoted("port"@) + (seq![':'] + n + l6);
    lemma_quote_apart(seq![','] + quoted("ipv6"@) + seq![':'] + seq!['"'], r6);
    lemma_string_field(',', "ipv6"@, a6, l5);
    let l4 = seq![','] + quoted("ipv6"@) + (seq![':'] + quoted(a6) + l5);
    lemma_quote_apart(seq![','] + quoted("ipv4"@) + seq![':'] + seq!['"'], r4);
    lemma_string_field(',', "ipv4"@, a4, l4);
    let l3 = seq![','] + quoted("ipv4"@) + (seq![':'] + quoted(a4) + l4);
    lemma_quote_apart(seq![','] + quoted("pubkey"@) + seq![':'] + seq!['"'], r2);
    lemma_string_field(',', "pubkey"@, pubkey, l3);
    let l2 = seq![','] + quoted("pubkey"@) + (seq![':'] + quoted(pubkey) + l3);
    lemma_string_field('{', "name"@, name, l2);
    let l1 = seq!['{'] + quoted("name"@) + (seq![':'] + quoted(name) + l2);
    assert(body == l1);
    // The same from the fields.
    assert(fields_text(',', f0) =~= seq![]);
    lemma_end(',', "version"@, quoted(w), seq![], brace);
    lemma_end(',', "port"@, n, fields_text(',', f1), brace);
    lemma_end(',', "ipv6"@, quoted(a6), fields_text(',', f2), brace);
    lemma_end(',', "ipv4"@, quoted(a4), fields_text(',', f3), brace);
    lemma_end(',', "pubkey"@, quoted(pubkey), fields_text(',', f4), brace);
    lemma_end('{', "name"@, quoted(name), fields_text(',', f5), brace);
    assert(seq![] + brace =~= brace);
    assert(json(fs) == l1);
}

/// Every field of a registration is read back from its body as it was given, independently of the
/// others: the name, the key, each address (empty where it is missing, whether or not the other
/// one is there), the port and the version. The port's number is read where no string of the
/// request before it is `port`.
pub proof fn law_registration_is_read(
    name: Seq<char>,
    pubkey: Seq<char>,
    v4: Option<Seq<char>>,
    v6: Option<Seq<char>>,
    port: nat,
    version: Seq<char>,
)
    requires
        unquoted(name),
        unquoted(pubkey),
        plain_option(v4),
        plain_option(v6),
        port <= u64::MAX,
        unquoted(version),
    ensures
        ({
            let body = register_body(name, pubkey, v4, v6, port, version);
            &&& string_field(body, "name"@) == Some(name)
            &&& string_field(body, "pubkey"@) == Some(pubkey)
            &&& v4 matches Some(a) ==> string_field(body, "ipv4"@) == Some(a)
            &&& v4 is None ==> string_field(body, "ipv4"@) == Some(Seq::<char>::empty())
            &&& v6 matches Some(a) ==> string_field(body, "ipv6"@) == Some(a)
            &&& v6 is None ==> string_field(body, "ipv6"@) == Some(Seq::<char>::empty())
            &&& string_field(body, "version"@) == Some("vpnyellod "@ + version)
            &&& name != "port"@ && pubkey != "port"@ && v4 != Some("port"@) && v6 != Some("port"@)
                ==> number_field(body, "port"@) == Some(port)
        }),
{
    law_registration_is_an_object(name, pubkey, v4, v6, port, version);
    let fs = register_fields(name, pubkey, v4, v6, port, version);
    lemma_field_names();
    lemma_lacks_add("vpnyellod "@, version, '"');
    assert(plain_fields(fs)) by {
        assert forall|i: int| 0 <= i < fs.len() implies plain_value((#[trigger] fs[i]).1)
            && unquoted(fs[i].0) && fs[i].0.len() > 0 && 'a' <= fs[i].0[0] <= 'z' by {
            assert(i == 0 || i == 1 || i == 2 || i == 3 || i == 4 || i == 5);
            assert(unquoted(address_text(v4)) && unquoted(address_text(v6)));
        }
    }
    law_fields_are_read(fs, 0);
    law_fields_are_read(fs, 1);
    law_fields_are_read(fs, 2);
    law_fields_are_read(fs, 3);
    law_fields_are_read(fs, 4);
    law_fields_are_read(fs, 5);
    assert(fs[4].1 is Number);
    if name != "port"@ && pubkey != "port"@ && v4 != Some("port"@) && v6 != Some("port"@) {
        assert forall|i: int| 0 <= i < 4 implies (#[trigger] fs[i]).1 != FieldValue::Text(
            fs[4].0,
        ) by {
            assert("port"@ != Seq::<char>::empty());
            assert(fs[i] == fs[0] || fs[i] == fs[1] || fs[i] == fs[2] || fs[i] == fs[3]);
        }
    }
}

/// The secret is read back from the body with which a server goes away.
pub proof fn law_secret_is_read(secret: Seq<char>)
    requires
        unquoted(secret),
    ensures
        string_field(offline_body(secret), "secret"@) == Some(secret),
        offline_body(secret) == json(seq![("secret"@, FieldValue::Text(secret))]),
{
    let f = ("secret"@, FieldValue::Text(secret));
    let fs = seq![f];
    let none = Seq::<Field>::empty();
    lemma_field_names();
    assert(fs =~= seq![f] + none);
    lemma_fields_cons('{', f, none);
    reveal_strlit("secret");
    reveal_strlit("{\"secret\":\"");
    reveal_strlit("\"}");
    assert("{\"secret\":\""@ =~= seq!['{'] + quoted("secret"@) + seq![':', '"']);
    assert("\"}"@ =~= seq!['"', '}']);
    assert(offline_body(secret) =~= json(fs));
    assert(plain_fields(fs));
    law_fields_are_read(fs, 0);
}

/// What is noted of a heartbeat is read back: the server's number, when it was and how many peers
/// were applied. The numbers are read where the server's number is not the name of one of them.
pub proof fn law_note_is_read(server_id: Seq<char>, seconds: nat, applied: nat)
    requires
        unquoted(server_id),
        seconds <= u64::MAX,
        applied <= u64::MAX,
    ensures
        string_field(heartbeat_note(server_id, seconds, applied), "server_id"@) == Some(server_id),
        server_id != "last_ok"@ ==> number_field(
            heartbeat_note(server_id, seconds, applied),
            "last_ok"@,
        ) == Some(seconds),
        server_id != "peers_applied"@ ==> number_field(
            heartbeat_note(server_id, seconds, applied),
            "peers_applied"@,
        ) == Some(applied),
{
    let a = ("server_id"@, FieldValue::Text(server_id));
    let b = ("last_ok"@, FieldValue::Number(seconds));
    let c = ("peers_applied"@, FieldValue::Number(applied));
    let fs = seq![a, b, c];
    let f0 = Seq::<Field>::empty();
    let f1 = seq![c] + f0;
    let f2 = seq![b] + f1;
    assert(fs =~= seq![a] + f2);
    lemma_fields_cons(',', c, f0);
    lemma_fields_cons(',', b, f1);
    lemma_fields_cons('{', a, f2);
    lemma_note_texts();
    let k1 = "{\"server_id\":\""@;
    let k2 = "\",\"last_ok\":"@;
    let k3 = ",\"peers_applied\":"@;
    let k4 = "}"@;
    let m = decimal(seconds);
    let n = decimal(applied);
    let body = k1 + server_id + k2 + m + k3 + n + k4;
    assert(heartbeat_note(server_id, seconds, applied) == body);
    let r5 = n + k4;
    let r4 = k3 + r5;
    let r3 = m + r4;
    let r2 = k2 + r3;
    lemma_regroup(k1 + server_id + k2 + m + k3, n, k4);
    lemma_regroup(k1 + server_id + k2 + m, k3, r5);
    lemma_regroup(k1 + server_id + k2, m, r4);
    lemma_regroup(k1 + server_id, k2, r3);
    lemma_regroup(k1, server_id, r2);
    lemma_plain_field(',', "peers_applied"@, n, k4);
    let l3 = seq![','] + quoted("peers_applied"@) + (seq![':'] + n + k4);
    lemma_plain_field(',', "last_ok"@, m, l3);
    lemma_quote_apart(seq![','] + quoted("last_ok"@) + seq![':'], r3);
    let l2 = seq![','] + quoted("last_ok"@) + (seq![':'] + m + l3);
    lemma_string_field('{', "server_id"@, server_id, l2);
    let l1 = seq!['{'] + quoted("server_id"@) + (seq![':'] + quoted(server_id) + l2);
    assert(body == l1);
    assert(fields_text(',', f0) =~= seq![]);
    lemma_end(',', "peers_applied"@, n, seq![], k4);
    lemma_end(',', "last_ok"@, m, fields_text(',', f1), k4);
    lemma_end('{', "server_id"@, quoted(server_id), fields_text(',', f2), k4);
    assert(seq![] + k4 =~= k4);
    assert(json(fs) == body);
    assert(plain_fields(fs));
    law_fields_are_read(fs, 0);
    law_fields_are_read(fs, 1);
    law_fields_are_read(fs, 2);
    assert(fs[1].1 is Number && fs[2].1 is Number);
    assert(fs[0].1 == FieldValue::Text(server_id));
    if server_id != "last_ok"@ {
        assert forall|i: int| 0 <= i < 1 implies (#[trigger] fs[i]).1 != FieldValue::Text(
            fs[1].0,
        ) by {}
    }
    if server_id != "peers_applied"@ {
        assert forall|i: int| 0 <= i < 2 implies (#[trigger] fs[i]).1 != FieldValue::Text(
            fs[2].0,
        ) by {
            assert(i == 0 || i == 1);
        }
    }
}

proof fn lemma_note_texts()
    ensures
        "{\"server_id\":\""@ == seq!['{'] + quoted("server_id"@) + seq![':'] + seq!['"'],
        "\",\"last_ok\":"@ == seq!['"'] + (seq![','] + quoted("last_ok"@) + seq![':']),
        ",\"peers_applied\":"@ == seq![','] + quoted("peers_applied"@) + seq![':'],
        "}"@ == seq!['}'],
        unquoted("server_id"@) && unquoted("last_ok"@) && unquoted("peers_applied"@),
        "server_id"@.len() == 9 && "server_id"@[0] == 's',
        "last_ok"@.len() == 7 && "last_ok"@[0] == 'l',
        "peers_applied"@.len() == 13 && "peers_applied"@[0] == 'p',
{
    reveal_strlit("server_id");
    reveal_strlit("last_ok");
    reveal_strlit("peers_applied");
    reveal_strlit("{\"server_id\":\"");
    reveal_strlit("\",\"last_ok\":");
    reveal_strlit(",\"peers_applied\":");
    reveal_strlit("}");
    assert("{\"server_id\":\""@ =~= seq!['{'] + quoted("server_id"@) + seq![':'] + seq!['"']);
    assert("\",\"last_ok\":"@ =~= seq!['"'] + (seq![','] + quoted("last_ok"@) + seq![':']));
    assert(",\"peers_applied\":"@ =~= seq![','] + quoted("peers_applied"@) + seq![':']);
    assert("}"@ =~= seq!['}']);
}

} // verus!
