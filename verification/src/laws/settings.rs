//! What each setting is, wherever it is written down.

use crate::config::{command, dashed, file_value, get, host_name, is_alphanumeric, label, line_value};
use crate::config::{loaded, overridden, variable, CfgView, Command};
use crate::laws::config::{has_values, law_options_in_turn};
use crate::laws::text::{blank, law_trim_twice, lemma_strip_back, lemma_strip_front};
use crate::laws::words::{all_of, law_end_is_cut_off, law_ends_are_cut_off, law_pieces, law_trimmed};
use crate::number::{decimal, law_parse_of_decimal, parsed};
use crate::text::{halves, is_space, lemma_span_bound, lines, lowercase, span, starts};
use crate::text::{strip_back, strip_front, trimmed, CharClass};
use vstd::prelude::*;

verus! {

// ---------------------------------------------------------------- where a value stands

/// The environment has no variable `key`.
pub open spec fn has_no_variable(vars: Seq<(String, String)>, key: Seq<char>) -> bool {
    forall|i: int| 0 <= i < vars.len() ==> (#[trigger] vars[i]).0@ != key
}

/// Variable `i` is the first with the name `key`.
pub open spec fn is_variable(vars: Seq<(String, String)>, key: Seq<char>, i: int) -> bool {
    &&& 0 <= i < vars.len()
    &&& vars[i].0@ == key
    &&& forall|j: int| 0 <= j < i ==> (#[trigger] vars[j]).0@ != key
}

/// The value of a variable is that of the first entry with its name; without such an entry there
/// is none.
pub proof fn law_variable(vars: Seq<(String, String)>, key: Seq<char>, i: int)
    ensures
        is_variable(vars, key, i) ==> variable(vars, key) == Some(vars[i].1@),
        has_no_variable(vars, key) ==> variable(vars, key) is None,
    decreases vars.len(),
{
    if vars.len() > 0 {
        let more = vars.skip(1);
        if is_variable(vars, key, i) && i > 0 {
            assert(vars[0].0@ != key);
            assert(more[i - 1] == vars[i]);
            assert forall|j: int| 0 <= j < i - 1 implies (#[trigger] more[j]).0@ != key by {
                assert(more[j] == vars[j + 1]);
            }
            law_variable(more, key, i - 1);
        }
        if has_no_variable(vars, key) {
            assert(vars[0].0@ != key);
            assert forall|j: int| 0 <= j < more.len() implies (#[trigger] more[j]).0@ != key by {
                assert(more[j] == vars[j + 1]);
            }
            law_variable(more, key, i);
        }
    }
}

/// A name that can stand before an equals sign in the settings file.
pub open spec fn is_key(key: Seq<char>) -> bool {
    &&& key.len() > 0
    &&& !key.contains('=')
    &&& key[0] != '#'
    &&& !is_space(key[0])
    &&& !is_space(key.last())
}

/// The text of `key=value` with white space `w` before it, round the equals sign and after it,
/// and double quotes `q` round the value.
pub open spec fn assignment(
    key: Seq<char>,
    value: Seq<char>,
    w: (Seq<char>, Seq<char>, Seq<char>, Seq<char>),
    q: (Seq<char>, Seq<char>),
) -> Seq<char> {
    w.0 + (key + w.1 + seq!['='] + (w.2 + (q.0 + value + q.1))) + w.3
}

/// A value that can stand in quotes `q`: not empty, with neither a quote nor, without quotes
/// beside it, white space at either end.
pub open spec fn fits(value: Seq<char>, q: (Seq<char>, Seq<char>)) -> bool {
    &&& value.len() > 0
    &&& value[0] != '"'
    &&& value.last() != '"'
    &&& all_of(q.0, CharClass::Only('"'))
    &&& all_of(q.1, CharClass::Only('"'))
    &&& q.0.len() == 0 ==> !is_space(value[0])
    &&& q.1.len() == 0 ==> !is_space(value.last())
}

/// A line of the settings file gives the value that stands in it, with or without quotes and
/// whatever the white space.
pub proof fn law_line_gives_its_value(
    key: Seq<char>,
    value: Seq<char>,
    w: (Seq<char>, Seq<char>, Seq<char>, Seq<char>),
    q: (Seq<char>, Seq<char>),
)
    requires
        is_key(key),
        fits(value, q),
        blank(w.0),
        blank(w.1),
        blank(w.2),
        blank(w.3),
    ensures
        line_value(assignment(key, value, w, q), key) == Some(value),
{
    let none = Seq::<char>::empty();
    let name = key + w.1;
    let inner = q.0 + value + q.1;
    let text = w.2 + inner;
    let l = name + seq!['='] + text;
    assert(l[0] == key[0]);
    assert(inner.last() == if q.1.len() > 0 {
        q.1.last()
    } else {
        value.last()
    });
    assert(q.1.len() > 0 ==> CharClass::Only('"').contains(q.1[q.1.len() - 1]));
    assert(q.0.len() > 0 ==> CharClass::Only('"').contains(q.0[0]));
    assert(inner[0] == if q.0.len() > 0 {
        q.0[0]
    } else {
        value[0]
    });
    assert(l.last() == inner.last());
    assert(!is_space('"'));
    law_trimmed(w.0, l, w.3);
    assert(trimmed(assignment(key, value, w, q)) == l);
    lemma_no_equals(key, w.1);
    law_pieces(name, '=', text);
    assert(none + key + w.1 =~= name);
    law_trimmed(none, key, w.1);
    assert(w.2 + inner + none =~= text);
    law_trimmed(w.2, inner, none);
    law_ends_are_cut_off(q.0, value, q.1, CharClass::Only('"'));
}

/// A line that does not start with the key, after white space, gives it no value.
pub proof fn law_other_lines_give_none(line: Seq<char>, key: Seq<char>)
    requires
        is_key(key),
        !starts(trimmed(line), key),
    ensures
        line_value(line, key) is None,
{
    let l = trimmed(line);
    let s = CharClass::Space;
    lemma_strip_front(line, s);
    lemma_strip_back(strip_front(line, s), s);
    if let Some((k, v)) = halves(l, '=') {
        let n = span(l, CharClass::Only('=')) as int;
        lemma_span_bound(l, CharClass::Only('='));
        assert(k == l.take(n));
        if trimmed(k) == key {
            if n == 0 {
                assert(k =~= seq![]);
                assert(strip_front(k, s) == k);
                assert(strip_back(k, s) == k);
            } else {
                assert(k[0] == l[0]);
                assert(l[0] == strip_front(line, s)[0]);
                assert(strip_front(k, s) == k);
                lemma_strip_back(k, s);
                assert(l.take(key.len() as int) =~= k.take(key.len() as int));
            }
        }
    }
}

/// A line that assigns to another name gives the key no value, though that name may start with
/// the key; nor does a line that assigns nothing.
pub proof fn law_other_names_give_none(
    key: Seq<char>,
    name: Seq<char>,
    w: (Seq<char>, Seq<char>, Seq<char>, Seq<char>),
    q: (Seq<char>, Seq<char>),
    value: Seq<char>,
)
    requires
        is_key(key),
        is_key(name),
        name != key,
        blank(w.0),
        blank(w.1),
        blank(w.2),
        blank(w.3),
        fits(value, q),
    ensures
        line_value(assignment(name, value, w, q), key) is None,
        line_value(w.0 + (key + w.1 + seq!['='] + (w.2 + q.0)) + w.3, key) is None,
{
    let none = Seq::<char>::empty();
    let k = CharClass::Only('"');
    // The other name.
    let inner = q.0 + value + q.1;
    let m = name + w.1 + seq!['='] + (w.2 + inner);
    assert(m[0] == name[0]);
    assert(q.1.len() > 0 ==> k.contains(q.1[q.1.len() - 1]));
    assert(m.last() == if q.1.len() > 0 {
        q.1.last()
    } else {
        value.last()
    });
    law_trimmed(w.0, m, w.3);
    lemma_no_equals(name, w.1);
    law_pieces(name + w.1, '=', w.2 + inner);
    assert(none + name + w.1 =~= name + w.1);
    law_trimmed(none, name, w.1);
    // No value.
    let text = w.2 + q.0;
    let l = key + w.1 + seq!['='] + text;
    if q.0.len() == 0 {
        // Nothing but white space stands behind the equals sign.
        let short = key + w.1 + seq!['='];
        let end = w.2 + w.3;
        assert(w.0 + l + w.3 =~= w.0 + short + end);
        assert forall|i: int| 0 <= i < end.len() implies CharClass::Space.contains(
            #[trigger] end[i],
        ) by {
            if i < w.2.len() {
                assert(end[i] == w.2[i]);
            } else {
                assert(end[i] == w.3[i - w.2.len()]);
            }
        }
        assert(short[0] == key[0] && short.last() == '=');
        law_trimmed(w.0, short, end);
        lemma_no_equals(key, w.1);
        law_pieces(key + w.1, '=', none);
        assert(short =~= key + w.1 + seq!['='] + none);
        law_trimmed(none, none, none);
        assert(none + none + none =~= none);
        law_ends_are_cut_off(none, none, none, k);
    } else {
        assert(k.contains(q.0[q.0.len() - 1]) && k.contains(q.0[0]));
        assert(l[0] == key[0] && l.last() == q.0.last());
        law_trimmed(w.0, l, w.3);
        lemma_no_equals(key, w.1);
        law_pieces(key + w.1, '=', text);
        assert(w.2 + q.0 + none =~= text);
        law_trimmed(w.2, q.0, none);
        law_ends_are_cut_off(q.0, none, none, k);
        assert(q.0 + none + none =~= q.0);
    }
}

proof fn lemma_no_equals(key: Seq<char>, w: Seq<char>)
    requires
        is_key(key),
        blank(w),
    ensures
        !(key + w).contains('='),
{
    let name = key + w;
    if name.contains('=') {
        let i = choose|i: int| 0 <= i < name.len() && name[i] == '=';
        if i < key.len() {
            assert(key[i] == '=');
        } else {
            assert(CharClass::Space.contains(w[i - key.len()]));
        }
    }
}

/// The file's setting is the value on the first line that gives the key one, whatever the lines
/// after it say.
pub proof fn law_first_line_wins(ls: Seq<Seq<char>>, key: Seq<char>, i: int)
    requires
        0 <= i < ls.len(),
        line_value(ls[i], key) is Some,
        forall|j: int| 0 <= j < i ==> line_value(#[trigger] ls[j], key) is None,
    ensures
        Some(file_value(ls, key)) == line_value(ls[i], key),
    decreases ls.len(),
{
    if i > 0 {
        let more = ls.skip(1);
        assert(line_value(ls[0], key) is None);
        assert(more[i - 1] == ls[i]);
        assert forall|j: int| 0 <= j < i - 1 implies line_value(#[trigger] more[j], key) is None by {
            assert(more[j] == ls[j + 1]);
        }
        law_first_line_wins(more, key, i - 1);
    }
}

proof fn lemma_no_line(ls: Seq<Seq<char>>, key: Seq<char>)
    requires
        forall|j: int| 0 <= j < ls.len() ==> line_value(#[trigger] ls[j], key) is None,
    ensures
        file_value(ls, key) == Seq::<char>::empty(),
    decreases ls.len(),
{
    if ls.len() > 0 {
        let more = ls.skip(1);
        assert(line_value(ls[0], key) is None);
        assert forall|j: int| 0 <= j < more.len() implies line_value(
            #[trigger] more[j],
            key,
        ) is None by {
            assert(more[j] == ls[j + 1]);
        }
        lemma_no_line(more, key);
    }
}

/// Line `i` of the file assigns `value` to `key`, and no line before it starts with the key.
pub open spec fn assigns(ls: Seq<Seq<char>>, key: Seq<char>, value: Seq<char>, i: int) -> bool {
    &&& 0 <= i < ls.len()
    &&& exists|w: (Seq<char>, Seq<char>, Seq<char>, Seq<char>), q: (Seq<char>, Seq<char>)|
        {
            &&& blank(w.0) && blank(w.1) && blank(w.2) && blank(w.3)
            &&& #[trigger] fits(value, q)
            &&& ls[i] == #[trigger] assignment(key, value, w, q)
        }
    &&& forall|j: int| 0 <= j < i ==> !starts(trimmed(#[trigger] ls[j]), key)
}

/// The environment says nothing of `key`, or only white space.
pub open spec fn environment_is_silent(vars: Seq<(String, String)>, key: Seq<char>) -> bool {
    has_no_variable(vars, key) || exists|i: int| #[trigger]
        is_variable(vars, key, i) && trimmed(vars[i].1@).len() == 0
}

/// The sources of the settings give `key` the value `value`: the environment does, or else the
/// settings file.
pub open spec fn given(
    vars: Seq<(String, String)>,
    file: Option<Seq<char>>,
    key: Seq<char>,
    value: Seq<char>,
) -> bool {
    &&& trimmed(value).len() > 0
    &&& {
        ||| exists|i: int| #[trigger] is_variable(vars, key, i) && trimmed(vars[i].1@) == value
        ||| environment_is_silent(vars, key) && file is Some && exists|i: int| #[trigger]
            assigns(lines(file->0), key, value, i)
    }
}

/// The sources of the settings say nothing of `key`.
pub open spec fn not_given(
    vars: Seq<(String, String)>,
    file: Option<Seq<char>>,
    key: Seq<char>,
) -> bool {
    &&& environment_is_silent(vars, key)
    &&& file matches Some(c) ==> forall|j: int|
        0 <= j < lines(c).len() ==> !starts(trimmed(#[trigger] lines(c)[j]), key)
}

/// A setting is the value that its sources give it, and empty where they give none.
pub proof fn law_setting(
    vars: Seq<(String, String)>,
    file: Option<Seq<char>>,
    key: Seq<char>,
    value: Seq<char>,
)
    requires
        is_key(key),
    ensures
        given(vars, file, key, value) ==> get(vars, file, key) == value,
        not_given(vars, file, key) ==> get(vars, file, key) == Seq::<char>::empty(),
{
    if environment_is_silent(vars, key) {
        if has_no_variable(vars, key) {
            law_variable(vars, key, 0);
        } else {
            let i = choose|i: int| #[trigger]
                is_variable(vars, key, i) && trimmed(vars[i].1@).len() == 0;
            law_variable(vars, key, i);
        }
    }
    if given(vars, file, key, value) {
        if exists|i: int| #[trigger] is_variable(vars, key, i) && trimmed(vars[i].1@) == value {
            let i = choose|i: int| #[trigger]
                is_variable(vars, key, i) && trimmed(vars[i].1@) == value;
            law_variable(vars, key, i);
            law_trim_twice(vars[i].1@);
        } else {
            let ls = lines(file->0);
            let i = choose|i: int| #[trigger] assigns(ls, key, value, i);
            let (w, q) = choose|
                w: (Seq<char>, Seq<char>, Seq<char>, Seq<char>),
                q: (Seq<char>, Seq<char>),
            |
                {
                    &&& blank(w.0) && blank(w.1) && blank(w.2) && blank(w.3)
                    &&& #[trigger] fits(value, q)
                    &&& ls[i] == #[trigger] assignment(key, value, w, q)
                };
            law_line_gives_its_value(key, value, w, q);
            assert forall|j: int| 0 <= j < i implies line_value(#[trigger] ls[j], key) is None by {
                law_other_lines_give_none(ls[j], key);
            }
            law_first_line_wins(ls, key, i);
        }
    }
    if not_given(vars, file, key) {
        if let Some(c) = file {
            let ls = lines(c);
            assert forall|j: int| 0 <= j < ls.len() implies line_value(
                #[trigger] ls[j],
                key,
            ) is None by {
                law_other_lines_give_none(ls[j], key);
            }
            lemma_no_line(ls, key);
        }
    }
}

// ---------------------------------------------------------------- the settings

proof fn lemma_keys()
    ensures
        is_key("VY_REGISTRY"@),
        is_key("VY_IFACE"@),
        is_key("VY_PORT"@),
        is_key("VY_VPN4"@),
        is_key("VY_VPN6"@),
        is_key("VY_NAME"@),
        is_key("VY_POLL"@),
        is_key("VY_KEY"@),
{
    reveal_strlit("VY_REGISTRY");
    reveal_strlit("VY_IFACE");
    reveal_strlit("VY_PORT");
    reveal_strlit("VY_VPN4");
    reveal_strlit("VY_VPN6");
    reveal_strlit("VY_NAME");
    reveal_strlit("VY_POLL");
    reveal_strlit("VY_KEY");
}

/// For every number of 16 bits, the port is that number where the setting `VY_PORT` is its
/// decimal notation, and any other notation of it that is a number; it is 51820 only where the
/// setting is no such number, or is missing, or is that number.
pub proof fn law_port(
    vars: Seq<(String, String)>,
    file: Option<Seq<char>>,
    hostname: Option<Seq<char>>,
    value: Seq<char>,
    n: nat,
)
    ensures
        n <= 65535 && given(vars, file, "VY_PORT"@, decimal(n)) ==> loaded(
            vars,
            file,
            hostname,
        ).port == n,
        given(vars, file, "VY_PORT"@, value) ==> (match parsed(value, 65535) {
            Some(m) => loaded(vars, file, hostname).port == m,
            None => loaded(vars, file, hostname).port == 51820,
        }),
        not_given(vars, file, "VY_PORT"@) ==> loaded(vars, file, hostname).port == 51820,
{
    lemma_keys();
    law_setting(vars, file, "VY_PORT"@, value);
    law_setting(vars, file, "VY_PORT"@, decimal(n));
    if n <= 65535 {
        law_parse_of_decimal(n, 65535);
    }
    assert(parsed(Seq::<char>::empty(), 65535) is None);
}

/// The pace of the heartbeats is the number that the setting `VY_POLL` is the decimal notation
/// of, moved into the range from 5 to 600; it is 30 where the setting is no number or is missing.
pub proof fn law_poll(
    vars: Seq<(String, String)>,
    file: Option<Seq<char>>,
    hostname: Option<Seq<char>>,
    value: Seq<char>,
    n: nat,
)
    ensures
        n <= u64::MAX && given(vars, file, "VY_POLL"@, decimal(n)) ==> {
            let poll = loaded(vars, file, hostname).poll;
            &&& n < 5 ==> poll == 5
            &&& 5 <= n <= 600 ==> poll == n
            &&& n > 600 ==> poll == 600
        },
        given(vars, file, "VY_POLL"@, value) && parsed(value, u64::MAX as nat) is None ==> loaded(
            vars,
            file,
            hostname,
        ).poll == 30,
        not_given(vars, file, "VY_POLL"@) ==> loaded(vars, file, hostname).poll == 30,
{
    lemma_keys();
    law_setting(vars, file, "VY_POLL"@, value);
    law_setting(vars, file, "VY_POLL"@, decimal(n));
    if n <= u64::MAX {
        law_parse_of_decimal(n, u64::MAX as nat);
    }
    assert(parsed(Seq::<char>::empty(), u64::MAX as nat) is None);
}

/// The settings that are texts are what their sources say, each whatever the others are. The
/// name of the configuration file is made of that of the interface.
pub proof fn law_texts_are_as_given(
    vars: Seq<(String, String)>,
    file: Option<Seq<char>>,
    hostname: Option<Seq<char>>,
    value: Seq<char>,
)
    ensures
        given(vars, file, "VY_IFACE"@, value) ==> loaded(vars, file, hostname).iface == value,
        given(vars, file, "VY_IFACE"@, value) ==> loaded(vars, file, hostname).conf_path
            == "/etc/wireguard/"@ + value + ".conf"@,
        given(vars, file, "VY_VPN4"@, value) ==> loaded(vars, file, hostname).vpn4 == value,
        given(vars, file, "VY_VPN6"@, value) ==> loaded(vars, file, hostname).vpn6 == value,
        given(vars, file, "VY_NAME"@, value) ==> loaded(vars, file, hostname).name == value,
        given(vars, file, "VY_KEY"@, value) ==> loaded(vars, file, hostname).key_path == value,
        given(vars, file, "VY_REGISTRY"@, value) && value.last() != '/' ==> loaded(
            vars,
            file,
            hostname,
        ).registry == value,
{
    lemma_keys();
    law_setting(vars, file, "VY_IFACE"@, value);
    law_setting(vars, file, "VY_VPN4"@, value);
    law_setting(vars, file, "VY_VPN6"@, value);
    law_setting(vars, file, "VY_NAME"@, value);
    law_setting(vars, file, "VY_KEY"@, value);
    law_setting(vars, file, "VY_REGISTRY"@, value);
    if value.last() != '/' {
        law_end_is_cut_off(value, seq![], CharClass::Only('/'));
        assert(value + Seq::<char>::empty() =~= value);
    }
}

/// Slashes after the registry's address are dropped, however many there are, and nothing else.
pub proof fn law_slashes_are_dropped(
    vars: Seq<(String, String)>,
    file: Option<Seq<char>>,
    hostname: Option<Seq<char>>,
    address: Seq<char>,
    slashes: Seq<char>,
)
    requires
        all_of(slashes, CharClass::Only('/')),
        address.len() > 0,
        address.last() != '/',
        given(vars, file, "VY_REGISTRY"@, address + slashes),
    ensures
        loaded(vars, file, hostname).registry == address,
{
    lemma_keys();
    law_setting(vars, file, "VY_REGISTRY"@, address + slashes);
    law_end_is_cut_off(address, slashes, CharClass::Only('/'));
}

proof fn lemma_empty_is_blank()
    ensures
        trimmed(Seq::<char>::empty()).len() == 0,
{
    let e = Seq::<char>::empty();
    assert(strip_front(e, CharClass::Space) == e);
}

/// A setting that its sources say nothing of has its default, whatever the others are.
pub proof fn law_defaults(
    vars: Seq<(String, String)>,
    file: Option<Seq<char>>,
    hostname: Option<Seq<char>>,
)
    ensures
        not_given(vars, file, "VY_REGISTRY"@) ==> loaded(vars, file, hostname).registry
            == "https://vpn.yellod.dpdns.org"@,
        not_given(vars, file, "VY_IFACE"@) ==> loaded(vars, file, hostname).iface == "wg0"@,
        not_given(vars, file, "VY_IFACE"@) ==> loaded(vars, file, hostname).conf_path
            == "/etc/wireguard/wg0.conf"@,
        not_given(vars, file, "VY_VPN4"@) ==> loaded(vars, file, hostname).vpn4 == "10.8.0.1/24"@,
        not_given(vars, file, "VY_VPN6"@) ==> loaded(vars, file, hostname).vpn6
            == "fd86:ea04::1/64"@,
        not_given(vars, file, "VY_NAME"@) ==> loaded(vars, file, hostname).name == host_name(
            hostname,
        ),
        not_given(vars, file, "VY_KEY"@) ==> loaded(vars, file, hostname).key_path
            == "/etc/wireguard/server_private.key"@,
{
    let none = Seq::<char>::empty();
    lemma_keys();
    lemma_empty_is_blank();
    law_setting(vars, file, "VY_IFACE"@, none);
    law_setting(vars, file, "VY_VPN4"@, none);
    law_setting(vars, file, "VY_VPN6"@, none);
    law_setting(vars, file, "VY_NAME"@, none);
    law_setting(vars, file, "VY_KEY"@, none);
    law_setting(vars, file, "VY_REGISTRY"@, none);
    let home = "https://vpn.yellod.dpdns.org"@;
    reveal_strlit("https://vpn.yellod.dpdns.org");
    law_end_is_cut_off(home, none, CharClass::Only('/'));
    assert(home + none =~= home);
    reveal_strlit("/etc/wireguard/");
    reveal_strlit("wg0");
    reveal_strlit(".conf");
    reveal_strlit("/etc/wireguard/wg0.conf");
    assert("/etc/wireguard/"@ + "wg0"@ + ".conf"@ =~= "/etc/wireguard/wg0.conf"@);
}

// ---------------------------------------------------------------- the name of the box

/// A name that starts and ends with a letter or a digit is kept character by character, with a
/// dash for each one that is neither, up to 32 characters.
pub proof fn law_label_by_character(name: Seq<char>)
    requires
        name.len() > 0,
        is_alphanumeric(name[0]),
        is_alphanumeric(name.last()),
    ensures
        label(name).len() == if name.len() < 32 {
            name.len()
        } else {
            32
        },
        forall|i: int|
            0 <= i < label(name).len() ==> #[trigger] label(name)[i] == if ('a' <= name[i] <= 'z')
                || ('A' <= name[i] <= 'Z') || ('0' <= name[i] <= '9') {
                name[i]
            } else {
                '-'
            },
{
    let d = dashed(name);
    let none = Seq::<char>::empty();
    assert(d.last() == name.last());
    law_ends_are_cut_off(none, d, none, CharClass::Only('-'));
    assert(none + d + none =~= d);
}

/// The name of the box is made of what `hostname` printed, without the white space round it and
/// in lower case, or else of `server`.
pub proof fn law_host_name(out: Seq<char>)
    ensures
        host_name(Some(out)) == label(lowercase(trimmed(out))),
        host_name(None) == label(lowercase("server"@)),
{
}

/// Characters at the ends of a name that are neither letters nor digits are dropped.
pub proof fn law_label_ends(a: Seq<char>, name: Seq<char>, b: Seq<char>)
    requires
        name.len() > 0,
        is_alphanumeric(name[0]),
        is_alphanumeric(name.last()),
        forall|i: int| 0 <= i < a.len() ==> !is_alphanumeric(#[trigger] a[i]),
        forall|i: int| 0 <= i < b.len() ==> !is_alphanumeric(#[trigger] b[i]),
    ensures
        label(a + name + b) == label(name),
{
    let k = CharClass::Only('-');
    let none = Seq::<char>::empty();
    let d = dashed(name);
    assert(dashed(a + name + b) =~= dashed(a) + d + dashed(b));
    law_ends_are_cut_off(dashed(a), d, dashed(b), k);
    law_ends_are_cut_off(none, d, none, k);
    assert(none + d + none =~= d);
}

// ---------------------------------------------------------------- the command line

/// The option `--name` and its value change the name to that value and nothing else, wherever
/// they stand after complete options, and `--registry` changes the registry to its value without
/// the slashes at its end. Without its value an option changes nothing, and neither does a word
/// that is no option.
pub proof fn law_options(
    cfg: CfgView,
    first: Seq<Seq<char>>,
    value: Seq<char>,
    slashes: Seq<char>,
    word: Seq<char>,
)
    requires
        has_values(first),
        all_of(slashes, CharClass::Only('/')),
        value.len() > 0 ==> value.last() != '/',
        word != "--name"@,
        word != "--registry"@,
    ensures
        overridden(cfg, Seq::empty()) == cfg,
        overridden(cfg, first + seq!["--name"@, value]) == (CfgView {
            name: value,
            ..overridden(cfg, first)
        }),
        overridden(cfg, first + seq!["--registry"@, value + slashes]) == (CfgView {
            registry: value,
            ..overridden(cfg, first)
        }),
        overridden(cfg, first + seq!["--name"@]) == overridden(cfg, first),
        overridden(cfg, first + seq!["--registry"@]) == overridden(cfg, first),
        overridden(cfg, first + seq![word]) == overridden(cfg, first),
{
    reveal_strlit("--name");
    reveal_strlit("--registry");
    assert("--name"@.len() != "--registry"@.len());
    let by_name = seq!["--name"@, value];
    let by_registry = seq!["--registry"@, value + slashes];
    let base = overridden(cfg, first);
    law_options_in_turn(cfg, first, by_name);
    law_options_in_turn(cfg, first, by_registry);
    law_options_in_turn(cfg, first, seq!["--name"@]);
    law_options_in_turn(cfg, first, seq!["--registry"@]);
    law_options_in_turn(cfg, first, seq![word]);
    law_end_is_cut_off(value, slashes, CharClass::Only('/'));
    let named = CfgView { name: value, ..base };
    let moved = CfgView { registry: value, ..base };
    assert(by_name.skip(2) =~= seq![]);
    assert(by_registry.skip(2) =~= seq![]);
    assert(overridden(named, by_name.skip(2)) == named);
    assert(overridden(moved, by_registry.skip(2)) == moved);
    assert(overridden(base, by_name) == named);
    assert(overridden(base, by_registry) == moved);
    assert(seq![word].skip(1) =~= seq![]);
    assert(overridden(base, seq![word].skip(1)) == base);
    assert(overridden(base, seq![word]) == base);
}

/// Each command is asked for by its own word and by no other; `--version` asks for the version
/// too, and every other word for the usage.
pub proof fn law_commands(word: Seq<char>)
    ensures
        command(word) == Command::On <==> word == "on"@,
        command(word) == Command::Off <==> word == "off"@,
        command(word) == Command::Status <==> word == "status"@,
        command(word) == Command::Daemon <==> word == "daemon"@,
        command(word) == Command::Uninstall <==> word == "uninstall"@,
        command(word) == Command::Version <==> word == "version"@ || word == "--version"@,
{
    reveal_strlit("on");
    reveal_strlit("off");
    reveal_strlit("status");
    reveal_strlit("daemon");
    reveal_strlit("uninstall");
    reveal_strlit("version");
    reveal_strlit("--version");
    assert("on"@.len() == 2 && "off"@.len() == 3 && "status"@.len() == 6 && "daemon"@.len() == 6);
    assert("uninstall"@.len() == 9 && "version"@.len() == 7 && "--version"@.len() == 9);
    assert("status"@[0] != "daemon"@[0]);
    assert("uninstall"@[0] != "--version"@[0]);
}

} // verus!
