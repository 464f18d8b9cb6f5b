//! Where settings come from, and what a name is made of.

use crate::config::{dashed, get, is_label_char, label, loaded, or_default, overridden, setting};
use crate::config::CfgView;
use crate::laws::text::{lemma_strip_back, lemma_strip_front};
use crate::text::{ascii_lowercase, strip_back, strip_front, trimmed, CharClass};
use vstd::prelude::*;

verus! {

/// An environment variable that is not blank decides, whatever the settings file says.
pub proof fn law_environment_wins(key: Seq<char>, value: Seq<char>, file: Option<Seq<char>>)
    requires
        trimmed(value).len() > 0,
    ensures
        setting(key, Some(value), file) == trimmed(value),
{
}

/// A blank environment variable is as good as none.
pub proof fn law_blank_variable_is_none(key: Seq<char>, value: Seq<char>, file: Option<Seq<char>>)
    requires
        trimmed(value).len() == 0,
    ensures
        setting(key, Some(value), file) == setting(key, None, file),
{
}

/// The pace of the heartbeats is from 5 to 600 seconds and the port fits 16 bits, whatever the
/// settings say.
pub proof fn law_loaded_is_bounded(
    vars: Seq<(String, String)>,
    file: Option<Seq<char>>,
    hostname: Option<Seq<char>>,
)
    ensures
        5 <= loaded(vars, file, hostname).poll <= 600,
        loaded(vars, file, hostname).port <= u16::MAX,
{
}

/// The registry's address does not end with a slash, whatever the settings say.
pub proof fn law_registry_ends_without_slash(
    vars: Seq<(String, String)>,
    file: Option<Seq<char>>,
    hostname: Option<Seq<char>>,
)
    ensures
        ({
            let r = loaded(vars, file, hostname).registry;
            r.len() > 0 ==> r.last() != '/'
        }),
{
    let r = loaded(vars, file, hostname).registry;
    let k = CharClass::Only('/');
    let given = or_default(get(vars, file, "VY_REGISTRY"@), "https://vpn.yellod.dpdns.org"@);
    lemma_strip_back(given, k);
    if r.len() > 0 {
        assert(!k.contains(r.last()));
    }
}

/// The words after the command change the name and the registry, and nothing else.
pub proof fn law_options_change_two_settings(cfg: CfgView, args: Seq<Seq<char>>)
    ensures
        ({
            let r = overridden(cfg, args);
            r == CfgView { name: r.name, registry: r.registry, ..cfg }
        }),
    decreases args.len(),
{
    if args.len() > 0 {
        if args[0] == "--name"@ {
            if args.len() > 1 {
                law_options_change_two_settings(CfgView { name: args[1], ..cfg }, args.skip(2));
            }
        } else if args[0] == "--registry"@ {
            if args.len() > 1 {
                law_options_change_two_settings(
                    CfgView { registry: strip_back(args[1], CharClass::Only('/')), ..cfg },
                    args.skip(2),
                );
            }
        } else {
            law_options_change_two_settings(cfg, args.skip(1));
        }
    }
}

/// Every option among the words has its value.
pub open spec fn has_values(args: Seq<Seq<char>>) -> bool
    decreases args.len(),
{
    if args.len() == 0 {
        true
    } else if args[0] == "--name"@ || args[0] == "--registry"@ {
        args.len() >= 2 && has_values(args.skip(2))
    } else {
        has_values(args.skip(1))
    }
}

/// Words after words whose options all have their values are read by themselves.
pub proof fn law_options_in_turn(cfg: CfgView, first: Seq<Seq<char>>, more: Seq<Seq<char>>)
    requires
        has_values(first),
    ensures
        overridden(cfg, first + more) == overridden(overridden(cfg, first), more),
    decreases first.len(),
{
    let all = first + more;
    if first.len() == 0 {
        assert(all =~= more);
    } else {
        assert(all[0] == first[0]);
        if first[0] == "--name"@ {
            assert(all[1] == first[1]);
            assert(all.skip(2) =~= first.skip(2) + more);
            law_options_in_turn(CfgView { name: first[1], ..cfg }, first.skip(2), more);
        } else if first[0] == "--registry"@ {
            assert(all[1] == first[1]);
            assert(all.skip(2) =~= first.skip(2) + more);
            law_options_in_turn(
                CfgView { registry: strip_back(first[1], CharClass::Only('/')), ..cfg },
                first.skip(2),
                more,
            );
        } else {
            assert(all.skip(1) =~= first.skip(1) + more);
            law_options_in_turn(cfg, first.skip(1), more);
        }
    }
}

/// The last `--name` decides the name, and the last `--registry` the registry.
pub proof fn law_last_option_wins(cfg: CfgView, first: Seq<Seq<char>>, value: Seq<char>)
    requires
        has_values(first),
    ensures
        overridden(cfg, first + seq!["--name"@, value]).name == value,
        overridden(cfg, first + seq!["--registry"@, value]).registry == strip_back(
            value,
            CharClass::Only('/'),
        ),
{
    let by_name = seq!["--name"@, value];
    let by_registry = seq!["--registry"@, value];
    reveal_strlit("--name");
    reveal_strlit("--registry");
    assert("--name"@.len() != "--registry"@.len());
    law_options_in_turn(cfg, first, by_name);
    law_options_in_turn(cfg, first, by_registry);
    let base = overridden(cfg, first);
    let named = CfgView { name: value, ..base };
    let moved = CfgView { registry: strip_back(value, CharClass::Only('/')), ..base };
    assert(by_name.skip(2) =~= seq![]);
    assert(overridden(named, by_name.skip(2)) == named);
    assert(overridden(base, by_name) == named);
    assert(by_registry.skip(2) =~= seq![]);
    assert(overridden(moved, by_registry.skip(2)) == moved);
    assert(overridden(base, by_registry) == moved);
}

/// The name of a box has at most 32 characters, each a letter or a digit of ASCII or a dash, and
/// does not start with a dash. It has no upper case letter where the text that it is made of has
/// none.
pub proof fn law_label(lower: Seq<char>)
    ensures
        label(lower).len() <= 32,
        forall|i: int| 0 <= i < label(lower).len() ==> is_label_char(#[trigger] label(lower)[i]),
        label(lower).len() > 0 ==> label(lower)[0] != '-',
        (forall|i: int| 0 <= i < lower.len() ==> !('A' <= #[trigger] lower[i] <= 'Z')) ==> forall|
            i: int,
        |
            0 <= i < label(lower).len() ==> !('A' <= #[trigger] label(lower)[i] <= 'Z'),
{
    let k = CharClass::Only('-');
    let d = dashed(lower);
    let f = strip_front(d, k);
    let b = strip_back(f, k);
    lemma_strip_front(d, k);
    lemma_strip_back(f, k);
    assert forall|i: int| 0 <= i < label(lower).len() implies is_label_char(
        #[trigger] label(lower)[i],
    ) && (label(lower)[i] == '-' || label(lower)[i] == lower[i + (d.len() - f.len())]) by {
        assert(b[i] == f[i]);
        assert(f[i] == d[i + (d.len() - f.len())]);
    }
    if label(lower).len() > 0 {
        assert(b[0] == f[0]);
        assert(!k.contains(f[0]));
    }
}

/// A name that is a label in lower case already, without dashes at its ends, is kept.
pub proof fn law_label_is_kept(name: Seq<char>)
    requires
        name.len() <= 32,
        forall|i: int|
            0 <= i < name.len() ==> is_label_char(#[trigger] name[i]) && !('A' <= name[i] <= 'Z'),
        name.len() > 0 ==> name[0] != '-' && name.last() != '-',
    ensures
        label(ascii_lowercase(name)) == name,
{
    assert(ascii_lowercase(name) =~= name);
    assert(dashed(name) =~= name);
}

} // verus!
