//! The agent's settings: environment variables, the settings file, the command line.

use crate::laws::config::law_label;
use crate::number::{parse, parsed};
use crate::text::{ascii_lowercase, chars_of, halves, lines, lowercase, same, split_lines};
use crate::text::{split_once, string_of, strip, strip_back, trim, trim_class, trim_end_class};
use crate::text::{trimmed, view_of, views, CharClass};
use vstd::prelude::*;

verus! {

/// What the settings are read from.
pub struct Settings {
    /// The environment variables, with their values.
    pub vars: Vec<(String, String)>,
    /// The settings file, where it can be read.
    pub file: Option<String>,
    /// What the command `hostname` printed, where it could be started.
    pub hostname: Option<String>,
}

/// The value of the environment variable `key`.
pub open spec fn variable(vars: Seq<(String, String)>, key: Seq<char>) -> Option<Seq<char>>
    decreases vars.len(),
{
    if vars.len() == 0 {
        None
    } else if vars[0].0@ == key {
        Some(vars[0].1@)
    } else {
        variable(vars.skip(1), key)
    }
}

/// The value that a line of the settings file gives to `key`: what stands after the first equals
/// sign, without white space and then without double quotes at its ends. An empty value, a
/// comment or another key gives none.
pub open spec fn line_value(line: Seq<char>, key: Seq<char>) -> Option<Seq<char>> {
    let l = trimmed(line);
    if l.len() == 0 || l[0] == '#' {
        None
    } else {
        match halves(l, '=') {
            Some((k, v)) => {
                let w = strip(trimmed(v), CharClass::Only('"'));
                if trimmed(k) == key && w.len() > 0 {
                    Some(w)
                } else {
                    None
                }
            },
            None => None,
        }
    }
}

/// The first value that the lines give to `key`, or the empty string.
pub open spec fn file_value(ls: Seq<Seq<char>>, key: Seq<char>) -> Seq<char>
    decreases ls.len(),
{
    if ls.len() == 0 {
        seq![]
    } else {
        match line_value(ls[0], key) {
            Some(v) => v,
            None => file_value(ls.skip(1), key),
        }
    }
}

/// The setting `key`: the environment variable where it is not blank, else the first value in
/// the settings file, else the empty string.
pub open spec fn setting(key: Seq<char>, var: Option<Seq<char>>, file: Option<Seq<char>>) -> Seq<
    char,
> {
    if var matches Some(v) && trimmed(v).len() > 0 {
        trimmed(var->0)
    } else {
        match file {
            Some(c) => file_value(lines(c), key),
            None => seq![],
        }
    }
}

/// The value of the environment variable `key`.
pub fn find_variable(vars: &Vec<(String, String)>, key: &str) -> (r: Option<String>)
    ensures
        view_of(r) == variable(vars@, key@),
{
    let mut i: usize = 0;
    assert(vars@.skip(0) =~= vars@);
    while i < vars.len()
        invariant
            i <= vars.len(),
            variable(vars@.skip(i as int), key@) == variable(vars@, key@),
        decreases vars.len() - i,
    {
        assert(vars@.skip(i as int).skip(1) =~= vars@.skip(i + 1));
        if same(vars[i].0.as_str(), key) {
            return Some(vars[i].1.clone());
        }
        i += 1;
    }
    None
}

fn read_value(line: &str, key: &str) -> (r: Option<String>)
    ensures
        view_of(r) == line_value(line@, key@),
{
    let l = trim(line);
    if l.as_str().is_empty() || l.as_str().get_char(0) == '#' {
        return None;
    }
    match split_once(l.as_str(), '=') {
        Some(h) => {
            let w = trim_class(trim(h.1.as_str()).as_str(), &CharClass::Only('"'));
            if same(trim(h.0.as_str()).as_str(), key) && !w.as_str().is_empty() {
                Some(w)
            } else {
                None
            }
        },
        None => None,
    }
}

fn find_value(file: &str, key: &str) -> (r: String)
    ensures
        r@ == file_value(lines(file@), key@),
{
    let ls = split_lines(file);
    let ghost all = views(ls@);
    let mut i: usize = 0;
    assert(all.skip(0) =~= all);
    while i < ls.len()
        invariant
            i <= ls.len(),
            all == views(ls@),
            all == lines(file@),
            file_value(all.skip(i as int), key@) == file_value(all, key@),
        decreases ls.len() - i,
    {
        assert(all.skip(i as int)[0] == ls[i as int]@);
        assert(all.skip(i as int).skip(1) =~= all.skip(i + 1));
        if let Some(v) = read_value(ls[i].as_str(), key) {
            return v;
        }
        i += 1;
    }
    let r = String::new();
    assert(r@ =~= seq![]);
    r
}

/// The setting `key`, from the value of its environment variable and the settings file.
pub fn cfg_get(key: &str, var: &Option<String>, file: &Option<String>) -> (r: String)
    ensures
        r@ == setting(key@, view_of(*var), view_of(*file)),
{
    if let Some(v) = var {
        let t = trim(v.as_str());
        if !t.as_str().is_empty() {
            return t;
        }
    }
    match file {
        Some(c) => find_value(c.as_str(), key),
        None => {
            let r = String::new();
            assert(r@ =~= seq![]);
            r
        },
    }
}

/// `v`, or `def` where `v` is blank.
pub open spec fn or_default(v: Seq<char>, def: Seq<char>) -> Seq<char> {
    if trimmed(v).len() == 0 {
        def
    } else {
        v
    }
}

/// `v`, or `def` where `v` is blank.
pub fn non_empty(v: String, def: &str) -> (r: String)
    ensures
        r@ == or_default(v@, def@),
{
    if trim(v.as_str()).as_str().is_empty() {
        def.to_owned()
    } else {
        v
    }
}

// ---------------------------------------------------------------- the name of the box

/// `c` is an ASCII letter or digit.
pub open spec fn is_alphanumeric(c: char) -> bool {
    'a' <= c <= 'z' || 'A' <= c <= 'Z' || '0' <= c <= '9'
}

/// `c` is a letter or a digit of ASCII, or a dash.
pub open spec fn is_label_char(c: char) -> bool {
    is_alphanumeric(c) || c == '-'
}

/// `s` with a dash for every character that is no ASCII letter or digit.
pub open spec fn dashed(s: Seq<char>) -> Seq<char> {
    s.map_values(
        |c: char|
            if is_alphanumeric(c) {
                c
            } else {
                '-'
            },
    )
}

/// At most the first 32 characters.
pub open spec fn short(s: Seq<char>) -> Seq<char> {
    if s.len() > 32 {
        s.take(32)
    } else {
        s
    }
}

/// A name made of letters, digits and dashes, of at most 32 characters, from a name in lower
/// case; it does not start with a dash.
pub open spec fn label(lower: Seq<char>) -> Seq<char> {
    short(strip(dashed(lower), CharClass::Only('-')))
}

/// The name of a box on which `hostname` printed `out`.
pub open spec fn host_name(out: Option<Seq<char>>) -> Seq<char> {
    label(
        lowercase(
            match out {
                Some(s) => trimmed(s),
                None => "server"@,
            },
        ),
    )
}

/// A name made of letters, digits and dashes, of at most 32 characters.
pub fn label_of(lower: &str) -> (r: String)
    ensures
        r@ == label(lower@),
{
    let v = chars_of(lower);
    let mut s = String::new();
    let mut i: usize = 0;
    assert(s@ =~= dashed(lower@).take(0));
    while i < v.len()
        invariant
            i <= v.len(),
            v@ == lower@,
            s@ == dashed(lower@).take(i as int),
        decreases v.len() - i,
    {
        let c = v[i];
        let ghost done = s@;
        if ('a' <= c && c <= 'z') || ('A' <= c && c <= 'Z') || ('0' <= c && c <= '9') {
            s.push(c);
        } else {
            s.push('-');
        }
        assert(s@ =~= dashed(lower@).take(i + 1));
        i += 1;
    }
    assert(s@ =~= dashed(lower@));
    let clean = trim_class(s.as_str(), &CharClass::Only('-'));
    let w = chars_of(clean.as_str());
    let n: usize = if w.len() > 32 {
        32
    } else {
        w.len()
    };
    assert(w@.subrange(0, n as int) =~= short(clean@));
    string_of(&w, 0, n)
}

/// The name of a box on which `hostname` printed `out`.
pub fn hostname(out: &Option<String>) -> (r: String)
    ensures
        r@ == host_name(view_of(*out)),
        out matches Some(s) && vstd::utf8::is_ascii_chars(trimmed(s@)) ==> r@ == label(
            ascii_lowercase(trimmed(out->0@)),
        ),
        out is None ==> r@ == "server"@,
        forall|i: int|
            0 <= i < r@.len() ==> is_label_char(#[trigger] r@[i]) && !('A' <= r@[i] <= 'Z'),
{
    let h = match out {
        Some(s) => trim(s.as_str()),
        None => "server".to_owned(),
    };
    proof {
        reveal_strlit("server");
        assert(ascii_lowercase("server"@) =~= "server"@);
        assert(dashed("server"@) =~= "server"@);
    }
    let lower = h.as_str().to_lowercase();
    proof {
        law_label(lower@);
    }
    label_of(lower.as_str())
}

// ---------------------------------------------------------------- the configuration

/// The agent's configuration.
#[derive(Debug)]
pub struct Cfg {
    pub registry: String,
    pub iface: String,
    pub port: u16,
    pub vpn4: String,
    pub vpn6: String,
    pub name: String,
    pub poll: u64,
    pub conf_path: String,
    pub key_path: String,
}

/// The configuration, with its text as characters.
pub struct CfgView {
    pub registry: Seq<char>,
    pub iface: Seq<char>,
    pub port: nat,
    pub vpn4: Seq<char>,
    pub vpn6: Seq<char>,
    pub name: Seq<char>,
    pub poll: nat,
    pub conf_path: Seq<char>,
    pub key_path: Seq<char>,
}

impl View for Cfg {
    type V = CfgView;

    open spec fn view(&self) -> CfgView {
        CfgView {
            registry: self.registry@,
            iface: self.iface@,
            port: self.port as nat,
            vpn4: self.vpn4@,
            vpn6: self.vpn6@,
            name: self.name@,
            poll: self.poll as nat,
            conf_path: self.conf_path@,
            key_path: self.key_path@,
        }
    }
}

/// The setting `key`.
pub open spec fn get(
    vars: Seq<(String, String)>,
    file: Option<Seq<char>>,
    key: Seq<char>,
) -> Seq<char> {
    setting(key, variable(vars, key), file)
}

/// `text` as a number up to `max`, or `def`.
pub open spec fn number_or(text: Seq<char>, max: nat, def: nat) -> nat {
    match parsed(text, max) {
        Some(n) => n,
        None => def,
    }
}

/// `n` moved into the range from `lo` to `hi`.
pub open spec fn clamped(n: nat, lo: nat, hi: nat) -> nat {
    if n < lo {
        lo
    } else if n > hi {
        hi
    } else {
        n
    }
}

/// The configuration that the environment variables and the settings file give, with the
/// defaults of what they leave out. `hostname` is what the command of that name printed.
pub open spec fn loaded(
    vars: Seq<(String, String)>,
    file: Option<Seq<char>>,
    hostname: Option<Seq<char>>,
) -> CfgView {
    let iface = or_default(get(vars, file, "VY_IFACE"@), "wg0"@);
    CfgView {
        registry: strip_back(
            or_default(get(vars, file, "VY_REGISTRY"@), "https://vpn.yellod.dpdns.org"@),
            CharClass::Only('/'),
        ),
        iface,
        port: number_or(get(vars, file, "VY_PORT"@), u16::MAX as nat, 51820),
        vpn4: or_default(get(vars, file, "VY_VPN4"@), "10.8.0.1/24"@),
        vpn6: or_default(get(vars, file, "VY_VPN6"@), "fd86:ea04::1/64"@),
        name: or_default(get(vars, file, "VY_NAME"@), host_name(hostname)),
        poll: clamped(number_or(get(vars, file, "VY_POLL"@), u64::MAX as nat, 30), 5, 600),
        conf_path: "/etc/wireguard/"@ + iface + ".conf"@,
        key_path: or_default(get(vars, file, "VY_KEY"@), "/etc/wireguard/server_private.key"@),
    }
}

fn look_up(s: &Settings, key: &str) -> (r: String)
    ensures
        r@ == get(s.vars@, view_of(s.file), key@),
{
    cfg_get(key, &find_variable(&s.vars, key), &s.file)
}

impl Cfg {
    /// The configuration that the settings give.
    pub fn load(s: &Settings) -> (cfg: Cfg)
        ensures
            cfg@ == loaded(s.vars@, view_of(s.file), view_of(s.hostname)),
            5 <= cfg.poll <= 600,
    {
        let iface = non_empty(look_up(s, "VY_IFACE"), "wg0");
        let poll: u64 = match parse(look_up(s, "VY_POLL").as_str(), u64::MAX) {
            Some(n) => n,
            None => 30,
        };
        let port: u64 = match parse(look_up(s, "VY_PORT").as_str(), u16::MAX as u64) {
            Some(n) => n,
            None => 51820,
        };
        let registry = non_empty(look_up(s, "VY_REGISTRY"), "https://vpn.yellod.dpdns.org");
        Cfg {
            registry: trim_end_class(registry.as_str(), &CharClass::Only('/')),
            port: port as u16,
            vpn4: non_empty(look_up(s, "VY_VPN4"), "10.8.0.1/24"),
            vpn6: non_empty(look_up(s, "VY_VPN6"), "fd86:ea04::1/64"),
            name: non_empty(look_up(s, "VY_NAME"), hostname(&s.hostname).as_str()),
            poll: if poll < 5 {
                5
            } else if poll > 600 {
                600
            } else {
                poll
            },
            conf_path: "/etc/wireguard/".to_owned().concat(iface.as_str()).concat(".conf"),
            key_path: non_empty(look_up(s, "VY_KEY"), "/etc/wireguard/server_private.key"),
            iface,
        }
    }
}

// ---------------------------------------------------------------- the command line

/// The configuration after the options in `args`: `--name NAME` and `--registry URL`. An option
/// without a value and any other word change nothing.
pub open spec fn overridden(cfg: CfgView, args: Seq<Seq<char>>) -> CfgView
    decreases args.len(),
{
    if args.len() == 0 {
        cfg
    } else if args[0] == "--name"@ {
        if args.len() == 1 {
            cfg
        } else {
            overridden(CfgView { name: args[1], ..cfg }, args.skip(2))
        }
    } else if args[0] == "--registry"@ {
        if args.len() == 1 {
            cfg
        } else {
            overridden(
                CfgView { registry: strip_back(args[1], CharClass::Only('/')), ..cfg },
                args.skip(2),
            )
        }
    } else {
        overridden(cfg, args.skip(1))
    }
}

impl Cfg {
    /// Applies the options of the command line, the words after the command.
    pub fn apply_args(&mut self, args: &Vec<String>)
        ensures
            final(self)@ == overridden(old(self)@, views(args@)),
    {
        let ghost all = views(args@);
        let mut i: usize = 0;
        assert(all.skip(0) =~= all);
        while i < args.len()
            invariant
                i <= args.len(),
                all == views(args@),
                overridden(self@, all.skip(i as int)) == overridden(old(self)@, all),
            decreases args.len() - i,
        {
            proof {
                let rest = all.skip(i as int);
                assert(rest[0] == args[i as int]@);
                assert(rest.skip(1) =~= all.skip(i + 1));
                if i + 1 < args.len() {
                    assert(rest[1] == args[i + 1]@);
                    assert(rest.skip(2) =~= all.skip(i + 2));
                }
                reveal_strlit("--name");
                reveal_strlit("--registry");
            }
            let is_name = same(args[i].as_str(), "--name");
            if is_name || same(args[i].as_str(), "--registry") {
                if i == args.len() - 1 {
                    return;
                }
                if is_name {
                    self.name = args[i + 1].clone();
                } else {
                    self.registry = trim_end_class(args[i + 1].as_str(), &CharClass::Only('/'));
                }
                i += 2;
            } else {
                i += 1;
            }
        }
    }
}

/// What the agent is asked to do.
#[derive(Debug, PartialEq, Eq, Structural, Clone, Copy)]
pub enum Command {
    On,
    Off,
    Status,
    Daemon,
    Uninstall,
    Version,
    Usage,
}

/// The command that a word stands for.
pub open spec fn command(word: Seq<char>) -> Command {
    if word == "on"@ {
        Command::On
    } else if word == "off"@ {
        Command::Off
    } else if word == "status"@ {
        Command::Status
    } else if word == "daemon"@ {
        Command::Daemon
    } else if word == "uninstall"@ {
        Command::Uninstall
    } else if word == "version"@ || word == "--version"@ {
        Command::Version
    } else {
        Command::Usage
    }
}

/// The command in a command line, whose first word is the program; its usage where none is.
pub fn dispatch(args: &Vec<String>) -> (r: Command)
    ensures
        r == (if args.len() >= 2 {
            command(args[1]@)
        } else {
            Command::Usage
        }),
{
    if args.len() < 2 {
        return Command::Usage;
    }
    let w = args[1].as_str();
    if same(w, "on") {
        Command::On
    } else if same(w, "off") {
        Command::Off
    } else if same(w, "status") {
        Command::Status
    } else if same(w, "daemon") {
        Command::Daemon
    } else if same(w, "uninstall") {
        Command::Uninstall
    } else if same(w, "version") || same(w, "--version") {
        Command::Version
    } else {
        Command::Usage
    }
}

} // verus!
