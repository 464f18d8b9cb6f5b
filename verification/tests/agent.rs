use std::collections::HashMap;
use vpnyellod::address::Survey;
use vpnyellod::agent::{usage, Job};
use vpnyellod::config::Settings;
use vpnyellod::world::{Argv, Ask, Effect, Fed, Ran, Reply};

/// A box in memory: its files, its interface and the registry's answers.
struct World {
    root: bool,
    vars: Vec<(String, String)>,
    hostname: Option<String>,
    files: HashMap<String, String>,
    missing_tool: Option<String>,
    inet: Option<String>,
    inet6: Option<String>,
    genkey: Option<String>,
    pubkey_ok: bool,
    iface_up: bool,
    quick_ok: bool,
    systemd: bool,
    unit_starts: bool,
    wg_peers: Vec<String>,
    wg_set_ok: bool,
    store_error: Option<String>,
    dir_error: Option<String>,
    append_error: Option<String>,
    posts: Vec<(String, String)>,
    answers: Vec<Fed>,
    out: Vec<String>,
    err: Vec<String>,
    ran: Vec<String>,
    slept: Vec<u64>,
    beats: usize,
    steps: Vec<String>,
}

fn ok_text(s: &str) -> Fed {
    Fed::Ended { ok: true, stdout: s.to_string(), stderr: String::new() }
}

impl World {
    fn new() -> World {
        World {
            root: true,
            vars: vec![],
            hostname: Some("Box\n".to_string()),
            files: HashMap::new(),
            missing_tool: None,
            inet: Some("2: eth0 inet 203.0.113.7/24 brd 203.0.113.255 scope global eth0 preferred_lft forever".to_string()),
            inet6: None,
            genkey: Some("PRIV=\n".to_string()),
            pubkey_ok: true,
            iface_up: false,
            quick_ok: true,
            systemd: true,
            unit_starts: true,
            wg_peers: vec![],
            wg_set_ok: true,
            store_error: None,
            dir_error: None,
            append_error: None,
            posts: vec![],
            answers: vec![],
            out: vec![],
            err: vec![],
            ran: vec![],
            slept: vec![],
            beats: 1,
            steps: vec![],
        }
    }

    fn file(&self, path: &str) -> String {
        self.files.get(path).cloned().unwrap_or_default()
    }

    fn line(a: &Argv) -> String {
        a.words.join(" ")
    }

    fn succeed(&mut self, a: &Argv) -> bool {
        let line = World::line(a);
        self.ran.push(line.clone());
        let w: Vec<&str> = a.words.iter().map(|s| s.as_str()).collect();
        match w.as_slice() {
            ["ip", "link", "show", "dev", _] => self.iface_up,
            ["wg-quick", "up", _] => {
                self.iface_up = self.iface_up || self.quick_ok;
                self.quick_ok
            }
            ["wg-quick", "down", _] => {
                self.iface_up = false;
                true
            }
            ["systemctl", "enable", ..] => self.unit_starts,
            ["wg", "set", _, "peer", key, "remove"] => {
                self.wg_peers.retain(|k| k != key);
                true
            }
            ["wg", "set", _, "peer", key, "preshared-key", psk, "allowed-ips", _] => {
                assert!(self.files.contains_key(*psk));
                if self.wg_set_ok {
                    self.wg_peers.push(key.to_string());
                }
                self.wg_set_ok
            }
            _ => true,
        }
    }

    fn output(&mut self, a: &Argv) -> Option<Ran> {
        let w: Vec<&str> = a.words.iter().map(|s| s.as_str()).collect();
        let ran = |ok: bool, s: &str| Some(Ran { ok, stdout: s.to_string() });
        match w.as_slice() {
            ["id", "-u"] => ran(true, if self.root { "0\n" } else { "1000\n" }),
            ["sh", "-c", c] => {
                let tool = c.strip_prefix("command -v ").unwrap();
                match &self.missing_tool {
                    Some(t) if t == tool => ran(false, ""),
                    _ => ran(true, &format!("/usr/bin/{tool}\n")),
                }
            }
            ["wg", "genkey"] => match &self.genkey {
                Some(k) => ran(true, k),
                None => None,
            },
            ["wg", "show", _, "peers"] => ran(true, &self.wg_peers.join("\n")),
            ["ip", "route", "get", "8.8.8.8"] => {
                ran(true, "8.8.8.8 via 203.0.113.1 dev ens3 src 203.0.113.7 uid 0\n")
            }
            ["systemctl", "is-active", _] => ran(true, "active\n"),
            _ => ran(false, ""),
        }
    }

    fn feed(&mut self, a: &Argv, input: &str) -> Fed {
        if a.words[0] == "wg" {
            assert_eq!(a.words, vec!["wg", "pubkey"]);
            if self.pubkey_ok {
                return ok_text(&format!("PUB-of-{input}\n"));
            }
            return Fed::Ended { ok: false, stdout: String::new(), stderr: String::new() };
        }
        assert_eq!(a.words[0], "curl");
        self.posts.push((a.words[6].clone(), input.to_string()));
        if self.answers.is_empty() {
            Fed::Ended { ok: false, stdout: String::new(), stderr: "curl: (7) refused\n".to_string() }
        } else {
            self.answers.remove(0)
        }
    }

    fn effect(&mut self, e: &Effect<String, Argv>) {
        match e {
            Effect::Print(s) => self.out.push(s.clone()),
            Effect::Complain(s) => self.err.push(s.clone()),
            Effect::Run(a) => {
                self.succeed(a);
            }
            Effect::MakeDir(_) => {}
            Effect::Write(p, t) => {
                self.files.insert(p.clone(), t.clone());
            }
            Effect::Remove(p) => {
                self.files.remove(p);
            }
        }
    }

    /// Runs the agent until it ends, or until the daemon has slept `beats` times; gives the exit
    /// code, or `None` where it did not end or was aborted.
    fn run(&mut self, words: &[&str]) -> Option<i32> {
        let args: Vec<String> = words.iter().map(|w| w.to_string()).collect();
        let mut job = Job::new(&args);
        let mut reply = Reply::Nothing;
        loop {
            let (next, turn) = job.step("1.2.3", &reply);
            job = next;
            for e in turn.effects.list.iter() {
                self.effect(e);
            }
            self.steps.push(format!("{:?}", turn.ask));
            reply = match &turn.ask {
                Ask::Run(a) => Reply::Flag(self.succeed(a)),
                Ask::Output(a) => Reply::Ran(self.output(a)),
                Ask::Feed(a, s) => Reply::Fed(self.feed(a, s)),
                Ask::Filter(a, s) => Reply::Fed(self.feed(a, s)),
                Ask::Read(p) => Reply::Text(self.files.get(p).cloned()),
                Ask::MakeParent(_) => Reply::Done(match &self.dir_error {
                    Some(e) => Err(e.clone()),
                    None => Ok(()),
                }),
                Ask::Store(p, t) => Reply::Done(match &self.store_error {
                    Some(e) => Err(e.clone()),
                    None => {
                        self.files.insert(p.clone(), t.clone());
                        Ok(())
                    }
                }),
                Ask::Append(p, t) => Reply::Done(match (&self.append_error, self.files.get_mut(p)) {
                    (Some(e), _) => Err(e.clone()),
                    (None, Some(f)) => {
                        f.push_str(t);
                        Ok(())
                    }
                    (None, None) => Err("No such file".to_string()),
                }),
                Ask::Exist(a) => {
                    assert_eq!(
                        a.words,
                        vec!["/run/systemd/system", "/etc/systemd/system/vpnyellod.service"]
                    );
                    Reply::Flag(self.systemd)
                }
                Ask::Settings => Reply::Settings(Settings {
                    vars: self.vars.clone(),
                    file: self.files.get("/etc/vpnyellod/config.env").cloned(),
                    hostname: self.hostname.clone(),
                }),
                Ask::Survey => Reply::Survey(Survey {
                    inet: self.inet.clone(),
                    inet6: self.inet6.clone(),
                    route4: None,
                    route6: None,
                    clock4: Some(1),
                    clock6: Some(1),
                }),
                Ask::Clock => Reply::Clock(Some(1700000000)),
                Ask::Program => Reply::Text(Some("/opt/vpnyellod".to_string())),
                Ask::Sleep(n) => {
                    self.slept.push(*n);
                    if self.slept.len() >= self.beats {
                        return None;
                    }
                    Reply::Nothing
                }
                Ask::Exit(code) => return Some(*code),
                Ask::Abort => return None,
            };
        }
    }
}

const STATE: &str = "/etc/vpnyellod/state.env";
const CONF: &str = "/etc/wireguard/wg0.conf";
const KEY: &str = "/etc/wireguard/server_private.key";
const PSK: &str = "AAAAAAAAAAAAAAAAAAAAAAAAAAAAAAAAAAAAAAAAAAA=";

fn registered() -> World {
    let mut w = World::new();
    w.files.insert(STATE.to_string(), "SERVER_ID=srv-1\nSECRET=s3\n".to_string());
    w.files.insert(CONF.to_string(), "[Interface]\nx = 1\n".to_string());
    w.iface_up = true;
    w
}

fn list(peers: &[(&str, &str, &str, &str)]) -> String {
    let objects: Vec<String> = peers
        .iter()
        .map(|(k, p, a, b)| {
            format!("{{\"id\":9,\"client_pubkey\":\"{k}\",\"preshared\":\"{p}\",\"client_ip4\":\"{a}\",\"client_ip6\":\"{b}\"}}")
        })
        .collect();
    format!("{{\"peers\":[{}],\"poll_interval_secs\":45}}", objects.join(","))
}

// ---------------------------------------------------------------- on

#[test]
fn switching_on() {
    let mut w = World::new();
    w.answers = vec![ok_text(r#"{"server_id":"srv-1","secret":"s3"}"#)];
    assert_eq!(w.run(&["vpnyellod", "on", "--name", "my-box"]), Some(0));
    assert_eq!(
        w.out,
        vec![
            "[vpnyellod] detected: ipv4=203.0.113.7 ipv6=-",
            "[vpnyellod] server pubkey: PUB-of-PRIV=",
            "[vpnyellod] wg0 up on port 51820",
            "[vpnyellod] registered as \"my-box\" → https://vpn.yellod.dpdns.org/ (id srv-1)",
            "[vpnyellod] daemon started (systemctl status vpnyellod)",
            "[vpnyellod] ON — clients can now fetch a .conf for \"my-box\" from the website",
        ]
    );
    assert!(w.err.is_empty());
    assert_eq!(w.file(KEY), "PRIV=");
    assert_eq!(w.file(STATE), "SERVER_ID=srv-1\nSECRET=s3\n");
    assert!(w.file(CONF).contains("PrivateKey = PRIV=\n"));
    assert!(w.file(CONF).contains("-s 10.8.0.0/24 -o ens3 -j MASQUERADE"));
    assert_eq!(
        w.posts,
        vec![(
            "https://vpn.yellod.dpdns.org/api/servers/register".to_string(),
            r#"{"name":"my-box","pubkey":"PUB-of-PRIV=","ipv4":"203.0.113.7","ipv6":"","port":51820,"version":"vpnyellod 1.2.3"}"#.to_string()
        )]
    );
    assert_eq!(
        w.ran,
        vec![
            "sysctl -w net.ipv4.ip_forward=1",
            "sysctl -w net.ipv6.conf.all.forwarding=1",
            "ip link show dev wg0",
            "wg-quick up wg0",
            "ip addr replace 10.8.0.1/24 dev wg0",
            "ip -6 addr replace fd86:ea04::1/64 dev wg0",
            "systemctl daemon-reload",
            "systemctl enable --now vpnyellod.service",
        ]
    );
}

#[test]
fn switching_on_again_keeps_key_and_peers() {
    let mut w = World::new();
    w.answers = vec![
        ok_text(r#"{"server_id":"srv-1","secret":"s3"}"#),
        ok_text(r#"{"server_id":"srv-1","secret":"s4"}"#),
    ];
    assert_eq!(w.run(&["vpnyellod", "on"]), Some(0));
    let peer = "[Peer]\nPublicKey = K=\nAllowedIPs = 10.8.0.2/32\n";
    w.files.get_mut(CONF).unwrap().push_str(peer);
    let conf = w.file(CONF);
    w.genkey = Some("OTHER=\n".to_string());
    w.ran.clear();
    assert_eq!(w.run(&["vpnyellod", "on"]), Some(0));
    assert_eq!(w.file(KEY), "PRIV=");
    assert_eq!(w.file(CONF), conf);
    assert_eq!(w.file(STATE), "SERVER_ID=srv-1\nSECRET=s4\n");
    assert!(!w.ran.contains(&"wg-quick up wg0".to_string()));
    assert_eq!(w.ran.iter().filter(|l| l.starts_with("ip addr replace")).count(), 2);
}

#[test]
fn switching_on_without_systemd() {
    let mut w = World::new();
    w.systemd = false;
    w.answers = vec![ok_text(r#"{"server_id":"srv-1"}"#)];
    assert_eq!(w.run(&["vpnyellod", "on"]), Some(0));
    assert_eq!(w.file(STATE), "SERVER_ID=srv-1\nSECRET=\n");
    assert_eq!(
        w.ran.last().unwrap(),
        "sh -c setsid nohup /opt/vpnyellod daemon >/var/log/vpnyellod.log 2>&1 < /dev/null & echo $! > /run/vpnyellod.pid"
    );
    assert_eq!(
        w.out[w.out.len() - 2],
        "[vpnyellod] daemon started in background (no systemd; log /var/log/vpnyellod.log)"
    );
}

#[test]
fn a_unit_that_does_not_start_is_a_warning() {
    let mut w = World::new();
    w.unit_starts = false;
    w.answers = vec![ok_text(r#"{"server_id":"srv-1"}"#)];
    assert_eq!(w.run(&["vpnyellod", "on"]), Some(0));
    assert_eq!(
        w.err,
        vec!["warn: could not start systemd unit — run `sudo vpnyellod daemon &` manually"]
    );
}

#[test]
fn switching_on_with_ipv6_only() {
    let mut w = World::new();
    w.inet = None;
    w.inet6 = Some("2: eth0 inet6 2a01::7/64 scope global preferred_lft forever".to_string());
    w.answers = vec![ok_text(r#"{"server_id":"srv-1"}"#)];
    assert_eq!(w.run(&["vpnyellod", "on"]), Some(0));
    assert_eq!(w.out[0], "[vpnyellod] detected: ipv4=- ipv6=2a01::7");
    assert!(w.posts[0].1.contains(r#""ipv4":"","ipv6":"2a01::7""#));
}

fn on_fails(w: &mut World, message: &str) {
    assert_eq!(w.run(&["vpnyellod", "on"]), Some(1));
    assert_eq!(w.err, vec![message]);
    assert!(!w.files.contains_key(STATE));
}

#[test]
fn switching_on_needs_root() {
    let mut w = World::new();
    w.root = false;
    on_fails(&mut w, "error: run as root: sudo vpnyellod on");
    assert!(w.out.is_empty() && w.ran.is_empty() && w.files.is_empty());
}

#[test]
fn switching_on_needs_tools() {
    for tool in ["wg", "wg-quick", "ip", "curl"] {
        let mut w = World::new();
        w.missing_tool = Some(tool.to_string());
        on_fails(&mut w, &format!("error: missing `{tool}` — install it first (or use install.sh which handles debian/fedora/arch/gentoo)"));
        assert!(w.ran.is_empty() && w.files.is_empty());
    }
}

#[test]
fn switching_on_needs_an_address() {
    let mut w = World::new();
    w.inet = None;
    on_fails(&mut w, "error: no global IPv4 or IPv6 found — connect to the internet first");
    assert_eq!(w.out, vec!["[vpnyellod] detected: ipv4=- ipv6=-"]);
}

#[test]
fn switching_on_needs_a_key() {
    let mut w = World::new();
    w.genkey = None;
    on_fails(&mut w, "error: wg genkey failed — install wireguard-tools first");
    let mut w = World::new();
    w.dir_error = Some("denied".to_string());
    on_fails(&mut w, "error: denied");
    let mut w = World::new();
    w.store_error = Some("disk full".to_string());
    on_fails(&mut w, "error: write /etc/wireguard/server_private.key: disk full");
    let mut w = World::new();
    w.pubkey_ok = false;
    on_fails(&mut w, "error: wg pubkey failed");
}

#[test]
fn a_blank_key_file_gets_a_new_key() {
    let mut w = World::new();
    w.files.insert(KEY.to_string(), " \n".to_string());
    w.answers = vec![ok_text(r#"{"server_id":"srv-1"}"#)];
    assert_eq!(w.run(&["vpnyellod", "on"]), Some(0));
    assert_eq!(w.file(KEY), "PRIV=");
}

#[test]
fn switching_on_needs_a_configuration_file() {
    let mut w = World::new();
    w.files.insert(KEY.to_string(), "PRIV=\n".to_string());
    w.store_error = Some("disk full".to_string());
    on_fails(&mut w, "error: write /etc/wireguard/wg0.conf: disk full");
    let mut w = World::new();
    w.files.insert(KEY.to_string(), "PRIV=\n".to_string());
    w.dir_error = Some("denied".to_string());
    on_fails(&mut w, "error: denied");
}

#[test]
fn switching_on_needs_the_interface() {
    let mut w = World::new();
    w.quick_ok = false;
    on_fails(&mut w, "error: wg-quick up wg0 failed");
}

#[test]
fn switching_on_needs_the_registry() {
    let mut w = World::new();
    on_fails(&mut w, "error: register failed: registry unreachable: https://vpn.yellod.dpdns.org/api/servers/register curl: (7) refused");
    let mut w = World::new();
    w.answers = vec![ok_text(r#"{"error":"no"}"#)];
    on_fails(&mut w, r#"error: bad register response: {"error":"no"}"#);
}

// ---------------------------------------------------------------- off and uninstall

#[test]
fn switching_off() {
    let mut w = registered();
    w.files.insert(KEY.to_string(), "PRIV=".to_string());
    w.files.insert("/run/vpnyellod.pid".to_string(), "4711\n".to_string());
    w.answers = vec![ok_text("{}")];
    assert_eq!(w.run(&["vpnyellod", "off"]), Some(0));
    assert_eq!(
        w.out,
        vec![
            "[vpnyellod] deregistered from website",
            "[vpnyellod] wg0 down",
            "[vpnyellod] OFF",
        ]
    );
    assert_eq!(
        w.posts,
        vec![(
            "https://vpn.yellod.dpdns.org/api/servers/srv-1/offline".to_string(),
            r#"{"secret":"s3"}"#.to_string()
        )]
    );
    assert_eq!(
        w.ran,
        vec![
            "systemctl disable --now vpnyellod.service",
            "kill 4711",
            "pkill -f vpnyellod daemon",
            "ip link show dev wg0",
            "wg-quick down wg0",
        ]
    );
    assert!(w.files.contains_key(KEY) && w.files.contains_key(CONF) && w.files.contains_key(STATE));
    assert!(!w.files.contains_key("/run/vpnyellod.pid"));
}

#[test]
fn switching_off_without_a_registry() {
    let mut w = registered();
    w.systemd = false;
    assert_eq!(w.run(&["vpnyellod", "off"]), Some(0));
    assert_eq!(
        w.err,
        vec!["[vpnyellod] deregister skipped (registry unreachable: https://vpn.yellod.dpdns.org/api/servers/srv-1/offline curl: (7) refused)"]
    );
    assert!(!w.iface_up);
}

#[test]
fn switching_off_what_was_never_on() {
    let mut w = World::new();
    w.systemd = false;
    assert_eq!(w.run(&["vpnyellod", "off"]), Some(0));
    assert!(w.posts.is_empty());
    assert_eq!(w.out, vec!["[vpnyellod] OFF"]);
    assert_eq!(w.ran, vec!["pkill -f vpnyellod daemon", "ip link show dev wg0"]);
}

#[test]
fn switching_off_needs_root() {
    let mut w = registered();
    w.root = false;
    assert_eq!(w.run(&["vpnyellod", "off"]), Some(1));
    assert_eq!(w.err, vec!["error: run as root: sudo vpnyellod off"]);
    assert!(w.ran.is_empty());
    let mut w = registered();
    w.root = false;
    assert_eq!(w.run(&["vpnyellod", "uninstall"]), Some(1));
    assert_eq!(w.err, vec!["error: run as root: sudo vpnyellod uninstall"]);
}

#[test]
fn uninstalling_removes_everything() {
    let mut w = registered();
    w.files.insert(KEY.to_string(), "PRIV=".to_string());
    w.files.insert("/etc/vpnyellod/config.env".to_string(), "VY_NAME=x\n".to_string());
    w.files.insert("/var/lib/vpnyellod/last.json".to_string(), "{}".to_string());
    w.files.insert("/etc/systemd/system/vpnyellod.service".to_string(), "[Unit]".to_string());
    w.answers = vec![ok_text("{}")];
    assert_eq!(w.run(&["vpnyellod", "uninstall"]), Some(0));
    assert!(w.files.is_empty());
    assert!(!w.iface_up);
    assert_eq!(w.out[0], "[vpnyellod] deregistered from website");
}

// ---------------------------------------------------------------- status

#[test]
fn the_status_of_a_server_that_is_on() {
    let mut w = registered();
    w.root = false;
    w.wg_peers = vec!["A=".to_string(), "B=".to_string()];
    w.files.insert("/var/lib/vpnyellod/last.json".to_string(), "{\"n\":1}".to_string());
    let files = w.files.clone();
    assert_eq!(w.run(&["vpnyellod", "status"]), Some(0));
    assert_eq!(
        w.out,
        vec![
            "vpnyellod 1.2.3",
            "registry : https://vpn.yellod.dpdns.org",
            "detected : ipv4=203.0.113.7 ipv6=-",
            "tunnel   : wg0 (port 51820) UP",
            "peers    : 2 client(s)",
            "server_id: srv-1",
            "last sync: {\"n\":1}",
            "daemon   : systemd active",
        ]
    );
    assert_eq!(w.files, files);
    assert_eq!(w.ran, vec!["ip link show dev wg0", "ip link show dev wg0"]);
}

#[test]
fn the_status_of_a_server_that_is_not() {
    let mut w = World::new();
    w.systemd = false;
    assert_eq!(w.run(&["vpnyellod", "status"]), Some(0));
    assert_eq!(
        w.out[3..],
        [
            "tunnel   : wg0 (port 51820) DOWN",
            "state    : not registered (run `sudo vpnyellod on`)",
            "daemon   : not running",
        ]
    );
    w.out.clear();
    w.files.insert("/run/vpnyellod.pid".to_string(), "1".to_string());
    assert_eq!(w.run(&["vpnyellod", "status"]), Some(0));
    assert_eq!(w.out.last().unwrap(), "daemon   : background pidfile present");
}

#[test]
fn no_peers_are_zero_clients() {
    let mut w = registered();
    assert_eq!(w.run(&["vpnyellod", "status"]), Some(0));
    assert!(w.out.contains(&"peers    : 0 client(s)".to_string()));
}

// ---------------------------------------------------------------- the daemon

#[test]
fn a_heartbeat_brings_the_peers_in_step() {
    let mut w = registered();
    w.wg_peers = vec!["STALE-KEY-0123456789=".to_string(), "KEPT=".to_string()];
    w.files.insert(
        CONF.to_string(),
        "[Interface]\nx = 1\n\n[Peer]\nPublicKey = STALE-KEY-0123456789=\nAllowedIPs = y\n".to_string(),
    );
    w.answers = vec![ok_text(&list(&[
        ("KEPT=", PSK, "10.8.0.2", "fd86:ea04::2"),
        ("NEW-KEY-0123456789=", PSK, "10.8.0.3", "fd86:ea04::3"),
    ]))];
    assert_eq!(w.run(&["vpnyellod", "daemon"]), None);
    assert_eq!(
        w.out,
        vec![
            "[vpnyellod] daemon: syncing srv-1 every ~30s",
            "[vpnyellod] + peer NEW-KEY-0123 (10.8.0.3/fd86:ea04::3)",
            "[vpnyellod] - stale peer STALE-KEY-01...",
            "[vpnyellod] applied 1 new peer(s)",
        ]
    );
    assert!(w.err.is_empty());
    assert_eq!(w.wg_peers, vec!["KEPT=", "NEW-KEY-0123456789="]);
    assert_eq!(w.slept, vec![45]);
    assert_eq!(
        w.posts,
        vec![(
            "https://vpn.yellod.dpdns.org/api/servers/srv-1/heartbeat".to_string(),
            r#"{"secret":"s3","ipv4":"203.0.113.7","ipv6":"","port":51820}"#.to_string()
        )]
    );
    assert_eq!(
        w.file("/var/lib/vpnyellod/last.json"),
        r#"{"server_id":"srv-1","last_ok":1700000000,"peers_applied":2}"#
    );
    assert!(w.ran.contains(&"wg set wg0 peer NEW-KEY-0123456789= preshared-key /tmp/vpnyellod-NEW-KEY-.psk allowed-ips 10.8.0.3/32,fd86:ea04::3/128".to_string()));
    assert!(!w.files.contains_key("/tmp/vpnyellod-NEW-KEY-.psk"));
    assert_eq!(
        w.file(CONF),
        format!("[Interface]\nx = 1\n\n[Peer]\nPublicKey = NEW-KEY-0123456789=\nPresharedKey = {PSK}\nAllowedIPs = 10.8.0.3/32, fd86:ea04::3/128\n")
    );
}

#[test]
fn heartbeats_go_on() {
    let mut w = registered();
    w.beats = 3;
    w.answers = vec![
        ok_text(&list(&[])),
        Fed::Ended { ok: false, stdout: String::new(), stderr: "timeout".to_string() },
        ok_text("{\"peers\":[],\"poll_interval_secs\":4}"),
    ];
    assert_eq!(w.run(&["vpnyellod", "daemon"]), None);
    assert_eq!(w.slept, vec![45, 45, 45]);
    assert_eq!(
        w.err,
        vec!["[vpnyellod] sync failed: registry unreachable: https://vpn.yellod.dpdns.org/api/servers/srv-1/heartbeat timeout"]
    );
    assert_eq!(w.posts.len(), 3);
}

#[test]
fn the_pace_can_come_from_the_environment() {
    let mut w = registered();
    w.vars = vec![("VY_POLL_EFFECTIVE".to_string(), "77".to_string())];
    assert_eq!(w.run(&["vpnyellod", "daemon"]), None);
    assert_eq!(w.slept, vec![77]);
    let mut w = registered();
    w.vars = vec![("VY_POLL".to_string(), "10".to_string())];
    assert_eq!(w.run(&["vpnyellod", "daemon"]), None);
    assert_eq!(w.slept, vec![10]);
}

#[test]
fn a_heartbeat_raises_the_interface() {
    let mut w = registered();
    w.iface_up = false;
    w.answers = vec![ok_text(&list(&[]))];
    assert_eq!(w.run(&["vpnyellod", "daemon"]), None);
    assert!(w.iface_up);
    assert!(w.err.is_empty());
    let mut w = registered();
    w.iface_up = false;
    w.quick_ok = false;
    w.answers = vec![ok_text(&list(&[]))];
    assert_eq!(w.run(&["vpnyellod", "daemon"]), None);
    assert_eq!(w.err, vec!["[vpnyellod] sync failed: wg-quick up wg0 failed"]);
}

#[test]
fn peers_that_cannot_be_added() {
    let cases = [
        (("K=", PSK, "", "b"), "peer record incomplete"),
        (("K=", PSK, "a", ""), "peer record incomplete"),
        (("K=", "", "a", "b"), "peer record incomplete"),
        (("K=", "short", "a", "b"), "bad preshared key"),
    ];
    for (p, e) in cases {
        let mut w = registered();
        w.answers = vec![ok_text(&list(&[p, ("L=", PSK, "10.8.0.3", "fd86:ea04::3")]))];
        assert_eq!(w.run(&["vpnyellod", "daemon"]), None);
        assert_eq!(w.err, vec![format!("[vpnyellod] apply peer failed: {e}")]);
        assert_eq!(w.wg_peers, vec!["L="]);
    }
    let peer = [("K=", PSK, "10.8.0.3", "fd86:ea04::3")];
    let mut w = registered();
    w.wg_set_ok = false;
    w.answers = vec![ok_text(&list(&peer))];
    assert_eq!(w.run(&["vpnyellod", "daemon"]), None);
    assert_eq!(w.err, vec!["[vpnyellod] apply peer failed: wg set failed"]);
    assert!(!w.files.keys().any(|p| p.ends_with(".psk")));
    let mut w = registered();
    w.store_error = Some("disk full".to_string());
    w.answers = vec![ok_text(&list(&peer))];
    assert_eq!(w.run(&["vpnyellod", "daemon"]), None);
    assert_eq!(w.err, vec!["[vpnyellod] apply peer failed: disk full"]);
    let mut w = registered();
    w.append_error = Some("read-only".to_string());
    w.answers = vec![ok_text(&list(&peer))];
    assert_eq!(w.run(&["vpnyellod", "daemon"]), None);
    assert_eq!(w.err, vec!["[vpnyellod] apply peer failed: read-only"]);
}

#[test]
fn a_peer_that_the_file_knows_is_not_added_to_it_again() {
    let mut w = registered();
    w.files.insert(CONF.to_string(), "[Peer]\nPublicKey = K=\n".to_string());
    w.answers = vec![ok_text(&list(&[("K=", PSK, "10.8.0.3", "fd86:ea04::3")]))];
    assert_eq!(w.run(&["vpnyellod", "daemon"]), None);
    assert_eq!(w.file(CONF), "[Peer]\nPublicKey = K=\n");
    assert_eq!(w.wg_peers, vec!["K="]);
}

#[test]
fn a_key_that_cannot_be_cut_ends_the_agent() {
    let mut w = registered();
    w.answers = vec![ok_text(&list(&[("1234567—", PSK, "10.8.0.3", "fd86:ea04::3")]))];
    assert_eq!(w.run(&["vpnyellod", "daemon"]), None);
    assert_eq!(w.steps.last().unwrap(), "Abort");
    assert!(w.slept.is_empty());
    let mut w = registered();
    w.wg_peers = vec!["12345678901—".to_string()];
    w.answers = vec![ok_text(&list(&[]))];
    assert_eq!(w.run(&["vpnyellod", "daemon"]), None);
    assert_eq!(w.steps.last().unwrap(), "Abort");
}

#[test]
fn the_daemon_needs_root_and_a_registration() {
    let mut w = registered();
    w.root = false;
    assert_eq!(w.run(&["vpnyellod", "daemon"]), Some(1));
    assert_eq!(w.err, vec!["error: daemon needs root"]);
    let mut w = World::new();
    assert_eq!(w.run(&["vpnyellod", "daemon"]), Some(1));
    assert_eq!(w.err, vec!["error: not registered — run `sudo vpnyellod on` first"]);
    let mut w = World::new();
    w.files.insert(STATE.to_string(), "SERVER_ID=srv-1\nSECRET=\n".to_string());
    assert_eq!(w.run(&["vpnyellod", "daemon"]), Some(1));
}

// ---------------------------------------------------------------- the rest

#[test]
fn version_and_usage() {
    let mut w = World::new();
    assert_eq!(w.run(&["vpnyellod", "--version"]), Some(0));
    assert_eq!(w.run(&["vpnyellod", "version"]), Some(0));
    assert_eq!(w.out, vec!["vpnyellod 1.2.3", "vpnyellod 1.2.3"]);
    for words in [&["vpnyellod"][..], &["vpnyellod", "help"][..], &[][..]] {
        w.err.clear();
        assert_eq!(w.run(words), Some(2));
        assert_eq!(
            w.err,
            vec![
                "vpnyellod 1.2.3 — YellowD VPN server agent",
                "  sudo vpnyellod on [--name NAME] [--registry URL]",
                "  sudo vpnyellod off",
                "  vpnyellod status",
                "  sudo vpnyellod uninstall",
            ]
        );
    }
    assert_eq!(usage("1.2.3").effects.list.len(), 5);
}
