use vpnyellod::config::{
    cfg_get, dispatch, find_variable, hostname, label_of, non_empty, Cfg, Command, Settings,
};

fn some(s: &str) -> Option<String> {
    Some(s.to_string())
}

fn vars(list: &[(&str, &str)]) -> Vec<(String, String)> {
    list.iter().map(|(k, v)| (k.to_string(), v.to_string())).collect()
}

#[test]
fn settings_come_from_the_environment_then_the_file() {
    let file = some("# VY_NAME=no\n\n VY_NAME = \"box one\" \nVY_NAME=two\nVY_PORT=\nVY_PORT=\"\"\nVY_PORT = 7\nbroken\n");
    assert_eq!(cfg_get("VY_NAME", &some("  env  "), &file), "env");
    assert_eq!(cfg_get("VY_NAME", &some("   "), &file), "box one");
    assert_eq!(cfg_get("VY_NAME", &None, &file), "box one");
    assert_eq!(cfg_get("VY_PORT", &None, &file), "7");
    assert_eq!(cfg_get("VY_POLL", &None, &file), "");
    assert_eq!(cfg_get("VY_NAME", &None, &None), "");
    assert_eq!(cfg_get("K", &None, &some("K=a=b")), "a=b");
    assert_eq!(cfg_get("K", &None, &some("K=\" x \"")), " x ");
}

#[test]
fn variables() {
    let v = vars(&[("A", "1"), ("B", "2"), ("A", "3")]);
    assert_eq!(find_variable(&v, "A"), some("1"));
    assert_eq!(find_variable(&v, "B"), some("2"));
    assert_eq!(find_variable(&v, "C"), None);
}

#[test]
fn blank_values_fall_back() {
    assert_eq!(non_empty(" \t".to_string(), "d"), "d");
    assert_eq!(non_empty(String::new(), "d"), "d");
    assert_eq!(non_empty(" x ".to_string(), "d"), " x ");
}

#[test]
fn names_of_boxes() {
    assert_eq!(hostname(&some("My-Box.Example.ORG\n")), "my-box-example-org");
    assert_eq!(hostname(&some("__A__\n")), "a");
    assert_eq!(hostname(&None), "server");
    assert_eq!(hostname(&some("")), "");
    assert_eq!(hostname(&some("Ünï")), "n");
    assert_eq!(hostname(&some(&"x".repeat(40))), "x".repeat(32));
    assert_eq!(label_of("abcdefghijklmnopqrstuvwxyz01234-rest"), "abcdefghijklmnopqrstuvwxyz01234-");
    assert_eq!(label_of("my-box"), "my-box");
}

fn settings(list: &[(&str, &str)]) -> Settings {
    Settings { vars: vars(list), file: None, hostname: some("Host\n") }
}

#[test]
fn defaults() {
    let c = Cfg::load(&settings(&[]));
    assert_eq!(c.registry, "https://vpn.yellod.dpdns.org");
    assert_eq!(c.iface, "wg0");
    assert_eq!(c.port, 51820);
    assert_eq!(c.vpn4, "10.8.0.1/24");
    assert_eq!(c.vpn6, "fd86:ea04::1/64");
    assert_eq!(c.name, "host");
    assert_eq!(c.poll, 30);
    assert_eq!(c.conf_path, "/etc/wireguard/wg0.conf");
    assert_eq!(c.key_path, "/etc/wireguard/server_private.key");
}

#[test]
fn everything_can_be_set() {
    let c = Cfg::load(&settings(&[
        ("VY_REGISTRY", "http://localhost:8080//"),
        ("VY_IFACE", "wg7"),
        ("VY_PORT", "4500"),
        ("VY_VPN4", "10.9.0.1/16"),
        ("VY_VPN6", "fd00::1/48"),
        ("VY_NAME", "my-box"),
        ("VY_POLL", "60"),
        ("VY_KEY", "/root/key"),
    ]));
    assert_eq!(c.registry, "http://localhost:8080");
    assert_eq!(c.iface, "wg7");
    assert_eq!(c.port, 4500);
    assert_eq!(c.vpn4, "10.9.0.1/16");
    assert_eq!(c.vpn6, "fd00::1/48");
    assert_eq!(c.name, "my-box");
    assert_eq!(c.poll, 60);
    assert_eq!(c.conf_path, "/etc/wireguard/wg7.conf");
    assert_eq!(c.key_path, "/root/key");
}

#[test]
fn numbers_out_of_range() {
    assert_eq!(Cfg::load(&settings(&[("VY_POLL", "1")])).poll, 5);
    assert_eq!(Cfg::load(&settings(&[("VY_POLL", "9999")])).poll, 600);
    assert_eq!(Cfg::load(&settings(&[("VY_POLL", "soon")])).poll, 30);
    assert_eq!(Cfg::load(&settings(&[("VY_PORT", "65536")])).port, 51820);
    assert_eq!(Cfg::load(&settings(&[("VY_PORT", "65535")])).port, 65535);
    assert_eq!(Cfg::load(&settings(&[("VY_PORT", "0")])).port, 0);
}

fn with_args(args: &[&str]) -> (String, String) {
    let mut c = Cfg::load(&settings(&[]));
    let words: Vec<String> = args.iter().map(|a| a.to_string()).collect();
    c.apply_args(&words);
    assert_eq!(c.iface, "wg0");
    assert_eq!(c.port, 51820);
    (c.name, c.registry)
}

#[test]
fn options() {
    let registry = "https://vpn.yellod.dpdns.org";
    assert_eq!(with_args(&[]), ("host".to_string(), registry.to_string()));
    assert_eq!(with_args(&["--name", "my-box"]), ("my-box".to_string(), registry.to_string()));
    assert_eq!(
        with_args(&["x", "--registry", "http://l/", "--name", "n", "--name", "m"]),
        ("m".to_string(), "http://l".to_string())
    );
    assert_eq!(with_args(&["--name"]), ("host".to_string(), registry.to_string()));
    assert_eq!(with_args(&["--name", "--registry", "r"]), ("--registry".to_string(), registry.to_string()));
    assert_eq!(with_args(&["--registry"]), ("host".to_string(), registry.to_string()));
}

#[test]
fn commands() {
    let args = |w: &[&str]| w.iter().map(|a| a.to_string()).collect::<Vec<String>>();
    assert!(matches!(dispatch(&args(&["p", "on"])), Command::On));
    assert!(matches!(dispatch(&args(&["p", "off", "x"])), Command::Off));
    assert!(matches!(dispatch(&args(&["p", "status"])), Command::Status));
    assert!(matches!(dispatch(&args(&["p", "daemon"])), Command::Daemon));
    assert!(matches!(dispatch(&args(&["p", "uninstall"])), Command::Uninstall));
    assert!(matches!(dispatch(&args(&["p", "version"])), Command::Version));
    assert!(matches!(dispatch(&args(&["p", "--version"])), Command::Version));
    assert!(matches!(dispatch(&args(&["p", "On"])), Command::Usage));
    assert!(matches!(dispatch(&args(&["p"])), Command::Usage));
    assert!(matches!(dispatch(&args(&[])), Command::Usage));
}
