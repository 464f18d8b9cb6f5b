use vpnyellod::address::{
    default_iface, default_src, detect, list_addrs, nanos, parse_octets, preferred_lft, select_best,
    v4_global, v6_global, Addr, Survey,
};

fn some(s: &str) -> Option<String> {
    Some(s.to_string())
}

#[test]
fn preferred_lifetimes() {
    let line = "2: eth0 inet6 2a01::5/64 scope global valid_lft 86400sec preferred_lft 14400sec";
    assert_eq!(preferred_lft(line), 14400);
    assert_eq!(preferred_lft("valid_lft forever preferred_lft forever"), u64::MAX);
    assert_eq!(preferred_lft("preferred_lft 0sec"), 0);
    assert_eq!(preferred_lft("preferred_lft soon"), 0);
    assert_eq!(preferred_lft("preferred_lft"), 0);
    assert_eq!(preferred_lft("valid_lft 5sec"), 0);
    assert_eq!(preferred_lft("preferred_lft x preferred_lft 5sec"), 0);
    assert_eq!(preferred_lft("preferred_lft 7"), 7);
    assert_eq!(preferred_lft("preferred_lft 7secsec"), 7);
}

#[test]
fn dotted_numbers() {
    assert_eq!(parse_octets("1.2.3.4"), vec![1, 2, 3, 4]);
    assert_eq!(parse_octets("1.x.3"), vec![1, 3]);
    assert_eq!(parse_octets(""), Vec::<u32>::new());
    assert_eq!(parse_octets("4294967295.4294967296"), vec![4294967295]);
}

#[test]
fn global_v4_addresses() {
    for ip in [
        "8.8.8.8", "1.2.3.4", "172.15.0.1", "172.32.0.1", "192.167.1.1", "100.63.0.1",
        "100.128.0.1", "169.253.1.1", "223.255.255.255", "11.0.0.1", "x.8.8.8.8", "+8.8.8.8",
    ] {
        assert!(v4_global(ip), "{ip}");
    }
    for ip in [
        "", "10.0.0.1", "172.16.0.1", "172.31.255.255", "192.168.1.1", "127.0.0.1", "169.254.1.1",
        "100.64.0.1", "100.127.255.255", "0.1.2.3", "224.0.0.1", "255.255.255.255", "1.2.3",
        "1.2.3.4.5", "1.2.3.256", "1.2.3.x",
    ] {
        assert!(!v4_global(ip), "{ip}");
    }
}

#[test]
fn global_v6_addresses() {
    for ip in [
        "2a01:4f8::1", "3fff::1", "2001:4860:4860::8888", "2001:DB9::1", "2a01::1%eth0", "2", "3abc",
    ] {
        assert!(v6_global(ip), "{ip}");
    }
    for ip in [
        "", "::1", "::", "fe80::1", "fe80::1%eth0", "fd86:ea04::1", "fc00::1", "ff02::1",
        "2001:db8::1", "2001:DB8::1", "2001:dB8:1::", "%2a01::1", ":2", "1::",
    ] {
        assert!(!v6_global(ip), "{ip}");
    }
}

const INET6: &str = "1: lo    inet6 ::1/128 scope host \\       valid_lft forever preferred_lft forever
2: eth0    inet6 2a01:db9::aaaa/64 scope global temporary dynamic \\       valid_lft 604000sec preferred_lft 85000sec
2: eth0    inet6 2a01:db9::1/64 scope global dynamic mngtmpaddr \\       valid_lft 86400sec preferred_lft 14400sec
2: eth0    inet6 2a01:db9::2/64 scope global deprecated dynamic \\       valid_lft 86400sec preferred_lft 0sec
2: eth0    inet6 fe80::1/64 scope link \\       valid_lft forever preferred_lft forever
3: wg0    inet6 fd86:ea04::1/64 scope global \\       valid_lft forever preferred_lft forever";

const INET: &str = "1: lo    inet 127.0.0.1/8 scope host lo\\       valid_lft forever preferred_lft forever
2: eth0    inet 203.0.113.7/24 brd 203.0.113.255 scope global eth0\\       valid_lft forever preferred_lft forever
3: wg0    inet 10.8.0.1/24 scope global wg0\\       valid_lft forever preferred_lft forever";

#[test]
fn addresses_are_listed() {
    let v: Vec<(String, bool, bool, u64)> = list_addrs("inet6", &some(INET6))
        .into_iter()
        .map(|a| (a.ip, a.stable, a.deprecated, a.preferred_lft))
        .collect();
    assert_eq!(
        v,
        vec![
            ("2a01:db9::aaaa".to_string(), false, false, 85000),
            ("2a01:db9::1".to_string(), true, false, 14400),
            ("2a01:db9::2".to_string(), true, true, 0),
        ]
    );
    let v = list_addrs("inet", &some(INET));
    assert_eq!(v.len(), 1);
    assert_eq!(v[0].ip, "203.0.113.7");
    assert!(v[0].stable && !v[0].deprecated);
    assert_eq!(v[0].preferred_lft, u64::MAX);
    assert!(list_addrs("inet", &None).is_empty());
    assert!(list_addrs("inet6", &some(INET)).is_empty());
    assert!(list_addrs("inet", &some("2: eth0 inet")).is_empty());
}

#[test]
fn routes() {
    let out = some("8.8.8.8 via 203.0.113.1 dev eth0 src 203.0.113.7 uid 0 \n    cache");
    assert_eq!(default_src(&out), some("203.0.113.7"));
    assert_eq!(default_iface(&out, &None), some("eth0"));
    assert_eq!(default_src(&some("8.8.8.8 dev eth0 src")), None);
    assert_eq!(default_src(&None), None);
    assert_eq!(default_iface(&None, &some("x dev eth1 y")), some("eth1"));
    assert_eq!(default_iface(&some("unreachable"), &some("x dev eth1 y")), some("eth1"));
    assert_eq!(default_iface(&some("8.8.8.8 dev"), &some("x dev eth1")), some("eth1"));
    assert_eq!(default_iface(&None, &None), None);
}

fn addr(ip: &str, stable: bool, deprecated: bool, preferred_lft: u64) -> Addr {
    Addr { ip: ip.to_string(), stable, deprecated, preferred_lft }
}

#[test]
fn the_default_route_wins_where_it_is_stable() {
    let v = vec![addr("a", true, false, 9), addr("b", true, false, 5)];
    for n in 0..5 {
        assert_eq!(select_best(&v, &some("b"), n), some("b"));
        assert_eq!(select_best(&v, &None, n), some("a"));
        assert_eq!(select_best(&v, &some("c"), n), some("a"));
    }
}

#[test]
fn a_temporary_default_route_gives_way_to_a_stable_address() {
    let v = vec![addr("temp", false, false, 99), addr("stable", true, false, 5)];
    assert_eq!(select_best(&v, &some("temp"), 0), some("stable"));
    let v = vec![addr("temp", false, false, 99)];
    assert_eq!(select_best(&v, &some("temp"), 0), some("temp"));
}

#[test]
fn a_deprecated_default_route_gives_way() {
    let v = vec![addr("old", true, true, 0), addr("new", true, false, 5)];
    assert_eq!(select_best(&v, &some("old"), 0), some("new"));
}

#[test]
fn a_stable_address_comes_before_a_temporary_one() {
    let v = vec![addr("2a00::1", true, true, 0), addr("2a00::2", false, false, 600)];
    assert_eq!(select_best(&v, &None, 0), some("2a00::1"));
    assert_eq!(select_best(&v, &some("2a00::2"), 0), some("2a00::1"));
}

#[test]
fn a_temporary_default_route_wins_among_temporary_addresses() {
    let v = vec![addr("2a00::1", false, false, 100), addr("2a00::2", false, false, 200)];
    assert_eq!(select_best(&v, &some("2a00::1"), 0), some("2a00::1"));
    assert_eq!(select_best(&v, &None, 0), some("2a00::2"));
    let v = vec![addr("2a00::1", false, true, 100), addr("2a00::2", false, false, 50)];
    assert_eq!(select_best(&v, &some("2a00::1"), 0), some("2a00::2"));
}

#[test]
fn deprecated_addresses_come_last() {
    let v = vec![addr("old", true, true, 99), addr("new", true, false, 1)];
    assert_eq!(select_best(&v, &None, 0), some("new"));
    let v = vec![addr("old temp", false, true, 99), addr("temp", false, false, 1)];
    assert_eq!(select_best(&v, &None, 0), some("temp"));
    let v = vec![addr("old temp", false, true, 99), addr("old", true, true, 1)];
    assert_eq!(select_best(&v, &None, 0), some("old"));
}

#[test]
fn ties_are_decided_by_the_clock() {
    let v = vec![
        addr("a", true, false, 5),
        addr("x", true, false, 4),
        addr("b", true, false, 5),
        addr("c", true, false, 5),
    ];
    let picks: Vec<Option<String>> = (0..4).map(|n| select_best(&v, &None, n)).collect();
    assert_eq!(picks, vec![some("a"), some("b"), some("c"), some("a")]);
}

#[test]
fn no_candidates_no_choice() {
    assert_eq!(select_best(&vec![], &some("a"), 3), None);
}

#[test]
fn clock_readings() {
    assert_eq!(nanos(None), 1);
    assert_eq!(nanos(Some(5)), 5);
    assert_eq!(nanos(Some(u64::MAX as u128 + 3)), 2);
    assert_eq!(nanos(Some(1_700_000_000_123_456_789)), 1_700_000_000_123_456_789);
}

fn survey() -> Survey {
    Survey { inet: None, inet6: None, route4: None, route6: None, clock4: None, clock6: None }
}

#[test]
fn each_family_is_detected_by_itself() {
    let both = Survey {
        inet: some(INET),
        inet6: some(INET6),
        route4: some("8.8.8.8 via 203.0.113.1 dev eth0 src 203.0.113.7"),
        route6: some("2001:4860:4860::8888 from :: via fe80::1 dev eth0 src 2a01:db9::aaaa"),
        clock4: Some(17),
        clock6: Some(18),
    };
    assert_eq!(detect(&both), (some("203.0.113.7"), some("2a01:db9::1")));
    let v4 = Survey { inet: some(INET), ..survey() };
    assert_eq!(detect(&v4), (some("203.0.113.7"), None));
    let v6 = Survey { inet6: some(INET6), ..survey() };
    assert_eq!(detect(&v6), (None, some("2a01:db9::1")));
    assert_eq!(detect(&survey()), (None, None));
}
