use vpnyellod::conf::{
    key_line_of, peer_sections, render_conf, section_to_add, v4net, v6net, without_peer,
};
use vpnyellod::reply::WantedPeer;

#[test]
fn v4_networks() {
    assert_eq!(v4net("10.8.0.1/24"), "10.8.0.0/24");
    assert_eq!(v4net("10.8.7.9/16"), "10.8.0.0/16");
    assert_eq!(v4net("10.8.7.9"), "10.8.7.0/24");
    assert_eq!(v4net("203.0.113.77/28"), "203.0.113.64/28");
    assert_eq!(v4net("1.2.3.4/0"), "0.0.0.0/0");
    assert_eq!(v4net("1.2.3.4/32"), "1.2.3.4/32");
    assert_eq!(v4net("1.2.3.4/99"), "1.2.3.4/32");
    assert_eq!(v4net("1.2.3.4/x"), "1.2.3.0/24");
    assert_eq!(v4net("1.2.3.4/31"), "1.2.3.4/31");
    assert_eq!(v4net("1.2.3.5/31"), "1.2.3.4/31");
    assert_eq!(v4net("1.2.3/24"), "1.2.3/24");
    assert_eq!(v4net("nonsense"), "nonsense");
    assert_eq!(v4net("1.2.3.300/32"), "1.2.3.44/32");
    assert_eq!(v4net("1.2.256.0/32"), "1.3.0.0/32");
}

#[test]
fn the_network_of_a_network() {
    for s in ["10.8.7.9/13", "10.8.7.9", "1.2.3.4/0", "255.255.255.255/1", "x", "9.9.9.9/40"] {
        assert_eq!(v4net(&v4net(s)), v4net(s));
    }
}

#[test]
fn v6_networks() {
    assert_eq!(v6net("fd86:ea04::1/64"), "fd86:ea04::/64");
    assert_eq!(v6net("fd86:ea04:1:2:3:4:5:6/64"), "fd86:ea04:1:2::/64");
    assert_eq!(v6net("::1/64"), "::/64");
    assert_eq!(v6net("fd86::1/48"), "fd86::1/48");
    assert_eq!(v6net("fd86:1:2:3:4::1/64"), "fd86:1:2:3::/64");
}

const CONF: &str = "# Generated by vpnyellod — peers below are managed (do not hand-edit header).
[Interface]
Address = 10.8.0.1/24, fd86:ea04::1/64
ListenPort = 51820
PrivateKey = KEY=
PostUp = iptables -A FORWARD -i %i -j ACCEPT; iptables -A FORWARD -o %i -j ACCEPT; iptables -t nat -A POSTROUTING -s 10.8.0.0/24 -o eth0 -j MASQUERADE
PostDown = iptables -D FORWARD -i %i -j ACCEPT; iptables -D FORWARD -o %i -j ACCEPT; iptables -t nat -D POSTROUTING -s 10.8.0.0/24 -o eth0 -j MASQUERADE
PostUp = ip6tables -A FORWARD -i %i -j ACCEPT; ip6tables -A FORWARD -o %i -j ACCEPT; ip6tables -t nat -A POSTROUTING -s fd86:ea04::/64 -o eth0 -j MASQUERADE
PostDown = ip6tables -D FORWARD -i %i -j ACCEPT; ip6tables -D FORWARD -o %i -j ACCEPT; ip6tables -t nat -D POSTROUTING -s fd86:ea04::/64 -o eth0 -j MASQUERADE

";

fn render(key: &str, old: &Option<String>) -> String {
    render_conf("10.8.0.1/24", "fd86:ea04::1/64", 51820, key, "eth0", old)
}

#[test]
fn a_new_configuration() {
    assert_eq!(render(" KEY=\n", &None), CONF);
    assert_eq!(render("KEY=", &Some("[Interface]\nAddress = x\n".to_string())), CONF);
}

#[test]
fn peers_are_carried_over() {
    let peers = "[Peer]\nPublicKey = A\nAllowedIPs = 10.8.0.2/32\n\n[Peer]\nPublicKey = B\n";
    let old = format!("[Interface]\nAddress = old\n\n{peers}[Interface]\nx = y\n[Peer]\nPublicKey = C");
    let first = render("KEY=", &Some(old));
    assert_eq!(first, format!("{CONF}{peers}[Peer]\nPublicKey = C\n"));
    assert_eq!(peer_sections(&first), format!("{peers}[Peer]\nPublicKey = C\n"));
    let second = render("KEY=", &Some(first.clone()));
    assert_eq!(second, first);
}

#[test]
fn a_doubled_carriage_return_is_lost_in_parts() {
    let old = "[Peer]\r\nPublicKey = A\r\r\n".to_string();
    assert_eq!(peer_sections(&old), "[Peer]\nPublicKey = A\r\n");
}

fn peer(key: &str) -> WantedPeer {
    WantedPeer {
        client_pubkey: key.to_string(),
        preshared_b64: "PSK=".to_string(),
        ip4: "10.8.0.2".to_string(),
        ip6: "fd86:ea04::2".to_string(),
    }
}

#[test]
fn a_peer_is_added_once() {
    let section = section_to_add(CONF, &peer("K=")).unwrap();
    assert_eq!(
        section,
        "\n[Peer]\nPublicKey = K=\nPresharedKey = PSK=\nAllowedIPs = 10.8.0.2/32, fd86:ea04::2/128\n"
    );
    assert_eq!(section_to_add(&format!("{CONF}{section}"), &peer("K=")), None);
    assert!(section_to_add(&format!("{CONF}{section}"), &peer("L=")).is_some());
    assert_eq!(key_line_of("K="), "PublicKey = K=");
}

const A: &str = "[Peer]\nPublicKey = A\nPresharedKey = P\nAllowedIPs = x\n\n";
const B: &str = "[Peer]\nPublicKey = B\nPresharedKey = Q\nAllowedIPs = y\n";

#[test]
fn a_peer_is_taken_out() {
    let conf = format!("[Interface]\nListenPort = 1\n\n{A}{B}");
    let left = without_peer(&conf, "A");
    assert_eq!(left, format!("[Interface]\nListenPort = 1\n\n{B}"));
    assert_eq!(without_peer(&left, "A"), left);
    assert_eq!(without_peer(&conf, "C"), conf);
    assert_eq!(without_peer(&conf, "B"), format!("[Interface]\nListenPort = 1\n\n{A}"));
    assert_eq!(without_peer(&left, "B"), "[Interface]\nListenPort = 1\n\n");
    assert_eq!(without_peer("", "A"), "");
}

#[test]
fn a_peer_that_was_added_can_be_taken_out() {
    let section = section_to_add(CONF, &peer("K=")).unwrap();
    assert_eq!(without_peer(&format!("{CONF}{section}"), "K="), format!("{CONF}\n"));
}

#[test]
fn the_order_of_lines_in_a_section_makes_no_difference() {
    let conf = "[Peer]\n# laptop\nAllowedIPs = x\n PublicKey = A \n[Interface]\ny = z\n";
    assert_eq!(without_peer(conf, "A"), "[Interface]\ny = z\n");
}

#[test]
fn a_live_header_is_kept() {
    let conf = format!("[Interface]\n# see [Peer]\n\n{B}");
    assert_eq!(without_peer(&conf, "A"), conf);
}

#[test]
fn headers_with_an_empty_line_between_them_are_joined() {
    assert_eq!(without_peer("[Peer]\n\n[Peer]\nPublicKey = B\n", "A"), "[Peer]\nPublicKey = B\n");
    assert_eq!(without_peer("[Peer]\n\n[Peer]\n\n[Peer]\nx", "A"), "[Peer]\n\n[Peer]\nx\n");
    assert_eq!(without_peer(" [Peer]\r\n\r\n[Peer] \nx", "A"), " [Peer] \nx\n");
    for conf in ["[Peer] \n\n[Peer]\n", "[Peer]\n\n [Peer]\n", "[Peer]\n \n[Peer]\n", "[Peer]\n[Peer]\n"] {
        assert_eq!(without_peer(conf, "A"), conf.replace("[Peer]\n\n[Peer]", "[Peer]"));
        assert_eq!(without_peer(conf, "A"), conf);
    }
    assert_eq!(without_peer(&format!("[Peer]\n\n{A}{B}"), "A"), B);
}

#[test]
fn another_key_in_the_section_is_kept() {
    let conf = "[Peer]\nPublicKey = A\nx\nPublicKey = B\ny";
    assert_eq!(without_peer(conf, "A"), "[Peer]\nPublicKey = B\ny\n");
    assert_eq!(without_peer(conf, "B"), "[Peer]\nPublicKey = A\nx\n");
}

#[test]
fn a_key_outside_peer_sections_goes_with_what_follows() {
    let conf = "# top\n[Interface]\nx = 1\nPublicKey = A\ny = 2\n[Peer]\nPublicKey = B\n";
    assert_eq!(without_peer(conf, "A"), "# top\n[Interface]\nx = 1\n[Peer]\nPublicKey = B\n");
}
