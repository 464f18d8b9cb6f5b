use vpnyellod::reply::{jnum, jstr, parse_peers};

#[test]
fn string_fields() {
    let body = r#"{"server_id":"srv-1","secret" : "s3cr3t","n":5}"#;
    assert_eq!(jstr(body, "server_id").as_deref(), Some("srv-1"));
    assert_eq!(jstr(body, "secret").as_deref(), Some("s3cr3t"));
    assert_eq!(jstr(body, "n"), None);
    assert_eq!(jstr(body, "missing"), None);
    assert_eq!(jstr("", "a"), None);
    assert_eq!(jstr(r#"{"a":""}"#, "a").as_deref(), Some(""));
}

#[test]
fn a_field_that_is_no_string_is_passed_over() {
    assert_eq!(jstr(r#"{"a":5,"b":{"a":"x"}}"#, "a").as_deref(), Some("x"));
    assert_eq!(jstr(r#"{"a":null,"a" : "y"}"#, "a").as_deref(), Some("y"));
}

#[test]
fn a_quoted_name_without_a_colon_is_passed_over() {
    assert_eq!(jstr(r#"{"a":"id","id":"7"}"#, "id").as_deref(), Some("7"));
    assert_eq!(jstr(r#"["a","a":"x"]"#, "a").as_deref(), Some("x"));
    assert_eq!(jstr(r#"["a","a"]"#, "a"), None);
    assert_eq!(jstr(r#"{"a":"no end"#, "a"), None);
    assert_eq!(jstr(r#"{"a""#, "a"), None);
}

#[test]
fn number_fields() {
    assert_eq!(jnum(r#"{"poll_interval_secs":45,"x":1}"#, "poll_interval_secs"), Some(45));
    assert_eq!(jnum("{\"n\" :\n 007}", "n"), Some(7));
    assert_eq!(jnum(r#"{"n":"5"}"#, "n"), None);
    assert_eq!(jnum(r#"{"n":-5}"#, "n"), None);
    assert_eq!(jnum(r#"{"n":18446744073709551615}"#, "n"), Some(u64::MAX));
    assert_eq!(jnum(r#"{"n":18446744073709551616}"#, "n"), None);
    assert_eq!(jnum(r#"{"m":5}"#, "n"), None);
    assert_eq!(jnum(r#"{"n":5"#, "n"), Some(5));
    assert_eq!(jnum(r#"{"n":x,"n":5}"#, "n"), None);
}

fn peers(body: &str) -> Vec<(String, String, String, String)> {
    parse_peers(body)
        .into_iter()
        .map(|p| (p.client_pubkey, p.preshared_b64, p.ip4, p.ip6))
        .collect()
}

fn peer(k: &str, p: &str, a: &str, b: &str) -> (String, String, String, String) {
    (k.to_string(), p.to_string(), a.to_string(), b.to_string())
}

#[test]
fn listed_peers_are_read_back() {
    let body = r#"{"poll_interval_secs":30,"peers":[{"id":1,"client_pubkey":"K1=","preshared":"P1=","client_ip4":"10.8.0.2","client_ip6":"fd86:ea04::2"},{"id":2,"client_pubkey":"K2=","preshared":"P2=","client_ip4":"10.8.0.3","client_ip6":"fd86:ea04::3"}],"ok":true}"#;
    assert_eq!(
        peers(body),
        vec![
            peer("K1=", "P1=", "10.8.0.2", "fd86:ea04::2"),
            peer("K2=", "P2=", "10.8.0.3", "fd86:ea04::3"),
        ]
    );
}

#[test]
fn a_value_like_a_field_name_hides_nothing() {
    let body = r#"{"peers":[{"client_pubkey":"preshared","preshared":"P"}]}"#;
    assert_eq!(peers(body), vec![peer("preshared", "P", "", "")]);
}

#[test]
fn peers_without_a_key_are_left_out() {
    let body = r#"{"peers":[{"preshared":"P"},{"client_pubkey":""},{"client_pubkey":"K"}]}"#;
    assert_eq!(peers(body), vec![peer("K", "", "", "")]);
}

#[test]
fn no_list_no_peers() {
    assert!(peers("").is_empty());
    assert!(peers(r#"{"ok":true}"#).is_empty());
    assert!(peers(r#"{"peers":[]}"#).is_empty());
    assert!(peers(r#"{"peers":null}"#).is_empty());
}

#[test]
fn what_follows_the_list_is_not_read() {
    let body = r#"{"peers":[{"client_pubkey":"A"}],"other":[{"client_pubkey":"B"}]}"#;
    assert_eq!(peers(body), vec![peer("A", "", "", "")]);
}

#[test]
fn objects_inside_objects() {
    let body = r#"{"peers": [ {"x":{"y":[1]},"client_pubkey":"A"} , {"client_pubkey":"B"} ]}"#;
    assert_eq!(peers(body), vec![peer("A", "", "", ""), peer("B", "", "", "")]);
}

#[test]
fn an_open_list_gives_what_is_closed() {
    let body = r#"{"peers":[{"client_pubkey":"A"},{"client_pubkey":"B""#;
    assert_eq!(peers(body), vec![peer("A", "", "", "")]);
}
