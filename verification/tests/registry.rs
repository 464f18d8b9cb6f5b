use vpnyellod::registry::{
    curl_command, curl_post, effective_poll, heartbeat_body_of, heartbeat_url_of, load_state,
    offline_body_of, offline_url_of, pubkey_of, record_heartbeat, register_body_of, register_url_of,
    save_state, take_poll,
};
use vpnyellod::world::{Fed, Reply};

fn some(s: &str) -> Option<String> {
    Some(s.to_string())
}

fn ended(ok: bool, stdout: &str, stderr: &str) -> Reply {
    Reply::Fed(Fed::Ended { ok, stdout: stdout.to_string(), stderr: stderr.to_string() })
}

#[test]
fn the_post_command() {
    assert_eq!(
        curl_command("http://r/x").words,
        vec![
            "curl", "-fsSL", "-m", "25", "-X", "POST", "http://r/x", "-H",
            "Content-Type: application/json", "--data-binary", "@-",
        ]
    );
}

#[test]
fn posting() {
    assert_eq!(curl_post("u", &ended(true, " {} \n", "noise")), Ok(" {} \n".to_string()));
    assert_eq!(
        curl_post("http://r", &ended(false, "x", " curl: (7) refused\n")),
        Err("registry unreachable: http://r curl: (7) refused".to_string())
    );
    assert_eq!(
        curl_post("u", &Reply::Fed(Fed::NotStarted("No such file".to_string()))),
        Err("spawn curl: No such file (install curl first)".to_string())
    );
    assert_eq!(curl_post("u", &Reply::Fed(Fed::NoInput)), Err("curl stdin".to_string()));
    assert_eq!(
        curl_post("u", &Reply::Fed(Fed::Broken("Broken pipe".to_string()))),
        Err("Broken pipe".to_string())
    );
}

#[test]
fn public_keys() {
    assert_eq!(pubkey_of(&ended(true, "PUB=\n", "")), Ok("PUB=".to_string()));
    assert_eq!(pubkey_of(&ended(false, "PUB=\n", "")), Err("wg pubkey failed".to_string()));
    assert_eq!(
        pubkey_of(&Reply::Fed(Fed::NotStarted("missing".to_string()))),
        Err("missing".to_string())
    );
    assert_eq!(pubkey_of(&Reply::Fed(Fed::NoInput)), Err("stdin".to_string()));
    assert_eq!(
        pubkey_of(&Reply::Fed(Fed::Broken("pipe".to_string()))),
        Err("pipe".to_string())
    );
}

#[test]
fn requests() {
    assert_eq!(register_url_of("http://r"), "http://r/api/servers/register");
    assert_eq!(heartbeat_url_of("http://r", "7"), "http://r/api/servers/7/heartbeat");
    assert_eq!(offline_url_of("http://r", "7"), "http://r/api/servers/7/offline");
    assert_eq!(
        register_body_of("box", "PUB=", &some("203.0.113.7"), &None, 51820, "1.2.3"),
        r#"{"name":"box","pubkey":"PUB=","ipv4":"203.0.113.7","ipv6":"","port":51820,"version":"vpnyellod 1.2.3"}"#
    );
    assert_eq!(
        heartbeat_body_of("s", &None, &some("2a01::1"), 1),
        r#"{"secret":"s","ipv4":"","ipv6":"2a01::1","port":1}"#
    );
    assert_eq!(offline_body_of("s"), r#"{"secret":"s"}"#);
}

#[test]
fn the_pace() {
    assert_eq!(take_poll(r#"{"poll_interval_secs":45}"#, None), some("45"));
    assert_eq!(take_poll(r#"{"poll_interval_secs":5}"#, None), some("5"));
    assert_eq!(take_poll(r#"{"poll_interval_secs":600}"#, some("9")), some("600"));
    assert_eq!(take_poll(r#"{"poll_interval_secs":4}"#, some("9")), some("9"));
    assert_eq!(take_poll(r#"{"poll_interval_secs":601}"#, None), None);
    assert_eq!(take_poll("{}", some("9")), some("9"));
    assert_eq!(effective_poll(30, &some("45")), 45);
    assert_eq!(effective_poll(30, &some("soon")), 30);
    assert_eq!(effective_poll(30, &None), 30);
}

#[test]
fn the_registration_is_remembered() {
    let text = save_state("srv-1", "s3cr3t");
    assert_eq!(text, "SERVER_ID=srv-1\nSECRET=s3cr3t\n");
    assert_eq!(load_state(&Some(text)), ("srv-1".to_string(), "s3cr3t".to_string()));
    assert_eq!(load_state(&None), (String::new(), String::new()));
    assert_eq!(load_state(&some("SECRET= x \r\nother\nSECRET=y\n SERVER_ID=z")), (String::new(), "y".to_string()));
    assert_eq!(load_state(&Some(save_state(" a ", "b\r"))), ("a".to_string(), "b".to_string()));
    assert_eq!(load_state(&Some(save_state("a \n \r\n", "b\n\n"))), ("a".to_string(), "b".to_string()));
}

#[test]
fn a_newline_in_an_id_is_not_remembered() {
    assert_eq!(load_state(&Some(save_state("a\nb", "c"))), ("a".to_string(), "c".to_string()));
}

#[test]
fn the_note_of_a_heartbeat() {
    assert_eq!(
        record_heartbeat("srv-1", 1700000000, 3),
        r#"{"server_id":"srv-1","last_ok":1700000000,"peers_applied":3}"#
    );
}
