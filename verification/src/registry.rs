//! Talking to the registry: the requests, how a reply is taken, and the file that remembers the
//! registration.

use crate::number::{decimal, parse, parsed, to_decimal};
use crate::reply::{jnum, number_field};
use crate::text::{lines, or_empty, split_lines, starts, strip_prefix, trim, trimmed};
use crate::text::{view_of, views};
use crate::world::{result_view, Argv, Fed, Reply, Text, Words};
use vstd::prelude::*;

verus! {

// ---------------------------------------------------------------- requests

/// The command that posts its input to `url`.
pub open spec fn post_command(url: Text) -> Words {
    seq![
        "curl"@,
        "-fsSL"@,
        "-m"@,
        "25"@,
        "-X"@,
        "POST"@,
        url,
        "-H"@,
        "Content-Type: application/json"@,
        "--data-binary"@,
        "@-"@,
    ]
}

/// The command that posts its input to `url`.
pub fn curl_command(url: &str) -> (r: Argv)
    ensures
        r@ == post_command(url@),
{
    Argv::new("curl").arg("-fsSL").arg("-m").arg("25").arg("-X").arg("POST").arg(url).arg(
        "-H",
    ).arg("Content-Type: application/json").arg("--data-binary").arg("@-")
}

/// What came of posting to `url`: the reply's text, or why there is none.
pub open spec fn posted(url: Text, reply: Reply) -> Result<Text, Text> {
    match reply {
        Reply::Fed(Fed::NotStarted(e)) => Err("spawn curl: "@ + e@ + " (install curl first)"@),
        Reply::Fed(Fed::NoInput) => Err("curl stdin"@),
        Reply::Fed(Fed::Broken(e)) => Err(e@),
        Reply::Fed(Fed::Ended { ok, stdout, stderr }) => if ok {
            Ok(stdout@)
        } else {
            Err("registry unreachable: "@ + url + " "@ + trimmed(stderr@))
        },
        _ => Err(seq![]),
    }
}

/// What came of posting to `url`.
pub fn curl_post(url: &str, reply: &Reply) -> (r: Result<String, String>)
    ensures
        result_view(r) == posted(url@, *reply),
{
    match reply {
        Reply::Fed(Fed::NotStarted(e)) => Err(
            "spawn curl: ".to_owned().concat(e.as_str()).concat(" (install curl first)"),
        ),
        Reply::Fed(Fed::NoInput) => Err("curl stdin".to_owned()),
        Reply::Fed(Fed::Broken(e)) => Err(e.clone()),
        Reply::Fed(Fed::Ended { ok, stdout, stderr }) => if *ok {
            Ok(stdout.clone())
        } else {
            Err(
                "registry unreachable: ".to_owned().concat(url).concat(" ").concat(
                    trim(stderr.as_str()).as_str(),
                ),
            )
        },
        _ => {
            let e = String::new();
            assert(e@ =~= seq![]);
            Err(e)
        },
    }
}

/// The public key that `wg pubkey` printed, or why there is none.
pub open spec fn public_key(reply: Reply) -> Result<Text, Text> {
    match reply {
        Reply::Fed(Fed::NotStarted(e)) => Err(e@),
        Reply::Fed(Fed::NoInput) => Err("stdin"@),
        Reply::Fed(Fed::Broken(e)) => Err(e@),
        Reply::Fed(Fed::Ended { ok, stdout, stderr }) => if ok {
            Ok(trimmed(stdout@))
        } else {
            Err("wg pubkey failed"@)
        },
        _ => Err(seq![]),
    }
}

/// The public key that `wg pubkey` printed.
pub fn pubkey_of(reply: &Reply) -> (r: Result<String, String>)
    ensures
        result_view(r) == public_key(*reply),
{
    match reply {
        Reply::Fed(Fed::NotStarted(e)) => Err(e.clone()),
        Reply::Fed(Fed::NoInput) => Err("stdin".to_owned()),
        Reply::Fed(Fed::Broken(e)) => Err(e.clone()),
        Reply::Fed(Fed::Ended { ok, stdout, stderr }) => if *ok {
            Ok(trim(stdout.as_str()))
        } else {
            Err("wg pubkey failed".to_owned())
        },
        _ => {
            let e = String::new();
            assert(e@ =~= seq![]);
            Err(e)
        },
    }
}

/// The string of an option, or the empty one.
pub fn text_or_empty(o: &Option<String>) -> (r: String)
    ensures
        r@ == or_empty(view_of(*o)),
{
    match o {
        Some(s) => s.clone(),
        None => {
            let r = String::new();
            assert(r@ =~= seq![]);
            r
        },
    }
}

/// Where a server registers.
pub open spec fn register_url(registry: Text) -> Text {
    registry + "/api/servers/register"@
}

/// Where a server registers.
pub fn register_url_of(registry: &str) -> (r: String)
    ensures
        r@ == register_url(registry@),
{
    registry.to_owned().concat("/api/servers/register")
}

/// What a server registers with.
pub open spec fn register_body(
    name: Text,
    pubkey: Text,
    v4: Option<Text>,
    v6: Option<Text>,
    port: nat,
    version: Text,
) -> Text {
    "{\"name\":\""@ + name + "\",\"pubkey\":\""@ + pubkey + "\",\"ipv4\":\""@ + or_empty(v4)
        + "\",\"ipv6\":\""@ + or_empty(v6) + "\",\"port\":"@ + decimal(port)
        + ",\"version\":\"vpnyellod "@ + version + "\"}"@
}

/// What a server registers with.
pub fn register_body_of(
    name: &str,
    pubkey: &str,
    v4: &Option<String>,
    v6: &Option<String>,
    port: u16,
    version: &str,
) -> (r: String)
    ensures
        r@ == register_body(name@, pubkey@, view_of(*v4), view_of(*v6), port as nat, version@),
{
    "{\"name\":\"".to_owned().concat(name).concat("\",\"pubkey\":\"").concat(pubkey).concat(
        "\",\"ipv4\":\"",
    ).concat(text_or_empty(v4).as_str()).concat("\",\"ipv6\":\"").concat(
        text_or_empty(v6).as_str(),
    ).concat("\",\"port\":").concat(to_decimal(port as u64).as_str()).concat(
        ",\"version\":\"vpnyellod ",
    ).concat(version).concat("\"}")
}

/// Where a server sends its heartbeat.
pub open spec fn heartbeat_url(registry: Text, server_id: Text) -> Text {
    registry + "/api/servers/"@ + server_id + "/heartbeat"@
}

/// Where a server sends its heartbeat.
pub fn heartbeat_url_of(registry: &str, server_id: &str) -> (r: String)
    ensures
        r@ == heartbeat_url(registry@, server_id@),
{
    registry.to_owned().concat("/api/servers/").concat(server_id).concat("/heartbeat")
}

/// What a heartbeat says.
pub open spec fn heartbeat_body(
    secret: Text,
    v4: Option<Text>,
    v6: Option<Text>,
    port: nat,
) -> Text {
    "{\"secret\":\""@ + secret + "\",\"ipv4\":\""@ + or_empty(v4) + "\",\"ipv6\":\""@ + or_empty(v6)
        + "\",\"port\":"@ + decimal(port) + "}"@
}

/// What a heartbeat says.
pub fn heartbeat_body_of(
    secret: &str,
    v4: &Option<String>,
    v6: &Option<String>,
    port: u16,
) -> (r: String)
    ensures
        r@ == heartbeat_body(secret@, view_of(*v4), view_of(*v6), port as nat),
{
    "{\"secret\":\"".to_owned().concat(secret).concat("\",\"ipv4\":\"").concat(
        text_or_empty(v4).as_str(),
    ).concat("\",\"ipv6\":\"").concat(text_or_empty(v6).as_str()).concat("\",\"port\":").concat(
        to_decimal(port as u64).as_str(),
    ).concat("}")
}

/// Where a server says that it goes away.
pub open spec fn offline_url(registry: Text, server_id: Text) -> Text {
    registry + "/api/servers/"@ + server_id + "/offline"@
}

/// Where a server says that it goes away.
pub fn offline_url_of(registry: &str, server_id: &str) -> (r: String)
    ensures
        r@ == offline_url(registry@, server_id@),
{
    registry.to_owned().concat("/api/servers/").concat(server_id).concat("/offline")
}

/// What a server says as it goes away.
pub open spec fn offline_body(secret: Text) -> Text {
    "{\"secret\":\""@ + secret + "\"}"@
}

/// What a server says as it goes away.
pub fn offline_body_of(secret: &str) -> (r: String)
    ensures
        r@ == offline_body(secret@),
{
    "{\"secret\":\"".to_owned().concat(secret).concat("\"}")
}

// ---------------------------------------------------------------- the heartbeat's pace

/// The pace that the registry suggests, as text: a number of seconds from 5 to 600. Any other
/// reply leaves the pace as it was.
pub open spec fn suggested_poll(resp: Text, before: Option<Text>) -> Option<Text> {
    match number_field(resp, "poll_interval_secs"@) {
        Some(n) => if 5 <= n <= 600 {
            Some(decimal(n))
        } else {
            before
        },
        None => before,
    }
}

/// The pace that the registry suggests, as text.
pub fn take_poll(resp: &str, before: Option<String>) -> (r: Option<String>)
    ensures
        view_of(r) == suggested_poll(resp@, view_of(before)),
{
    match jnum(resp, "poll_interval_secs") {
        Some(n) => if n >= 5 && n <= 600 {
            Some(to_decimal(n))
        } else {
            before
        },
        None => before,
    }
}

/// How many seconds to wait between heartbeats.
pub open spec fn pace(poll: nat, suggested: Option<Text>) -> nat {
    match suggested {
        Some(t) => match parsed(t, u64::MAX as nat) {
            Some(n) => n,
            None => poll,
        },
        None => poll,
    }
}

/// How many seconds to wait between heartbeats: as suggested, else as configured.
pub fn effective_poll(poll: u64, suggested: &Option<String>) -> (r: u64)
    ensures
        r == pace(poll as nat, view_of(*suggested)),
{
    match suggested {
        Some(t) => match parse(t.as_str(), u64::MAX) {
            Some(n) => n,
            None => poll,
        },
        None => poll,
    }
}

// ---------------------------------------------------------------- what is remembered

/// The text of the file that remembers the registration.
pub open spec fn state_text(server_id: Text, secret: Text) -> Text {
    "SERVER_ID="@ + server_id + "\nSECRET="@ + secret + "\n"@
}

/// The text of the file that remembers the registration.
pub fn save_state(server_id: &str, secret: &str) -> (r: String)
    ensures
        r@ == state_text(server_id@, secret@),
{
    "SERVER_ID=".to_owned().concat(server_id).concat("\nSECRET=").concat(secret).concat("\n")
}

/// What stands after `prefix` on the last line that starts with it, without white space at its
/// ends; empty where no line does.
pub open spec fn last_value(ls: Words, prefix: Text) -> Text
    decreases ls.len(),
{
    if ls.len() == 0 {
        seq![]
    } else if starts(ls.last(), prefix) {
        trimmed(ls.last().skip(prefix.len() as int))
    } else {
        last_value(ls.drop_last(), prefix)
    }
}

/// The server's id and secret in the file that remembers the registration.
pub open spec fn remembered(text: Option<Text>) -> (Text, Text) {
    let ls = lines(or_empty(text));
    (last_value(ls, "SERVER_ID="@), last_value(ls, "SECRET="@))
}

fn find_last(ls: &Vec<String>, prefix: &str) -> (r: String)
    ensures
        r@ == last_value(views(ls@), prefix@),
{
    let ghost all = views(ls@);
    let mut i: usize = ls.len();
    assert(all.take(i as int) =~= all);
    while i > 0
        invariant
            i <= ls.len(),
            all == views(ls@),
            last_value(all.take(i as int), prefix@) == last_value(all, prefix@),
        decreases i,
    {
        let ghost now = all.take(i as int);
        assert(now.last() == ls[i - 1]@);
        assert(now.drop_last() =~= all.take(i - 1));
        if let Some(v) = strip_prefix(ls[i - 1].as_str(), prefix) {
            return trim(v.as_str());
        }
        i -= 1;
    }
    let r = String::new();
    assert(r@ =~= seq![]);
    r
}

/// The server's id and secret in the file that remembers the registration.
pub fn load_state(text: &Option<String>) -> (r: (String, String))
    ensures
        (r.0@, r.1@) == remembered(view_of(*text)),
{
    let ls = split_lines(text_or_empty(text).as_str());
    (find_last(&ls, "SERVER_ID="), find_last(&ls, "SECRET="))
}

/// The note of the last heartbeat.
pub open spec fn heartbeat_note(server_id: Text, seconds: nat, applied: nat) -> Text {
    "{\"server_id\":\""@ + server_id + "\",\"last_ok\":"@ + decimal(seconds)
        + ",\"peers_applied\":"@ + decimal(applied) + "}"@
}

/// The note of the last heartbeat.
pub fn record_heartbeat(server_id: &str, seconds: u64, applied: usize) -> (r: String)
    ensures
        r@ == heartbeat_note(server_id@, seconds as nat, applied as nat),
{
    "{\"server_id\":\"".to_owned().concat(server_id).concat("\",\"last_ok\":").concat(
        to_decimal(seconds).as_str(),
    ).concat(",\"peers_applied\":").concat(to_decimal(applied as u64).as_str()).concat("}")
}

} // verus!
