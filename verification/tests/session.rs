use dsc::credential::Credential;
use dsc::endpoint::EndpointSelection;
use dsc::error::{Failure, Unauthenticated, UsageError};
use dsc::resolver::{logged_in, resolve, resolve_session, session_override, uses_stored_session};
use dsc::session::{Session, SessionStore};
use dsc::storage::{decode, encode, from_text, to_text};

const URL: &str = "http://localhost:7880";
const OTHER: &str = "https://docs.example.com";

fn session(url: &str, token: &str, created_at: u64) -> Session {
    Session { server_url: url.to_string(), token: token.to_string(), created_at }
}

fn sorted(mut sessions: Vec<Session>) -> Vec<Session> {
    sessions.sort_by(|a, b| a.server_url.cmp(&b.server_url));
    sessions
}

#[test]
fn session_round_trip() {
    let mut store = SessionStore::new(0);
    store.save(URL, "tok123");
    assert_eq!(store.load(URL), Some("tok123".to_string()));
    store.clear(URL);
    assert_eq!(store.load(URL), None);
}

#[test]
fn never_saved_is_none() {
    let store = SessionStore::new(0);
    assert_eq!(store.load(URL), None);
    let mut store = SessionStore::new(0);
    store.save(URL, "tok123");
    assert_eq!(store.load(OTHER), None);
    assert_eq!(store.load(""), None);
}

#[test]
fn save_overwrites() {
    let mut store = SessionStore::new(7);
    store.save(URL, "old");
    store.save(URL, "new");
    assert_eq!(store.load(URL), Some("new".to_string()));
    assert_eq!(store.sessions(), vec![session(URL, "new", 7)]);
}

#[test]
fn servers_do_not_interfere() {
    let mut store = SessionStore::new(1);
    store.save(URL, "a");
    store.save(OTHER, "b");
    assert_eq!(store.load(URL), Some("a".to_string()));
    assert_eq!(store.load(OTHER), Some("b".to_string()));
    store.save(URL, "c");
    assert_eq!(store.load(OTHER), Some("b".to_string()));
    store.clear(URL);
    assert_eq!(store.load(URL), None);
    assert_eq!(store.load(OTHER), Some("b".to_string()));
}

#[test]
fn clear_is_idempotent() {
    let mut store = SessionStore::new(1);
    store.clear(URL);
    assert_eq!(store.load(URL), None);
    store.save(URL, "a");
    store.save(OTHER, "b");
    store.clear(URL);
    store.clear(URL);
    assert_eq!(store.load(URL), None);
    assert_eq!(store.sessions(), vec![session(OTHER, "b", 1)]);
}

#[test]
fn sessions_are_stamped_with_the_time_of_the_store() {
    let mut store = SessionStore::new(1700000000000);
    store.save(URL, "a");
    assert_eq!(store.sessions(), vec![session(URL, "a", 1700000000000)]);
}

#[test]
fn restore_keeps_the_later_of_two() {
    let store = SessionStore::restore(
        vec![session(URL, "first", 1), session(OTHER, "b", 2), session(URL, "second", 3)],
        9,
    );
    assert_eq!(store.load(URL), Some("second".to_string()));
    assert_eq!(store.load(OTHER), Some("b".to_string()));
    assert_eq!(
        sorted(store.sessions()),
        sorted(vec![session(URL, "second", 3), session(OTHER, "b", 2)])
    );
}

#[test]
fn rejection_invalidates_the_stored_session() {
    for status in [401u16, 403] {
        let mut store = SessionStore::new(0);
        store.save(URL, "tok");
        store.save(OTHER, "keep");
        assert!(store.on_response(URL, status, true));
        assert_eq!(store.load(URL), None);
        assert_eq!(store.load(OTHER), Some("keep".to_string()));
    }
}

#[test]
fn other_answers_keep_the_session() {
    for status in [200u16, 204, 400, 402, 404, 500, 0, 65535] {
        let mut store = SessionStore::new(0);
        store.save(URL, "tok");
        assert!(!store.on_response(URL, status, true));
        assert_eq!(store.load(URL), Some("tok".to_string()));
    }
}

#[test]
fn rejection_of_a_direct_token_keeps_the_stored_session() {
    let mut store = SessionStore::new(0);
    store.save(URL, "tok");
    assert!(!store.on_response(URL, 401, false));
    assert!(!store.on_response(URL, 403, false));
    assert_eq!(store.load(URL), Some("tok".to_string()));
}

#[test]
fn encode_writes_two_lines_for_each_session() {
    assert_eq!(encode(&vec![]), "");
    assert_eq!(encode(&vec![session("http://a", "tok123", 42)]), "42 8 6\nhttp://atok123\n");
    assert_eq!(
        encode(&vec![session("u", "", 0), session("", "t", 18446744073709551615)]),
        "0 1 0\nu\n18446744073709551615 0 1\nt\n"
    );
    assert_eq!(encode(&vec![session("ü", "€€", 1234567890)]), "1234567890 1 2\nü€€\n");
}

#[test]
fn decode_reads_what_encode_writes() {
    let sessions = vec![
        session(URL, "tok123", 1700000000000),
        session("", "", 0),
        session("with\nline break", "and \n 3 4\n numbers", 10),
        session("jürgen", "pässwörd:€", 18446744073709551615),
    ];
    assert_eq!(decode(&encode(&sessions)), Some(sessions));
    assert_eq!(decode(""), Some(vec![]));
}

#[test]
fn decode_takes_leading_zeros() {
    assert_eq!(decode("007 01 1\nut\n"), Some(vec![session("u", "t", 7)]));
}

#[test]
fn decode_refuses_corrupt_text() {
    for text in [
        "x",
        "\n",
        " ",
        "1",
        "1 1",
        "1 1 1",
        "1 1 1\n",
        "1 1 1\nab",
        "1 1 1\nabc",
        "1 1 1\nab\nrest",
        "1 1 1 \nab\n",
        "1  1 1\nab\n",
        " 1 1 1\nab\n",
        "1 1 1\nab\n\n",
        "-1 1 1\nab\n",
        "1 1 9\nab\n",
        "1 9 1\nab\n",
        "1 1 1\rab\n",
        "18446744073709551616 1 1\nab\n",
        "1 18446744073709551616 1\nab\n",
        "1 1 99999999999999999999999999\nab\n",
        "{\"token\":\"abc\"}",
    ] {
        assert_eq!(decode(text), None, "{:?}", text);
    }
}

#[test]
fn corrupt_storage_counts_as_absence() {
    let store = from_text("no sessions here", 5);
    assert_eq!(store.load(URL), None);
    assert_eq!(store.sessions(), vec![]);
    let mut store = store;
    store.save(URL, "tok");
    assert_eq!(store.sessions(), vec![session(URL, "tok", 5)]);
}

#[test]
fn write_then_read() {
    let mut store = SessionStore::new(100);
    store.save(URL, "tok123");
    store.save(OTHER, "with\nnewline");
    let text = to_text(&store);
    let again = from_text(&text, 200);
    assert_eq!(again.load(URL), Some("tok123".to_string()));
    assert_eq!(again.load(OTHER), Some("with\nnewline".to_string()));
    assert_eq!(sorted(again.sessions()), sorted(store.sessions()));
    let mut again = again;
    again.save("http://third", "x");
    assert_eq!(again.sessions().iter().find(|s| s.server_url == "http://third").unwrap().created_at, 200);
    assert_eq!(to_text(&SessionStore::new(0)), "");
}

#[test]
fn read_keeps_the_later_of_two() {
    let store = from_text("1 1 1\nua\n2 1 1\nub\n", 0);
    assert_eq!(store.load("u"), Some("b".to_string()));
    assert_eq!(store.sessions(), vec![session("u", "b", 2)]);
}

#[test]
fn flag_wins_over_environment() {
    let flag = Some("flag".to_string());
    let env = Some("env".to_string());
    assert_eq!(session_override(&flag, &env), Some("flag".to_string()));
    assert_eq!(session_override(&flag, &None), Some("flag".to_string()));
    assert_eq!(session_override(&None, &env), Some("env".to_string()));
    assert_eq!(session_override(&None, &None), None);
}

#[test]
fn direct_token_is_used_verbatim() {
    let mut store = SessionStore::new(0);
    store.save(URL, "stored");
    let direct = Some(" direct token\n".to_string());
    for required in [false, true] {
        assert_eq!(
            resolve_session(&direct, &store, URL, required),
            Ok(Credential::SessionToken(" direct token\n".to_string()))
        );
        assert_eq!(
            resolve_session(&direct, &SessionStore::new(0), URL, required),
            Ok(Credential::SessionToken(" direct token\n".to_string()))
        );
    }
}

#[test]
fn stored_token_is_used_without_direct_one() {
    let mut store = SessionStore::new(0);
    store.save(URL, "stored");
    for required in [false, true] {
        assert_eq!(
            resolve_session(&None, &store, URL, required),
            Ok(Credential::SessionToken("stored".to_string()))
        );
    }
}

#[test]
fn no_session_is_unauthenticated_where_one_is_required() {
    let mut store = SessionStore::new(0);
    store.save(OTHER, "stored");
    assert_eq!(resolve_session(&None, &store, URL, true), Err(Unauthenticated));
    assert_eq!(resolve_session(&None, &store, URL, false), Ok(Credential::Anonymous));
    assert_eq!(Unauthenticated.message(), "not logged in, run the login command first");
}

#[test]
fn logged_in_with_direct_or_stored_token() {
    let mut store = SessionStore::new(0);
    assert!(!logged_in(&None, &store, URL));
    assert!(logged_in(&Some("t".to_string()), &store, URL));
    store.save(URL, "stored");
    assert!(logged_in(&None, &store, URL));
    assert!(!logged_in(&None, &store, OTHER));
}

#[test]
fn credential_of_each_endpoint() {
    let mut store = SessionStore::new(0);
    store.save(URL, "stored");
    let direct = Some("direct".to_string());
    let integration = EndpointSelection::Integration {
        collective: "family".to_string(),
        credential: Credential::BasicAuth("user".to_string(), "pass".to_string()),
    };
    assert_eq!(
        resolve(&integration, &direct, &store, URL),
        Ok(Credential::BasicAuth("user".to_string(), "pass".to_string()))
    );
    let open = EndpointSelection::Integration {
        collective: "family".to_string(),
        credential: Credential::Anonymous,
    };
    assert_eq!(resolve(&open, &direct, &store, URL), Ok(Credential::Anonymous));
    let source = EndpointSelection::Source { source_id: "src-1".to_string() };
    assert_eq!(resolve(&source, &direct, &store, URL), Ok(Credential::Anonymous));
    assert_eq!(
        resolve(&EndpointSelection::Session, &direct, &store, URL),
        Ok(Credential::SessionToken("direct".to_string()))
    );
    assert_eq!(
        resolve(&EndpointSelection::Session, &None, &store, URL),
        Ok(Credential::SessionToken("stored".to_string()))
    );
    assert_eq!(resolve(&EndpointSelection::Session, &None, &store, OTHER), Err(Unauthenticated));
}

#[test]
fn failures_end_with_a_status_other_than_success() {
    let failures = vec![
        (Failure::Usage(UsageError::AmbiguousCredential), 2, "ambiguous credential"),
        (Failure::Unauthenticated, 3, "not logged in, run the login command first"),
        (Failure::Network("connection refused".to_string()), 4, "connection refused"),
        (Failure::Server { status: 500, body: "{\"message\":\"boom\"}".to_string() }, 5, "{\"message\":\"boom\"}"),
        (Failure::Storage("read-only file system".to_string()), 6, "read-only file system"),
    ];
    for (failure, code, message) in failures {
        assert_eq!(failure.exit_code(), code);
        assert_ne!(failure.exit_code(), 0);
        assert_eq!(failure.message(), message);
    }
}

#[test]
fn stored_session_is_used_only_without_direct_token() {
    let token = Credential::SessionToken("t".to_string());
    assert!(uses_stored_session(&None, &token));
    assert!(!uses_stored_session(&Some("t".to_string()), &token));
    assert!(!uses_stored_session(&None, &Credential::Anonymous));
    assert!(!uses_stored_session(&None, &Credential::BasicAuth("u".to_string(), "p".to_string())));
    assert!(!uses_stored_session(&None, &Credential::HeaderAuth("h".to_string(), "v".to_string())));
}
