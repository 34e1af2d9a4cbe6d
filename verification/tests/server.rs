//! What the client sends a server and what it makes of the answers, and the session it keeps.

use marks_client::api::{error_message, failure, session_token, sign_in_failure, Api, ApiError};
use marks_client::session_file::{is_another_session, load, removes, stored, to_keep, OnDisk, Stored};

fn kept(base_url: &str, token: &str) -> Option<Stored> {
    Some(Stored { base_url: base_url.to_owned(), token: token.to_owned() })
}

#[test]
fn signing_in_keeps_the_token_and_not_the_header_it_came_in() {
    let mut api = Api::new("http://127.0.0.1:5173/");

    api.accept_session(Some("token=abc123; Path=/; HttpOnly; SameSite=Lax"))
        .expect("a signed-in client");

    assert_eq!(api.token(), Some("abc123"));
    assert_eq!(api.cookie().as_deref(), Some("token=abc123"));
}

#[test]
fn an_answer_without_a_session_cookie_is_a_failed_sign_in() {
    let mut api = Api::new("http://127.0.0.1:5173");

    let refused = api.accept_session(None).unwrap_err();
    assert_eq!(
        refused.message(),
        "The server accepted the credentials but sent no session cookie."
    );
    assert!(api.token().is_none());

    assert!(api.accept_session(Some("other=1; Path=/")).is_err());
    assert!(api.accept_session(Some("token= ; Path=/")).is_err());
}

#[test]
fn the_token_is_read_out_of_the_cookie_header() {
    assert_eq!(session_token(Some("token=abc; Path=/")).as_deref(), Some("abc"));
    assert_eq!(session_token(Some("  token= abc ")).as_deref(), Some("abc"));
    assert_eq!(session_token(Some("tokens=abc")), None);
    assert_eq!(session_token(Some("token")), None);
    assert_eq!(session_token(None), None);
}

#[test]
fn a_request_goes_under_the_server_s_address_with_the_session() {
    let api = Api::with_token("http://127.0.0.1:5173///", "kept-from-last-time");

    assert_eq!(api.url("/api/marks"), "http://127.0.0.1:5173/api/marks");
    assert_eq!(api.cookie().as_deref(), Some("token=kept-from-last-time"));
    assert_eq!(api.token(), Some("kept-from-last-time"));

    let fresh = Api::new("http://127.0.0.1:5173");
    assert!(fresh.cookie().is_none());
}

#[test]
fn a_refusal_is_said_in_the_server_s_own_words() {
    assert!(failure(200, None).is_none());
    assert!(failure(204, Some("ignored".to_owned())).is_none());
    assert!(matches!(failure(401, Some("Unauthorized".to_owned())), Some(ApiError::Unauthorized)));
    assert_eq!(
        failure(400, Some("A name is needed".to_owned())).map(|e| e.message()),
        Some("A name is needed".to_owned())
    );
    assert_eq!(
        failure(503, None).map(|e| e.message()),
        Some("The server answered 503.".to_owned())
    );
    assert_eq!(error_message(404, None), "The server answered 404.");
    assert_eq!(ApiError::Unauthorized.message(), "Not signed in");
}

#[test]
fn a_refused_sign_in_keeps_the_server_s_wording() {
    let refused = sign_in_failure(401, Some("Incorrect username or password".to_owned()));

    match refused {
        Some(ApiError::Message(message)) => assert_eq!(message, "Incorrect username or password"),
        _ => panic!("a 401 at sign-in is an ordinary refusal"),
    }
    assert!(sign_in_failure(201, None).is_none());
    assert!(matches!(sign_in_failure(500, None), Some(ApiError::Message(m)) if m == "The server answered 500."));
}

#[test]
fn a_session_written_down_is_read_back_for_its_server() {
    let written = to_keep("https://marks.example.com", "abc");

    assert_eq!(load(Some(written), "https://marks.example.com").as_deref(), Some("abc"));
    assert_eq!(load(kept("https://marks.example.com", "abc"), "https://other.example"), None);
    assert_eq!(
        stored(kept("https://marks.example.com", "abc")),
        Some(("https://marks.example.com".to_owned(), "abc".to_owned()))
    );
}

#[test]
fn half_a_session_is_no_session() {
    assert_eq!(stored(kept("", "abc")), None);
    assert_eq!(stored(kept("https://marks.example.com", "")), None);
    assert_eq!(load(kept("", "abc"), ""), None);
    assert_eq!(stored(None), None);
}

#[test]
fn forgetting_a_session_leaves_any_other_one_where_it_is() {
    let other = kept("https://other.example", "abc");
    assert!(is_another_session(&other, "https://marks.example.com", "abc"));
    assert!(!removes(&OnDisk::Read(other), "https://marks.example.com", "abc"));

    let same = kept("https://marks.example.com", "abc");
    assert!(removes(&OnDisk::Read(same), "https://marks.example.com", "abc"));
    assert!(!removes(&OnDisk::Read(kept("https://marks.example.com", "new")), "https://marks.example.com", "abc"));
    assert!(removes(&OnDisk::Read(None), "https://marks.example.com", "abc"));
    assert!(removes(&OnDisk::Unreadable, "https://marks.example.com", "abc"));
    assert!(!removes(&OnDisk::Missing, "https://marks.example.com", "abc"));
}

#[test]
fn the_cookie_a_client_sends_is_the_session_a_sign_in_reads() {
    let signed_in = Api::with_token("https://marks.example.com", "abc-123_XYZ");
    let mut fresh = Api::new("https://marks.example.com");

    fresh
        .accept_session(signed_in.cookie().as_deref())
        .expect("the session read back");

    assert_eq!(fresh.token(), Some("abc-123_XYZ"));
}

#[test]
fn the_session_travels_on_the_requests_that_follow() {
    let mut api = Api::new("http://127.0.0.1:5173");

    // The sign-in request is the one without it...
    assert!(api.cookie().is_none());

    api.accept_session(Some("token=abc123; Path=/; HttpOnly; SameSite=Lax"))
        .expect("a signed-in client");

    // ...and every one after carries it.
    assert_eq!(api.cookie().as_deref(), Some("token=abc123"));
    assert_eq!(api.url("/api/marks"), "http://127.0.0.1:5173/api/marks");
}

#[test]
fn a_client_started_from_a_stored_token_uses_it_the_way_a_fresh_one_does() {
    let api = Api::with_token("http://127.0.0.1:5173", "kept-from-last-time");

    assert_eq!(api.cookie().as_deref(), Some("token=kept-from-last-time"));
}

#[test]
fn a_sign_in_that_sets_no_session_is_an_error() {
    let mut api = Api::new("http://127.0.0.1:5173");

    let error = api.accept_session(None).expect_err("a sign-in with no session");

    assert!(error.message().contains("no session cookie"), "{}", error.message());
    assert_eq!(api.token(), None);
}

#[test]
fn a_rejected_sign_in_keeps_the_servers_own_wording() {
    let error = sign_in_failure(401, Some("Incorrect username or password".to_owned()))
        .expect("a rejected sign-in");

    assert_eq!(error.message(), "Incorrect username or password");
}

const SERVER: &str = "http://marks.test";
const OTHER_SERVER: &str = "http://other.test";

#[test]
fn a_session_is_still_there_when_the_client_next_asks_for_it() {
    let written = to_keep(SERVER, "token-value");

    assert_eq!(load(Some(written), SERVER).as_deref(), Some("token-value"));
}

#[test]
fn a_session_is_kept_for_the_server_that_issued_it() {
    assert_eq!(load(Some(to_keep(SERVER, "token-value")), OTHER_SERVER), None);
    assert_eq!(
        load(Some(to_keep(SERVER, "token-value")), SERVER).as_deref(),
        Some("token-value")
    );
}

#[test]
fn what_is_stored_can_be_read_without_knowing_which_server_it_is_for() {
    assert_eq!(
        stored(Some(to_keep(SERVER, "token-value"))),
        Some((SERVER.to_owned(), "token-value".to_owned()))
    );
}

#[test]
fn a_file_with_no_server_in_it_is_not_a_session_to_offer_anyone() {
    assert_eq!(stored(kept("", "token-value")), None);
    assert_eq!(stored(kept(SERVER, "")), None);
}

#[test]
fn no_session_is_no_session() {
    assert_eq!(load(None, SERVER), None);
    assert_eq!(stored(None), None);
}

#[test]
fn a_file_that_is_not_a_session_is_not_used() {
    // A file that does not read as a session reaches the library as nothing at all, and one with
    // no token in it as half a session.
    assert_eq!(load(None, SERVER), None);
    assert_eq!(load(kept(SERVER, ""), SERVER), None);
}

#[test]
fn forgetting_takes_the_session_that_was_refused_and_leaves_the_rest() {
    let on_disk = || OnDisk::Read(Some(to_keep(SERVER, "token-value")));

    assert!(!removes(&on_disk(), SERVER, "some-other-token"));
    assert!(!removes(&on_disk(), OTHER_SERVER, "token-value"));
    assert!(removes(&on_disk(), SERVER, "token-value"));
}

#[test]
fn forgetting_a_session_that_was_never_there_is_harmless() {
    assert!(!removes(&OnDisk::Missing, SERVER, "token-value"));
}

#[test]
fn forgetting_a_file_that_is_not_a_session_removes_it() {
    assert!(removes(&OnDisk::Read(None), SERVER, "token-value"));
    assert!(removes(&OnDisk::Unreadable, SERVER, "token-value"));
}
