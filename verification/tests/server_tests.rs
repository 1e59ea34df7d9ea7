use betwall::config::{active_patterns, Config};
use betwall::form::{parse_form, Form};
use betwall::http::Request;
use betwall::monitor::url_matches;
use betwall::server::{
    decide, draw_secret, handle, handle_quit, handle_remove, handle_save, handle_setup_verify,
    handle_update, show_setup, start, verify_code, Answer, Decision, Effect, Reply, ServerState,
};
use betwall::totp::{code_at, decode_b32};
use betwall::updater::shared;
use std::time::{SystemTime, UNIX_EPOCH};

const SECRET: &str = "GEZDGNBVGY3TQOJQGEZDGNBVGY3TQOJQ";
const NOW: Option<u64> = Some(59);
const CODE: &str = "code=287082";

fn new_state() -> ServerState {
    start(Config::fresh(), false, shared())
}

fn set_up() -> ServerState {
    let mut state = new_state();
    state.cfg.totp_secret_b32 = Some(SECRET.to_string());
    state.cfg.setup_complete = true;
    state
}

fn request(method: &str, path: &str, query: &str, body: &str) -> Request {
    Request {
        method: method.to_string(),
        path: path.to_string(),
        query: parse_form(query),
        body: parse_form(body),
    }
}

fn post(state: &mut ServerState, path: &str, body: &str) -> Reply {
    match decide(state, &request("POST", path, "", body), NOW) {
        Decision::Answered { reply } => reply,
        Decision::Setup { .. } => panic!("set-up page"),
    }
}

fn location(reply: &Reply) -> &str {
    match &reply.answer {
        Answer::Redirect { location } => location,
        Answer::Respond { .. } => panic!("no redirection"),
    }
}

fn body(reply: &Reply) -> &str {
    match &reply.answer {
        Answer::Respond { body, .. } => body,
        Answer::Redirect { .. } => panic!("redirection"),
    }
}

#[test]
fn front_page_is_the_set_up_page_at_first() {
    let mut state = new_state();
    let d = decide(&mut state, &request("GET", "/", "", ""), NOW);
    assert!(matches!(d, Decision::Setup { error: None }));
    state.cfg.setup_complete = true;
    let d = decide(&mut state, &request("GET", "/", "", ""), NOW);
    assert!(matches!(d, Decision::Setup { error: None }));
}

#[test]
fn front_page_is_the_panel_once_set_up() {
    let mut state = set_up();
    match decide(&mut state, &request("GET", "/", "msg=added", ""), NOW) {
        Decision::Answered { reply } => {
            assert_eq!(reply.effect, Effect::Nothing);
            assert!(body(&reply).contains("Game added."));
            assert!(body(&reply).contains("Casinos"));
        }
        Decision::Setup { .. } => panic!("set-up page"),
    }
}

#[test]
fn set_up_page_shows_the_pending_secret() {
    let mut state = new_state();
    let reply = show_setup(&mut state, Some(SECRET.to_string()), None).unwrap();
    assert_eq!(state.pending_secret.as_deref(), Some(SECRET));
    assert!(body(&reply).contains(SECRET));
    assert!(body(&reply).contains("<svg"));
    assert!(body(&reply).contains("#0f1013"));
    let other = "A".repeat(32);
    let reply = show_setup(&mut state, Some(other.clone()), Some("<oops>".to_string())).unwrap();
    assert_eq!(state.pending_secret.as_deref(), Some(SECRET));
    assert!(!body(&reply).contains(&other));
    assert!(body(&reply).contains("<div class=\"banner err\">&lt;oops&gt;</div>"));
}

#[test]
fn set_up_page_needs_a_secret_and_its_code() {
    let mut state = new_state();
    assert!(show_setup(&mut state, None, None).is_none());
    assert!(state.pending_secret.is_none());
    assert!(draw_secret(&"A".repeat(100)).is_some());
    assert!(draw_secret(&"A".repeat(126)).is_some());
    assert!(draw_secret(&"é".repeat(63)).is_some());
    assert!(draw_secret("").is_some());
    assert!(draw_secret(SECRET).unwrap().starts_with("<?xml"));
    assert_ne!(draw_secret(SECRET), draw_secret("ABCDEFGH"));
}

#[test]
fn first_code_completes_the_set_up() {
    let mut state = new_state();
    state.pending_secret = Some(SECRET.to_string());
    let d = handle_setup_verify(&mut state, &parse_form("code=287083"), NOW);
    match d {
        Decision::Setup { error } => assert_eq!(error.unwrap(), "Code didn't match. Try again."),
        _ => panic!(),
    }
    assert!(!state.cfg.setup_complete);
    let reply = post(&mut state, "/setup/verify", CODE);
    assert_eq!(location(&reply), "/?msg=setup_ok");
    assert_eq!(reply.effect, Effect::Save);
    assert!(state.cfg.setup_complete);
    assert_eq!(state.cfg.totp_secret_b32.as_deref(), Some(SECRET));
    assert!(state.pending_secret.is_none());
    assert!(verify_code(&state.cfg, &parse_form(CODE), NOW));
}

#[test]
fn set_up_without_a_pending_secret_starts_again() {
    let mut state = new_state();
    match handle_setup_verify(&mut state, &parse_form(CODE), NOW) {
        Decision::Setup { error } => assert_eq!(error.unwrap(), "Session expired, try again."),
        _ => panic!(),
    }
}

#[test]
fn code_is_checked_against_the_secret() {
    let state = set_up();
    assert!(verify_code(&state.cfg, &parse_form(CODE), NOW));
    assert!(!verify_code(&state.cfg, &parse_form("code=287083"), NOW));
    assert!(!verify_code(&state.cfg, &Form::new(), NOW));
    assert!(!verify_code(&state.cfg, &parse_form(CODE), None));
    assert!(!verify_code(&new_state().cfg, &parse_form(CODE), NOW));
}

#[test]
fn weakening_save_takes_a_code() {
    let mut state = set_up();
    state.cfg.games[0].blocked = true;
    let before = format!("{:?}", state);
    let reply = handle_save(&mut state, &parse_form("enabled=on"), NOW);
    assert_eq!(location(&reply), "/?msg=bad_code");
    assert_eq!(reply.effect, Effect::Nothing);
    assert_eq!(format!("{:?}", state), before);
    let reply = post(&mut state, "/save", "enabled=on&code=287082");
    assert_eq!(location(&reply), "/?msg=ok");
    assert_eq!(reply.effect, Effect::Save);
    assert!(!state.cfg.games[0].blocked);
}

#[test]
fn strengthening_save_takes_no_code() {
    let mut state = set_up();
    let reply = post(&mut state, "/save", "enabled=on&c_roobet_all=on&g_stake-dice=on");
    assert_eq!(location(&reply), "/?msg=ok");
    assert_eq!(reply.effect, Effect::Save);
    assert!(state.cfg.casinos[4].blocked_all);
    assert!(state.cfg.games[0].blocked);
}

#[test]
fn adding_takes_no_code() {
    let mut state = set_up();
    let reply = post(&mut state, "/add", "label=Pump&url_pattern=pump&casino=stake");
    assert_eq!(location(&reply), "/?msg=added");
    assert_eq!(reply.effect, Effect::Save);
    assert_eq!(state.cfg.games[42].id, "stake-pump");
    let reply = post(&mut state, "/add", "label=&url_pattern=pump");
    assert_eq!(location(&reply), "/?msg=bad_input");
    assert_eq!(reply.effect, Effect::Nothing);
    assert_eq!(state.cfg.games.len(), 43);
}

#[test]
fn removing_takes_a_code() {
    let mut state = set_up();
    let reply = handle_remove(&mut state, &parse_form("remove_id=stake-dice"), NOW);
    assert_eq!(location(&reply), "/?msg=bad_code");
    assert_eq!(state.cfg.games.len(), 42);
    let reply = post(&mut state, "/remove", CODE);
    assert_eq!(location(&reply), "/?msg=ok");
    assert_eq!(reply.effect, Effect::Nothing);
    let reply = post(&mut state, "/remove", "code=287082&remove_id=stake-dice");
    assert_eq!(location(&reply), "/?msg=removed");
    assert_eq!(reply.effect, Effect::Save);
    assert_eq!(state.cfg.games.len(), 41);
    assert_eq!(state.cfg.games[0].id, "stake-limbo");
}

#[test]
fn updating_takes_a_code_and_a_later_version() {
    let mut state = set_up();
    let reply = handle_update(&state, &parse_form("code=000000"), NOW);
    assert_eq!(location(&reply), "/?msg=bad_code");
    let reply = post(&mut state, "/update", CODE);
    assert_eq!(location(&reply), "/?msg=no_update");
    state.update_status.latest_version = Some("9.0.0".to_string());
    let reply = post(&mut state, "/update", CODE);
    assert_eq!(reply.effect, Effect::Install);
    assert!(body(&reply).contains("<h1>Updating</h1>"));
}

#[test]
fn quitting_takes_a_code() {
    let mut state = set_up();
    let reply = handle_quit(&mut state, &parse_form(""), NOW);
    assert_eq!(location(&reply), "/?msg=bad_code");
    assert!(!state.stop);
    let reply = post(&mut state, "/quit", CODE);
    assert_eq!(reply.effect, Effect::Quit);
    assert!(body(&reply).contains("<h1>Shutting down</h1>"));
    assert!(state.stop);
}

#[test]
fn before_the_set_up_nothing_can_be_weakened() {
    let mut state = new_state();
    for path in ["/save", "/remove", "/quit", "/update"] {
        let reply = post(&mut state, path, "code=287082&remove_id=stake-dice");
        assert_eq!(location(&reply), "/?msg=bad_code");
    }
    assert!(state.cfg.enabled);
    assert!(!state.stop);
}

#[test]
fn other_requests_are_not_found() {
    let mut state = set_up();
    let before = format!("{:?}", state);
    for (method, path) in [
        ("GET", "/save"),
        ("POST", "/"),
        ("get", "/"),
        ("POST", "/save/"),
        ("PUT", "/add"),
        ("GET", ""),
    ] {
        match decide(&mut state, &request(method, path, "", CODE), NOW) {
            Decision::Answered { reply } => {
                assert_eq!(
                    reply.answer.text(),
                    "HTTP/1.1 404 Not Found\r\nContent-Type: text/plain; charset=utf-8\r\nContent-Length: 9\r\nConnection: close\r\nCache-Control: no-store\r\n\r\nnot found"
                );
                assert_eq!(reply.effect, Effect::Nothing);
            }
            Decision::Setup { .. } => panic!(),
        }
    }
    assert_eq!(format!("{:?}", state), before);
}

#[test]
fn what_is_no_request_is_answered_as_such() {
    let mut state = new_state();
    let reply = handle(&mut state, &None).unwrap();
    assert!(reply.answer.text().starts_with("HTTP/1.1 400 Bad Request\r\n"));
    assert!(reply.answer.text().ends_with("bad request"));
}

#[test]
fn whole_set_up_with_the_clock_and_random_secret() {
    let mut state = new_state();
    let reply = handle(&mut state, &Some(request("GET", "/", "", ""))).unwrap();
    let secret = state.pending_secret.clone().unwrap();
    assert_eq!(secret.len(), 32);
    assert!(body(&reply).contains(&secret));
    let reply = handle(&mut state, &Some(request("GET", "/", "", ""))).unwrap();
    assert!(body(&reply).contains(&secret));
    let now = SystemTime::now().duration_since(UNIX_EPOCH).unwrap().as_secs();
    let code = code_at(&decode_b32(&secret).unwrap(), now / 30);
    let r = request("POST", "/setup/verify", "", &format!("code={code}"));
    let reply = handle(&mut state, &Some(r)).unwrap();
    assert_eq!(location(&reply), "/?msg=setup_ok");
    assert_eq!(state.cfg.totp_secret_b32, Some(secret));
    let r = request("POST", "/quit", "", &format!("code={code}"));
    assert_eq!(handle(&mut state, &Some(r)).unwrap().effect, Effect::Quit);
    assert!(state.stop);
}

#[test]
fn redirection_is_written_out() {
    let mut state = set_up();
    let reply = post(&mut state, "/quit", "");
    assert_eq!(
        reply.answer.text(),
        "HTTP/1.1 302 Found\r\nLocation: /?msg=bad_code\r\nContent-Length: 0\r\nConnection: close\r\n\r\n"
    );
}

#[test]
fn nothing_gets_weaker_until_a_code_comes() {
    let mut state = set_up();
    state.cfg.games[0].blocked = true;
    let url = "https://stake.com/casino/games/dice";
    for (method, path, body) in [
        ("POST", "/save", ""),
        ("POST", "/save", "enabled=on"),
        ("POST", "/save", "enabled=on&g_stake-dice=on&c_stake_all=on"),
        ("POST", "/add", "label=Pump&url_pattern=pump&casino=stake"),
        ("POST", "/remove", "remove_id=stake-dice&code=000000"),
        ("POST", "/quit", "code=1"),
        ("POST", "/setup/verify", "code=287082"),
        ("GET", "/", ""),
        ("POST", "/save", "enabled=on&g_stake-dice=on"),
    ] {
        decide(&mut state, &request(method, path, "", body), NOW);
        assert!(state.cfg.enabled);
        assert!(!state.stop);
        assert!(url_matches(url, &active_patterns(&state.cfg)));
    }
    post(&mut state, "/save", "enabled=on&code=287082");
    assert!(!url_matches(url, &active_patterns(&state.cfg)));
}

#[test]
fn pending_secret_can_be_drawn() {
    let mut state = new_state();
    assert!(state.is_wf());
    for (length, fits) in [(32, true), (126, true), (127, false)] {
        state.pending_secret = Some("A".repeat(length));
        assert_eq!(state.is_wf(), fits);
    }
    state.pending_secret = None;
    handle(&mut state, &Some(request("GET", "/", "", ""))).unwrap();
    assert!(state.pending_secret.is_some());
    assert!(state.is_wf());
}

#[test]
fn added_game_outside_ascii_stays_shut_until_a_code_comes() {
    let mut state = set_up();
    let url = "https://stake.com/spiele/über";
    post(&mut state, "/add", "label=%C3%9Cber&url_pattern=Spiele/%C3%9Cber&casino=stake");
    assert_eq!(state.cfg.games[42].url_pattern, "stake.com/spiele/über");
    assert!(url_matches(url, &active_patterns(&state.cfg)));
    for body in ["", "enabled=on", "enabled=on&c_stake_all=on&g_stake-%C3%BCber=on"] {
        post(&mut state, "/save", body);
        assert!(state.cfg.enabled);
        assert!(url_matches(url, &active_patterns(&state.cfg)));
    }
    assert_eq!(active_patterns(&state.cfg), vec!["stake.com"]);
    post(&mut state, "/save", "enabled=on&code=287082");
    assert!(!url_matches(url, &active_patterns(&state.cfg)));
}
