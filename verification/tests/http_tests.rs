use betwall::form::{parse_form, Form};
use betwall::http::{redirect, respond, Reading, Request};
use betwall::percent::url_encode;

fn read(lines: &[&[u8]]) -> Reading {
    let mut state = Reading::Start;
    for line in lines {
        state = state.after_line(line);
    }
    state
}

fn done(state: Reading) -> Request {
    match state {
        Reading::Done { request } => request,
        _ => panic!("not complete"),
    }
}

#[test]
fn form_is_read_field_by_field() {
    let form = parse_form("a=1&b=x+y&&c&=v&a=2&d=%26%3D");
    assert_eq!(form.get("a").unwrap(), "2");
    assert_eq!(form.get("b").unwrap(), "x y");
    assert_eq!(form.get("c").unwrap(), "");
    assert_eq!(form.get("").unwrap(), "v");
    assert_eq!(form.get("d").unwrap(), "&=");
    assert!(form.get("e").is_none());
    assert!(form.contains_key("c"));
    assert!(!form.contains_key("x"));
    assert_eq!(form.text("e"), "");
    assert_eq!(form.text("a"), "2");
    assert_eq!(parse_form("k=a=b").text("k"), "a=b");
}

#[test]
fn form_holds_what_is_put_in() {
    let mut form = Form::new();
    assert!(!form.contains_key("x"));
    form.insert("x".to_string(), "1".to_string());
    form.insert("x".to_string(), "2".to_string());
    assert_eq!(form.text("x"), "2");
}

#[test]
fn get_request_is_read() {
    let request = done(read(&[b"GET /a?msg=ok&x=1+2 HTTP/1.1\r\n", b"Host: x\r\n", b"\r\n"]));
    assert_eq!(request.method, "GET");
    assert_eq!(request.path, "/a");
    assert_eq!(request.query.text("msg"), "ok");
    assert_eq!(request.query.text("x"), "1 2");
    assert!(!request.body.contains_key("x"));
}

#[test]
fn target_is_cut_at_the_first_question_mark() {
    let request = done(read(&[b"GET /?a?b=1 HTTP/1.1\r\n", b"\r\n"]));
    assert_eq!(request.path, "/");
    assert_eq!(request.query.text("a?b"), "1");
}

#[test]
fn post_request_is_read_with_its_body() {
    let state = read(&[b"POST /save HTTP/1.1\r\n", b"CONTENT-length:  7 \r\n", b"\r\n"]);
    assert!(matches!(state, Reading::Body { content_length: 7, .. }));
    let request = done(state.after_body(b"a=b&c=d"));
    assert_eq!(request.method, "POST");
    assert_eq!(request.body.text("a"), "b");
    assert_eq!(request.body.text("c"), "d");
}

#[test]
fn last_length_counts() {
    let state = read(&[
        b"POST / HTTP/1.1\r\n",
        b"Content-Length: 9\r\n",
        b"Content-Length: 4\r\n",
        b"\n",
    ]);
    assert!(matches!(state, Reading::Body { content_length: 4, .. }));
    let state = read(&[b"POST / HTTP/1.1\r\n", b"Content-Length: 9\r\n", b"content-length: x\r\n"]);
    assert!(matches!(state, Reading::Headers { content_length: 0, .. }));
    let state = read(&[b"POST / X\r\n", b"Content-Length: 99999999999999999999999\r\n"]);
    assert!(matches!(state, Reading::Headers { content_length: 0, .. }));
    let state = read(&[b"POST / X\r\n", b"Content-Length: +12\r\n"]);
    assert!(matches!(state, Reading::Headers { content_length: 12, .. }));
    let state = read(&[b"POST / X\r\n", b" Content-Length: 12\r\n"]);
    assert!(matches!(state, Reading::Headers { content_length: 0, .. }));
}

#[test]
fn end_of_connection_ends_the_headers() {
    let request = done(read(&[b"GET / HTTP/1.1\r\n", b""]));
    assert_eq!(request.path, "/");
}

#[test]
fn what_is_no_request_is_refused() {
    assert!(matches!(read(&[b""]), Reading::Bad));
    assert!(matches!(read(&[b"GET\r\n"]), Reading::Bad));
    assert!(matches!(read(&[b"\xff / x\r\n"]), Reading::Bad));
    assert!(matches!(read(&[b"GET / x\r\n", b"X: \xff\r\n"]), Reading::Bad));
    let state = read(&[b"POST / x\r\n", b"Content-Length: 3\r\n", b"\r\n"]);
    assert!(matches!(state.after_body(b"a="), Reading::Bad));
    assert!(matches!(read(&[b"", b"GET / x\r\n"]), Reading::Bad));
}

#[test]
fn two_words_make_a_first_line() {
    let request = done(read(&[b"  GET \t /x  ", b"\r\n"]));
    assert_eq!(request.method, "GET");
    assert_eq!(request.path, "/x");
}

#[test]
fn body_that_is_no_text_has_no_fields() {
    let state = read(&[b"POST / x\r\n", b"Content-Length: 3\r\n", b"\r\n"]);
    let request = done(state.after_body(b"a=\xff"));
    assert!(!request.body.contains_key("a"));
}

#[test]
fn complete_request_takes_nothing_more() {
    let state = read(&[b"GET / x\r\n", b"\r\n", b"GET /other x\r\n"]);
    assert_eq!(done(state.after_body(b"a=b")).path, "/");
}

#[test]
fn answer_gives_its_length_in_bytes() {
    assert_eq!(
        respond(200, "text/html", "é!"),
        "HTTP/1.1 200 OK\r\nContent-Type: text/html; charset=utf-8\r\nContent-Length: 3\r\nConnection: close\r\nCache-Control: no-store\r\n\r\né!"
    );
    assert!(respond(400, "text/plain", "").starts_with("HTTP/1.1 400 Bad Request\r\n"));
    assert!(respond(404, "text/plain", "").starts_with("HTTP/1.1 404 Not Found\r\n"));
    assert!(respond(500, "text/plain", "").starts_with("HTTP/1.1 500 OK\r\n"));
    assert!(respond(200, "text/plain", "").ends_with("\r\n\r\n"));
}

#[test]
fn redirection_names_the_place() {
    assert_eq!(
        redirect("/?msg=ok"),
        "HTTP/1.1 302 Found\r\nLocation: /?msg=ok\r\nContent-Length: 0\r\nConnection: close\r\n\r\n"
    );
}

#[test]
fn submitted_form_is_read_back() {
    let pairs = [("label", "Ä & Ö"), ("url_pattern", "https://x.org/?a=b"), ("", "+ %41"), ("x", "")];
    let encoded: Vec<String> = pairs
        .iter()
        .map(|(k, v)| format!("{}={}", url_encode(k), url_encode(v)))
        .collect();
    let form = parse_form(&encoded.join("&"));
    for (k, v) in pairs {
        assert_eq!(form.get(k).unwrap(), v);
    }
}
