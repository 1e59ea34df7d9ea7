//! Requests as they come over a connection, and the answers to them.
use crate::form::{form_of, lemma_form_read_back, parse_form, Form};
use crate::text::{
    char_lists, decimal, decimal_text, is_white, lemma_decimal_spells_number, lemma_split_by_last,
    lemma_split_by_single, lemma_split_first, nonempty, number_of, parse_usize, split_by,
    split_first, split_first_chars, starts_with_chars, to_chars, to_text, trim_chars,
    trim_end_chars, trimmed, trimmed_end, trimmed_start, white, word_chars, words,
};
use crate::unicode::{ascii_lower, ascii_lowercase, lower_ascii_chars, utf8_text};
use vstd::prelude::*;
use vstd::slice::slice_subrange;
use vstd::utf8::*;

verus! {

// ---------------------------------------------------------------------------
// Types
// ---------------------------------------------------------------------------

/// What the first line of a request says. The query is still encoded.
pub struct StartLine {
    pub method: String,
    pub path: String,
    pub query: String,
}

/// A request.
pub struct Request {
    pub method: String,
    pub path: String,
    pub query: Form,
    pub body: Form,
}

/// How far a request has been read.
pub enum Reading {
    /// The first line is next.
    Start,
    /// A header line is next.
    Headers { start: StartLine, content_length: usize },
    /// The body is next, of that many bytes.
    Body { start: StartLine, content_length: usize },
    /// The request is complete.
    Done { request: Request },
    /// What came is no request.
    Bad,
}

/// What a `StartLine` says.
pub struct StartLineView {
    pub method: Seq<char>,
    pub path: Seq<char>,
    pub query: Seq<char>,
}

/// What a `Request` says.
pub struct RequestView {
    pub method: Seq<char>,
    pub path: Seq<char>,
    pub query: Map<Seq<char>, Seq<char>>,
    pub body: Map<Seq<char>, Seq<char>>,
}

/// What a `Reading` says.
pub enum ReadingView {
    Start,
    Headers { start: StartLineView, content_length: nat },
    Body { start: StartLineView, content_length: nat },
    Done { request: RequestView },
    Bad,
}

impl View for StartLine {
    type V = StartLineView;

    open spec fn view(&self) -> StartLineView {
        StartLineView { method: self.method@, path: self.path@, query: self.query@ }
    }
}

impl View for Request {
    type V = RequestView;

    open spec fn view(&self) -> RequestView {
        RequestView {
            method: self.method@,
            path: self.path@,
            query: self.query@,
            body: self.body@,
        }
    }
}

impl View for Reading {
    type V = ReadingView;

    open spec fn view(&self) -> ReadingView {
        match self {
            Reading::Start => ReadingView::Start,
            Reading::Headers { start, content_length } => ReadingView::Headers {
                start: start@,
                content_length: *content_length as nat,
            },
            Reading::Body { start, content_length } => ReadingView::Body {
                start: start@,
                content_length: *content_length as nat,
            },
            Reading::Done { request } => ReadingView::Done { request: request@ },
            Reading::Bad => ReadingView::Bad,
        }
    }
}

// ---------------------------------------------------------------------------
// Reading a request
// ---------------------------------------------------------------------------

/// The text of a line. A line that is not valid UTF-8 has none.
pub open spec fn line_text(line: Seq<u8>) -> Option<Seq<char>> {
    if valid_utf8(line) {
        Some(decode_utf8(line))
    } else {
        None
    }
}

/// What a first line says: its first word is the method, its second the target,
/// whose part behind the first `?` is the query. A line with fewer words says
/// nothing.
pub open spec fn start_line(s: Seq<char>) -> Option<StartLineView> {
    let parts = words(s);
    if parts.len() < 2 {
        None
    } else {
        let target = match split_first(parts[1], '?') {
            Some(p) => p,
            None => (parts[1], Seq::empty()),
        };
        Some(StartLineView { method: parts[0], path: target.0, query: target.1 })
    }
}

/// The length of the body after a header line: what the line says where it gives
/// the length, zero where that is no number that fits, and the length so far for
/// any other line.
pub open spec fn length_after(line: Seq<char>, so_far: nat) -> nat {
    let lower = ascii_lowercase(trimmed_end(line));
    if "content-length:"@.is_prefix_of(lower) {
        match number_of(trimmed(lower.skip("content-length:"@.len() as int))) {
            Some(n) => if n <= usize::MAX {
                n
            } else {
                0
            },
            None => 0,
        }
    } else {
        so_far
    }
}

/// The fields in a body. A body that is not valid UTF-8 has none.
pub open spec fn body_fields(body: Seq<u8>) -> Map<Seq<char>, Seq<char>> {
    form_of(
        if valid_utf8(body) {
            decode_utf8(body)
        } else {
            Seq::empty()
        },
    )
}

/// The request with that first line and body.
pub open spec fn request_of(start: StartLineView, body: Seq<u8>) -> RequestView {
    RequestView {
        method: start.method,
        path: start.path,
        query: form_of(start.query),
        body: body_fields(body),
    }
}

/// How far a request has been read after one more line, its line break included.
/// An empty line of bytes stands for the end of the connection. A blank line or
/// the end of the connection ends the headers.
pub open spec fn reading_after_line(state: ReadingView, line: Seq<u8>) -> ReadingView {
    match state {
        ReadingView::Start => match line_text(line) {
            None => ReadingView::Bad,
            Some(s) => match start_line(s) {
                None => ReadingView::Bad,
                Some(start) => ReadingView::Headers { start, content_length: 0 },
            },
        },
        ReadingView::Headers { start, content_length } => match line_text(line) {
            None => ReadingView::Bad,
            Some(s) => if trimmed_end(s).len() > 0 {
                ReadingView::Headers { start, content_length: length_after(s, content_length) }
            } else if content_length > 0 {
                ReadingView::Body { start, content_length }
            } else {
                ReadingView::Done { request: request_of(start, Seq::empty()) }
            },
        },
        other => other,
    }
}

/// How far a request has been read after its body. A body of another length than
/// the one announced is refused.
pub open spec fn reading_after_body(state: ReadingView, body: Seq<u8>) -> ReadingView {
    match state {
        ReadingView::Body { start, content_length } => if body.len() == content_length {
            ReadingView::Done { request: request_of(start, body) }
        } else {
            ReadingView::Bad
        },
        other => other,
    }
}

/// What a first line says.
fn parse_start_line(s: &str) -> (r: Option<StartLine>)
    ensures
        r is Some <==> start_line(s@) is Some,
        r matches Some(start) ==> start_line(s@) == Some(start@),
{
    let v = to_chars(s);
    let parts = word_chars(&v);
    assert(char_lists(parts@).len() == parts@.len());
    if parts.len() < 2 {
        return None;
    }
    assert(char_lists(parts@)[0] == parts@[0]@);
    assert(char_lists(parts@)[1] == parts@[1]@);
    let method = to_text(&parts[0]);
    match split_first_chars(&parts[1], '?') {
        Some((p, q)) => Some(StartLine { method, path: to_text(p), query: to_text(q) }),
        None => Some(StartLine { method, path: to_text(&parts[1]), query: String::new() }),
    }
}

/// The length of the body after a header line.
fn content_length_after(line: &[char], so_far: usize) -> (r: usize)
    ensures
        r == length_after(line@, so_far as nat),
{
    let name = to_chars("content-length:");
    let lower = lower_ascii_chars(trim_end_chars(line));
    if !starts_with_chars(&lower, &name) {
        return so_far;
    }
    let rest = slice_subrange(&lower, name.len(), lower.len());
    assert(rest@ =~= lower@.skip(name@.len() as int));
    match parse_usize(trim_chars(rest)) {
        Some(n) => n,
        None => 0,
    }
}

/// The request with that first line and body.
fn make_request(start: StartLine, body: &[u8]) -> (r: Request)
    ensures
        r@ == request_of(start@, body@),
{
    let text = match utf8_text(body) {
        Some(s) => s,
        None => String::new(),
    };
    let query = parse_form(start.query.as_str());
    let body = parse_form(text.as_str());
    Request { method: start.method, path: start.path, query, body }
}

impl Reading {
    /// Takes in one more line, its line break included; no bytes at the end of
    /// the connection.
    pub fn after_line(self, line: &[u8]) -> (r: Reading)
        ensures
            r@ == reading_after_line(self@, line@),
    {
        match self {
            Reading::Start => match utf8_text(line) {
                None => Reading::Bad,
                Some(s) => match parse_start_line(s.as_str()) {
                    None => Reading::Bad,
                    Some(start) => Reading::Headers { start, content_length: 0 },
                },
            },
            Reading::Headers { start, content_length } => match utf8_text(line) {
                None => Reading::Bad,
                Some(s) => {
                    let v = to_chars(s.as_str());
                    if trim_end_chars(&v).len() > 0 {
                        let content_length = content_length_after(&v, content_length);
                        Reading::Headers { start, content_length }
                    } else if content_length > 0 {
                        Reading::Body { start, content_length }
                    } else {
                        let none: Vec<u8> = Vec::new();
                        assert(none@ =~= Seq::empty());
                        Reading::Done { request: make_request(start, &none) }
                    }
                },
            },
            other => other,
        }
    }

    /// Takes in the body.
    pub fn after_body(self, body: &[u8]) -> (r: Reading)
        ensures
            r@ == reading_after_body(self@, body@),
    {
        match self {
            Reading::Body { start, content_length } => if body.len() == content_length {
                Reading::Done { request: make_request(start, body) }
            } else {
                Reading::Bad
            },
            other => other,
        }
    }
}

// ---------------------------------------------------------------------------
// What holds of requests
// ---------------------------------------------------------------------------

/// A text without white space.
pub open spec fn no_white(s: Seq<char>) -> bool {
    forall|i: int| 0 <= i < s.len() ==> !is_white(#[trigger] s[i])
}

/// The first line of a request, with its line break.
pub open spec fn first_line(method: Seq<char>, target: Seq<char>) -> Seq<char> {
    (method.push(' ') + target).push(' ') + "HTTP/1.1"@ + "\r\n"@
}

/// The header line with the length of the body, with its line break.
pub open spec fn length_line(n: nat) -> Seq<char> {
    "Content-Length: "@ + decimal(n) + "\r\n"@
}

proof fn lemma_line_text(s: Seq<char>)
    ensures
        line_text(encode_utf8(s)) == Some(s),
{
    encode_utf8_valid_utf8(s);
    encode_utf8_decode_utf8(s);
}

proof fn lemma_first_line_words(method: Seq<char>, target: Seq<char>)
    requires
        method.len() > 0,
        target.len() > 0,
        no_white(method),
        no_white(target),
    ensures
        words(first_line(method, target)) == seq![method, target, "HTTP/1.1"@],
{
    reveal_strlit("HTTP/1.1");
    reveal_strlit("\r\n");
    let version = "HTTP/1.1"@;
    let none = Seq::<char>::empty();
    assert(no_white(version));
    let one = method.push(' ') + target;
    let two = one.push(' ') + version;
    let three = two.push('\r') + none;
    let four = three.push('\n') + none;
    assert(four =~= first_line(method, target));
    lemma_split_by_single(method, white());
    lemma_split_by_last(method, ' ', target, white());
    lemma_split_by_last(one, ' ', version, white());
    lemma_split_by_last(two, '\r', none, white());
    lemma_split_by_last(three, '\n', none, white());
    let pieces = seq![method].push(target).push(version).push(none).push(none);
    assert(split_by(four, white()) == pieces);
    reveal(Seq::filter);
    assert(pieces.drop_last() =~= seq![method].push(target).push(version).push(none));
    assert(pieces.drop_last().drop_last() =~= seq![method].push(target).push(version));
    assert(pieces.drop_last().drop_last().drop_last() =~= seq![method].push(target));
    assert(seq![method].push(target).drop_last() =~= seq![method]);
    assert(seq![method].drop_last() =~= Seq::empty());
    reveal_with_fuel(Seq::filter, 6);
    assert(pieces.filter(nonempty()) =~= seq![method, target, version]);
}

/// The first line of a request is read for its method and for its target, whose
/// part behind the first `?` is the query.
pub proof fn lemma_first_line_read(method: Seq<char>, path: Seq<char>, query: Seq<char>)
    requires
        method.len() > 0,
        no_white(method),
        no_white(path),
        no_white(query),
        !path.contains('?'),
    ensures
        start_line(first_line(method, path.push('?') + query)) == Some(
            (StartLineView { method, path, query }),
        ),
        path.len() > 0 ==> start_line(first_line(method, path)) == Some(
            (StartLineView { method, path, query: Seq::empty() }),
        ),
{
    let target = path.push('?') + query;
    assert(no_white(target)) by {
        assert forall|i: int| 0 <= i < target.len() implies !is_white(#[trigger] target[i]) by {
            if i < path.len() {
                assert(target[i] == path[i]);
            } else if i > path.len() {
                assert(target[i] == query[i - path.len() - 1]);
            }
        }
    }
    lemma_first_line_words(method, target);
    lemma_split_first(path, '?', query);
    if path.len() > 0 {
        lemma_first_line_words(method, path);
    }
}

/// A blank line ends a request without a body. It is read as it was sent.
pub proof fn lemma_get_is_read(path: Seq<char>, query: Seq<char>)
    requires
        no_white(path),
        no_white(query),
        !path.contains('?'),
    ensures
        reading_after_line(
            reading_after_line(
                ReadingView::Start,
                encode_utf8(first_line("GET"@, path.push('?') + query)),
            ),
            encode_utf8("\r\n"@),
        ) == (ReadingView::Done {
            request: RequestView {
                method: "GET"@,
                path,
                query: form_of(query),
                body: Map::empty(),
            },
        }),
{
    reveal_strlit("GET");
    assert(no_white("GET"@));
    lemma_first_line_read("GET"@, path, query);
    lemma_line_text(first_line("GET"@, path.push('?') + query));
    lemma_line_text("\r\n"@);
    lemma_blank_line();
    lemma_no_fields();
}

proof fn lemma_blank_line()
    ensures
        trimmed_end("\r\n"@).len() == 0,
{
    reveal_strlit("\r\n");
    reveal_with_fuel(trimmed_end, 3);
}

proof fn lemma_no_fields()
    ensures
        body_fields(Seq::empty()) == Map::<Seq<char>, Seq<char>>::empty(),
{
    let none = Seq::<char>::empty();
    assert(encode_utf8(none) =~= Seq::empty());
    encode_utf8_valid_utf8(none);
    encode_utf8_decode_utf8(none);
    lemma_form_read_back(Seq::empty());
}

proof fn lemma_length_line_read(n: nat, so_far: nat)
    requires
        n <= usize::MAX,
    ensures
        trimmed_end(length_line(n)).len() > 0,
        length_after(length_line(n), so_far) == n,
{
    reveal_strlit("\r\n");
    reveal_strlit("Content-Length: ");
    reveal_strlit("content-length:");
    let digits = decimal(n);
    let head = "Content-Length: "@;
    let name = "content-length:"@;
    let kept = head + digits;
    lemma_decimal_spells_number(n);
    let line = length_line(n);
    assert(line.drop_last().drop_last() =~= kept);
    assert(line.drop_last() =~= kept.push('\r'));
    assert(!is_white(digits[digits.len() - 1]));
    assert(kept.last() == digits[digits.len() - 1]);
    reveal_with_fuel(trimmed_end, 3);
    assert(trimmed_end(line) == kept);
    let lower = ascii_lowercase(kept);
    assert(lower.subrange(0, name.len() as int) =~= name);
    assert(name.is_prefix_of(lower));
    let rest = lower.skip(name.len() as int);
    assert forall|i: int| 0 <= i < digits.len() implies ascii_lower(#[trigger] digits[i])
        == digits[i] by {}
    assert(rest =~= seq![' '] + digits);
    assert(rest.drop_first() =~= digits);
    reveal_with_fuel(trimmed_start, 3);
    assert(!is_white(digits[0]));
    assert(trimmed_start(rest) == digits);
    assert(trimmed_end(digits) == digits);
}

/// A request with a body is read with exactly as many bytes as its header gives.
/// It is read as it was sent.
pub proof fn lemma_post_is_read(path: Seq<char>, body: Seq<u8>)
    requires
        path.len() > 0,
        no_white(path),
        !path.contains('?'),
        0 < body.len() <= usize::MAX,
    ensures
        ({
            let started = reading_after_line(
                ReadingView::Start,
                encode_utf8(first_line("POST"@, path)),
            );
            let headed = reading_after_line(started, encode_utf8(length_line(body.len())));
            let ended = reading_after_line(headed, encode_utf8("\r\n"@));
            &&& ended matches ReadingView::Body { content_length, .. } && content_length
                == body.len()
            &&& reading_after_body(ended, body) == (ReadingView::Done {
                request: RequestView {
                    method: "POST"@,
                    path,
                    query: Map::empty(),
                    body: body_fields(body),
                },
            })
        }),
{
    reveal_strlit("POST");
    assert(no_white("POST"@));
    lemma_first_line_read("POST"@, path, Seq::empty());
    lemma_line_text(first_line("POST"@, path));
    lemma_line_text(length_line(body.len()));
    lemma_line_text("\r\n"@);
    lemma_length_line_read(body.len(), 0);
    lemma_blank_line();
    lemma_form_read_back(Seq::empty());
}

/// Where a request gives its length more than once, the last one counts.
pub proof fn lemma_last_length_counts(start: StartLineView, first: nat, second: nat)
    requires
        first <= usize::MAX,
        second <= usize::MAX,
    ensures
        reading_after_line(
            reading_after_line(
                ReadingView::Headers { start, content_length: 0 },
                encode_utf8(length_line(first)),
            ),
            encode_utf8(length_line(second)),
        ) == (ReadingView::Headers { start, content_length: second }),
{
    lemma_line_text(length_line(first));
    lemma_line_text(length_line(second));
    lemma_length_line_read(first, 0);
    lemma_length_line_read(second, first);
}

// ---------------------------------------------------------------------------
// Answers
// ---------------------------------------------------------------------------

/// The words for a status.
pub open spec fn status_words(status: u16) -> Seq<char> {
    if status == 400 {
        "Bad Request"@
    } else if status == 404 {
        "Not Found"@
    } else {
        "OK"@
    }
}

/// The head of an answer with a body of that many bytes.
pub open spec fn answer_head(status: u16, content_type: Seq<char>, length: nat) -> Seq<char> {
    "HTTP/1.1 "@ + decimal(status as nat) + " "@ + status_words(status) + "\r\nContent-Type: "@
        + content_type + "; charset=utf-8\r\nContent-Length: "@ + decimal(length)
        + "\r\nConnection: close\r\nCache-Control: no-store\r\n\r\n"@
}

/// An answer with a body. Its head gives the length of the body in bytes.
pub open spec fn answer(status: u16, content_type: Seq<char>, body: Seq<char>) -> Seq<char> {
    answer_head(status, content_type, encode_utf8(body).len()) + body
}

/// An answer that sends the browser elsewhere.
pub open spec fn redirection(location: Seq<char>) -> Seq<char> {
    "HTTP/1.1 302 Found\r\nLocation: "@ + location
        + "\r\nContent-Length: 0\r\nConnection: close\r\n\r\n"@
}

/// An answer with a body, as it goes over the connection.
pub fn respond(status: u16, content_type: &str, body: &str) -> (r: String)
    ensures
        r@ == answer(status, content_type@, body@),
{
    let length: usize = body.as_bytes().len();
    let mut r = "HTTP/1.1 ".to_owned();
    r.append(decimal_text(status as u128).as_str());
    r.append(" ");
    r.append(
        if status == 400 {
            "Bad Request"
        } else if status == 404 {
            "Not Found"
        } else {
            "OK"
        },
    );
    r.append("\r\nContent-Type: ");
    r.append(content_type);
    r.append("; charset=utf-8\r\nContent-Length: ");
    r.append(decimal_text(length as u128).as_str());
    r.append("\r\nConnection: close\r\nCache-Control: no-store\r\n\r\n");
    r.append(body);
    r
}

/// An answer that sends the browser elsewhere, as it goes over the connection.
pub fn redirect(location: &str) -> (r: String)
    ensures
        r@ == redirection(location@),
{
    let mut r = "HTTP/1.1 302 Found\r\nLocation: ".to_owned();
    r.append(location);
    r.append("\r\nContent-Length: 0\r\nConnection: close\r\n\r\n");
    r
}

} // verus!
