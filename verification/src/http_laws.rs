//! What requests, forms and answers say, by their bytes and characters.
use crate::form::{field, form_of, pair_parts, pieces_form};
use crate::http::{
    answer, body_fields, length_after, line_text, reading_after_body, reading_after_line,
    redirection, request_of, start_line, ReadingView, RequestView, StartLineView,
};
use crate::percent::{
    decoded_bytes, encoded_byte, encoded_bytes, lemma_encode_utf8_concat, url_decoded, url_encoded,
};
use crate::text::{decimal, is_white, number_of, split_on, trimmed, trimmed_end, words};
use crate::text_laws::{lemma_split_at_character, lemma_split_at_first, lemma_trimmed_is_core};
use crate::unicode::{ascii_lower, ascii_lowercase};
use vstd::prelude::*;
use vstd::utf8::*;

verus! {

// ---------------------------------------------------------------------------
// Percent-encoding
// ---------------------------------------------------------------------------

/// The character of a hexadecimal figure.
pub open spec fn figure(n: int) -> char {
    if n < 10 {
        ('0' as u32 + n) as char
    } else {
        ('A' as u32 + n - 10) as char
    }
}

/// Texts side by side are encoded each on its own. A letter, a digit, `-`, `_`,
/// `.` and `~` stand for themselves; any other character of ASCII becomes `%` with
/// its number in two hexadecimal figures, capitals among them.
pub proof fn lemma_encoded_by_character(a: Seq<char>, b: Seq<char>, c: char)
    requires
        (c as u32) < 128,
    ensures
        url_encoded(a + b) == url_encoded(a) + url_encoded(b),
        url_encoded(Seq::empty()).len() == 0,
        ({
            let plain = 'a' <= c <= 'z' || 'A' <= c <= 'Z' || '0' <= c <= '9' || c == '-' || c
                == '_' || c == '.' || c == '~';
            &&& plain ==> url_encoded(seq![c]) == seq![c]
            &&& !plain ==> url_encoded(seq![c]).len() == 3 && url_encoded(seq![c])[0] == '%'
            &&& forall|h: int, l: int|
                !plain && 0 <= h < 16 && 0 <= l < 16 && c as u32 == 16 * h + l ==> url_encoded(
                    seq![c],
                ) == seq!['%', #[trigger] figure(h), #[trigger] figure(l)]
        }),
{
    lemma_encode_utf8_concat(a, b);
    lemma_encoded_bytes_of_parts(encode_utf8(a), encode_utf8(b));
    let one = seq![c];
    assert(is_ascii_chars(one));
    is_ascii_chars_encode_utf8(one);
    is_ascii_chars_encode_utf8(Seq::empty());
    let bytes = encode_utf8(one);
    assert(bytes =~= seq![c as u8]);
    assert(bytes.drop_last() =~= Seq::empty());
    assert(encoded_bytes(bytes.drop_last()) =~= Seq::<char>::empty());
    assert(encoded_bytes(bytes) =~= encoded_byte(c as u8));
    let plain = 'a' <= c <= 'z' || 'A' <= c <= 'Z' || '0' <= c <= '9' || c == '-' || c == '_' || c
        == '.' || c == '~';
    assert forall|h: int, l: int|
        !plain && 0 <= h < 16 && 0 <= l < 16 && c as u32 == 16 * h + l implies url_encoded(seq![c])
        == seq!['%', #[trigger] figure(h), #[trigger] figure(l)] by {
        assert((c as u8) / 16 == h);
        assert((c as u8) % 16 == l);
    }
}

/// A byte outside ASCII becomes `%` with its number in two hexadecimal figures.
pub proof fn lemma_encoded_by_byte(bytes: Seq<u8>, b: u8)
    requires
        b >= 128,
    ensures
        encoded_bytes(bytes.push(b)) == encoded_bytes(bytes) + seq![
            '%',
            figure(b as int / 16),
            figure(b as int % 16),
        ],
{
    assert(bytes.push(b).drop_last() =~= bytes);
}

proof fn lemma_encoded_bytes_of_parts(a: Seq<u8>, b: Seq<u8>)
    ensures
        encoded_bytes(a + b) == encoded_bytes(a) + encoded_bytes(b),
    decreases b.len(),
{
    if b.len() == 0 {
        assert(a + b =~= a);
        assert(encoded_bytes(a) + encoded_bytes(b) =~= encoded_bytes(a));
    } else {
        lemma_encoded_bytes_of_parts(a, b.drop_last());
        assert((a + b).drop_last() =~= a + b.drop_last());
        assert(encoded_bytes(a + b) =~= encoded_bytes(a) + encoded_bytes(b));
    }
}

/// The value of a byte as a hexadecimal figure, small letters and capitals alike.
pub open spec fn figure_value(b: u8) -> int {
    if 0x30 <= b <= 0x39 {
        b - 0x30
    } else if 0x41 <= b <= 0x46 {
        b - 0x41 + 10
    } else if 0x61 <= b <= 0x66 {
        b - 0x61 + 10
    } else {
        -1
    }
}

/// Decoding goes from the front. A plus is a space. A `%` takes the two bytes
/// behind it for a hexadecimal number, with a
/// plus for the first if need be, which is zero where they are none. Any
/// other byte stands for itself, and so does a `%` with less than two behind it.
pub proof fn lemma_decoded_by_byte(x: u8, y: u8, b: u8, rest: Seq<u8>)
    ensures
        decoded_bytes(Seq::empty()).len() == 0,
        decoded_bytes(seq![0x2bu8] + rest) == seq![0x20u8] + decoded_bytes(rest),
        figure_value(x) >= 0 && figure_value(y) >= 0 ==> decoded_bytes(seq![0x25u8, x, y] + rest)
            == seq![(16 * figure_value(x) + figure_value(y)) as u8] + decoded_bytes(rest),
        figure_value(y) >= 0 && x == 0x2b ==> decoded_bytes(seq![0x25u8, x, y] + rest) == seq![
            figure_value(y) as u8,
        ] + decoded_bytes(rest),
        figure_value(y) < 0 || (figure_value(x) < 0 && x != 0x2b) ==> decoded_bytes(
            seq![0x25u8, x, y] + rest,
        ) == seq![0u8] + decoded_bytes(rest),
        b != 0x2b && b != 0x25 ==> decoded_bytes(seq![b] + rest) == seq![b] + decoded_bytes(rest),
        rest.len() < 2 ==> decoded_bytes(seq![0x25u8] + rest) == seq![0x25u8] + decoded_bytes(rest),
{
    assert((seq![0x2bu8] + rest).skip(1) =~= rest);
    assert((seq![0x25u8] + rest).skip(1) =~= rest);
    assert((seq![b] + rest).skip(1) =~= rest);
    assert((seq![0x25u8, x, y] + rest).skip(3) =~= rest);
}

/// A text is read from its encoded form where the bytes of that form decode to
/// its own.
pub proof fn lemma_decoded_text(s: Seq<char>, t: Seq<char>)
    requires
        decoded_bytes(encode_utf8(s)) == encode_utf8(t),
    ensures
        url_decoded(s) == t,
{
    encode_utf8_valid_utf8(t);
    encode_utf8_decode_utf8(t);
}

// ---------------------------------------------------------------------------
// Forms
// ---------------------------------------------------------------------------

/// A form is read piece by piece, from `&` to `&`. A piece gives the field that is
/// named before its first `=` the value behind it, or an empty value without one,
/// over any value that came before. An empty piece gives nothing.
pub proof fn lemma_form_by_piece(before: Seq<char>, name: Seq<char>, value: Seq<char>)
    requires
        !name.contains('&'),
        !name.contains('='),
        !value.contains('&'),
    ensures
        form_of(Seq::empty()) == Map::<Seq<char>, Seq<char>>::empty(),
        form_of(before + seq!['&']) == form_of(before),
        form_of(before + seq!['&'] + (name + seq!['='] + value)) == form_of(before).insert(
            url_decoded(name),
            url_decoded(value),
        ),
        name.len() > 0 ==> form_of(before + seq!['&'] + name) == form_of(before).insert(
            url_decoded(name),
            url_decoded(Seq::empty()),
        ),
        form_of(name + seq!['='] + value) == Map::<Seq<char>, Seq<char>>::empty().insert(
            url_decoded(name),
            url_decoded(value),
        ),
{
    let none = Seq::<char>::empty();
    let pair = name + seq!['='] + value;
    assert forall|i: int| 0 <= i < pair.len() implies pair[i] != '&' by {
        if i < name.len() {
            assert(name.contains(name[i]));
        } else if i > name.len() {
            assert(value.contains(value[i - name.len() - 1]));
        }
    }
    lemma_split_at_character(before, '&', none);
    lemma_split_at_character(before, '&', pair);
    lemma_split_at_character(before, '&', name);
    assert(before + seq!['&'] + none =~= before + seq!['&']);
    lemma_split_at_first(name, '=', value);
    let pieces = split_on(before, '&');
    assert(pieces.push(none).drop_last() =~= pieces);
    assert(pieces.push(pair).drop_last() =~= pieces);
    assert(pieces.push(name).drop_last() =~= pieces);
    assert(seq![none].drop_last() =~= Seq::empty());
    assert(seq![pair].drop_last() =~= Seq::empty());
    assert(pieces_form(Seq::empty()) == Map::<Seq<char>, Seq<char>>::empty());
    assert(pair_parts(pair) == (name, value));
    assert(pair_parts(name) == (name, none));
}

/// A field that did not come is read as empty.
pub proof fn lemma_field_that_did_not_come(form: Map<Seq<char>, Seq<char>>, name: Seq<char>)
    ensures
        !form.contains_key(name) ==> field(form, name).len() == 0,
        form.contains_key(name) ==> field(form, name) == form[name],
{
}

// ---------------------------------------------------------------------------
// Requests
// ---------------------------------------------------------------------------

/// The first line of a request: its first word is the method, its second the path
/// with the query behind the first `?`. Further words make no difference, and a
/// line with fewer is no request.
pub proof fn lemma_first_line_by_words(s: Seq<char>, path: Seq<char>, query: Seq<char>)
    requires
        !path.contains('?'),
    ensures
        words(s).len() < 2 ==> start_line(s) is None,
        words(s).len() >= 2 && words(s)[1] == path ==> start_line(s) == Some(
            (StartLineView { method: words(s)[0], path, query: Seq::empty() }),
        ),
        words(s).len() >= 2 && words(s)[1] == path + seq!['?'] + query ==> start_line(s) == Some(
            (StartLineView { method: words(s)[0], path, query }),
        ),
{
    lemma_split_at_first(path, '?', query);
}

proof fn lemma_white_kept(s: Seq<char>)
    requires
        forall|i: int| 0 <= i < s.len() ==> is_white(#[trigger] s[i]),
    ensures
        ascii_lowercase(s) == s,
{
    assert(ascii_lowercase(s) =~= s);
}

/// The header with the length of the body, its name in whatever case, gives the
/// number behind it, with white space around that or not. What is no number that
/// fits counts as zero.
pub proof fn lemma_length_header(
    name: Seq<char>,
    pad: Seq<char>,
    value: Seq<char>,
    end: Seq<char>,
    so_far: nat,
)
    requires
        ascii_lowercase(name) == "content-length:"@,
        forall|i: int| 0 <= i < pad.len() ==> is_white(#[trigger] pad[i]),
        forall|i: int| 0 <= i < end.len() ==> is_white(#[trigger] end[i]),
        value.len() > 0,
        !is_white(value[0]),
        !is_white(value.last()),
        ascii_lowercase(value) == value,
    ensures
        number_of(value) matches Some(n) ==> n <= usize::MAX ==> length_after(
            name + pad + value + end,
            so_far,
        ) == n,
        number_of(value) matches Some(n) ==> n > usize::MAX ==> length_after(
            name + pad + value + end,
            so_far,
        ) == 0,
        number_of(value) is None ==> length_after(name + pad + value + end, so_far) == 0,
{
    let kept = name + pad + value;
    let line = kept + end;
    let none = Seq::<char>::empty();
    assert(ascii_lowercase(name).len() == name.len());
    if kept.len() > 0 {
        assert(kept.last() == value.last());
    }
    lemma_end_of_line(kept, end);
    assert(trimmed_end(line) == kept);
    lemma_white_kept(pad);
    let lower = ascii_lowercase(kept);
    assert(lower =~= ascii_lowercase(name) + ascii_lowercase(pad) + ascii_lowercase(value));
    let n = "content-length:"@.len() as int;
    assert(lower.subrange(0, n) =~= "content-length:"@);
    assert(lower.skip(n) =~= pad + value + none);
    lemma_trimmed_is_core(pad, value, none);
}

proof fn lemma_end_of_line(s: Seq<char>, end: Seq<char>)
    requires
        s.len() > 0,
        !is_white(s.last()),
        forall|i: int| 0 <= i < end.len() ==> is_white(#[trigger] end[i]),
    ensures
        trimmed_end(s + end) == s,
    decreases end.len(),
{
    if end.len() > 0 {
        assert(is_white(end[end.len() - 1]));
        assert((s + end).drop_last() =~= s + end.drop_last());
        lemma_end_of_line(s, end.drop_last());
    } else {
        assert(s + end =~= s);
    }
}

/// The header with nothing behind its name counts as zero.
pub proof fn lemma_length_header_without_value(name: Seq<char>, end: Seq<char>, so_far: nat)
    requires
        ascii_lowercase(name) == "content-length:"@,
        forall|i: int| 0 <= i < end.len() ==> is_white(#[trigger] end[i]),
    ensures
        length_after(name + end, so_far) == 0,
{
    reveal_strlit("content-length:");
    let n = "content-length:"@.len() as int;
    assert(ascii_lowercase(name).len() == name.len());
    assert(ascii_lowercase(name).last() == ascii_lower(name.last()));
    assert(!is_white(name.last()));
    lemma_end_of_line(name, end);
    let lower = ascii_lowercase(name);
    assert(lower.subrange(0, n) =~= "content-length:"@);
    assert(lower.skip(n) =~= Seq::empty());
    assert(trimmed(Seq::<char>::empty()) =~= Seq::empty());
}

/// Any other header leaves the length as it was.
pub proof fn lemma_other_header(line: Seq<char>, so_far: nat)
    requires
        !"content-length:"@.is_prefix_of(ascii_lowercase(trimmed_end(line))),
    ensures
        length_after(line, so_far) == so_far,
{
}

/// Reading goes from the first line over the headers to the blank line. Then as
/// many bytes of a body are due as the headers say, or none. Bytes that are not
/// UTF-8, and a body of another length, end it. What has been read stays.
pub proof fn lemma_reading_goes_on(
    start: StartLineView,
    n: nat,
    line: Seq<u8>,
    body: Seq<u8>,
    request: RequestView,
)
    ensures
        !valid_utf8(line) ==> reading_after_line(ReadingView::Start, line) == ReadingView::Bad
            && reading_after_line(ReadingView::Headers { start, content_length: n }, line)
            == ReadingView::Bad,
        valid_utf8(line) && start_line(decode_utf8(line)) is None ==> reading_after_line(
            ReadingView::Start,
            line,
        ) == ReadingView::Bad,
        valid_utf8(line) && start_line(decode_utf8(line)) == Some(start) ==> reading_after_line(
            ReadingView::Start,
            line,
        ) == (ReadingView::Headers { start, content_length: 0 }),
        valid_utf8(line) && trimmed_end(decode_utf8(line)).len() > 0 ==> reading_after_line(
            ReadingView::Headers { start, content_length: n },
            line,
        ) == (ReadingView::Headers { start, content_length: length_after(decode_utf8(line), n) }),
        valid_utf8(line) && trimmed_end(decode_utf8(line)).len() == 0 && n > 0
            ==> reading_after_line(ReadingView::Headers { start, content_length: n }, line) == (
        ReadingView::Body { start, content_length: n }),
        valid_utf8(line) && trimmed_end(decode_utf8(line)).len() == 0 && n == 0
            ==> reading_after_line(ReadingView::Headers { start, content_length: n }, line) == (
        ReadingView::Done { request: request_of(start, Seq::empty()) }),
        body.len() == n ==> reading_after_body(
            ReadingView::Body { start, content_length: n },
            body,
        ) == (ReadingView::Done { request: request_of(start, body) }),
        body.len() != n ==> reading_after_body(
            ReadingView::Body { start, content_length: n },
            body,
        ) == ReadingView::Bad,
        reading_after_line(ReadingView::Bad, line) == ReadingView::Bad,
        reading_after_body(ReadingView::Bad, body) == ReadingView::Bad,
        reading_after_line(ReadingView::Done { request }, line) == (ReadingView::Done { request }),
        reading_after_body(ReadingView::Done { request }, body) == (ReadingView::Done { request }),
{
}

/// A request has the method and the path of its first line, the fields of its query
/// and those of its body. A body that is not UTF-8 has none.
pub proof fn lemma_request_parts(start: StartLineView, body: Seq<u8>)
    ensures
        request_of(start, body).method == start.method,
        request_of(start, body).path == start.path,
        request_of(start, body).query == form_of(start.query),
        valid_utf8(body) ==> request_of(start, body).body == form_of(decode_utf8(body)),
        !valid_utf8(body) ==> request_of(start, body).body == Map::<Seq<char>, Seq<char>>::empty(),
        valid_utf8(body) ==> line_text(body) == Some(decode_utf8(body)),
        !valid_utf8(body) ==> line_text(body) is None,
{
    let none = Seq::<char>::empty();
    assert(!none.contains('&'));
    assert(!none.contains('='));
    lemma_form_by_piece(none, none, none);
    assert(body_fields(body) == request_of(start, body).body);
}

// ---------------------------------------------------------------------------
// Answers
// ---------------------------------------------------------------------------

/// An answer names its status, the type of its body and how many bytes that has;
/// then comes a blank line and the body. It is not to be stored, and the connection
/// ends with it.
pub proof fn lemma_answer_parts(status: u16, content_type: Seq<char>, body: Seq<char>)
    ensures
        ({
            let words = if status == 400 {
                "Bad Request"@
            } else if status == 404 {
                "Not Found"@
            } else {
                "OK"@
            };
            answer(status, content_type, body) == "HTTP/1.1 "@ + decimal(status as nat) + " "@
                + words + "\r\nContent-Type: "@ + content_type
                + "; charset=utf-8\r\nContent-Length: "@ + decimal(encode_utf8(body).len())
                + "\r\nConnection: close\r\nCache-Control: no-store\r\n\r\n"@ + body
        }),
{
}

/// A redirection names the place to go to and has no body.
pub proof fn lemma_redirection_parts(location: Seq<char>)
    ensures
        redirection(location) == "HTTP/1.1 302 Found\r\nLocation: "@ + location
            + "\r\nContent-Length: 0\r\nConnection: close\r\n\r\n"@,
{
}

} // verus!
