//! Plain operations on text, seen as a sequence of characters.
use vstd::prelude::*;
use vstd::slice::slice_subrange;
use vstd::utf8::*;

verus! {

/// `String::push` appends one character to the end of the text.
pub assume_specification[ String::push ](s: &mut String, c: char)
    ensures
        final(s)@ == old(s)@.push(c),
;

// ---------------------------------------------------------------------------
// Texts and their characters
// ---------------------------------------------------------------------------

/// The characters of a list of texts.
pub open spec fn texts(v: Seq<String>) -> Seq<Seq<char>> {
    v.map_values(|s: String| s@)
}

/// The texts of a list, one after the other.
pub open spec fn concat(parts: Seq<Seq<char>>) -> Seq<char>
    decreases parts.len(),
{
    if parts.len() == 0 {
        Seq::empty()
    } else {
        concat(parts.drop_last()) + parts.last()
    }
}

/// The characters of a text.
pub fn to_chars(s: &str) -> (v: Vec<char>)
    ensures
        v@ == s@,
{
    let mut v: Vec<char> = Vec::new();
    for c in it: s.chars()
        invariant
            v@ == it.seq().take(it.index()),
            it.seq() == s@,
    {
        v.push(c);
    }
    v
}

/// The text that a list of characters spells.
pub fn to_text(v: &[char]) -> (s: String)
    ensures
        s@ == v@,
{
    let mut s = String::new();
    for i in 0..v.len()
        invariant
            s@ == v@.take(i as int),
    {
        s.push(v[i]);
    }
    s
}

/// Two texts have the same UTF-8 bytes only if they are the same text.
pub proof fn lemma_utf8_injective(a: Seq<char>, b: Seq<char>)
    requires
        encode_utf8(a) == encode_utf8(b),
    ensures
        a == b,
{
    encode_utf8_decode_utf8(a);
    encode_utf8_decode_utf8(b);
}

/// Whether two texts are the same.
pub fn same_text(a: &str, b: &str) -> (r: bool)
    ensures
        r == (a@ == b@),
{
    let x: &[u8] = a.as_bytes();
    let y: &[u8] = b.as_bytes();
    if x.len() != y.len() {
        return false;
    }
    for i in 0..x.len()
        invariant
            x@ == encode_utf8(a@),
            y@ == encode_utf8(b@),
            x@.len() == y@.len(),
            x@.take(i as int) == y@.take(i as int),
    {
        if x[i] != y[i] {
            return false;
        }
        assert(x@.take(i + 1) =~= x@.take(i as int).push(x@[i as int]));
        assert(y@.take(i + 1) =~= y@.take(i as int).push(y@[i as int]));
    }
    assert(x@ =~= x@.take(x@.len() as int));
    assert(y@ =~= y@.take(y@.len() as int));
    proof {
        lemma_utf8_injective(a@, b@);
    }
    true
}

// ---------------------------------------------------------------------------
// White space
// ---------------------------------------------------------------------------

/// The characters with the Unicode property White_Space.
pub open spec fn is_white(c: char) -> bool {
    ||| 0x09 <= c as u32 <= 0x0d
    ||| c as u32 == 0x20
    ||| c as u32 == 0x85
    ||| c as u32 == 0xa0
    ||| c as u32 == 0x1680
    ||| 0x2000 <= c as u32 <= 0x200a
    ||| c as u32 == 0x2028
    ||| c as u32 == 0x2029
    ||| c as u32 == 0x202f
    ||| c as u32 == 0x205f
    ||| c as u32 == 0x3000
}

/// Whether a character is white space.
pub fn is_whitespace(c: char) -> (r: bool)
    ensures
        r == is_white(c),
{
    let u: u32 = c as u32;
    (0x09 <= u && u <= 0x0d) || u == 0x20 || u == 0x85 || u == 0xa0 || u == 0x1680 || (0x2000 <= u
        && u <= 0x200a) || u == 0x2028 || u == 0x2029 || u == 0x202f || u == 0x205f || u == 0x3000
}

/// A text without the white space at its end.
pub open spec fn trimmed_end(s: Seq<char>) -> Seq<char>
    decreases s.len(),
{
    if s.len() > 0 && is_white(s.last()) {
        trimmed_end(s.drop_last())
    } else {
        s
    }
}

/// A text without the white space at its start.
pub open spec fn trimmed_start(s: Seq<char>) -> Seq<char>
    decreases s.len(),
{
    if s.len() > 0 && is_white(s.first()) {
        trimmed_start(s.drop_first())
    } else {
        s
    }
}

/// A text without the white space around it.
pub open spec fn trimmed(s: Seq<char>) -> Seq<char> {
    trimmed_end(trimmed_start(s))
}

/// Every character is white space.
pub open spec fn all_white(s: Seq<char>) -> bool {
    forall|i: int| 0 <= i < s.len() ==> is_white(#[trigger] s[i])
}

/// White space around a text does not matter to what is left of it.
pub proof fn lemma_trimmed_within_white(a: Seq<char>, s: Seq<char>, b: Seq<char>)
    requires
        all_white(a),
        all_white(b),
    ensures
        trimmed(a + s + b) == trimmed(s),
    decreases a.len(),
{
    if a.len() > 0 {
        assert(is_white(a[0]));
        assert((a + s + b).drop_first() =~= a.drop_first() + s + b);
        lemma_trimmed_within_white(a.drop_first(), s, b);
    } else {
        assert(a + s + b =~= s + b);
        lemma_trimmed_before_white(s, b);
    }
}

proof fn lemma_trimmed_before_white(s: Seq<char>, b: Seq<char>)
    requires
        all_white(b),
    ensures
        trimmed(s + b) == trimmed(s),
    decreases s.len(),
{
    if s.len() == 0 {
        assert(s + b =~= b);
        lemma_white_trimmed(b);
        assert(trimmed(s) =~= Seq::empty());
    } else if is_white(s[0]) {
        assert((s + b).drop_first() =~= s.drop_first() + b);
        lemma_trimmed_before_white(s.drop_first(), b);
    } else {
        lemma_trimmed_end_before_white(s, b);
    }
}

proof fn lemma_white_trimmed(s: Seq<char>)
    requires
        all_white(s),
    ensures
        trimmed(s) == Seq::<char>::empty(),
    decreases s.len(),
{
    if s.len() > 0 {
        assert(is_white(s[0]));
        lemma_white_trimmed(s.drop_first());
    } else {
        assert(trimmed(s) =~= Seq::empty());
    }
}

proof fn lemma_trimmed_end_before_white(s: Seq<char>, b: Seq<char>)
    requires
        all_white(b),
    ensures
        trimmed_end(s + b) == trimmed_end(s),
    decreases b.len(),
{
    if b.len() > 0 {
        assert(is_white(b[b.len() - 1]));
        assert((s + b).drop_last() =~= s + b.drop_last());
        lemma_trimmed_end_before_white(s, b.drop_last());
    } else {
        assert(s + b =~= s);
    }
}

/// What comes before a text and ends in no white space stays where the text is
/// trimmed at its end.
pub proof fn lemma_trimmed_end_behind(a: Seq<char>, s: Seq<char>)
    requires
        a.len() > 0,
        !is_white(a.last()),
    ensures
        trimmed_end(a + s) == a + trimmed_end(s),
    decreases s.len(),
{
    if s.len() > 0 && is_white(s.last()) {
        assert((a + s).drop_last() =~= a + s.drop_last());
        lemma_trimmed_end_behind(a, s.drop_last());
    } else if s.len() == 0 {
        assert(a + s =~= a);
        assert(a + trimmed_end(s) =~= a);
    }
}

/// What is left of a text that is trimmed at its end is its start.
pub proof fn lemma_trimmed_end_is_start(s: Seq<char>)
    ensures
        trimmed_end(s).is_prefix_of(s),
    decreases s.len(),
{
    if s.len() > 0 && is_white(s.last()) {
        lemma_trimmed_end_is_start(s.drop_last());
        let r = trimmed_end(s);
        assert(s.subrange(0, r.len() as int) =~= s.drop_last().subrange(0, r.len() as int));
    } else {
        assert(s.subrange(0, s.len() as int) =~= s);
    }
}

/// Trimming keeps a text in ASCII.
pub proof fn lemma_trimmed_ascii(s: Seq<char>)
    requires
        is_ascii_chars(s),
    ensures
        is_ascii_chars(trimmed_end(s)),
        is_ascii_chars(trimmed_start(s)),
    decreases s.len(),
{
    if s.len() > 0 {
        lemma_trimmed_ascii(s.drop_last());
        lemma_trimmed_ascii(s.drop_first());
    }
}

/// The characters without the white space at their end.
pub fn trim_end_chars(s: &[char]) -> (r: &[char])
    ensures
        r@ == trimmed_end(s@),
{
    let mut n: usize = s.len();
    assert(s@.take(n as int) =~= s@);
    while n > 0 && is_whitespace(s[n - 1])
        invariant
            n <= s@.len(),
            trimmed_end(s@.take(n as int)) == trimmed_end(s@),
        decreases n,
    {
        assert(s@.take(n as int).drop_last() =~= s@.take(n - 1));
        n = n - 1;
    }
    let r = slice_subrange(s, 0, n);
    assert(r@ =~= s@.take(n as int));
    r
}

/// The characters without the white space at their start.
pub fn trim_start_chars(s: &[char]) -> (r: &[char])
    ensures
        r@ == trimmed_start(s@),
{
    let mut n: usize = 0;
    assert(s@.skip(0) =~= s@);
    while n < s.len() && is_whitespace(s[n])
        invariant
            n <= s@.len(),
            trimmed_start(s@.skip(n as int)) == trimmed_start(s@),
        decreases s@.len() - n,
    {
        assert(s@.skip(n as int).drop_first() =~= s@.skip(n + 1));
        n = n + 1;
    }
    let r = slice_subrange(s, n, s.len());
    assert(r@ =~= s@.skip(n as int));
    r
}

/// The characters without the white space around them.
pub fn trim_chars(s: &[char]) -> (r: &[char])
    ensures
        r@ == trimmed(s@),
{
    trim_end_chars(trim_start_chars(s))
}

/// The text without the white space around it.
pub fn trim_text(s: &str) -> (r: String)
    ensures
        r@ == trimmed(s@),
{
    let v = to_chars(s);
    to_text(trim_chars(&v))
}

// ---------------------------------------------------------------------------
// Prefixes, parts and repeated ends
// ---------------------------------------------------------------------------

/// `s` holds the characters of `part` side by side somewhere.
pub open spec fn has_part(s: Seq<char>, part: Seq<char>) -> bool {
    exists|i: int| has_part_at(s, part, i)
}

/// `s` holds the characters of `part` side by side from position `i` on.
pub open spec fn has_part_at(s: Seq<char>, part: Seq<char>, i: int) -> bool {
    0 <= i <= s.len() - part.len() && s.subrange(i, i + part.len()) == part
}

/// A text without any number of copies of `part` at its start.
pub open spec fn without_leading(s: Seq<char>, part: Seq<char>) -> Seq<char>
    decreases s.len(),
{
    if part.len() > 0 && part.is_prefix_of(s) {
        without_leading(s.skip(part.len() as int), part)
    } else {
        s
    }
}

/// A text without any number of copies of the character `c` at its end.
pub open spec fn without_trailing(s: Seq<char>, c: char) -> Seq<char>
    decreases s.len(),
{
    if s.len() > 0 && s.last() == c {
        without_trailing(s.drop_last(), c)
    } else {
        s
    }
}

/// A part of a part is a part.
pub proof fn lemma_part_of_part(s: Seq<char>, part: Seq<char>, inner: Seq<char>)
    requires
        has_part(s, part),
        has_part(part, inner),
    ensures
        has_part(s, inner),
{
    let i = choose|i: int| has_part_at(s, part, i);
    let j = choose|j: int| has_part_at(part, inner, j);
    assert(s.subrange(i + j, i + j + inner.len()) =~= part.subrange(j, j + inner.len()));
    assert(has_part_at(s, inner, i + j));
}

/// What a text holds, it holds with another behind it.
pub proof fn lemma_part_of_front(a: Seq<char>, b: Seq<char>, part: Seq<char>)
    requires
        has_part(a, part),
    ensures
        has_part(a + b, part),
{
    let i = choose|i: int| has_part_at(a, part, i);
    assert((a + b).subrange(i, i + part.len()) =~= a.subrange(i, i + part.len()));
    assert(has_part_at(a + b, part, i));
}

/// What a text holds, it holds with another before it.
pub proof fn lemma_part_of_back(a: Seq<char>, b: Seq<char>, part: Seq<char>)
    requires
        has_part(b, part),
    ensures
        has_part(a + b, part),
{
    let i = choose|i: int| has_part_at(b, part, i);
    assert((a + b).subrange(a.len() + i, a.len() + i + part.len()) =~= b.subrange(
        i,
        i + part.len(),
    ));
    assert(has_part_at(a + b, part, a.len() + i));
}

/// A text holds itself.
pub proof fn lemma_part_of_itself(s: Seq<char>)
    ensures
        has_part(s, s),
{
    assert(s.subrange(0, s.len() as int) =~= s);
    assert(has_part_at(s, s, 0));
}

/// Texts one behind the other hold each of them.
pub proof fn lemma_part_of_concat(parts: Seq<Seq<char>>, i: int, part: Seq<char>)
    requires
        0 <= i < parts.len(),
        has_part(parts[i], part),
    ensures
        has_part(concat(parts), part),
    decreases parts.len(),
{
    let head = concat(parts.drop_last());
    if i == parts.len() - 1 {
        lemma_part_of_back(head, parts.last(), part);
    } else {
        lemma_part_of_concat(parts.drop_last(), i, part);
        lemma_part_of_front(head, parts.last(), part);
    }
}

/// Whether `part` stands at position `i` of `s`.
fn part_at(s: &[char], part: &[char], i: usize) -> (r: bool)
    requires
        i + part@.len() <= s@.len(),
    ensures
        r == (s@.subrange(i as int, i + part@.len()) == part@),
{
    let n: usize = s.len();
    for j in 0..part.len()
        invariant
            n == s@.len(),
            i + part@.len() <= n,
            forall|k: int| 0 <= k < j ==> s@[i + k] == part@[k],
    {
        if s[i + j] != part[j] {
            assert(s@.subrange(i as int, i + part@.len())[j as int] != part@[j as int]);
            return false;
        }
    }
    assert(s@.subrange(i as int, i + part@.len()) =~= part@);
    true
}

/// Whether a text starts with another.
pub fn starts_with_chars(s: &[char], part: &[char]) -> (r: bool)
    ensures
        r == part@.is_prefix_of(s@),
{
    if part.len() > s.len() {
        return false;
    }
    part_at(s, part, 0)
}

/// Whether a text holds another.
pub fn contains_chars(s: &[char], part: &[char]) -> (r: bool)
    ensures
        r == has_part(s@, part@),
{
    if part.len() > s.len() {
        return false;
    }
    let last: usize = s.len() - part.len();
    let mut i: usize = 0;
    while i <= last
        invariant
            last == s@.len() - part@.len(),
            i <= last + 1,
            forall|k: int| 0 <= k < i ==> !has_part_at(s@, part@, k),
        decreases last + 1 - i,
    {
        if part_at(s, part, i) {
            assert(has_part_at(s@, part@, i as int));
            return true;
        }
        if i == last {
            assert forall|k: int| !has_part_at(s@, part@, k) by {}
            return false;
        }
        i = i + 1;
    }
    false
}

/// The characters without the copies of `part` at their start.
pub fn strip_leading_chars<'a>(s: &'a [char], part: &[char]) -> (r: &'a [char])
    ensures
        r@ == without_leading(s@, part@),
{
    if part.len() == 0 {
        return s;
    }
    let mut n: usize = 0;
    assert(s@.skip(0) =~= s@);
    while part.len() <= s.len() - n && part_at(s, part, n)
        invariant
            n <= s@.len(),
            part@.len() > 0,
            without_leading(s@.skip(n as int), part@) == without_leading(s@, part@),
        decreases s@.len() - n,
    {
        let ghost rest = s@.skip(n as int);
        assert(rest.subrange(0, part@.len() as int) =~= s@.subrange(n as int, n + part@.len()));
        assert(part@.is_prefix_of(rest));
        assert(rest.skip(part@.len() as int) =~= s@.skip(n + part@.len()));
        n = n + part.len();
    }
    let r = slice_subrange(s, n, s.len());
    proof {
        let rest = s@.skip(n as int);
        assert(r@ =~= rest);
        if part@.is_prefix_of(rest) {
            assert(rest.subrange(0, part@.len() as int) =~= s@.subrange(
                n as int,
                n + part@.len(),
            ));
        }
    }
    r
}

/// The characters without the copies of `c` at their end.
pub fn strip_trailing_chars(s: &[char], c: char) -> (r: &[char])
    ensures
        r@ == without_trailing(s@, c),
{
    let mut n: usize = s.len();
    assert(s@.take(n as int) =~= s@);
    while n > 0 && s[n - 1] == c
        invariant
            n <= s@.len(),
            without_trailing(s@.take(n as int), c) == without_trailing(s@, c),
        decreases n,
    {
        assert(s@.take(n as int).drop_last() =~= s@.take(n - 1));
        n = n - 1;
    }
    let r = slice_subrange(s, 0, n);
    assert(r@ =~= s@.take(n as int));
    r
}

// ---------------------------------------------------------------------------
// Splitting
// ---------------------------------------------------------------------------

/// The pieces of a text between the characters that `sep` picks out. There is
/// one piece more than there are such characters.
pub open spec fn split_by(s: Seq<char>, sep: spec_fn(char) -> bool) -> Seq<Seq<char>>
    decreases s.len(),
{
    if s.len() == 0 {
        seq![Seq::empty()]
    } else {
        let before = split_by(s.drop_last(), sep);
        if sep(s.last()) {
            before.push(Seq::empty())
        } else {
            before.drop_last().push(before.last().push(s.last()))
        }
    }
}

/// The pieces of a text between the occurrences of `c`.
pub open spec fn split_on(s: Seq<char>, c: char) -> Seq<Seq<char>> {
    split_by(s, equals_char(c))
}

/// The characters equal to `c`.
pub open spec fn equals_char(c: char) -> spec_fn(char) -> bool {
    |x: char| x == c
}

/// The white characters.
pub open spec fn white() -> spec_fn(char) -> bool {
    |x: char| is_white(x)
}

/// A piece with at least one character.
pub open spec fn nonempty() -> spec_fn(Seq<char>) -> bool {
    |p: Seq<char>| p.len() > 0
}

/// The words of a text: its longest runs without white space.
pub open spec fn words(s: Seq<char>) -> Seq<Seq<char>> {
    split_by(s, white()).filter(nonempty())
}

/// The part of a text before the first `c`, and the part behind it.
pub open spec fn split_first(s: Seq<char>, c: char) -> Option<(Seq<char>, Seq<char>)> {
    if s.contains(c) {
        let i = s.index_of_first(c)->0;
        Some((s.take(i), s.skip(i + 1)))
    } else {
        None
    }
}

/// The lists of characters of a list of lists.
pub open spec fn char_lists(v: Seq<Vec<char>>) -> Seq<Seq<char>> {
    v.map_values(|p: Vec<char>| p@)
}

/// A text without separators is one piece.
pub proof fn lemma_split_by_single(s: Seq<char>, sep: spec_fn(char) -> bool)
    requires
        forall|i: int| 0 <= i < s.len() ==> !sep(#[trigger] s[i]),
    ensures
        split_by(s, sep) == seq![s],
    decreases s.len(),
{
    if s.len() > 0 {
        lemma_split_by_single(s.drop_last(), sep);
        assert(!sep(s[s.len() - 1]));
        assert(s.drop_last().push(s.last()) =~= s);
        assert(split_by(s, sep) =~= seq![s]);
    } else {
        assert(s =~= Seq::empty());
    }
}

/// What comes behind a separator and holds none is a piece of its own.
pub proof fn lemma_split_by_last(
    before: Seq<char>,
    c: char,
    piece: Seq<char>,
    sep: spec_fn(char) -> bool,
)
    requires
        sep(c),
        forall|i: int| 0 <= i < piece.len() ==> !sep(#[trigger] piece[i]),
    ensures
        split_by(before.push(c) + piece, sep) == split_by(before, sep).push(piece),
    decreases piece.len(),
{
    let all = before.push(c) + piece;
    if piece.len() > 0 {
        lemma_split_by_last(before, c, piece.drop_last(), sep);
        assert(!sep(piece[piece.len() - 1]));
        assert(all.drop_last() =~= before.push(c) + piece.drop_last());
        assert(piece.drop_last().push(piece.last()) =~= piece);
        assert(split_by(all, sep) =~= split_by(before, sep).push(piece));
    } else {
        assert(all =~= before.push(c));
        assert(all.drop_last() =~= before);
        assert(piece =~= Seq::empty());
    }
}

/// The first `c` of a text is where it is put, if none comes before it.
pub proof fn lemma_split_first(before: Seq<char>, c: char, after: Seq<char>)
    requires
        !before.contains(c),
    ensures
        split_first(before.push(c) + after, c) == Some((before, after)),
{
    let all = before.push(c) + after;
    assert(all[before.len() as int] == c);
    all.index_of_first_ensures(c);
    let i = all.index_of_first(c)->0;
    if i < before.len() {
        assert(before[i] == c);
    }
    assert(all.take(i) =~= before);
    assert(all.skip(i + 1) =~= after);
}

/// The pieces between the occurrences of `c`.
pub fn split_chars(s: &[char], c: char) -> (r: Vec<Vec<char>>)
    ensures
        char_lists(r@) == split_on(s@, c),
{
    let mut done: Vec<Vec<char>> = Vec::new();
    let mut open: Vec<char> = Vec::new();
    assert(s@.take(0) =~= Seq::empty());
    for i in 0..s.len()
        invariant
            char_lists(done@).push(open@) == split_on(s@.take(i as int), c),
    {
        let ghost before = char_lists(done@);
        assert(s@.take(i + 1).drop_last() =~= s@.take(i as int));
        if s[i] == c {
            let ghost piece = open@;
            done.push(open);
            open = Vec::new();
            assert(char_lists(done@) =~= before.push(piece));
        } else {
            let ghost piece = open@;
            open.push(s[i]);
            assert(before.push(piece).drop_last() =~= before);
        }
    }
    assert(s@.take(s@.len() as int) =~= s@);
    let ghost before = char_lists(done@);
    let ghost piece = open@;
    done.push(open);
    assert(char_lists(done@) =~= before.push(piece));
    done
}

/// The words of a text.
pub fn word_chars(s: &[char]) -> (r: Vec<Vec<char>>)
    ensures
        char_lists(r@) == words(s@),
{
    let ghost mut pieces: Seq<Seq<char>> = Seq::empty();
    let mut done: Vec<Vec<char>> = Vec::new();
    let mut open: Vec<char> = Vec::new();
    assert(s@.take(0) =~= Seq::empty());
    proof {
        reveal(Seq::filter);
    }
    for i in 0..s.len()
        invariant
            pieces.push(open@) == split_by(s@.take(i as int), white()),
            char_lists(done@) == pieces.filter(nonempty()),
    {
        let ghost before = char_lists(done@);
        assert(s@.take(i + 1).drop_last() =~= s@.take(i as int));
        if is_whitespace(s[i]) {
            proof {
                lemma_filter_push(pieces, open@);
                pieces = pieces.push(open@);
            }
            if open.len() > 0 {
                let ghost piece = open@;
                done.push(open);
                open = Vec::new();
                assert(char_lists(done@) =~= before.push(piece));
            }
            assert(open@ =~= Seq::empty());
        } else {
            let ghost piece = open@;
            open.push(s[i]);
            assert(pieces.push(piece).drop_last() =~= pieces);
        }
    }
    assert(s@.take(s@.len() as int) =~= s@);
    proof {
        lemma_filter_push(pieces, open@);
    }
    if open.len() > 0 {
        let ghost before = char_lists(done@);
        let ghost piece = open@;
        done.push(open);
        assert(char_lists(done@) =~= before.push(piece));
    }
    done
}

proof fn lemma_filter_push(pieces: Seq<Seq<char>>, piece: Seq<char>)
    ensures
        pieces.push(piece).filter(nonempty()) == (if piece.len() > 0 {
            pieces.filter(nonempty()).push(piece)
        } else {
            pieces.filter(nonempty())
        }),
{
    reveal(Seq::filter);
    assert(pieces.push(piece).drop_last() =~= pieces);
}

/// The position of the first `c`.
pub fn find_char(s: &[char], c: char) -> (r: Option<usize>)
    ensures
        r is Some <==> s@.contains(c),
        r matches Some(i) ==> i < s@.len() && s@.index_of_first(c) == Some(i as int),
{
    for i in 0..s.len()
        invariant
            forall|j: int| 0 <= j < i ==> s@[j] != c,
    {
        if s[i] == c {
            proof {
                s@.index_of_first_ensures(c);
            }
            return Some(i);
        }
    }
    None
}

/// The part before the first `c`, and the part behind it.
pub fn split_first_chars(s: &[char], c: char) -> (r: Option<(&[char], &[char])>)
    ensures
        r is Some <==> split_first(s@, c) is Some,
        r matches Some(p) ==> split_first(s@, c) == Some((p.0@, p.1@)),
{
    let n: usize = s.len();
    match find_char(s, c) {
        Some(i) => {
            let a = slice_subrange(s, 0, i);
            let b = slice_subrange(s, i + 1, n);
            assert(a@ =~= s@.take(i as int));
            assert(b@ =~= s@.skip(i + 1));
            Some((a, b))
        },
        None => None,
    }
}

/// The part of a text behind its last `c`; the whole text where it has none.
pub open spec fn after_last(s: Seq<char>, c: char) -> Seq<char>
    decreases s.len(),
{
    if s.len() == 0 || s.last() == c {
        Seq::empty()
    } else {
        after_last(s.drop_last(), c).push(s.last())
    }
}

/// The characters behind the last `c`.
pub fn after_last_chars(s: &[char], c: char) -> (r: &[char])
    ensures
        r@ == after_last(s@, c),
{
    let mut n: usize = s.len();
    assert(s@.take(n as int) =~= s@);
    assert(s@.skip(n as int) =~= Seq::empty());
    while n > 0 && s[n - 1] != c
        invariant
            n <= s@.len(),
            after_last(s@, c) == after_last(s@.take(n as int), c) + s@.skip(n as int),
        decreases n,
    {
        assert(s@.take(n as int).drop_last() =~= s@.take(n - 1));
        assert(s@.skip(n - 1) =~= seq![s@[n - 1]] + s@.skip(n as int));
        n = n - 1;
    }
    let r = slice_subrange(s, n, s.len());
    assert(r@ =~= s@.skip(n as int));
    r
}

// ---------------------------------------------------------------------------
// Numbers
// ---------------------------------------------------------------------------

/// The decimal digit for a number below ten.
pub open spec fn digit(d: nat) -> char {
    (48 + d) as char
}

/// The decimal digits of a number, without leading zeros.
pub open spec fn decimal(n: nat) -> Seq<char>
    decreases n,
{
    if n < 10 {
        seq![digit(n)]
    } else {
        decimal(n / 10).push(digit(n % 10))
    }
}

/// The character for a digit below ten.
pub fn digit_char(d: u8) -> (c: char)
    requires
        d < 10,
    ensures
        c == digit(d as nat),
{
    (48 + d) as char
}

/// The decimal digits of a number.
pub fn decimal_text(n: u128) -> (s: String)
    ensures
        s@ == decimal(n as nat),
    decreases n,
{
    if n < 10 {
        let mut s = String::new();
        s.push(digit_char(n as u8));
        assert(s@ =~= seq![digit(n as nat)]);
        s
    } else {
        let mut s = decimal_text(n / 10);
        s.push(digit_char((n % 10) as u8));
        s
    }
}

/// Different numbers have different digits.
pub proof fn lemma_decimal_injective(a: nat, b: nat)
    requires
        decimal(a) == decimal(b),
    ensures
        a == b,
    decreases a,
{
    lemma_decimal_len(a);
    lemma_decimal_len(b);
    assert(decimal(a).last() == digit(a % 10));
    assert(decimal(b).last() == digit(b % 10));
    if a >= 10 && b >= 10 {
        assert(decimal(a).drop_last() =~= decimal(a / 10));
        assert(decimal(b).drop_last() =~= decimal(b / 10));
        lemma_decimal_injective(a / 10, b / 10);
    }
}

/// Every number has a digit, and one above nine has two.
pub proof fn lemma_decimal_len(n: nat)
    ensures
        decimal(n).len() >= 1,
        n >= 10 ==> decimal(n).len() >= 2,
    decreases n,
{
    if n >= 10 {
        lemma_decimal_len(n / 10);
    }
}

/// The number that a text spells: an optional `+`, then decimal digits only.
pub open spec fn number_of(s: Seq<char>) -> Option<nat> {
    let digits = if s.len() > 0 && s[0] == '+' {
        s.skip(1)
    } else {
        s
    };
    if digits.len() > 0 && all_digits(digits) {
        Some(digits_value(digits))
    } else {
        None
    }
}

/// Every character is a decimal digit.
pub open spec fn all_digits(s: Seq<char>) -> bool {
    forall|i: int| 0 <= i < s.len() ==> '0' <= #[trigger] s[i] <= '9'
}

/// The value of a row of decimal digits.
pub open spec fn digits_value(s: Seq<char>) -> nat
    decreases s.len(),
{
    if s.len() == 0 {
        0
    } else {
        digits_value(s.drop_last()) * 10 + (s.last() as u32 - 48) as nat
    }
}

/// The decimal digits of a number spell that number.
pub proof fn lemma_decimal_spells_number(n: nat)
    ensures
        number_of(decimal(n)) == Some(n),
        all_digits(decimal(n)),
        decimal(n).len() > 0,
{
    lemma_decimal_value(n);
    lemma_decimal_len(n);
    assert('0' <= decimal(n)[0] <= '9');
}

proof fn lemma_decimal_value(n: nat)
    ensures
        all_digits(decimal(n)),
        digits_value(decimal(n)) == n,
    decreases n,
{
    assert(decimal(n).last() == digit(n % 10));
    assert(digit(n % 10) as u32 == 48 + n % 10);
    if n < 10 {
        assert(decimal(n).drop_last() =~= Seq::empty());
        assert(digits_value(decimal(n).drop_last()) == 0);
    } else {
        lemma_decimal_value(n / 10);
        assert(decimal(n).drop_last() =~= decimal(n / 10));
    }
}

/// The number that a text spells, where it fits.
pub fn parse_usize(s: &[char]) -> (r: Option<usize>)
    ensures
        r matches Some(n) ==> number_of(s@) == Some(n as nat),
        r is None <==> (number_of(s@) is None || number_of(s@)->0 > usize::MAX),
{
    let start: usize = if s.len() > 0 && s[0] == '+' {
        1
    } else {
        0
    };
    let digits = slice_subrange(s, start, s.len());
    assert(digits@ =~= if start == 1 {
        s@.skip(1)
    } else {
        s@
    });
    if digits.len() == 0 {
        return None;
    }
    let mut n: usize = 0;
    let mut fits: bool = true;
    assert(digits@.take(0) =~= Seq::empty());
    for i in 0..digits.len()
        invariant
            digits@ == (if s@.len() > 0 && s@[0] == '+' {
                s@.skip(1)
            } else {
                s@
            }),
            all_digits(digits@.take(i as int)),
            fits ==> n == digits_value(digits@.take(i as int)),
            !fits ==> digits_value(digits@.take(i as int)) > usize::MAX,
    {
        assert(digits@.take(i + 1).drop_last() =~= digits@.take(i as int));
        let c: char = digits[i];
        if !('0' <= c && c <= '9') {
            assert(!('0' <= digits@[i as int] <= '9'));
            return None;
        }
        assert(all_digits(digits@.take(i + 1))) by {
            assert forall|j: int| 0 <= j < i + 1 implies '0' <= #[trigger] digits@.take(i + 1)[j]
                <= '9' by {
                if j < i {
                    assert(digits@.take(i as int)[j] == digits@[j]);
                }
            }
        }
        let d: u128 = (c as u32 - 48) as u128;
        if fits {
            let next: u128 = n as u128 * 10 + d;
            if next > usize::MAX as u128 {
                fits = false;
            } else {
                n = next as usize;
            }
        }
    }
    assert(digits@.take(digits@.len() as int) =~= digits@);
    if fits {
        Some(n)
    } else {
        None
    }
}

} // verus!
