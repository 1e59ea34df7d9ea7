//! What the operations on text do, said by the characters alone.
use crate::text::{
    after_last, all_digits, concat, decimal, digit, digits_value, equals_char, has_part,
    has_part_at, is_white, lemma_split_by_last, lemma_split_by_single, lemma_split_first,
    lemma_trimmed_within_white, nonempty, number_of, split_by, split_first, split_on, trimmed,
    trimmed_end, trimmed_start, white, without_leading, without_trailing, words,
};
use crate::unicode::{is_alnum, lowercase, utf16_decoded, utf16_encoded};
use vstd::prelude::*;
use vstd::utf8::*;

verus! {

// ---------------------------------------------------------------------------
// Letter case and classes of characters
// ---------------------------------------------------------------------------

/// In lower case a text in ASCII keeps its length. A capital moves to the small
/// letter at the same place of the alphabet, and nothing else changes.
pub proof fn lemma_lowercase_by_letter(s: Seq<char>, i: int)
    requires
        is_ascii_chars(s),
        0 <= i < s.len(),
    ensures
        lowercase(s).len() == s.len(),
        'A' <= s[i] <= 'Z' ==> 'a' <= lowercase(s)[i] <= 'z' && lowercase(s)[i] as u32 - 'a' as u32
            == s[i] as u32 - 'A' as u32,
        !('A' <= s[i] <= 'Z') ==> lowercase(s)[i] == s[i],
{
}

/// In ASCII, lower case of two texts side by side is lower case of each.
pub proof fn lemma_lowercase_of_parts(a: Seq<char>, b: Seq<char>)
    requires
        is_ascii_chars(a),
        is_ascii_chars(b),
    ensures
        lowercase(a + b) == lowercase(a) + lowercase(b),
        is_ascii_chars(a + b),
{
    assert(lowercase(a + b) =~= lowercase(a) + lowercase(b));
}

/// In ASCII, letters and digits count as such and nothing else does.
pub proof fn lemma_letters_and_digits(c: char)
    requires
        (c as u32) < 128,
    ensures
        is_alnum(c) <==> ('0' <= c <= '9' || 'A' <= c <= 'Z' || 'a' <= c <= 'z'),
{
}

/// White space: the blanks and line breaks of ASCII, and those of Unicode.
pub proof fn lemma_white_characters(c: char)
    ensures
        is_white(c) <==> {
            ||| c == ' ' || c == '\t' || c == '\n' || c == '\r' || c == '\u{b}' || c == '\u{c}'
            ||| c == '\u{85}' || c == '\u{a0}' || c == '\u{1680}'
            ||| '\u{2000}' <= c <= '\u{200a}'
            ||| c == '\u{2028}' || c == '\u{2029}' || c == '\u{202f}' || c == '\u{205f}'
            ||| c == '\u{3000}'
        },
{
}

// ---------------------------------------------------------------------------
// White space around a text
// ---------------------------------------------------------------------------

/// Of a text that neither starts nor ends in white space, with white space around
/// it, that text is left and nothing else.
pub proof fn lemma_trimmed_is_core(a: Seq<char>, s: Seq<char>, b: Seq<char>)
    requires
        forall|i: int| 0 <= i < a.len() ==> is_white(#[trigger] a[i]),
        forall|i: int| 0 <= i < b.len() ==> is_white(#[trigger] b[i]),
        s.len() > 0 ==> !is_white(s[0]) && !is_white(s.last()),
    ensures
        trimmed(a + s + b) == s,
        trimmed_start(a + s) == s,
        trimmed_end(s + b) == s,
{
    lemma_trimmed_within_white(a, s, b);
    lemma_start_dropped(a, s);
    lemma_end_dropped(s, b);
}

proof fn lemma_start_dropped(a: Seq<char>, s: Seq<char>)
    requires
        forall|i: int| 0 <= i < a.len() ==> is_white(#[trigger] a[i]),
        s.len() > 0 ==> !is_white(s[0]),
    ensures
        trimmed_start(a + s) == s,
    decreases a.len(),
{
    if a.len() > 0 {
        assert(is_white(a[0]));
        assert((a + s).drop_first() =~= a.drop_first() + s);
        lemma_start_dropped(a.drop_first(), s);
    } else {
        assert(a + s =~= s);
    }
}

proof fn lemma_end_dropped(s: Seq<char>, b: Seq<char>)
    requires
        forall|i: int| 0 <= i < b.len() ==> is_white(#[trigger] b[i]),
        s.len() > 0 ==> !is_white(s.last()),
    ensures
        trimmed_end(s + b) == s,
    decreases b.len(),
{
    if b.len() > 0 {
        assert(is_white(b[b.len() - 1]));
        assert((s + b).drop_last() =~= s + b.drop_last());
        lemma_end_dropped(s, b.drop_last());
    } else {
        assert(s + b =~= s);
    }
}

// ---------------------------------------------------------------------------
// Parts
// ---------------------------------------------------------------------------

/// A text holds another exactly if it is that other with something before it and
/// something behind it, or nothing.
pub proof fn lemma_part_means_between(s: Seq<char>, part: Seq<char>)
    ensures
        has_part(s, part) <==> exists|a: Seq<char>, b: Seq<char>| s == #[trigger] (a + part + b),
{
    if has_part(s, part) {
        let i = choose|i: int| has_part_at(s, part, i);
        let a = s.take(i);
        let b = s.skip(i + part.len());
        assert(s =~= a + s.subrange(i, i + part.len()) + b);
        assert(s == a + part + b);
    }
    if exists|a: Seq<char>, b: Seq<char>| s == #[trigger] (a + part + b) {
        let (a, b) = choose|a: Seq<char>, b: Seq<char>| s == #[trigger] (a + part + b);
        lemma_part_between(a, part, b);
    }
}

/// A text holds what stands anywhere in it, at its start and its end too.
pub proof fn lemma_part_between(a: Seq<char>, part: Seq<char>, b: Seq<char>)
    ensures
        has_part(a + part + b, part),
{
    let s = a + part + b;
    assert(s.subrange(a.len() as int, (a.len() + part.len()) as int) =~= part);
    assert(has_part_at(s, part, a.len() as int));
}

/// So many copies of a text, one behind the other.
pub open spec fn copies(part: Seq<char>, n: nat) -> Seq<char>
    decreases n,
{
    if n == 0 {
        Seq::empty()
    } else {
        part + copies(part, (n - 1) as nat)
    }
}

/// All copies at the start go, and nothing else.
pub proof fn lemma_leading_copies_go(part: Seq<char>, n: nat, s: Seq<char>)
    requires
        part.len() > 0,
        !part.is_prefix_of(s),
    ensures
        without_leading(copies(part, n) + s, part) == s,
    decreases n,
{
    if n == 0 {
        assert(copies(part, n) + s =~= s);
    } else {
        let rest = copies(part, (n - 1) as nat) + s;
        let whole = copies(part, n) + s;
        assert(whole =~= part + rest);
        assert(whole.subrange(0, part.len() as int) =~= part);
        assert(whole.skip(part.len() as int) =~= rest);
        lemma_leading_copies_go(part, (n - 1) as nat, s);
    }
}

/// All copies of a character at the end go, and nothing else.
pub proof fn lemma_trailing_copies_go(s: Seq<char>, c: char, n: nat)
    requires
        s.len() > 0 ==> s.last() != c,
    ensures
        without_trailing(s + copies(seq![c], n), c) == s,
    decreases n,
{
    lemma_copies_of_char(c, n);
    if n == 0 {
        assert(s + copies(seq![c], n) =~= s);
    } else {
        lemma_copies_of_char(c, (n - 1) as nat);
        let whole = s + copies(seq![c], n);
        assert(whole.last() == c);
        assert(whole.drop_last() =~= s + copies(seq![c], (n - 1) as nat));
        lemma_trailing_copies_go(s, c, (n - 1) as nat);
    }
}

/// Copies of a character are a row of it.
pub proof fn lemma_copies_of_char(c: char, n: nat)
    ensures
        copies(seq![c], n).len() == n,
        forall|i: int| 0 <= i < n ==> #[trigger] copies(seq![c], n)[i] == c,
    decreases n,
{
    if n > 0 {
        lemma_copies_of_char(c, (n - 1) as nat);
    }
}

/// Texts in a list are put one behind the other, in their order.
pub proof fn lemma_concat_one_by_one(parts: Seq<Seq<char>>, part: Seq<char>)
    ensures
        concat(Seq::empty()).len() == 0,
        concat(parts.push(part)) == concat(parts) + part,
{
    assert(parts.push(part).drop_last() =~= parts);
}

// ---------------------------------------------------------------------------
// Splitting
// ---------------------------------------------------------------------------

/// Splitting at a character: a text without it is one piece, and a piece behind
/// it is split off as it is.
pub proof fn lemma_split_at_character(before: Seq<char>, c: char, piece: Seq<char>)
    requires
        !piece.contains(c),
    ensures
        split_on(piece, c) == seq![piece],
        split_on(before + seq![c] + piece, c) == split_on(before, c).push(piece),
{
    assert forall|i: int| 0 <= i < piece.len() implies !equals_char(c)(#[trigger] piece[i]) by {
        assert(piece.contains(piece[i]));
    }
    lemma_split_by_single(piece, equals_char(c));
    lemma_split_by_last(before, c, piece, equals_char(c));
    assert(before + seq![c] =~= before.push(c));
}

/// Splitting at the first of a character: what stands before it and behind it,
/// whatever comes behind it. Without the character there is nothing to split.
pub proof fn lemma_split_at_first(before: Seq<char>, c: char, after: Seq<char>)
    requires
        !before.contains(c),
    ensures
        split_first(before + seq![c] + after, c) == Some((before, after)),
        split_first(before, c) is None,
{
    lemma_split_first(before, c, after);
    assert(before + seq![c] =~= before.push(c));
}

/// Behind the last of a character stands what comes after it; a text without the
/// character is left whole.
pub proof fn lemma_behind_the_last(before: Seq<char>, c: char, after: Seq<char>)
    requires
        !after.contains(c),
    ensures
        after_last(before + seq![c] + after, c) == after,
        after_last(after, c) == after,
    decreases after.len(),
{
    let whole = before + seq![c] + after;
    if after.len() == 0 {
        assert(whole.last() == c);
        assert(after =~= Seq::empty());
    } else {
        assert(after.contains(after.last()));
        let rest = after.drop_last();
        assert forall|i: int| 0 <= i < rest.len() implies rest[i] != c by {
            assert(after.contains(after[i]));
        }
        lemma_behind_the_last(before, c, rest);
        assert(whole.drop_last() =~= before + seq![c] + rest);
        assert(rest.push(after.last()) =~= after);
    }
}

/// The words of a text: white space has none, a run without white space is one,
/// and white space between two texts parts their words.
pub proof fn lemma_words_by_white_space(a: Seq<char>, c: char, word: Seq<char>)
    requires
        is_white(c),
        forall|i: int| 0 <= i < word.len() ==> !is_white(#[trigger] word[i]),
    ensures
        words(word) == if word.len() > 0 {
            seq![word]
        } else {
            Seq::empty()
        },
        words(a + seq![c] + word) == if word.len() > 0 {
            words(a).push(word)
        } else {
            words(a)
        },
{
    assert forall|i: int| 0 <= i < word.len() implies !white()(#[trigger] word[i]) by {}
    lemma_split_by_single(word, white());
    lemma_split_by_last(a, c, word, white());
    assert(a + seq![c] =~= a.push(c));
    let pieces = split_by(a, white());
    reveal(Seq::filter);
    assert(seq![word].drop_last() =~= Seq::empty());
    assert(pieces.push(word).drop_last() =~= pieces);
    assert(Seq::<Seq<char>>::empty().filter(nonempty()) =~= Seq::empty());
    assert(seq![word].filter(nonempty()) =~= if word.len() > 0 {
        seq![word]
    } else {
        Seq::empty()
    });
}

// ---------------------------------------------------------------------------
// Numbers
// ---------------------------------------------------------------------------

/// Numbers are written with the digits `0` to `9`, the ones last, and with no
/// zero in front.
pub proof fn lemma_decimal_by_digit(n: nat, d: nat)
    requires
        d < 10,
    ensures
        decimal(d).len() == 1,
        decimal(d)[0] as u32 == '0' as u32 + d,
        n > 0 ==> decimal(10 * n + d) == decimal(n) + decimal(d),
{
    assert(digit(d) as u32 == 48 + d);
    if n > 0 {
        assert((10 * n + d) / 10 == n);
        assert((10 * n + d) % 10 == d);
        assert(decimal(n).push(digit(d)) =~= decimal(n) + decimal(d));
    }
}

/// A row of digits is read as the number it spells, with a plus before it too; a
/// further digit counts as the ones. An empty text and one with any other
/// character are no number.
pub proof fn lemma_number_by_digit(s: Seq<char>, c: char, i: int)
    requires
        '0' <= c <= '9',
    ensures
        number_of(seq![c]) == Some((c as u32 - '0' as u32) as nat),
        s.len() > 0 && s != seq!['+'] && number_of(s) is Some ==> number_of(s.push(c)) == Some(
            (10 * number_of(s)->0 + (c as u32 - '0' as u32)) as nat,
        ),
        number_of(Seq::empty()) is None,
        number_of(seq!['+']) is None,
        s.len() > 0 && '0' <= s[0] <= '9' ==> number_of(seq!['+'] + s) == number_of(s),
        0 <= i < s.len() && !('0' <= s[i] <= '9') && !(i == 0 && s[0] == '+') ==> number_of(
            s,
        ) is None,
{
    let one = seq![c];
    assert(all_digits(one));
    reveal_with_fuel(digits_value, 2);
    assert(one.drop_last() =~= Seq::empty());
    assert(seq!['+'].skip(1) =~= Seq::empty());
    if s.len() > 0 && s != seq!['+'] && number_of(s) is Some {
        let t = s.push(c);
        let digits = if s[0] == '+' {
            s.skip(1)
        } else {
            s
        };
        let more = if t[0] == '+' {
            t.skip(1)
        } else {
            t
        };
        assert(more =~= digits.push(c));
        assert(more.drop_last() =~= digits);
        assert(all_digits(more));
    }
    if s.len() > 0 && '0' <= s[0] <= '9' {
        assert((seq!['+'] + s).skip(1) =~= s);
    }
    if 0 <= i < s.len() && !('0' <= s[i] <= '9') && !(i == 0 && s[0] == '+') {
        if s[0] == '+' {
            assert(s.skip(1)[i - 1] == s[i]);
        }
    }
}

// ---------------------------------------------------------------------------
// UTF-16
// ---------------------------------------------------------------------------

/// The UTF-16 form of two texts side by side is the form of each. A character
/// below U+10000 is one unit, its own number; any other is two, from the two
/// ranges of surrogates, that make up its number.
pub proof fn lemma_utf16_by_character(a: Seq<char>, c: char)
    ensures
        utf16_encoded(Seq::empty()) == Seq::<u16>::empty(),
        (c as u32) < 0x10000 ==> utf16_encoded(a + seq![c]) == utf16_encoded(a) + seq![
            c as u32 as u16,
        ],
        (c as u32) >= 0x10000 ==> ({
            let units = utf16_encoded(a + seq![c]);
            let n = utf16_encoded(a).len() as int;
            &&& units.len() == n + 2
            &&& units.take(n) == utf16_encoded(a)
            &&& 0xd800 <= units[n] <= 0xdbff
            &&& 0xdc00 <= units[n + 1] <= 0xdfff
            &&& 0x10000 + (units[n] - 0xd800) * 0x400 + (units[n + 1] - 0xdc00) == c as u32
        }),
{
    assert((a + seq![c]).drop_last() =~= a);
    char_is_scalar(c);
    if (c as u32) >= 0x10000 {
        let n = utf16_encoded(a).len() as int;
        assert(utf16_encoded(a + seq![c]).take(n) =~= utf16_encoded(a));
    }
}

/// A surrogate without its partner is read as U+FFFD, and reading goes on behind
/// it.
pub proof fn lemma_lone_surrogate(u: u16, rest: Seq<u16>)
    requires
        0xd800 <= u <= 0xdfff,
        u <= 0xdbff ==> rest.len() == 0 || !(0xdc00 <= rest[0] <= 0xdfff),
    ensures
        utf16_decoded(seq![u] + rest) == seq!['\u{fffd}'] + utf16_decoded(rest),
{
    let v = seq![u] + rest;
    assert(v.skip(1) =~= rest);
    if rest.len() > 0 {
        assert(v[1] == rest[0]);
    }
}

} // verus!
