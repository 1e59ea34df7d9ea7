//! The fields of a submitted form.
use crate::percent::{
    lemma_url_encoded_chars, lemma_url_round_trip, url_decode, url_decoded, url_encoded,
};
use crate::text::{
    char_lists, equals_char, lemma_split_by_last, lemma_split_by_single, lemma_split_first,
    same_text, split_chars, split_first, split_first_chars, split_on, to_chars, to_text,
};
use vstd::prelude::*;

verus! {

/// Names with their values. A name that came more than once has the value that
/// came last.
pub struct Form {
    entries: Vec<(String, String)>,
}

/// The values that a list of entries leaves.
spec fn entry_map(entries: Seq<(String, String)>) -> Map<Seq<char>, Seq<char>>
    decreases entries.len(),
{
    if entries.len() == 0 {
        Map::empty()
    } else {
        entry_map(entries.drop_last()).insert(entries.last().0@, entries.last().1@)
    }
}

impl View for Form {
    type V = Map<Seq<char>, Seq<char>>;

    closed spec fn view(&self) -> Map<Seq<char>, Seq<char>> {
        entry_map(self.entries@)
    }
}

/// The value of a field; empty where there is none.
pub open spec fn field(form: Map<Seq<char>, Seq<char>>, name: Seq<char>) -> Seq<char> {
    if form.contains_key(name) {
        form[name]
    } else {
        Seq::empty()
    }
}

impl Form {
    /// A form without fields.
    pub fn new() -> (r: Form)
        ensures
            r@ == Map::<Seq<char>, Seq<char>>::empty(),
    {
        Form { entries: Vec::new() }
    }

    /// Gives a field a value.
    pub fn insert(&mut self, name: String, value: String)
        ensures
            final(self)@ == old(self)@.insert(name@, value@),
    {
        let ghost before = self.entries@;
        self.entries.push((name, value));
        assert(self.entries@.drop_last() =~= before);
    }

    /// The value of a field.
    pub fn get(&self, name: &str) -> (r: Option<&String>)
        ensures
            r is Some <==> self@.contains_key(name@),
            r matches Some(value) ==> value@ == self@[name@],
    {
        let mut n: usize = self.entries.len();
        assert(self.entries@.take(n as int) =~= self.entries@);
        while n > 0
            invariant
                n <= self.entries@.len(),
                self@.contains_key(name@) == entry_map(self.entries@.take(n as int)).contains_key(
                    name@,
                ),
                self@.contains_key(name@) ==> self@[name@] == entry_map(
                    self.entries@.take(n as int),
                )[name@],
            decreases n,
        {
            assert(self.entries@.take(n as int).drop_last() =~= self.entries@.take(n - 1));
            if same_text(self.entries[n - 1].0.as_str(), name) {
                return Some(&self.entries[n - 1].1);
            }
            n = n - 1;
        }
        None
    }

    /// Whether there is a field of that name.
    pub fn contains_key(&self, name: &str) -> (r: bool)
        ensures
            r == self@.contains_key(name@),
    {
        self.get(name).is_some()
    }

    /// The value of a field; empty where there is none.
    pub fn text(&self, name: &str) -> (r: String)
        ensures
            r@ == field(self@, name@),
    {
        match self.get(name) {
            Some(value) => value.clone(),
            None => String::new(),
        }
    }
}

/// The name and the value in a piece of a form, still encoded.
pub open spec fn pair_parts(piece: Seq<char>) -> (Seq<char>, Seq<char>) {
    match split_first(piece, '=') {
        Some(parts) => parts,
        None => (piece, Seq::empty()),
    }
}

/// The fields that the pieces of a form give. Empty pieces give none.
pub open spec fn pieces_form(pieces: Seq<Seq<char>>) -> Map<Seq<char>, Seq<char>>
    decreases pieces.len(),
{
    if pieces.len() == 0 {
        Map::empty()
    } else if pieces.last().len() == 0 {
        pieces_form(pieces.drop_last())
    } else {
        let parts = pair_parts(pieces.last());
        pieces_form(pieces.drop_last()).insert(url_decoded(parts.0), url_decoded(parts.1))
    }
}

/// The fields of an encoded form: pieces between `&`, each with its name and its
/// value around the first `=`.
pub open spec fn form_of(s: Seq<char>) -> Map<Seq<char>, Seq<char>> {
    pieces_form(split_on(s, '&'))
}

/// The fields of an encoded form.
pub fn parse_form(s: &str) -> (r: Form)
    ensures
        r@ == form_of(s@),
{
    let v = to_chars(s);
    let pieces = split_chars(&v, '&');
    let ghost all = char_lists(pieces@);
    let mut out = Form::new();
    assert(all.take(0) =~= Seq::empty());
    for i in 0..pieces.len()
        invariant
            all == char_lists(pieces@),
            out@ == pieces_form(all.take(i as int)),
    {
        assert(all.take(i + 1).drop_last() =~= all.take(i as int));
        assert(all[i as int] == pieces@[i as int]@);
        if pieces[i].len() > 0 {
            let (name, value) = match split_first_chars(&pieces[i], '=') {
                Some((k, v)) => (to_text(k), to_text(v)),
                None => (to_text(&pieces[i]), String::new()),
            };
            out.insert(url_decode(name.as_str()), url_decode(value.as_str()));
        }
    }
    assert(all.take(all.len() as int) =~= all);
    out
}

/// Names and values as a form is submitted.
pub open spec fn encoded_form(pairs: Seq<(Seq<char>, Seq<char>)>) -> Seq<char>
    decreases pairs.len(),
{
    if pairs.len() == 0 {
        Seq::empty()
    } else {
        let last = url_encoded(pairs.last().0).push('=') + url_encoded(pairs.last().1);
        if pairs.len() == 1 {
            last
        } else {
            encoded_form(pairs.drop_last()).push('&') + last
        }
    }
}

/// Names with their values, the last where a name comes more than once.
pub open spec fn pairs_map(pairs: Seq<(Seq<char>, Seq<char>)>) -> Map<Seq<char>, Seq<char>>
    decreases pairs.len(),
{
    if pairs.len() == 0 {
        Map::empty()
    } else {
        pairs_map(pairs.drop_last()).insert(pairs.last().0, pairs.last().1)
    }
}

/// A form that is submitted is read back as it was.
pub proof fn lemma_form_read_back(pairs: Seq<(Seq<char>, Seq<char>)>)
    ensures
        form_of(encoded_form(pairs)) == pairs_map(pairs),
    decreases pairs.len(),
{
    if pairs.len() == 0 {
        assert(split_on(Seq::empty(), '&') =~= seq![Seq::empty()]);
        let pieces = seq![Seq::<char>::empty()];
        assert(pieces.drop_last() =~= Seq::empty());
        assert(pieces_form(pieces.drop_last()) == Map::<Seq<char>, Seq<char>>::empty());
    } else {
        let (name, value) = pairs.last();
        let last = url_encoded(name).push('=') + url_encoded(value);
        lemma_pair_read_back(name, value);
        assert forall|i: int| 0 <= i < last.len() implies !equals_char('&')(#[trigger] last[i]) by {
            lemma_pair_chars(name, value, i);
        }
        if pairs.len() == 1 {
            lemma_split_by_single(last, equals_char('&'));
            let pieces = seq![last];
            assert(pieces.drop_last() =~= Seq::empty());
            assert(pairs.drop_last() =~= Seq::empty());
            assert(pieces_form(pieces.drop_last()) == Map::<Seq<char>, Seq<char>>::empty());
            assert(pairs_map(pairs.drop_last()) == Map::<Seq<char>, Seq<char>>::empty());
        } else {
            let before = encoded_form(pairs.drop_last());
            lemma_form_read_back(pairs.drop_last());
            lemma_split_by_last(before, '&', last, equals_char('&'));
            let pieces = split_on(before, '&').push(last);
            assert(pieces.drop_last() =~= split_on(before, '&'));
        }
    }
}

proof fn lemma_pair_chars(name: Seq<char>, value: Seq<char>, i: int)
    requires
        0 <= i < url_encoded(name).len() + 1 + url_encoded(value).len(),
    ensures
        (url_encoded(name).push('=') + url_encoded(value))[i] != '&',
{
    let n = url_encoded(name).len();
    if i < n {
        lemma_url_encoded_chars(name, i);
    } else if i > n {
        lemma_url_encoded_chars(value, i - n - 1);
    }
}

proof fn lemma_pair_read_back(name: Seq<char>, value: Seq<char>)
    ensures
        ({
            let parts = pair_parts(url_encoded(name).push('=') + url_encoded(value));
            url_decoded(parts.0) == name && url_decoded(parts.1) == value
        }),
{
    lemma_url_round_trip(name);
    lemma_url_round_trip(value);
    assert(!url_encoded(name).contains('=')) by {
        assert forall|i: int| 0 <= i < url_encoded(name).len() implies url_encoded(name)[i]
            != '=' by {
            lemma_url_encoded_chars(name, i);
        }
    }
    lemma_split_first(url_encoded(name), '=', url_encoded(value));
}

} // verus!
