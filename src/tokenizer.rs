use vstd::prelude::*;

use crate::chars::{ascii_punctuation, is_ascii_punctuation, is_whitespace, push_char, white_space};

verus! {

/// A character that ends a word when scanning for markers with `prefix`:
/// whitespace, or ASCII punctuation other than the prefix itself.
pub open spec fn is_separator(c: char, prefix: char) -> bool {
    white_space(c) || (c != prefix && ascii_punctuation(c))
}

/// The word still open at the end of `s`: the characters after its last separator.
pub open spec fn trailing_word(s: Seq<char>, prefix: char) -> Seq<char>
    decreases s.len(),
{
    if s.len() == 0 {
        seq![]
    } else if is_separator(s.last(), prefix) {
        seq![]
    } else {
        trailing_word(s.drop_last(), prefix).push(s.last())
    }
}

/// A word is a marker when it is the prefix exactly once, followed by a
/// non-empty remainder (the marker's name).
pub open spec fn is_marker_word(w: Seq<char>, prefix: char) -> bool {
    w.len() >= 2 && w[0] == prefix && w[1] != prefix
}

/// The marker name a word contributes: its remainder if it is a marker, else nothing.
pub open spec fn word_names(w: Seq<char>, prefix: char) -> Seq<Seq<char>> {
    if is_marker_word(w, prefix) {
        seq![w.drop_first()]
    } else {
        seq![]
    }
}

/// Marker names of the words of `s` that a separator has already closed, left to right.
pub open spec fn closed_names(s: Seq<char>, prefix: char) -> Seq<Seq<char>>
    decreases s.len(),
{
    if s.len() == 0 {
        seq![]
    } else if is_separator(s.last(), prefix) {
        closed_names(s.drop_last(), prefix) + word_names(trailing_word(s.drop_last(), prefix), prefix)
    } else {
        closed_names(s.drop_last(), prefix)
    }
}

/// All marker names of `s` for `prefix`, in order of occurrence, repeats kept.
pub open spec fn marker_names(s: Seq<char>, prefix: char) -> Seq<Seq<char>> {
    closed_names(s, prefix) + word_names(trailing_word(s, prefix), prefix)
}

/// A well-formed marker name: non-empty, not starting with the prefix, and
/// holding neither whitespace nor ASCII punctuation other than the prefix.
pub open spec fn is_marker_name(name: Seq<char>, prefix: char) -> bool {
    &&& name.len() > 0
    &&& name[0] != prefix
    &&& forall|k: int| 0 <= k < name.len() ==> !is_separator(#[trigger] name[k], prefix)
}

/// The open word of a text holds no separator.
pub proof fn lemma_trailing_word_has_no_separator(s: Seq<char>, prefix: char)
    ensures
        forall|k: int|
            0 <= k < trailing_word(s, prefix).len() ==> !is_separator(
                #[trigger] trailing_word(s, prefix)[k],
                prefix,
            ),
    decreases s.len(),
{
    if s.len() > 0 && !is_separator(s.last(), prefix) {
        lemma_trailing_word_has_no_separator(s.drop_last(), prefix);
        let w = trailing_word(s.drop_last(), prefix);
        assert forall|k: int| 0 <= k < w.push(s.last()).len() implies !is_separator(
            #[trigger] w.push(s.last())[k],
            prefix,
        ) by {
            if k < w.len() {
                assert(w.push(s.last())[k] == w[k]);
            }
        }
    }
}

proof fn lemma_word_names_are_names(w: Seq<char>, prefix: char)
    requires
        forall|k: int| 0 <= k < w.len() ==> !is_separator(#[trigger] w[k], prefix),
    ensures
        forall|i: int|
            0 <= i < word_names(w, prefix).len() ==> is_marker_name(
                #[trigger] word_names(w, prefix)[i],
                prefix,
            ),
{
    if is_marker_word(w, prefix) {
        let name = w.drop_first();
        assert forall|k: int| 0 <= k < name.len() implies !is_separator(#[trigger] name[k], prefix) by {
            assert(name[k] == w[k + 1]);
        }
        assert(word_names(w, prefix)[0] == name);
    }
}

proof fn lemma_closed_names_are_names(s: Seq<char>, prefix: char)
    ensures
        forall|i: int|
            0 <= i < closed_names(s, prefix).len() ==> is_marker_name(
                #[trigger] closed_names(s, prefix)[i],
                prefix,
            ),
    decreases s.len(),
{
    if s.len() > 0 {
        lemma_closed_names_are_names(s.drop_last(), prefix);
        if is_separator(s.last(), prefix) {
            let w = trailing_word(s.drop_last(), prefix);
            lemma_trailing_word_has_no_separator(s.drop_last(), prefix);
            lemma_word_names_are_names(w, prefix);
            let a = closed_names(s.drop_last(), prefix);
            let b = word_names(w, prefix);
            assert forall|i: int| 0 <= i < (a + b).len() implies is_marker_name(#[trigger] (a + b)[i], prefix) by {
                if i >= a.len() {
                    assert((a + b)[i] == b[i - a.len()]);
                }
            }
        }
    }
}

/// Every extracted marker name is non-empty, does not start with the prefix,
/// and holds no whitespace and no ASCII punctuation other than the prefix.
pub proof fn lemma_marker_names_are_names(s: Seq<char>, prefix: char)
    ensures
        forall|i: int|
            0 <= i < marker_names(s, prefix).len() ==> is_marker_name(
                #[trigger] marker_names(s, prefix)[i],
                prefix,
            ),
{
    lemma_closed_names_are_names(s, prefix);
    lemma_trailing_word_has_no_separator(s, prefix);
    lemma_word_names_are_names(trailing_word(s, prefix), prefix);
    let a = closed_names(s, prefix);
    let b = word_names(trailing_word(s, prefix), prefix);
    assert forall|i: int| 0 <= i < (a + b).len() implies is_marker_name(#[trigger] (a + b)[i], prefix) by {
        if i >= a.len() {
            assert((a + b)[i] == b[i - a.len()]);
        }
    }
}

/// After a text that ends at a word boundary, the words of what follows are read
/// on their own.
pub proof fn lemma_names_concat(u: Seq<char>, v: Seq<char>, prefix: char)
    requires
        trailing_word(u, prefix) == Seq::<char>::empty(),
    ensures
        closed_names(u + v, prefix) == closed_names(u, prefix) + closed_names(v, prefix),
        trailing_word(u + v, prefix) == trailing_word(v, prefix),
        marker_names(u + v, prefix) == marker_names(u, prefix) + marker_names(v, prefix),
    decreases v.len(),
{
    if v.len() == 0 {
        assert(u + v =~= u);
        assert(closed_names(u, prefix) + closed_names(v, prefix) =~= closed_names(u, prefix));
    } else {
        lemma_names_concat(u, v.drop_last(), prefix);
        assert((u + v).drop_last() =~= u + v.drop_last());
        assert((u + v).last() == v.last());
        let a = closed_names(u, prefix);
        let b = closed_names(v.drop_last(), prefix);
        let c = word_names(trailing_word(v.drop_last(), prefix), prefix);
        assert(a + b + c =~= a + (b + c));
    }
    let a = closed_names(u, prefix);
    let b = closed_names(v, prefix);
    let c = word_names(trailing_word(v, prefix), prefix);
    assert(a + b + c =~= a + (b + c));
    assert(word_names(trailing_word(u, prefix), prefix) =~= Seq::<Seq<char>>::empty());
    assert(a + Seq::<Seq<char>>::empty() =~= a);
}

/// A text without separators is one open word.
pub proof fn lemma_single_word(x: Seq<char>, prefix: char)
    requires
        forall|k: int| 0 <= k < x.len() ==> !is_separator(#[trigger] x[k], prefix),
    ensures
        closed_names(x, prefix) == Seq::<Seq<char>>::empty(),
        trailing_word(x, prefix) == x,
        marker_names(x, prefix) == word_names(x, prefix),
    decreases x.len(),
{
    if x.len() > 0 {
        assert(x.drop_last().len() < x.len());
        assert forall|k: int| 0 <= k < x.drop_last().len() implies !is_separator(
            #[trigger] x.drop_last()[k],
            prefix,
        ) by {
            assert(x.drop_last()[k] == x[k]);
        }
        lemma_single_word(x.drop_last(), prefix);
        assert(!is_separator(x[x.len() - 1], prefix));
        assert(x.drop_last().push(x.last()) =~= x);
    }
    assert(closed_names(x, prefix) + word_names(x, prefix) =~= word_names(x, prefix));
}

/// A word without separators, closed by a separator, yields its own name if any.
pub proof fn lemma_closed_word(x: Seq<char>, c: char, prefix: char)
    requires
        forall|k: int| 0 <= k < x.len() ==> !is_separator(#[trigger] x[k], prefix),
        is_separator(c, prefix),
    ensures
        trailing_word(x.push(c), prefix) == Seq::<char>::empty(),
        marker_names(x.push(c), prefix) == word_names(x, prefix),
{
    lemma_single_word(x, prefix);
    assert(x.push(c).drop_last() =~= x);
    assert(Seq::<Seq<char>>::empty() + word_names(x, prefix) + word_names(Seq::<char>::empty(), prefix)
        =~= word_names(x, prefix));
}

/// The open word is the end of the text.
pub proof fn lemma_trailing_word_is_suffix(s: Seq<char>, prefix: char)
    ensures
        trailing_word(s, prefix).len() <= s.len(),
        forall|k: int|
            0 <= k < trailing_word(s, prefix).len() ==> #[trigger] trailing_word(s, prefix)[k]
                == s[s.len() - trailing_word(s, prefix).len() + k],
    decreases s.len(),
{
    if s.len() > 0 && !is_separator(s.last(), prefix) {
        lemma_trailing_word_is_suffix(s.drop_last(), prefix);
        let w = trailing_word(s.drop_last(), prefix);
        assert forall|k: int| 0 <= k < w.push(s.last()).len() implies #[trigger] w.push(
            s.last(),
        )[k] == s[s.len() - w.push(s.last()).len() + k] by {
            if k < w.len() {
                assert(w.push(s.last())[k] == w[k]);
            }
        }
    }
}

/// A text in which the prefix does not occur holds no marker.
pub proof fn lemma_no_prefix_no_names(x: Seq<char>, prefix: char)
    requires
        forall|k: int| 0 <= k < x.len() ==> #[trigger] x[k] != prefix,
    ensures
        closed_names(x, prefix) == Seq::<Seq<char>>::empty(),
        marker_names(x, prefix) == Seq::<Seq<char>>::empty(),
    decreases x.len(),
{
    if x.len() > 0 {
        assert forall|k: int| 0 <= k < x.drop_last().len() implies #[trigger] x.drop_last()[k]
            != prefix by {
            assert(x.drop_last()[k] == x[k]);
        }
        lemma_no_prefix_no_names(x.drop_last(), prefix);
        lemma_trailing_word_is_suffix(x.drop_last(), prefix);
    }
    lemma_trailing_word_is_suffix(x, prefix);
    assert(!is_marker_word(trailing_word(x, prefix), prefix));
    if x.len() > 0 {
        assert(!is_marker_word(trailing_word(x.drop_last(), prefix), prefix));
    }
    assert(closed_names(x, prefix) =~= Seq::<Seq<char>>::empty());
    assert(marker_names(x, prefix) =~= Seq::<Seq<char>>::empty());
}

/// The open word of a scan, held as its first character and the rest.
pub open spec fn open_word(first: Option<char>, rest: Seq<char>) -> Seq<char> {
    match first {
        Some(f) => seq![f] + rest,
        None => seq![],
    }
}

/// Whether `c` ends a word when scanning for `prefix`.
pub(crate) fn is_separator_char(c: char, prefix: char) -> (r: bool)
    ensures
        r == is_separator(c, prefix),
{
    is_whitespace(c) || (c != prefix && is_ascii_punctuation(c))
}

/// Whether an open word with these first two characters is a marker.
pub(crate) fn is_marker_start(first: Option<char>, second: Option<char>, prefix: char) -> (r: bool)
    ensures
        r == (first == Some(prefix) && second is Some && second != Some(prefix)),
{
    match (first, second) {
        (Some(f), Some(s)) => f == prefix && s != prefix,
        _ => false,
    }
}

/// Names of the markers in `text` that start with `prefix`, in order of
/// occurrence, repeats kept. The text is cut into words at whitespace and at
/// ASCII punctuation other than `prefix`; a word that is `prefix` once followed
/// by a non-empty rest yields that rest.
pub fn extract_prefix_items(text: &str, prefix: char) -> (r: Vec<String>)
    ensures
        r.deep_view() == marker_names(text@, prefix),
        forall|i: int| 0 <= i < r@.len() ==> is_marker_name(#[trigger] r@[i]@, prefix),
{
    proof {
        lemma_marker_names_are_names(text@, prefix);
    }
    let mut names: Vec<String> = Vec::new();
    let mut first: Option<char> = None;
    let mut second: Option<char> = None;
    let mut rest = String::new();
    let ghost mut closed: Seq<Seq<char>> = seq![];
    for c in it: text.chars()
        invariant
            it.seq() == text@,
            first is None ==> rest@.len() == 0,
            second == (if rest@.len() > 0 { Some(rest@[0]) } else { None }),
            open_word(first, rest@) == trailing_word(text@.take(it.index() as int), prefix),
            names.deep_view() == closed_names(text@.take(it.index() as int), prefix),
    {
        let ghost before = text@.take(it.index() as int);
        assert(text@.take(it.index() + 1).drop_last() =~= before);
        if is_separator_char(c, prefix) {
            if is_marker_start(first, second, prefix) {
                let ghost w = open_word(first, rest@);
                assert(w.drop_first() =~= rest@);
                let name = rest;
                names.push(name);
                assert(names.deep_view() =~= closed_names(before, prefix) + word_names(w, prefix));
            } else {
                assert(names.deep_view() =~= closed_names(before, prefix) + word_names(open_word(first, rest@), prefix));
            }
            first = None;
            second = None;
            rest = String::new();
        } else {
            match first {
                None => {
                    first = Some(c);
                },
                Some(_) => {
                    if second.is_none() {
                        second = Some(c);
                    }
                    push_char(&mut rest, c);
                },
            }
            assert(open_word(first, rest@) =~= trailing_word(before, prefix).push(c));
        }
    }
    assert(text@.take(text@.len() as int) =~= text@);
    if is_marker_start(first, second, prefix) {
        assert(open_word(first, rest@).drop_first() =~= rest@);
        names.push(rest);
    }
    assert(names.deep_view() =~= marker_names(text@, prefix));
    assert forall|i: int| 0 <= i < names@.len() implies is_marker_name(#[trigger] names@[i]@, prefix) by {
        assert(names@[i]@ == names.deep_view()[i]);
    }
    names
}

} // verus!
