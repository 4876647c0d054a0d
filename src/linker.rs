use vstd::prelude::*;

use crate::chars::push_char;
use crate::rewriter::{emit_word, render_word};
use crate::tokenizer::{
    is_separator, is_separator_char, lemma_trailing_word_has_no_separator,
    lemma_trailing_word_is_suffix, open_word, trailing_word,
};

verus! {

/// The word held back at the end of `s` because it may still become a link:
/// the open `#` word if it starts with `#`, else the open `@` word if it
/// starts with `@`, else nothing.
pub open spec fn pending(s: Seq<char>) -> Seq<char> {
    let h = trailing_word(s, '#');
    let a = trailing_word(s, '@');
    if h.len() > 0 && h[0] == '#' {
        h
    } else if a.len() > 0 && a[0] == '@' {
        a
    } else {
        seq![]
    }
}

/// A held-back word as written out: a tag links to `tags.md`, a mention to
/// `mentions.md`, anything else stays as it is.
pub open spec fn render_pending(w: Seq<char>) -> Seq<char> {
    if w.len() == 0 {
        seq![]
    } else if w[0] == '#' {
        render_word(w, '#', "tags.md"@)
    } else {
        render_word(w, '@', "mentions.md"@)
    }
}

/// The output for `s` up to its held-back word. A character either extends the
/// held-back word, or closes it (writing it out) and is then held back itself
/// or written as it is.
pub open spec fn settled(s: Seq<char>) -> Seq<char>
    decreases s.len(),
{
    if s.len() == 0 {
        seq![]
    } else {
        let s0 = s.drop_last();
        let c = s.last();
        if pending(s) == pending(s0).push(c) {
            settled(s0)
        } else {
            settled(s0) + render_pending(pending(s0)) + if pending(s).len() > 0 {
                seq![]
            } else {
                seq![c]
            }
        }
    }
}

/// `s` with every tag word (found with `#`) and every mention word (found with
/// `@`) of `s` itself turned into a link, all other characters kept.
pub open spec fn linked(s: Seq<char>) -> Seq<char> {
    settled(s) + render_pending(pending(s))
}

/// The open `#` word and the open `@` word never both start with their prefix:
/// a `#` word holds no `@` and an `@` word holds no `#`.
proof fn lemma_one_pending(s: Seq<char>)
    ensures
        !(trailing_word(s, '#').len() > 0 && trailing_word(s, '#')[0] == '#' && trailing_word(
            s,
            '@',
        ).len() > 0 && trailing_word(s, '@')[0] == '@'),
{
    let h = trailing_word(s, '#');
    let a = trailing_word(s, '@');
    lemma_trailing_word_is_suffix(s, '#');
    lemma_trailing_word_is_suffix(s, '@');
    lemma_trailing_word_has_no_separator(s, '#');
    lemma_trailing_word_has_no_separator(s, '@');
    if h.len() > 0 && h[0] == '#' && a.len() > 0 && a[0] == '@' {
        if h.len() >= a.len() {
            let k = h.len() - a.len();
            assert(h[k] == s[s.len() - a.len()]);
            assert(a[0] == s[s.len() - a.len()]);
            assert(is_separator(h[k], '#'));
        } else {
            let k = a.len() - h.len();
            assert(a[k] == s[s.len() - h.len()]);
            assert(h[0] == s[s.len() - h.len()]);
            assert(is_separator(a[k], '@'));
        }
    }
}

fn emit_pending(out: &mut String, first: Option<char>, second: Option<char>, rest: &String)
    requires
        first is None ==> rest@.len() == 0,
        second == (if rest@.len() > 0 { Some(rest@[0]) } else { None }),
    ensures
        final(out)@ == old(out)@ + render_pending(open_word(first, rest@)),
{
    match first {
        None => {
            assert(old(out)@ + render_pending(open_word(first, rest@)) =~= old(out)@);
        },
        Some(f) => {
            if f == '#' {
                emit_word(out, first, second, rest, '#', "tags.md");
            } else {
                emit_word(out, first, second, rest, '@', "mentions.md");
            }
        },
    }
}

/// `text` with each tag word and each mention word of `text` turned into a
/// link: `[#name](tags.md#name)` and `[@name](mentions.md#name)`. Both kinds
/// are found in `text` as given, so a link written for one kind never makes a
/// word of the other kind.
pub fn link_markers(text: &str) -> (r: String)
    ensures
        r@ == linked(text@),
{
    let mut out = String::new();
    let mut first: Option<char> = None;
    let mut second: Option<char> = None;
    let mut rest = String::new();
    let mut h_open = false;
    let mut h_hash = false;
    let mut a_open = false;
    let mut a_at = false;
    for c in it: text.chars()
        invariant
            it.seq() == text@,
            first is None ==> rest@.len() == 0,
            second == (if rest@.len() > 0 { Some(rest@[0]) } else { None }),
            h_open == (trailing_word(text@.take(it.index() as int), '#').len() > 0),
            h_hash == (h_open && trailing_word(text@.take(it.index() as int), '#')[0] == '#'),
            a_open == (trailing_word(text@.take(it.index() as int), '@').len() > 0),
            a_at == (a_open && trailing_word(text@.take(it.index() as int), '@')[0] == '@'),
            open_word(first, rest@) == pending(text@.take(it.index() as int)),
            out@ == settled(text@.take(it.index() as int)),
    {
        let ghost t = text@.take(it.index() as int);
        let ghost t2 = text@.take(it.index() + 1);
        assert(t2.drop_last() =~= t);
        assert(t2.last() == c);
        proof {
            lemma_one_pending(t);
        }
        let ghost p = pending(t);
        let h_sep = is_separator_char(c, '#');
        let a_sep = is_separator_char(c, '@');
        let continues = if !h_sep && (if h_open { h_hash } else { c == '#' }) {
            h_open
        } else if !a_sep && (if a_open { a_at } else { c == '@' }) {
            a_open
        } else {
            false
        };
        let starts = !continues && ((!h_sep && !h_open && c == '#') || (!a_sep && !a_open && c
            == '@'));
        h_hash = !h_sep && (if h_open { h_hash } else { c == '#' });
        h_open = !h_sep;
        a_at = !a_sep && (if a_open { a_at } else { c == '@' });
        a_open = !a_sep;
        if continues {
            match first {
                None => {
                    first = Some(c);
                },
                Some(_) => {
                    if second.is_none() {
                        second = Some(c);
                    }
                    push_char(&mut rest, c);
                },
            }
            assert(open_word(first, rest@) =~= p.push(c));
        } else {
            let had_pending = first.is_some();
            emit_pending(&mut out, first, second, &rest);
            rest = String::new();
            second = None;
            if starts {
                first = Some(c);
                assert(open_word(first, rest@) =~= seq![c]);
                assert(pending(t2) =~= seq![c]);
                if !had_pending {
                    assert(p.push(c) =~= seq![c]);
                    assert(out@ =~= settled(t2));
                } else {
                    assert(p.push(c).len() != seq![c].len());
                }
            } else {
                first = None;
                push_char(&mut out, c);
                assert(pending(t2).len() == 0);
                assert(p.push(c).len() > 0);
                assert(open_word(first, rest@) =~= pending(t2));
            }
        }
        assert(out@ =~= settled(t2));
    }
    assert(text@.take(text@.len() as int) =~= text@);
    emit_pending(&mut out, first, second, &rest);
    out
}

} // verus!
