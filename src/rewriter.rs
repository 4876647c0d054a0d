use vstd::prelude::*;

use crate::chars::push_char;
use crate::tokenizer::{
    closed_names, is_marker_start, is_marker_word, is_separator, is_separator_char,
    lemma_closed_word, lemma_names_concat, lemma_no_prefix_no_names, lemma_single_word,
    lemma_trailing_word_has_no_separator,
    marker_names, open_word, trailing_word, word_names,
};

verus! {

/// A word as it stands after rewriting: a marker `prefix name` becomes the link
/// `[prefix name](index_path#name)`; any other word is kept.
pub open spec fn render_word(w: Seq<char>, prefix: char, index_path: Seq<char>) -> Seq<char> {
    if is_marker_word(w, prefix) {
        "["@ + w + "]("@ + index_path + "#"@ + w.drop_first() + ")"@
    } else {
        w
    }
}

/// Rewritten form of the words of `s` that a separator has already closed,
/// separators kept in place.
pub open spec fn closed_text(s: Seq<char>, prefix: char, index_path: Seq<char>) -> Seq<char>
    decreases s.len(),
{
    if s.len() == 0 {
        seq![]
    } else if is_separator(s.last(), prefix) {
        closed_text(s.drop_last(), prefix, index_path) + render_word(
            trailing_word(s.drop_last(), prefix),
            prefix,
            index_path,
        ) + seq![s.last()]
    } else {
        closed_text(s.drop_last(), prefix, index_path)
    }
}

/// `s` with every marker word for `prefix` turned into a link to `index_path`.
pub open spec fn rewritten(s: Seq<char>, prefix: char, index_path: Seq<char>) -> Seq<char> {
    closed_text(s, prefix, index_path) + render_word(trailing_word(s, prefix), prefix, index_path)
}

/// The two kinds of link the indexer writes: tags to `tags.md`, mentions to
/// `mentions.md`.
pub open spec fn is_index_link(prefix: char, index_path: Seq<char>) -> bool {
    (prefix == '#' && index_path == "tags.md"@) || (prefix == '@' && index_path == "mentions.md"@)
}

/// A link shows its marker and no other, and ends at a word boundary.
proof fn lemma_link_names(w: Seq<char>, prefix: char, index_path: Seq<char>)
    requires
        is_index_link(prefix, index_path),
        is_marker_word(w, prefix),
        forall|k: int| 0 <= k < w.len() ==> !is_separator(#[trigger] w[k], prefix),
    ensures
        marker_names(render_word(w, prefix, index_path), prefix) == word_names(w, prefix),
        trailing_word(render_word(w, prefix, index_path), prefix) == Seq::<char>::empty(),
{
    reveal_strlit("[");
    reveal_strlit("](");
    reveal_strlit("#");
    reveal_strlit(")");
    reveal_strlit("tags.md");
    reveal_strlit("mentions.md");
    let name = w.drop_first();
    assert forall|k: int| 0 <= k < name.len() implies !is_separator(#[trigger] name[k], prefix) by {
        assert(name[k] == w[k + 1]);
    }
    let e = Seq::<char>::empty();
    let a = e.push('[');
    let b = w.push(']');
    lemma_closed_word(e, '[', prefix);
    lemma_closed_word(w, ']', prefix);
    lemma_names_concat(a, b, prefix);
    let c = if prefix == '#' {
        seq!['(', 't', 'a', 'g', 's', '.']
    } else {
        seq!['(', 'm', 'e', 'n', 't', 'i', 'o', 'n', 's', '.']
    };
    lemma_no_prefix_no_names(c, prefix);
    assert(c.drop_last().push(c.last()) =~= c);
    assert(trailing_word(c, prefix) == e);
    lemma_names_concat(a + b, c, prefix);
    let md = seq!['m', 'd', '#'];
    if prefix == '#' {
        let x = md + name;
        assert forall|k: int| 0 <= k < x.len() implies !is_separator(#[trigger] x[k], prefix) by {
            if k >= 3 {
                assert(x[k] == name[k - 3]);
            }
        }
        lemma_closed_word(x, ')', prefix);
        assert(word_names(x, prefix) =~= Seq::<Seq<char>>::empty());
        lemma_names_concat(a + b + c, x.push(')'), prefix);
        assert(render_word(w, prefix, index_path) =~= a + b + c + x.push(')'));
    } else {
        lemma_no_prefix_no_names(md, prefix);
        assert(md.drop_last().push(md.last()) =~= md);
        assert(trailing_word(md, prefix) == e);
        lemma_names_concat(a + b + c, md, prefix);
        lemma_closed_word(name, ')', prefix);
        assert(word_names(name, prefix) =~= Seq::<Seq<char>>::empty());
        lemma_names_concat(a + b + c + md, name.push(')'), prefix);
        assert(render_word(w, prefix, index_path) =~= a + b + c + md + name.push(')'));
    }
    assert(word_names(e, prefix) =~= Seq::<Seq<char>>::empty());
    assert(marker_names(render_word(w, prefix, index_path), prefix) =~= word_names(w, prefix));
}

/// A word without separators names the same markers once rewritten.
proof fn lemma_rendered_word_names(w: Seq<char>, sep: char, prefix: char, index_path: Seq<char>)
    requires
        is_index_link(prefix, index_path),
        is_separator(sep, prefix),
        forall|k: int| 0 <= k < w.len() ==> !is_separator(#[trigger] w[k], prefix),
    ensures
        marker_names(render_word(w, prefix, index_path), prefix) == word_names(w, prefix),
        marker_names(render_word(w, prefix, index_path).push(sep), prefix) == word_names(w, prefix),
        trailing_word(render_word(w, prefix, index_path).push(sep), prefix) == Seq::<char>::empty(),
{
    let e = Seq::<char>::empty();
    if is_marker_word(w, prefix) {
        lemma_link_names(w, prefix, index_path);
        lemma_closed_word(e, sep, prefix);
        lemma_names_concat(render_word(w, prefix, index_path), e.push(sep), prefix);
        assert(render_word(w, prefix, index_path) + e.push(sep) =~= render_word(
            w,
            prefix,
            index_path,
        ).push(sep));
        assert(word_names(e, prefix) =~= Seq::<Seq<char>>::empty());
        assert(word_names(w, prefix) + Seq::<Seq<char>>::empty() =~= word_names(w, prefix));
    } else {
        lemma_single_word(w, prefix);
        lemma_closed_word(w, sep, prefix);
    }
}

/// The closed part of a rewritten text names the closed words' markers and is
/// no shorter than the text it stands for; longer if it holds a link.
proof fn lemma_closed_text_names(s: Seq<char>, prefix: char, index_path: Seq<char>)
    requires
        is_index_link(prefix, index_path),
    ensures
        marker_names(closed_text(s, prefix, index_path), prefix) == closed_names(s, prefix),
        trailing_word(closed_text(s, prefix, index_path), prefix) == Seq::<char>::empty(),
        closed_text(s, prefix, index_path).len() >= s.len() - trailing_word(s, prefix).len(),
        closed_names(s, prefix).len() > 0 ==> closed_text(s, prefix, index_path).len() > s.len()
            - trailing_word(s, prefix).len(),
    decreases s.len(),
{
    if s.len() > 0 {
        let p = s.drop_last();
        lemma_closed_text_names(p, prefix, index_path);
        if is_separator(s.last(), prefix) {
            let w = trailing_word(p, prefix);
            lemma_trailing_word_has_no_separator(p, prefix);
            lemma_rendered_word_names(w, s.last(), prefix, index_path);
            let t = closed_text(p, prefix, index_path);
            let r = render_word(w, prefix, index_path).push(s.last());
            lemma_names_concat(t, r, prefix);
            assert(closed_text(s, prefix, index_path) =~= t + r);
            lemma_render_len(w, prefix, index_path);
        }
    } else {
        assert(marker_names(Seq::<char>::empty(), prefix) =~= Seq::<Seq<char>>::empty());
    }
}

/// A rewritten word is no shorter than the word; a link is longer.
proof fn lemma_render_len(w: Seq<char>, prefix: char, index_path: Seq<char>)
    ensures
        render_word(w, prefix, index_path).len() >= w.len(),
        is_marker_word(w, prefix) ==> render_word(w, prefix, index_path).len() > w.len(),
{
    reveal_strlit("[");
}

/// Rewriting is not idempotent. A text that holds a marker holds the same
/// markers once they are links, since each link shows its marker; rewriting
/// it again therefore wraps each link once more and changes the text.
pub proof fn lemma_rewrite_not_idempotent(s: Seq<char>, prefix: char, index_path: Seq<char>)
    requires
        is_index_link(prefix, index_path),
        marker_names(s, prefix).len() > 0,
    ensures
        marker_names(rewritten(s, prefix, index_path), prefix) == marker_names(s, prefix),
        rewritten(rewritten(s, prefix, index_path), prefix, index_path) != rewritten(
            s,
            prefix,
            index_path,
        ),
{
    lemma_rewrite_keeps_names(s, prefix, index_path);
    let t = rewritten(s, prefix, index_path);
    lemma_rewrite_keeps_names(t, prefix, index_path);
}

/// Rewriting keeps the markers of a text and never shortens it.
proof fn lemma_rewrite_keeps_names(s: Seq<char>, prefix: char, index_path: Seq<char>)
    requires
        is_index_link(prefix, index_path),
    ensures
        marker_names(rewritten(s, prefix, index_path), prefix) == marker_names(s, prefix),
        rewritten(s, prefix, index_path).len() >= s.len(),
        marker_names(s, prefix).len() > 0 ==> rewritten(s, prefix, index_path).len() > s.len(),
{
    let w = trailing_word(s, prefix);
    lemma_closed_text_names(s, prefix, index_path);
    lemma_trailing_word_has_no_separator(s, prefix);
    lemma_rendered_word_names(w, ' ', prefix, index_path);
    lemma_names_concat(closed_text(s, prefix, index_path), render_word(w, prefix, index_path), prefix);
    lemma_render_len(w, prefix, index_path);
    if closed_names(s, prefix).len() == 0 {
        assert(marker_names(s, prefix) =~= word_names(w, prefix));
    }
}

/// Appends the open word held as `first` and `rest`, rewritten.
pub(crate) fn emit_word(
    out: &mut String,
    first: Option<char>,
    second: Option<char>,
    rest: &String,
    prefix: char,
    index_path: &str,
)
    requires
        first is None ==> rest@.len() == 0,
        second == (if rest@.len() > 0 { Some(rest@[0]) } else { None }),
    ensures
        final(out)@ == old(out)@ + render_word(open_word(first, rest@), prefix, index_path@),
{
    let ghost w = open_word(first, rest@);
    if is_marker_start(first, second, prefix) {
        assert(w.drop_first() =~= rest@);
        out.append("[");
        push_char(out, prefix);
        out.append(rest.as_str());
        out.append("](");
        out.append(index_path);
        out.append("#");
        out.append(rest.as_str());
        out.append(")");
        assert(final(out)@ =~= old(out)@ + render_word(w, prefix, index_path@));
    } else {
        if let Some(f) = first {
            push_char(out, f);
        }
        out.append(rest.as_str());
        assert(final(out)@ =~= old(out)@ + render_word(w, prefix, index_path@));
    }
}

/// `text` with each marker word for `prefix` replaced by a link
/// `[prefix name](index_path#name)`. Only whole words are replaced, so a marker
/// whose name begins with another marker's name is left intact.
pub fn rewrite_markers(text: &str, prefix: char, index_path: &str) -> (r: String)
    ensures
        r@ == rewritten(text@, prefix, index_path@),
{
    let mut out = String::new();
    let mut first: Option<char> = None;
    let mut second: Option<char> = None;
    let mut rest = String::new();
    for c in it: text.chars()
        invariant
            it.seq() == text@,
            first is None ==> rest@.len() == 0,
            second == (if rest@.len() > 0 { Some(rest@[0]) } else { None }),
            open_word(first, rest@) == trailing_word(text@.take(it.index() as int), prefix),
            out@ == closed_text(text@.take(it.index() as int), prefix, index_path@),
    {
        let ghost before = text@.take(it.index() as int);
        assert(text@.take(it.index() + 1).drop_last() =~= before);
        if is_separator_char(c, prefix) {
            emit_word(&mut out, first, second, &rest, prefix, index_path);
            push_char(&mut out, c);
            first = None;
            second = None;
            rest = String::new();
        } else {
            match first {
                None => {
                    first = Some(c);
                },
                Some(_) => {
                    if second.is_none() {
                        second = Some(c);
                    }
                    push_char(&mut rest, c);
                },
            }
            assert(open_word(first, rest@) =~= trailing_word(before, prefix).push(c));
        }
    }
    assert(text@.take(text@.len() as int) =~= text@);
    emit_word(&mut out, first, second, &rest, prefix, index_path);
    out
}

} // verus!
