use vstd::prelude::*;

use crate::index::{IndexEntry, IndexTable};

verus! {

/// One list line per page, `- [page](page)`, each ended by a newline.
pub open spec fn link_lines(pages: Seq<Seq<char>>) -> Seq<char>
    decreases pages.len(),
{
    if pages.len() == 0 {
        seq![]
    } else {
        link_lines(pages.drop_last()) + "- ["@ + pages.last() + "]("@ + pages.last() + ")\n"@
    }
}

/// The section of one entry: a second-level heading `prefix name`, then its pages.
/// An entry without pages gets an empty line in their place.
pub open spec fn section(prefix: Seq<char>, name: Seq<char>, pages: Seq<Seq<char>>) -> Seq<char> {
    "## "@ + prefix + name + "\n"@ + if pages.len() == 0 {
        "\n"@
    } else {
        link_lines(pages)
    }
}

/// The sections of all entries, in the table's order.
pub open spec fn sections(prefix: Seq<char>, es: Seq<(Seq<char>, Seq<Seq<char>>)>) -> Seq<char>
    decreases es.len(),
{
    if es.len() == 0 {
        seq![]
    } else {
        sections(prefix, es.drop_last()) + section(prefix, es.last().0, es.last().1)
    }
}

/// An index document: a top-level heading with the title, then one section per entry.
pub open spec fn index_text(
    title: Seq<char>,
    prefix: Seq<char>,
    es: Seq<(Seq<char>, Seq<Seq<char>>)>,
) -> Seq<char> {
    "# "@ + title + "\n\n"@ + sections(prefix, es)
}

fn append_section(out: &mut String, prefix: &str, entry: &IndexEntry)
    ensures
        final(out)@ == old(out)@ + section(prefix@, entry.name@, entry.pages.deep_view()),
{
    let ghost start = out@;
    out.append("## ");
    out.append(prefix);
    out.append(entry.name.as_str());
    out.append("\n");
    let ghost head = out@;
    if entry.pages.len() == 0 {
        out.append("\n");
    } else {
        let ghost all = entry.pages.deep_view();
        let n = entry.pages.len();
        let mut i: usize = 0;
        while i < n
            invariant
                n == entry.pages@.len(),
                all == entry.pages.deep_view(),
                0 <= i <= n,
                out@ == head + link_lines(all.take(i as int)),
            decreases n - i,
        {
            let page = entry.pages[i].as_str();
            assert(all.take(i + 1).drop_last() =~= all.take(i as int));
            out.append("- [");
            out.append(page);
            out.append("](");
            out.append(page);
            out.append(")\n");
            i = i + 1;
        }
        assert(all.take(n as int) =~= all);
    }
    assert(out@ =~= start + section(prefix@, entry.name@, entry.pages.deep_view()));
}

/// Renders `index` as a document titled `title`, each entry headed by `prefix`
/// and its name and followed by a `- [page](page)` line per recorded page.
pub fn generate_index(title: &str, prefix: &str, index: &IndexTable) -> (r: String)
    ensures
        r@ == index_text(title@, prefix@, index@),
{
    let entries = index.entries();
    let ghost es = index@;
    let mut out = String::new();
    out.append("# ");
    out.append(title);
    out.append("\n\n");
    let ghost head = out@;
    let n = entries.len();
    let mut i: usize = 0;
    while i < n
        invariant
            n == entries@.len(),
            entries@.map_values(|e: IndexEntry| e@) == es,
            0 <= i <= n,
            out@ == head + sections(prefix@, es.take(i as int)),
        decreases n - i,
    {
        assert(es.take(i + 1).drop_last() =~= es.take(i as int));
        assert(es[i as int] == entries@[i as int]@);
        append_section(&mut out, prefix, &entries[i]);
        i = i + 1;
    }
    assert(es.take(n as int) =~= es);
    assert(out@ =~= index_text(title@, prefix@, es));
    out
}

} // verus!
