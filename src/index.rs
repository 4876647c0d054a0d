use vstd::prelude::*;

verus! {

/// One marker's entry: its name and the identifiers of the documents in which
/// it occurs, once per occurrence, in order of discovery.
pub struct IndexEntry {
    pub name: String,
    pub pages: Vec<String>,
}

impl View for IndexEntry {
    type V = (Seq<char>, Seq<Seq<char>>);

    open spec fn view(&self) -> (Seq<char>, Seq<Seq<char>>) {
        (self.name@, self.pages.deep_view())
    }
}

/// Mapping from marker name to document identifiers, entries in the order in
/// which their names were first added.
pub struct IndexTable {
    entries: Vec<IndexEntry>,
}

/// Entries are keyed by name: each name at most once, each with a page.
pub open spec fn entries_wf(es: Seq<(Seq<char>, Seq<Seq<char>>)>) -> bool {
    &&& forall|i: int, j: int|
        0 <= i < es.len() && 0 <= j < es.len() && i != j ==> #[trigger] es[i].0 != #[trigger] es[j].0
    &&& forall|i: int| 0 <= i < es.len() ==> (#[trigger] es[i]).1.len() > 0
}

pub open spec fn has_name(es: Seq<(Seq<char>, Seq<Seq<char>>)>, name: Seq<char>) -> bool {
    exists|j: int| 0 <= j < es.len() && (#[trigger] es[j]).0 == name
}

/// The pages recorded for `name`; empty when the name has no entry.
pub open spec fn pages_of(es: Seq<(Seq<char>, Seq<Seq<char>>)>, name: Seq<char>) -> Seq<
    Seq<char>,
> {
    if has_name(es, name) {
        es[choose|j: int| 0 <= j < es.len() && (#[trigger] es[j]).0 == name].1
    } else {
        seq![]
    }
}

/// `es` with `page` appended to the entry of `name`, which is created at the
/// end when absent.
pub open spec fn add_page(
    es: Seq<(Seq<char>, Seq<Seq<char>>)>,
    name: Seq<char>,
    page: Seq<char>,
) -> Seq<(Seq<char>, Seq<Seq<char>>)> {
    if has_name(es, name) {
        let j = choose|j: int| 0 <= j < es.len() && (#[trigger] es[j]).0 == name;
        es.update(j, (name, es[j].1.push(page)))
    } else {
        es.push((name, seq![page]))
    }
}

/// `es` with `page` added for each of `names` in turn.
pub open spec fn add_pages(
    es: Seq<(Seq<char>, Seq<Seq<char>>)>,
    names: Seq<Seq<char>>,
    page: Seq<char>,
) -> Seq<(Seq<char>, Seq<Seq<char>>)>
    decreases names.len(),
{
    if names.len() == 0 {
        es
    } else {
        add_page(add_pages(es, names.drop_last(), page), names.last(), page)
    }
}

impl View for IndexTable {
    type V = Seq<(Seq<char>, Seq<Seq<char>>)>;

    closed spec fn view(&self) -> Seq<(Seq<char>, Seq<Seq<char>>)> {
        self.entries@.map_values(|e: IndexEntry| e@)
    }
}

/// Adding a page keeps names unique and every entry with a page.
pub proof fn lemma_add_page_wf(es: Seq<(Seq<char>, Seq<Seq<char>>)>, name: Seq<char>, page: Seq<char>)
    requires
        entries_wf(es),
    ensures
        entries_wf(add_page(es, name, page)),
{
}

/// Adding pages keeps names unique and every entry with a page.
pub proof fn lemma_add_pages_wf(
    es: Seq<(Seq<char>, Seq<Seq<char>>)>,
    names: Seq<Seq<char>>,
    page: Seq<char>,
)
    requires
        entries_wf(es),
    ensures
        entries_wf(add_pages(es, names, page)),
    decreases names.len(),
{
    if names.len() > 0 {
        lemma_add_pages_wf(es, names.drop_last(), page);
        lemma_add_page_wf(add_pages(es, names.drop_last(), page), names.last(), page);
    }
}

/// How many times `name` occurs in `names`.
pub open spec fn occurrences(names: Seq<Seq<char>>, name: Seq<char>) -> nat
    decreases names.len(),
{
    if names.len() == 0 {
        0
    } else {
        occurrences(names.drop_last(), name) + if names.last() == name {
            1nat
        } else {
            0nat
        }
    }
}

/// Adding a page for one name changes that name's pages only.
proof fn lemma_pages_of_add_page(
    es: Seq<(Seq<char>, Seq<Seq<char>>)>,
    n: Seq<char>,
    page: Seq<char>,
    name: Seq<char>,
)
    requires
        entries_wf(es),
    ensures
        pages_of(add_page(es, n, page), name) == if n == name {
            pages_of(es, name).push(page)
        } else {
            pages_of(es, name)
        },
{
    let r = add_page(es, n, page);
    lemma_add_page_wf(es, n, page);
    assert(r.len() >= es.len());
    assert forall|k: int| 0 <= k < es.len() implies #[trigger] r[k].0 == es[k].0 by {}
    if has_name(es, name) {
        let j = choose|j: int| 0 <= j < es.len() && (#[trigger] es[j]).0 == name;
        assert(r[j].0 == name);
        let j2 = choose|j: int| 0 <= j < r.len() && (#[trigger] r[j]).0 == name;
        assert(j2 == j);
    } else if n == name {
        let j = if has_name(es, n) {
            choose|j: int| 0 <= j < es.len() && (#[trigger] es[j]).0 == n
        } else {
            es.len() as int
        };
        assert(r[j].0 == name);
        let j2 = choose|j: int| 0 <= j < r.len() && (#[trigger] r[j]).0 == name;
        assert(j2 == j);
        assert(seq![page] =~= Seq::<Seq<char>>::empty().push(page));
    } else {
        assert(!has_name(r, name));
    }
}

/// Adding a sequence of names records the page under each name exactly as
/// many times as that name occurs in the sequence, after the pages it had.
pub proof fn lemma_pages_follow_occurrences(
    es: Seq<(Seq<char>, Seq<Seq<char>>)>,
    names: Seq<Seq<char>>,
    page: Seq<char>,
    name: Seq<char>,
)
    requires
        entries_wf(es),
    ensures
        pages_of(add_pages(es, names, page), name) == pages_of(es, name) + Seq::new(
            occurrences(names, name),
            |_i: int| page,
        ),
    decreases names.len(),
{
    if names.len() == 0 {
        assert(pages_of(es, name) + Seq::new(0, |_i: int| page) =~= pages_of(es, name));
    } else {
        let prev = add_pages(es, names.drop_last(), page);
        lemma_pages_follow_occurrences(es, names.drop_last(), page, name);
        lemma_add_pages_wf(es, names.drop_last(), page);
        lemma_pages_of_add_page(prev, names.last(), page, name);
        let c = occurrences(names.drop_last(), name);
        if names.last() == name {
            assert(pages_of(es, name) + Seq::new(c, |_i: int| page) + seq![page] =~= pages_of(
                es,
                name,
            ) + Seq::new(c + 1, |_i: int| page));
        }
    }
}

impl IndexTable {
    /// Names are unique and each entry has a page.
    pub open spec fn wf(&self) -> bool {
        entries_wf(self@)
    }

    /// An empty table.
    pub fn new() -> (r: IndexTable)
        ensures
            r@ == Seq::<(Seq<char>, Seq<Seq<char>>)>::empty(),
            r.wf(),
    {
        let r = IndexTable { entries: Vec::new() };
        assert(r@ =~= Seq::<(Seq<char>, Seq<Seq<char>>)>::empty());
        r
    }

    /// The entries, in the order in which their names were first added.
    pub fn entries(&self) -> (r: &Vec<IndexEntry>)
        ensures
            r@.map_values(|e: IndexEntry| e@) == self@,
    {
        &self.entries
    }

    /// Number of distinct names.
    pub fn len(&self) -> (r: usize)
        ensures
            r == self@.len(),
    {
        self.entries.len()
    }

    /// Records one occurrence of `name` in the document `page`.
    pub fn add(&mut self, name: String, page: &String)
        requires
            old(self).wf(),
        ensures
            final(self).wf(),
            final(self)@ == add_page(old(self)@, name@, page@),
    {
        proof {
            lemma_add_page_wf(self@, name@, page@);
        }
        let n = self.entries.len();
        let mut j: usize = 0;
        while j < n
            invariant
                n == self.entries@.len(),
                self@ == old(self)@,
                entries_wf(self@),
                0 <= j <= n,
                forall|k: int| 0 <= k < j ==> (#[trigger] self@[k]).0 != name@,
            decreases n - j,
        {
            if self.entries[j].name == name {
                let ghost es = self@;
                assert(es[j as int] == self.entries@[j as int]@);
                assert(es[j as int].0 == name@);
                proof {
                    let c = choose|c: int| 0 <= c < es.len() && (#[trigger] es[c]).0 == name@;
                    assert(c == j);
                }
                let ghost before = self.entries@;
                let copy = page.clone();
                self.entries[j].pages.push(copy);
                assert(self.entries@[j as int].pages.deep_view() =~= before[j as int].pages.deep_view().push(page@));
                assert(self.entries@ == before.update(j as int, self.entries@[j as int]));
                assert(self@ =~= add_page(es, name@, page@));
                return;
            }
            j = j + 1;
        }
        let ghost es = self@;
        let mut pages: Vec<String> = Vec::new();
        pages.push(page.clone());
        self.entries.push(IndexEntry { name, pages });
        assert(pages.deep_view() =~= seq![page@]);
        assert(self@ =~= add_page(es, name@, page@));
    }

    /// Records one occurrence in `page` for each of `names`, in order.
    pub fn add_all(&mut self, names: Vec<String>, page: &String)
        requires
            old(self).wf(),
        ensures
            final(self).wf(),
            final(self)@ == add_pages(old(self)@, names.deep_view(), page@),
    {
        let ghost start = self@;
        let ghost all = names.deep_view();
        let mut i: usize = 0;
        for name in it: names
            invariant
                it.seq() == names@,
                self.wf(),
                self@ == add_pages(start, all.take(it.index() as int), page@),
                all == names.deep_view(),
        {
            let ghost k = it.index() as int;
            assert(all.take(k + 1).drop_last() =~= all.take(k));
            assert(name@ == all[k]);
            self.add(name, page);
        }
        assert(all.take(all.len() as int) =~= all);
    }

    /// The identifiers recorded for `name`, in order; empty when it has no entry.
    pub fn pages(&self, name: &String) -> (r: Vec<String>)
        requires
            self.wf(),
        ensures
            r.deep_view() == pages_of(self@, name@),
    {
        let n = self.entries.len();
        let mut j: usize = 0;
        while j < n
            invariant
                n == self.entries@.len(),
                entries_wf(self@),
                0 <= j <= n,
                forall|k: int| 0 <= k < j ==> (#[trigger] self@[k]).0 != name@,
            decreases n - j,
        {
            if self.entries[j].name == *name {
                let ghost es = self@;
                assert(es[j as int] == self.entries@[j as int]@);
                assert(es[j as int].0 == name@);
                proof {
                    let c = choose|c: int| 0 <= c < es.len() && (#[trigger] es[c]).0 == name@;
                    assert(c == j);
                }
                return self.entries[j].pages.clone();
            }
            j = j + 1;
        }
        Vec::new()
    }
}

} // verus!
