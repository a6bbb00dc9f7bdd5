//! Markdown index documents (`_index.md`): one entry per `## ` heading, with the
//! wikilinks and the `- summary:` line that follow it.
use vstd::prelude::*;
use crate::text::{
    chars_of, line_ranges, lines, starts_with, starts_with_in, string_of_range, trim, trim_bounds,
};
use crate::vault::wikilinks::{
    extract_wikilinks, links_view, opt_view, wikilinks, LinkView, WikiLink,
};

verus! {

/// A parsed index document.
#[derive(Debug, Clone, PartialEq, Eq)]
pub struct IndexDocument {
    pub path: String,
    pub entries: Vec<IndexEntry>,
}

/// One entry of an index: a heading, the links listed under it and its summary.
#[derive(Debug, Clone, PartialEq, Eq)]
pub struct IndexEntry {
    pub title: String,
    pub links: Vec<WikiLink>,
    pub summary: Option<String>,
}

/// The abstract value of an entry: title, links and summary.
pub type EntryView = (Seq<char>, Seq<LinkView>, Option<Seq<char>>);

impl View for IndexEntry {
    type V = EntryView;

    open spec fn view(&self) -> EntryView {
        (self.title@, links_view(self.links@), opt_view(self.summary))
    }
}

/// The views of a sequence of entries.
pub open spec fn entries_view(v: Seq<IndexEntry>) -> Seq<EntryView> {
    v.map_values(|e: IndexEntry| e@)
}

/// `## `
pub open spec fn heading_marker() -> Seq<char> {
    seq!['#', '#', ' ']
}

/// `- summary:`
pub open spec fn summary_marker() -> Seq<char> {
    seq!['-', ' ', 's', 'u', 'm', 'm', 'a', 'r', 'y', ':']
}

/// The title of a heading line `## title`, trimmed.
pub open spec fn heading_title(line: Seq<char>) -> Option<Seq<char>> {
    if starts_with(line, heading_marker()) {
        Some(trim(line.skip(3)))
    } else {
        None
    }
}

/// The summary of a line that reads `- summary: text` once trimmed.
pub open spec fn summary_of(line: Seq<char>) -> Option<Seq<char>> {
    if starts_with(trim(line), summary_marker()) {
        Some(trim(trim(line).skip(10)))
    } else {
        None
    }
}

/// The entries closed so far and the entry still open after the first `n` lines.
pub open spec fn index_state(ls: Seq<Seq<char>>, n: int) -> (Seq<EntryView>, Option<EntryView>)
    decreases n,
{
    if n <= 0 {
        (seq![], None)
    } else {
        let (done, cur) = index_state(ls, n - 1);
        let line = ls[n - 1];
        match heading_title(line) {
            Some(t) => (
                match cur {
                    Some(e) => done.push(e),
                    None => done,
                },
                Some((t, seq![], None)),
            ),
            None => match cur {
                Some(e) => (
                    done,
                    Some(
                        (
                            e.0,
                            e.1 + wikilinks(line),
                            match summary_of(line) {
                                Some(x) => Some(x),
                                None => e.2,
                            },
                        ),
                    ),
                ),
                None => (done, None),
            },
        }
    }
}

/// The entries of an index document: text before the first heading is ignored,
/// and a later `- summary:` line replaces an earlier one.
pub open spec fn index_entries(raw: Seq<char>) -> Seq<EntryView> {
    let ls = lines(raw);
    let (done, cur) = index_state(ls, ls.len() as int);
    match cur {
        Some(e) => done.push(e),
        None => done,
    }
}

/// Parses an index document; parsing always succeeds.
pub fn parse_index_document(path: &str, raw: &str) -> (r: Result<IndexDocument, String>)
    ensures
        r is Ok,
        r matches Ok(doc) ==> doc.path@ == path@ && entries_view(doc.entries@) == index_entries(
            raw@,
        ),
{
    let v = chars_of(raw);
    let ranges = line_ranges(&v);
    let heading: Vec<char> = vec!['#', '#', ' '];
    let summary: Vec<char> = vec!['-', ' ', 's', 'u', 'm', 'm', 'a', 'r', 'y', ':'];
    let mut entries: Vec<IndexEntry> = Vec::new();
    let mut current: Option<IndexEntry> = None;
    let mut i: usize = 0;
    while i < ranges.len()
        invariant
            i <= ranges.len(),
            v@ == raw@,
            ranges@.len() == lines(v@).len(),
            forall|k: int| 0 <= k < ranges@.len() ==> (#[trigger] ranges@[k]).0 <= ranges@[k].1 <= v@.len(),
            forall|k: int|
                0 <= k < ranges@.len() ==> #[trigger] lines(v@)[k] == v@.subrange(
                    ranges@[k].0 as int,
                    ranges@[k].1 as int,
                ),
            heading@ == heading_marker(),
            summary@ == summary_marker(),
            index_state(lines(v@), i as int) == (
                entries_view(entries@),
                match current {
                    Some(e) => Some(e@),
                    None => None,
                },
            ),
        decreases ranges.len() - i,
    {
        let (lo, hi) = ranges[i];
        let ghost line = lines(v@)[i as int];
        assert(line == v@.subrange(lo as int, hi as int));
        let ghost before = entries@;
        if starts_with_in(&v, lo, hi, &heading) {
            let (a, b) = trim_bounds(&v, lo + 3, hi);
            assert(line.skip(3) =~= v@.subrange(lo + 3, hi as int));
            let title = string_of_range(&v, a, b);
            match current {
                Some(e) => {
                    entries.push(e);
                    assert(entries_view(entries@) =~= entries_view(before).push(e@));
                },
                None => {},
            }
            current = Some(IndexEntry { title, links: Vec::new(), summary: None });
            assert(links_view(Seq::<WikiLink>::empty()) =~= seq![]);
        } else {
            match current {
                Some(mut e) => {
                    let text = string_of_range(&v, lo, hi);
                    let found = extract_wikilinks(text.as_str());
                    let ghost old_links = e.links@;
                    let mut found = found;
                    e.links.append(&mut found);
                    assert(links_view(e.links@) =~= links_view(old_links) + wikilinks(line));
                    let (a, b) = trim_bounds(&v, lo, hi);
                    if starts_with_in(&v, a, b, &summary) {
                        let (c, d) = trim_bounds(&v, a + 10, b);
                        assert(trim(line).skip(10) =~= v@.subrange(a + 10, b as int));
                        e.summary = Some(string_of_range(&v, c, d));
                    }
                    current = Some(e);
                },
                None => {},
            }
        }
        i = i + 1;
    }
    match current {
        Some(e) => {
            let ghost before = entries@;
            entries.push(e);
            assert(entries_view(entries@) =~= entries_view(before).push(e@));
        },
        None => {},
    }
    let p = string_of_range(&chars_of(path), 0, chars_of(path).len());
    Ok(IndexDocument { path: p, entries })
}

} // verus!
