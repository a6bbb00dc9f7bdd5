//! Obsidian wikilinks: `[[target]]` and `[[target|alias]]`.
use vstd::prelude::*;
use crate::text::{
    chars_of, find_from, find_from_exec, lemma_find_from, occurs_at, string_of_range, trim,
    trim_bounds,
};

verus! {

/// A link to another note, with an optional display alias.
#[derive(Debug, Clone, PartialEq, Eq)]
pub struct WikiLink {
    pub target: String,
    pub alias: Option<String>,
}

/// The abstract value of a link: its target and its alias, as character sequences.
pub type LinkView = (Seq<char>, Option<Seq<char>>);

/// Maps an optional string to its view.
pub open spec fn opt_view(o: Option<String>) -> Option<Seq<char>> {
    match o {
        Some(s) => Some(s@),
        None => None,
    }
}

impl View for WikiLink {
    type V = LinkView;

    open spec fn view(&self) -> LinkView {
        (self.target@, opt_view(self.alias))
    }
}

/// The views of a sequence of links.
pub open spec fn links_view(v: Seq<WikiLink>) -> Seq<LinkView> {
    v.map_values(|l: WikiLink| l@)
}

/// The link written between `[[` and `]]`: the part before the first `|` is the
/// target, the part after it the alias; both are trimmed, an empty alias is no
/// alias, and an empty target is no link at all.
pub open spec fn link_of(inner: Seq<char>) -> Option<LinkView> {
    let (t, a) = match find_from(inner, seq!['|'], 0) {
        Some(k) => (inner.take(k), Some(inner.skip(k + 1))),
        None => (inner, None),
    };
    let target = trim(t);
    let alias = match a {
        Some(x) => if trim(x).len() > 0 {
            Some(trim(x))
        } else {
            None
        },
        None => None,
    };
    if target.len() > 0 {
        Some((target, alias))
    } else {
        None
    }
}

/// The links of `s` from position `pos` on: each `[[` is matched with the next
/// `]]`, and scanning goes on after that `]]`.
pub open spec fn wikilinks_from(s: Seq<char>, pos: int) -> Seq<LinkView>
    decreases s.len() - pos,
{
    if pos < 0 || pos > s.len() {
        seq![]
    } else {
        match find_from(s, seq!['[', '['], pos) {
            None => seq![],
            Some(start) => match find_from(s, seq![']', ']'], start + 2) {
                None => seq![],
                Some(end) => if pos <= start && start + 2 <= end && end + 2 <= s.len() {
                    let rest = wikilinks_from(s, end + 2);
                    match link_of(s.subrange(start + 2, end)) {
                        Some(l) => seq![l] + rest,
                        None => rest,
                    }
                } else {
                    seq![]
                },
            },
        }
    }
}

/// All the links of a Markdown text, in order.
pub open spec fn wikilinks(s: Seq<char>) -> Seq<LinkView> {
    wikilinks_from(s, 0)
}

/// The first position in `v[lo..hi]` holding `c`, relative to `lo`, as `find_from` sees it.
pub fn find_char_in(v: &Vec<char>, c: char, lo: usize, hi: usize) -> (r: Option<usize>)
    requires
        lo <= hi <= v.len(),
    ensures
        match r {
            Some(k) => lo <= k < hi && v@[k as int] == c && find_from(
                v@.subrange(lo as int, hi as int),
                seq![c],
                0,
            ) == Some(k - lo),
            None => find_from(v@.subrange(lo as int, hi as int), seq![c], 0) is None,
        },
{
    let ghost sub = v@.subrange(lo as int, hi as int);
    let mut j: usize = lo;
    while j < hi
        invariant
            lo <= j <= hi <= v.len(),
            sub == v@.subrange(lo as int, hi as int),
            find_from(sub, seq![c], 0) == find_from(sub, seq![c], j - lo),
        decreases hi - j,
    {
        let ghost jj = j - lo;
        assert(occurs_at(sub, seq![c], jj) == (v@[j as int] == c)) by {
            if v@[j as int] == c {
                assert(sub.subrange(jj, jj + 1) =~= seq![c]);
            } else {
                assert(sub.subrange(jj, jj + 1)[0] == v@[j as int]);
            }
        }
        if v[j] == c {
            return Some(j);
        }
        j = j + 1;
    }
    None
}

/// The link written in `v[lo..hi]`, if any (see `link_of`).
fn link_in(v: &Vec<char>, lo: usize, hi: usize) -> (r: Option<WikiLink>)
    requires
        lo <= hi <= v.len(),
    ensures
        match r {
            Some(l) => link_of(v@.subrange(lo as int, hi as int)) == Some(l@),
            None => link_of(v@.subrange(lo as int, hi as int)) is None,
        },
{
    let ghost inner = v@.subrange(lo as int, hi as int);
    let bar = find_char_in(v, '|', lo, hi);
    let t_end: usize = match bar {
        Some(k) => k,
        None => hi,
    };
    let (ta, tb) = trim_bounds(v, lo, t_end);
    proof {
        match bar {
            Some(k) => {
                assert(inner.take(k - lo) =~= v@.subrange(lo as int, k as int));
            },
            None => {
                assert(inner =~= v@.subrange(lo as int, t_end as int));
            },
        }
    }
    if ta == tb {
        return None;
    }
    let target = string_of_range(v, ta, tb);
    let alias = match bar {
        Some(k) => {
            let (aa, ab) = trim_bounds(v, k + 1, hi);
            assert(inner.skip(k + 1 - lo) =~= v@.subrange(k + 1, hi as int));
            if aa == ab {
                None
            } else {
                Some(string_of_range(v, aa, ab))
            }
        },
        None => None,
    };
    Some(WikiLink { target, alias })
}

/// Extracts the wikilinks of a Markdown text, in order of appearance.
pub fn extract_wikilinks(markdown: &str) -> (r: Vec<WikiLink>)
    ensures
        links_view(r@) == wikilinks(markdown@),
{
    let v = chars_of(markdown);
    let open: Vec<char> = vec!['[', '['];
    let close: Vec<char> = vec![']', ']'];
    let mut links: Vec<WikiLink> = Vec::new();
    let mut pos: usize = 0;
    loop
        invariant
            pos <= v.len(),
            v@ == markdown@,
            open@ == seq!['[', '['],
            close@ == seq![']', ']'],
            wikilinks(v@) == links_view(links@) + wikilinks_from(v@, pos as int),
        ensures
            links_view(links@) == wikilinks(markdown@),
        decreases v.len() - pos,
    {
        let ghost before = links@;
        let start = match find_from_exec(&v, &open, pos) {
            Some(k) => k,
            None => {
                assert(wikilinks_from(v@, pos as int) =~= seq![]);
                assert(links_view(links@) + seq![] =~= links_view(links@));
                break;
            },
        };
        proof {
            lemma_find_from(v@, open@, pos as int);
        }
        let end = match find_from_exec(&v, &close, start + 2) {
            Some(k) => k,
            None => {
                assert(wikilinks_from(v@, pos as int) =~= seq![]);
                assert(links_view(links@) + seq![] =~= links_view(links@));
                break;
            },
        };
        proof {
            lemma_find_from(v@, close@, start + 2);
        }
        let found = link_in(&v, start + 2, end);
        match found {
            Some(l) => {
                links.push(l);
                assert(links_view(links@) =~= links_view(before) + seq![l@]);
            },
            None => {},
        }
        pos = end + 2;
    }
    links
}

} // verus!
