//! The backlink graph: for each link target, the notes that link to it.
use vstd::prelude::*;
use crate::text::{lemma_lt_total, lemma_lt_transitive, seq_lt, str_eq, str_lt};
use crate::vault::frontmatter::strs_view;
use crate::vault::scanner::{ScannedNote, VaultScan};

verus! {

/// Each string is below the next: sorted and free of duplicates.
pub open spec fn strictly_sorted(s: Seq<Seq<char>>) -> bool {
    forall|i: int, j: int| 0 <= i < j < s.len() ==> seq_lt(#[trigger] s[i], #[trigger] s[j])
}

/// The note at `k` links to `t` with its link number `l`.
pub open spec fn link_at(notes: Seq<ScannedNote>, k: int, l: int, t: Seq<char>) -> bool {
    0 <= k < notes.len() && 0 <= l < notes[k].links@.len() && notes[k].links@[l].target@ == t
}

/// Some note with path `p` links to `t`.
pub open spec fn linked_from(notes: Seq<ScannedNote>, t: Seq<char>, p: Seq<char>) -> bool {
    exists|k: int, l: int| #[trigger] link_at(notes, k, l, t) && notes[k].relative_path@ == p
}

/// Like `linked_from`, counting only the links before link `j` of note `i`.
pub open spec fn linked_before(notes: Seq<ScannedNote>, i: int, j: int, t: Seq<char>, p: Seq<char>) -> bool {
    exists|k: int, l: int|
        #[trigger] link_at(notes, k, l, t) && (k < i || (k == i && l < j)) && notes[k].relative_path@ == p
}

/// Target `t` has source `p` in the parallel lists of targets and sources.
pub open spec fn lists_have(targets: Seq<String>, sources: Seq<Vec<String>>, t: Seq<char>, p: Seq<char>) -> bool {
    exists|a: int|
        0 <= a < targets.len() && #[trigger] targets[a]@ == t && strs_view(sources[a]@).contains(p)
}

/// Distinct targets, strictly sorted sources.
pub open spec fn lists_ok(targets: Seq<String>, sources: Seq<Vec<String>>) -> bool {
    &&& targets.len() == sources.len()
    &&& forall|a: int, b: int| 0 <= a < b < targets.len() ==> #[trigger] targets[a]@ != #[trigger] targets[b]@
    &&& forall|a: int| 0 <= a < sources.len() ==> strictly_sorted(strs_view(#[trigger] sources[a]@))
}

/// For each link target, the paths of the notes linking to it. The map from
/// targets to paths is kept as two parallel lists (distinct targets, and for
/// each a strictly sorted list of paths) rather than a `BTreeMap`: vstd's
/// specification of `BTreeMap` proves nothing about lookups with `String` keys.
#[derive(Debug)]
pub struct LinkGraph {
    targets: Vec<String>,
    sources: Vec<Vec<String>>,
}

impl LinkGraph {
    /// Targets are distinct and each list of sources is strictly sorted.
    #[verifier::type_invariant]
    closed spec fn well_formed(self) -> bool {
        lists_ok(self.targets@, self.sources@)
    }

    /// The note at path `p` is recorded as linking to `t`.
    pub closed spec fn has_backlink(self, t: Seq<char>, p: Seq<char>) -> bool {
        lists_have(self.targets@, self.sources@, t, p)
    }

    /// The paths of the notes that link to `target`, sorted, without duplicates.
    pub fn backlinks_to(&self, target: &str) -> (r: Vec<String>)
        ensures
            strictly_sorted(strs_view(r@)),
            forall|p: Seq<char>| strs_view(r@).contains(p) <==> self.has_backlink(target@, p),
    {
        proof {
            use_type_invariant(self);
        }
        let mut a: usize = 0;
        while a < self.targets.len()
            invariant
                a <= self.targets.len(),
                self.targets.len() == self.sources.len(),
                forall|b: int| 0 <= b < a ==> #[trigger] self.targets@[b]@ != target@,
            decreases self.targets.len() - a,
        {
            if str_eq(self.targets[a].as_str(), target) {
                proof {
                    use_type_invariant(self);
                }
                let r = crate::vault::frontmatter::copy_strings(&self.sources[a]);
                assert forall|p: Seq<char>| strs_view(r@).contains(p) <== self.has_backlink(target@, p) by {
                    if self.has_backlink(target@, p) {
                        let b = choose|b: int|
                            0 <= b < self.targets.len() && #[trigger] self.targets@[b]@ == target@
                                && strs_view(self.sources@[b]@).contains(p);
                        if b != a {
                            if b < a {
                                assert(self.targets@[b]@ != self.targets@[a as int]@);
                            } else {
                                assert(self.targets@[a as int]@ != self.targets@[b]@);
                            }
                        }
                    }
                }
                return r;
            }
            a = a + 1;
        }
        let r: Vec<String> = Vec::new();
        assert(strs_view(r@) =~= seq![]);
        r
    }
}

/// Adds `s` to a strictly sorted list of strings, unless it is already there.
pub fn insert_unique_sorted(v: &mut Vec<String>, s: String)
    requires
        strictly_sorted(strs_view(old(v)@)),
    ensures
        strictly_sorted(strs_view(final(v)@)),
        forall|x: Seq<char>| strs_view(final(v)@).contains(x) <==> (strs_view(old(v)@).contains(x) || x == s@),
{
    let mut pos: usize = 0;
    while pos < v.len() && str_lt(v[pos].as_str(), s.as_str())
        invariant
            pos <= v.len(),
            forall|i: int| 0 <= i < pos ==> seq_lt(#[trigger] v@[i]@, s@),
        decreases v.len() - pos,
    {
        pos = pos + 1;
    }
    if pos < v.len() && str_eq(v[pos].as_str(), s.as_str()) {
        assert(strs_view(v@)[pos as int] == s@);
        return;
    }
    let ghost before = v@;
    proof {
        if pos < v.len() {
            lemma_lt_total(v@[pos as int]@, s@);
        }
    }
    v.insert(pos, s);
    let ghost sv = strs_view(v@);
    let ghost bv = strs_view(before);
    assert(sv =~= bv.insert(pos as int, s@));
    assert forall|i: int, j: int| 0 <= i < j < sv.len() implies seq_lt(#[trigger] sv[i], #[trigger] sv[j]) by {
        if j < pos {
            assert(sv[i] == bv[i] && sv[j] == bv[j]);
        } else if j == pos {
            assert(sv[i] == bv[i]);
        } else if i < pos {
            assert(sv[j] == bv[j - 1]);
            assert(sv[i] == bv[i]);
            lemma_lt_transitive(sv[i], s@, bv[pos as int]);
            if pos < j - 1 {
                lemma_lt_transitive(sv[i], bv[pos as int], bv[j - 1]);
            }
        } else if i == pos {
            assert(sv[j] == bv[j - 1]);
            if pos < j - 1 {
                lemma_lt_transitive(s@, bv[pos as int], bv[j - 1]);
            }
        } else {
            assert(sv[i] == bv[i - 1] && sv[j] == bv[j - 1]);
        }
    }
    assert forall|x: Seq<char>| sv.contains(x) <==> (bv.contains(x) || x == s@) by {
        if sv.contains(x) {
            let i = choose|i: int| 0 <= i < sv.len() && sv[i] == x;
            if i < pos {
                assert(bv[i] == x);
            } else if i > pos {
                assert(bv[i - 1] == x);
            }
        }
        if bv.contains(x) {
            let i = choose|i: int| 0 <= i < bv.len() && bv[i] == x;
            if i < pos {
                assert(sv[i] == x);
            } else {
                assert(sv[i + 1] == x);
            }
        }
        if x == s@ {
            assert(sv[pos as int] == x);
        }
    }
}

/// One more link counted: note `i`'s link `j`.
proof fn lemma_linked_before_step(notes: Seq<ScannedNote>, i: int, j: int, t: Seq<char>, p: Seq<char>)
    requires
        0 <= i < notes.len(),
        0 <= j < notes[i].links@.len(),
    ensures
        linked_before(notes, i, j + 1, t, p) <==> (linked_before(notes, i, j, t, p) || (
        notes[i].links@[j].target@ == t && notes[i].relative_path@ == p)),
{
    if notes[i].links@[j].target@ == t && notes[i].relative_path@ == p {
        assert(link_at(notes, i, j, t));
    }
    if linked_before(notes, i, j + 1, t, p) {
        let (k, l) = choose|k: int, l: int|
            #[trigger] link_at(notes, k, l, t) && (k < i || (k == i && l < j + 1))
                && notes[k].relative_path@ == p;
        if !(k == i && l == j) {
            assert(link_at(notes, k, l, t));
        }
    }
}

/// Moving on to the next note.
proof fn lemma_linked_before_next(notes: Seq<ScannedNote>, i: int, t: Seq<char>, p: Seq<char>)
    requires
        0 <= i < notes.len(),
    ensures
        linked_before(notes, i + 1, 0, t, p) <==> linked_before(notes, i, notes[i].links@.len() as int, t, p),
{
    if linked_before(notes, i + 1, 0, t, p) {
        let (k, l) = choose|k: int, l: int|
            #[trigger] link_at(notes, k, l, t) && (k < i + 1 || (k == i + 1 && l < 0))
                && notes[k].relative_path@ == p;
        assert(link_at(notes, k, l, t));
    }
    if linked_before(notes, i, notes[i].links@.len() as int, t, p) {
        let (k, l) = choose|k: int, l: int|
            #[trigger] link_at(notes, k, l, t) && (k < i || (k == i && l < notes[i].links@.len()))
                && notes[k].relative_path@ == p;
        assert(link_at(notes, k, l, t));
    }
}

/// Builds the backlink graph of a scan: each link target is mapped to the
/// sorted, duplicate-free paths of the notes that link to it.
pub fn build_link_graph(scan: &VaultScan) -> (r: LinkGraph)
    ensures
        forall|t: Seq<char>, p: Seq<char>| r.has_backlink(t, p) <==> linked_from(scan.notes@, t, p),
{
    let ghost notes = scan.notes@;
    let mut targets: Vec<String> = Vec::new();
    let mut sources: Vec<Vec<String>> = Vec::new();
    let mut i: usize = 0;
    while i < scan.notes.len()
        invariant
            i <= scan.notes.len(),
            notes == scan.notes@,
            lists_ok(targets@, sources@),
            forall|t: Seq<char>, p: Seq<char>|
                lists_have(targets@, sources@, t, p) <==> linked_before(notes, i as int, 0, t, p),
        decreases scan.notes.len() - i,
    {
        let note = &scan.notes[i];
        let mut j: usize = 0;
        while j < note.links.len()
            invariant
                i < scan.notes.len(),
                j <= note.links.len(),
                notes == scan.notes@,
                *note == notes[i as int],
                lists_ok(targets@, sources@),
                forall|t: Seq<char>, p: Seq<char>|
                    lists_have(targets@, sources@, t, p) <==> linked_before(notes, i as int, j as int, t, p),
            decreases note.links.len() - j,
        {
            let target = &note.links[j].target;
            let ghost t0 = target@;
            let ghost p0 = note.relative_path@;
            let ghost old_targets = targets@;
            let ghost old_sources = sources@;
            let mut a: usize = 0;
            while a < targets.len() && !str_eq(targets[a].as_str(), target.as_str())
                invariant
                    a <= targets.len(),
                    targets@ == old_targets,
                    target@ == t0,
                    forall|b: int| 0 <= b < a ==> #[trigger] targets@[b]@ != t0,
                decreases targets.len() - a,
            {
                a = a + 1;
            }
            if a < targets.len() {
                let mut list = sources.remove(a);
                insert_unique_sorted(&mut list, note.relative_path.clone());
                sources.insert(a, list);
                assert(sources@ =~= old_sources.update(a as int, list));
                assert forall|t: Seq<char>, p: Seq<char>|
                    lists_have(targets@, sources@, t, p) <==> (lists_have(old_targets, old_sources, t, p)
                        || (t == t0 && p == p0)) by {
                    if lists_have(targets@, sources@, t, p) {
                        let b = choose|b: int| 0 <= b < targets@.len() && #[trigger] targets@[b]@ == t
                            && strs_view(sources@[b]@).contains(p);
                        if b != a {
                            assert(sources@[b] == old_sources[b]);
                        }
                    }
                    if lists_have(old_targets, old_sources, t, p) {
                        let b = choose|b: int| 0 <= b < old_targets.len() && #[trigger] old_targets[b]@ == t
                            && strs_view(old_sources[b]@).contains(p);
                        if b != a {
                            assert(sources@[b] == old_sources[b]);
                        }
                        assert(targets@[b]@ == t);
                    }
                    if t == t0 && p == p0 {
                        assert(targets@[a as int]@ == t);
                    }
                }
                assert forall|x: int| 0 <= x < sources@.len() implies strictly_sorted(
                    strs_view(#[trigger] sources@[x]@),
                ) by {
                    if x != a {
                        assert(sources@[x] == old_sources[x]);
                    }
                }
            } else {
                let mut list: Vec<String> = Vec::new();
                list.push(note.relative_path.clone());
                targets.push(target.clone());
                sources.push(list);
                assert(strs_view(list@) =~= seq![p0]);
                assert forall|t: Seq<char>, p: Seq<char>|
                    lists_have(targets@, sources@, t, p) <==> (lists_have(old_targets, old_sources, t, p)
                        || (t == t0 && p == p0)) by {
                    if lists_have(targets@, sources@, t, p) {
                        let b = choose|b: int| 0 <= b < targets@.len() && #[trigger] targets@[b]@ == t
                            && strs_view(sources@[b]@).contains(p);
                        if b < old_targets.len() {
                            assert(sources@[b] == old_sources[b]);
                            assert(old_targets[b]@ == t);
                        } else {
                            assert(strs_view(sources@[b]@)[0] == p0);
                        }
                    }
                    if lists_have(old_targets, old_sources, t, p) {
                        let b = choose|b: int| 0 <= b < old_targets.len() && #[trigger] old_targets[b]@ == t
                            && strs_view(old_sources[b]@).contains(p);
                        assert(sources@[b] == old_sources[b]);
                        assert(targets@[b]@ == t);
                    }
                    if t == t0 && p == p0 {
                        assert(targets@[old_targets.len() as int]@ == t);
                        assert(strs_view(sources@[old_targets.len() as int]@)[0] == p);
                    }
                }
                assert forall|x: int, y: int| 0 <= x < y < targets@.len() implies #[trigger] targets@[x]@
                    != #[trigger] targets@[y]@ by {
                    if y == old_targets.len() {
                        assert(targets@[x] == old_targets[x]);
                    } else {
                        assert(targets@[x] == old_targets[x] && targets@[y] == old_targets[y]);
                    }
                }
                assert forall|x: int| 0 <= x < sources@.len() implies strictly_sorted(
                    strs_view(#[trigger] sources@[x]@),
                ) by {
                    if x < old_sources.len() {
                        assert(sources@[x] == old_sources[x]);
                    }
                }
            }
            proof {
                assert forall|t: Seq<char>, p: Seq<char>|
                    lists_have(targets@, sources@, t, p) <==> linked_before(notes, i as int, j + 1, t, p) by {
                    lemma_linked_before_step(notes, i as int, j as int, t, p);
                }
            }
            j = j + 1;
        }
        proof {
            assert forall|t: Seq<char>, p: Seq<char>|
                lists_have(targets@, sources@, t, p) <==> linked_before(notes, i + 1, 0, t, p) by {
                lemma_linked_before_next(notes, i as int, t, p);
            }
        }
        i = i + 1;
    }
    let g = LinkGraph { targets, sources };
    assert forall|t: Seq<char>, p: Seq<char>| g.has_backlink(t, p) <==> linked_from(notes, t, p) by {
        if linked_before(notes, i as int, 0, t, p) {
            let (k, l) = choose|k: int, l: int|
                #[trigger] link_at(notes, k, l, t) && (k < i || (k == i && l < 0)) && notes[k].relative_path@ == p;
            assert(link_at(notes, k, l, t));
        }
        if linked_from(notes, t, p) {
            let (k, l) = choose|k: int, l: int| #[trigger] link_at(notes, k, l, t) && notes[k].relative_path@ == p;
            assert(link_at(notes, k, l, t) && k < notes.len());
        }
    }
    g
}

} // verus!
