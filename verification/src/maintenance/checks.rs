//! Maintenance checks over a vault scan.
use vstd::prelude::*;
use crate::maintenance::inbox::{item_view, items_view, ItemView, MaintenanceInbox, MaintenanceItem};
use crate::text::{chars_of, ends_with, str_eq, string_of_range};
use crate::vault::paths::last_component;
use crate::vault::scanner::{ScannedNote, VaultScan};

verus! {

/// The name a note can be linked by through its file: the last path component
/// without `.md`, when the name ends with `.md`.
pub open spec fn md_stem(path: Seq<char>) -> Option<Seq<char>> {
    let f = last_component(path);
    if ends_with(f, seq!['.', 'm', 'd']) {
        Some(f.take(f.len() - 3))
    } else {
        None
    }
}

/// Some note is titled `t` or has `t` as its Markdown file stem.
pub open spec fn is_known_target(notes: Seq<ScannedNote>, t: Seq<char>) -> bool {
    exists|k: int|
        0 <= k < notes.len() && (#[trigger] notes[k].title matches Some(title) && title@ == t
            || md_stem(notes[k].relative_path@) == Some(t))
}

/// The item reported for a link of `file` whose target `t` is unknown.
pub open spec fn broken_link_item(file: Seq<char>, t: Seq<char>) -> ItemView {
    ("P0"@, "broken_wikilink"@, file, "Missing target [["@ + t + "]]"@, false)
}

/// Items for the first `j` links of note `n`.
pub open spec fn note_items(notes: Seq<ScannedNote>, n: ScannedNote, j: int) -> Seq<ItemView>
    decreases j,
{
    if j <= 0 {
        seq![]
    } else {
        let t = n.links@[j - 1].target@;
        let rest = note_items(notes, n, j - 1);
        if is_known_target(notes, t) {
            rest
        } else {
            rest.push(broken_link_item(n.relative_path@, t))
        }
    }
}

/// Items for the first `i` notes, in note order and then link order.
pub open spec fn scan_items(notes: Seq<ScannedNote>, i: int) -> Seq<ItemView>
    decreases i,
{
    if i <= 0 {
        seq![]
    } else {
        scan_items(notes, i - 1) + note_items(notes, notes[i - 1], notes[i - 1].links@.len() as int)
    }
}

/// The stem of a path, as `md_stem` describes it.
fn md_stem_of(path: &str) -> (r: Option<String>)
    ensures
        match r {
            Some(s) => md_stem(path@) == Some(s@),
            None => md_stem(path@) is None,
        },
{
    let v = chars_of(path);
    let name = crate::vault::paths::last_component_string(path);
    let nv = chars_of(name.as_str());
    let md: Vec<char> = vec!['.', 'm', 'd'];
    assert(nv@.subrange(0, nv@.len() as int) =~= nv@);
    if crate::text::ends_with_in(&nv, 0, nv.len(), &md) {
        assert(nv@.subrange(0, nv@.len() - 3) =~= nv@.take(nv@.len() - 3));
        Some(string_of_range(&nv, 0, nv.len() - 3))
    } else {
        None
    }
}

/// Whether a link target names a note of the scan.
fn target_is_known(notes: &Vec<ScannedNote>, t: &str) -> (r: bool)
    ensures
        r == is_known_target(notes@, t@),
{
    let mut k: usize = 0;
    while k < notes.len()
        invariant
            k <= notes.len(),
            forall|m: int|
                0 <= m < k ==> !(#[trigger] notes@[m].title matches Some(title) && title@ == t@
                    || md_stem(notes@[m].relative_path@) == Some(t@)),
        decreases notes.len() - k,
    {
        let n = &notes[k];
        let by_title = match &n.title {
            Some(title) => str_eq(title.as_str(), t),
            None => false,
        };
        if by_title {
            return true;
        }
        let by_stem = match md_stem_of(n.relative_path.as_str()) {
            Some(stem) => str_eq(stem.as_str(), t),
            None => false,
        };
        if by_stem {
            return true;
        }
        k = k + 1;
    }
    false
}

/// Reports every wikilink whose target is neither the title nor the file stem
/// of a note, as a `P0` `broken_wikilink` item that needs no confirmation.
pub fn run_maintenance_scan(scan: &VaultScan) -> (r: MaintenanceInbox)
    ensures
        items_view(r.items@) == scan_items(scan.notes@, scan.notes@.len() as int),
{
    let notes = &scan.notes;
    let mut items: Vec<MaintenanceItem> = Vec::new();
    let mut i: usize = 0;
    while i < notes.len()
        invariant
            i <= notes.len(),
            items_view(items@) == scan_items(notes@, i as int),
        decreases notes.len() - i,
    {
        let n = &notes[i];
        let ghost base = items_view(items@);
        let mut j: usize = 0;
        while j < n.links.len()
            invariant
                i < notes.len(),
                j <= n.links.len(),
                *n == notes@[i as int],
                base == scan_items(notes@, i as int),
                items_view(items@) == base + note_items(notes@, *n, j as int),
            decreases n.links.len() - j,
        {
            let target = &n.links[j].target;
            let ghost before = items@;
            if !target_is_known(notes, target.as_str()) {
                let mut evidence = String::from_str("Missing target [[");
                evidence.append(target.as_str());
                evidence.append("]]");
                let item = MaintenanceItem {
                    priority: String::from_str("P0"),
                    kind: String::from_str("broken_wikilink"),
                    file: n.relative_path.clone(),
                    evidence,
                    requires_confirmation: false,
                };
                items.push(item);
                assert(items_view(items@) =~= items_view(before).push(item_view(item)));
            }
            j = j + 1;
        }
        i = i + 1;
    }
    MaintenanceInbox { items }
}

} // verus!
