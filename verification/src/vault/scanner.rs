//! The notes of a vault, as a scan of its Markdown files finds them.
use vstd::prelude::*;
use crate::sorting::{
    lemma_filter_map_values, lemma_map_preserves_multiset, sort_by_key, sorted_by_key, with_key, Keyed,
};
use crate::text::{chars_of, replace_char, replace_char_exec, string_of};
use crate::vault::frontmatter::{parse_markdown_note, tags_view, strs_view, FrontMatter};
use crate::vault::wikilinks::{extract_wikilinks, links_view, opt_view, wikilinks, LinkView};

verus! {

/// The result of scanning a vault.
#[derive(Debug, Clone, PartialEq, Eq)]
pub struct VaultScan {
    pub root: String,
    pub notes: Vec<ScannedNote>,
}

/// One Markdown note of the vault.
#[derive(Debug, Clone, PartialEq, Eq)]
pub struct ScannedNote {
    pub relative_path: String,
    pub title: Option<String>,
    pub note_type: Option<String>,
    pub tags: Vec<String>,
    pub links: Vec<WikiLink>,
}

use crate::vault::wikilinks::WikiLink;

/// A Markdown file read from the vault: its path relative to the root (with the
/// platform's separators), its text, and its decoded frontmatter.
#[derive(Debug, Clone)]
pub struct MarkdownFile {
    pub relative_path: String,
    pub raw: String,
    pub front_matter: Option<FrontMatter>,
}

/// Path, title, type, tags and links of a note.
pub type NoteView = (Seq<char>, Option<Seq<char>>, Option<Seq<char>>, Seq<Seq<char>>, Seq<LinkView>);

/// The abstract value of a scanned note.
pub open spec fn note_view(n: ScannedNote) -> NoteView {
    (n.relative_path@, opt_view(n.title), opt_view(n.note_type), strs_view(n.tags@), links_view(n.links@))
}

/// The note that a file becomes: `/` separators, frontmatter fields, and the
/// wikilinks of the whole text (frontmatter included).
pub open spec fn file_note(f: MarkdownFile) -> NoteView {
    let (title, note_type, tags) = match f.front_matter {
        Some(fm) => (opt_view(fm.title), opt_view(fm.note_type), tags_view(fm.tags)),
        None => (None, None, seq![]),
    };
    (replace_char(f.relative_path@, '\\', '/'), title, note_type, tags, wikilinks(f.raw@))
}

impl Keyed for ScannedNote {
    open spec fn key_view(&self) -> Seq<char> {
        self.relative_path@
    }

    fn key(&self) -> (r: &str) {
        self.relative_path.as_str()
    }
}

/// The notes at path `k` among `views`, in their order.
pub open spec fn notes_at(views: Seq<NoteView>, k: Seq<char>) -> Seq<NoteView> {
    views.filter(|n: NoteView| n.0 == k)
}

/// Builds the scan of a vault from its Markdown files: one note per file,
/// ordered by path; notes with the same path keep the order of their files.
pub fn scan_vault(root: &str, files: Vec<MarkdownFile>) -> (r: VaultScan)
    ensures
        r.root@ == root@,
        sorted_by_key(r.notes@),
        forall|k: Seq<char>|
            (#[trigger] with_key(r.notes@, k)).map_values(|n: ScannedNote| note_view(n)) == notes_at(
                files@.map_values(|f: MarkdownFile| file_note(f)),
                k,
            ),
        r.notes@.map_values(|n: ScannedNote| note_view(n)).to_multiset() == files@.map_values(
            |f: MarkdownFile| file_note(f),
        ).to_multiset(),
{
    let mut notes: Vec<ScannedNote> = Vec::new();
    let mut i: usize = 0;
    while i < files.len()
        invariant
            i <= files.len(),
            notes@.len() == i,
            forall|k: int| 0 <= k < i ==> note_view(#[trigger] notes@[k]) == file_note(files@[k]),
        decreases files.len() - i,
    {
        let f = &files[i];
        let pv = chars_of(f.relative_path.as_str());
        let path = string_of(&replace_char_exec(&pv, '\\', '/'));
        let fm = match &f.front_matter {
            Some(fm) => Some(FrontMatter {
                title: crate::vault::frontmatter::copy_opt(&fm.title),
                note_type: crate::vault::frontmatter::copy_opt(&fm.note_type),
                tags: match &fm.tags {
                    Some(t) => Some(crate::vault::frontmatter::copy_strings(t)),
                    None => None,
                },
            }),
            None => None,
        };
        let parsed = parse_markdown_note(f.raw.as_str(), fm);
        let links = extract_wikilinks(f.raw.as_str());
        let note = ScannedNote {
            relative_path: path,
            title: parsed.title,
            note_type: parsed.note_type,
            tags: parsed.tags,
            links,
        };
        assert(note_view(note) == file_note(files@[i as int]));
        notes.push(note);
        i = i + 1;
    }
    assert(notes@.map_values(|n: ScannedNote| note_view(n)) =~= files@.map_values(
        |f: MarkdownFile| file_note(f),
    ));
    let sorted = sort_by_key(notes);
    proof {
        lemma_map_preserves_multiset(sorted@, notes@, |n: ScannedNote| note_view(n));
        assert forall|k: Seq<char>|
            (#[trigger] with_key(sorted@, k)).map_values(|n: ScannedNote| note_view(n)) == notes_at(
                files@.map_values(|f: MarkdownFile| file_note(f)),
                k,
            ) by {
            lemma_filter_map_values(
                notes@,
                |n: ScannedNote| note_view(n),
                |t: ScannedNote| t.key_view() == k,
                |n: NoteView| n.0 == k,
            );
        }
    }
    let rv = chars_of(root);
    VaultScan { root: string_of(&rv), notes: sorted }
}

} // verus!
