//! The logic of the vault tools offered to the agent: reading, listing,
//! searching and linking notes, and the writes the policy allows.
use vstd::prelude::*;
use crate::text::{
    chars_of, contains_exec, contains_seq, is_blank, line_ranges, lines, string_of_range,
    trim, trim_bounds,
};
use crate::vault::frontmatter::{copy_opt, copy_strings, strs_view};
use crate::vault::graph::{build_link_graph, insert_unique_sorted, linked_from, strictly_sorted};
use crate::vault::paths::{
    check_markdown_path, file_stem, file_stem_of, markdown_path_result, normalize_relative_path,
    normalized_path, PathError,
};
use crate::vault::policy::{VaultWriteOperation, VaultWritePolicy, WriteDecision};
use crate::vault::scanner::{ScannedNote, VaultScan};
use crate::vault::wikilinks::opt_view;

verus! {

/// The most characters of a note that `vault_read_note` returns.
pub const MAX_NOTE_CHARS: usize = 24000;

/// The most matches that `vault_search_notes` returns.
pub const MAX_SEARCH_RESULTS: usize = 20;

/// The most characters of a search snippet.
pub const MAX_SNIPPET_CHARS: usize = 240;

/// Why a tool call failed.
#[derive(Debug, Clone, PartialEq, Eq)]
pub enum ToolError {
    /// The call's arguments were refused.
    InvalidArguments(String),
    /// The call failed while running.
    Execution(String),
}

/// The first `max_chars` characters of `value`, and whether anything was cut.
pub open spec fn truncated(value: Seq<char>, max_chars: int) -> (Seq<char>, bool) {
    if value.len() <= max_chars {
        (value, false)
    } else {
        (value.take(max_chars), true)
    }
}

/// Cuts `value` to at most `max_chars` characters.
pub fn truncate_chars(value: String, max_chars: usize) -> (r: (String, bool))
    ensures
        (r.0@, r.1) == truncated(value@, max_chars as int),
{
    let v = chars_of(value.as_str());
    if v.len() <= max_chars {
        return (value, false);
    }
    assert(v@.subrange(0, max_chars as int) =~= v@.take(max_chars as int));
    (string_of_range(&v, 0, max_chars), true)
}

/// Tool errors carry their message as a string; this is their abstract value.
pub open spec fn tool_error_view(e: ToolError) -> (bool, Seq<char>) {
    match e {
        ToolError::InvalidArguments(m) => (true, m@),
        ToolError::Execution(m) => (false, m@),
    }
}

/// `path_tool_error`, as an abstract value.
pub open spec fn path_error_view(e: PathError) -> (bool, Seq<char>) {
    match e {
        PathError::NotMarkdown => (true, "path must point to a Markdown .md file"@),
        PathError::OutsideVault => (true, "path must stay inside the vault"@),
    }
}

/// Checks a note path given to a tool: normalized, it must name a Markdown file
/// inside the vault. Whether the file exists is for the caller to see.
pub fn tool_markdown_path(relative_path: &str) -> (r: Result<String, ToolError>)
    ensures
        match markdown_path_result(relative_path@) {
            Ok(n) => r matches Ok(s) && s@ == n,
            Err(e) => r matches Err(te) && tool_error_view(te) == path_error_view(e),
        },
{
    match check_markdown_path(relative_path) {
        Ok(n) => Ok(n),
        Err(e) => Err(ToolError::InvalidArguments(e.message())),
    }
}

/// A note as `vault_list_notes` lists it.
#[derive(Debug, Clone, PartialEq, Eq)]
pub struct NoteSummary {
    pub path: String,
    pub title: Option<String>,
    pub note_type: Option<String>,
    pub tags: Vec<String>,
}

/// The result of `vault_list_notes`.
#[derive(Debug, Clone, PartialEq, Eq)]
pub struct ListNotesResult {
    pub notes: Vec<NoteSummary>,
}

/// The summary of each note of the scan, in scan order.
pub fn list_notes(scan: &VaultScan) -> (r: ListNotesResult)
    ensures
        r.notes@.len() == scan.notes@.len(),
        forall|i: int|
            0 <= i < r.notes@.len() ==> (#[trigger] r.notes@[i]).path@ == scan.notes@[i].relative_path@
                && opt_view(r.notes@[i].title) == opt_view(scan.notes@[i].title) && opt_view(
                r.notes@[i].note_type,
            ) == opt_view(scan.notes@[i].note_type) && strs_view(r.notes@[i].tags@) == strs_view(
                scan.notes@[i].tags@,
            ),
{
    let mut notes: Vec<NoteSummary> = Vec::new();
    let mut i: usize = 0;
    while i < scan.notes.len()
        invariant
            i <= scan.notes.len(),
            notes@.len() == i,
            forall|k: int|
                0 <= k < i ==> (#[trigger] notes@[k]).path@ == scan.notes@[k].relative_path@ && opt_view(
                    notes@[k].title,
                ) == opt_view(scan.notes@[k].title) && opt_view(notes@[k].note_type) == opt_view(
                    scan.notes@[k].note_type,
                ) && strs_view(notes@[k].tags@) == strs_view(scan.notes@[k].tags@),
        decreases scan.notes.len() - i,
    {
        let n = &scan.notes[i];
        notes.push(
            NoteSummary {
                path: n.relative_path.clone(),
                title: copy_opt(&n.title),
                note_type: copy_opt(&n.note_type),
                tags: copy_strings(&n.tags),
            },
        );
        i = i + 1;
    }
    ListNotesResult { notes }
}

/// The result of `vault_read_note`.
#[derive(Debug, Clone, PartialEq, Eq)]
pub struct ReadNoteResult {
    pub path: String,
    pub content: String,
    pub truncated: bool,
}

/// The answer of `vault_read_note` for the note read at `path`: its normalized
/// path and its content, cut to `MAX_NOTE_CHARS` characters.
pub fn read_note(path: &str, content: String) -> (r: ReadNoteResult)
    ensures
        r.path@ == normalized_path(path@),
        (r.content@, r.truncated) == truncated(content@, MAX_NOTE_CHARS as int),
{
    let (content, cut) = truncate_chars(content, MAX_NOTE_CHARS);
    ReadNoteResult { path: normalize_relative_path(path), content, truncated: cut }
}

/// The result of `vault_create_note`.
#[derive(Debug, Clone, PartialEq, Eq)]
pub struct CreateNoteResult {
    pub path: String,
    pub written: bool,
}

/// The checked path of a note that `vault_create_note` is about to write: the
/// normalized path, normalized and checked once more.
pub fn new_note_path(path: &str) -> (r: Result<String, ToolError>)
    ensures
        match markdown_path_result(normalized_path(path@)) {
            Ok(n) => r matches Ok(s) && s@ == n,
            Err(e) => r matches Err(te) && tool_error_view(te) == path_error_view(e),
        },
{
    let normalized = normalize_relative_path(path);
    tool_markdown_path(normalized.as_str())
}

/// The result of `vault_propose_note_update`.
#[derive(Debug, Clone, PartialEq, Eq)]
pub struct ProposeNoteUpdateResult {
    pub path: String,
    pub written: bool,
    pub requires_confirmation: bool,
    pub reason: Option<String>,
    pub replacement_content: String,
}

/// A proposed replacement of an existing note: nothing is written, and the
/// write policy's answer for a change of meaning decides whether the user must confirm.
pub fn propose_note_update(path: &str, replacement_content: String, reason: Option<String>) -> (r: Result<
    ProposeNoteUpdateResult,
    ToolError,
>)
    ensures
        match markdown_path_result(normalized_path(path@)) {
            Ok(_) => r matches Ok(res) && res.path@ == normalized_path(path@) && !res.written
                && res.requires_confirmation && opt_view(res.reason) == opt_view(reason)
                && res.replacement_content@ == replacement_content@,
            Err(e) => r matches Err(te) && tool_error_view(te) == path_error_view(e),
        },
{
    let normalized = normalize_relative_path(path);
    match tool_markdown_path(normalized.as_str()) {
        Err(e) => {
            return Err(e);
        },
        Ok(_) => {},
    }
    let operation = VaultWriteOperation::ModifyBodyMeaning { path: normalized.clone() };
    let decision = VaultWritePolicy.decide(&operation);
    Ok(
        ProposeNoteUpdateResult {
            path: normalized,
            written: false,
            requires_confirmation: decision == WriteDecision::RequireConfirmation,
            reason,
            replacement_content,
        },
    )
}

/// A Markdown note as read from the vault: its path and its text.
#[derive(Debug, Clone)]
pub struct NoteText {
    pub path: String,
    pub content: String,
}

/// One line of a note that matches a search.
#[derive(Debug, Clone, PartialEq, Eq)]
pub struct SearchMatch {
    pub path: String,
    pub line: usize,
    pub snippet: String,
}

/// The result of `vault_search_notes`.
#[derive(Debug, Clone, PartialEq, Eq)]
pub struct SearchNotesResult {
    pub query: String,
    pub matches: Vec<SearchMatch>,
}

/// What `str::to_lowercase` returns for `s`.
pub uninterp spec fn lowercase(s: Seq<char>) -> Seq<char>;

/// `str::to_lowercase`.
#[verifier::external_body]
fn to_lowercase(s: &str) -> (r: String)
    ensures
        r@ == lowercase(s@),
{
    s.to_lowercase()
}

/// Path, line number and snippet of a match.
pub type MatchView = (Seq<char>, int, Seq<char>);

/// The abstract value of a match.
pub open spec fn match_view(m: SearchMatch) -> MatchView {
    (m.path@, m.line as int, m.snippet@)
}

/// The matches among the first `j` lines `ls` of the note at `path`: a line
/// matches when its lowercase form contains `q`; its snippet is the trimmed
/// line cut to `MAX_SNIPPET_CHARS` characters; lines are numbered from 1.
pub open spec fn line_matches(path: Seq<char>, ls: Seq<Seq<char>>, q: Seq<char>, j: int) -> Seq<MatchView>
    decreases j,
{
    if j <= 0 {
        seq![]
    } else {
        let rest = line_matches(path, ls, q, j - 1);
        if contains_seq(lowercase(ls[j - 1]), q) {
            rest.push((path, j, truncated(trim(ls[j - 1]), MAX_SNIPPET_CHARS as int).0))
        } else {
            rest
        }
    }
}

/// The matches in the first `i` notes, in note order and then line order.
pub open spec fn all_matches(notes: Seq<NoteText>, q: Seq<char>, i: int) -> Seq<MatchView>
    decreases i,
{
    if i <= 0 {
        seq![]
    } else {
        let ls = lines(notes[i - 1].content@);
        all_matches(notes, q, i - 1) + line_matches(notes[i - 1].path@, ls, q, ls.len() as int)
    }
}

/// The number of matches asked for: 10 by default, at least 1 and at most `MAX_SEARCH_RESULTS`.
pub open spec fn search_limit(limit: Option<usize>) -> int {
    let l = match limit {
        Some(l) => l as int,
        None => 10,
    };
    if l < 1 {
        1
    } else if l > MAX_SEARCH_RESULTS {
        MAX_SEARCH_RESULTS as int
    } else {
        l
    }
}

proof fn lemma_line_matches_prefix(path: Seq<char>, ls: Seq<Seq<char>>, q: Seq<char>, j: int, k: int)
    requires
        0 <= j <= k,
    ensures
        line_matches(path, ls, q, j).len() <= line_matches(path, ls, q, k).len(),
        line_matches(path, ls, q, k).take(line_matches(path, ls, q, j).len() as int) == line_matches(
            path,
            ls,
            q,
            j,
        ),
    decreases k - j,
{
    if j < k {
        lemma_line_matches_prefix(path, ls, q, j, k - 1);
        let a = line_matches(path, ls, q, j);
        let b = line_matches(path, ls, q, k - 1);
        let c = line_matches(path, ls, q, k);
        assert(c.take(a.len() as int) =~= b.take(a.len() as int));
    } else {
        let a = line_matches(path, ls, q, j);
        assert(a.take(a.len() as int) =~= a);
    }
}

proof fn lemma_all_matches_prefix(notes: Seq<NoteText>, q: Seq<char>, i: int, k: int)
    requires
        0 <= i <= k,
    ensures
        all_matches(notes, q, i).len() <= all_matches(notes, q, k).len(),
        all_matches(notes, q, k).take(all_matches(notes, q, i).len() as int) == all_matches(notes, q, i),
    decreases k - i,
{
    if i < k {
        lemma_all_matches_prefix(notes, q, i, k - 1);
        let a = all_matches(notes, q, i);
        let b = all_matches(notes, q, k - 1);
        let c = all_matches(notes, q, k);
        assert(c.take(a.len() as int) =~= b.take(a.len() as int));
    } else {
        let a = all_matches(notes, q, i);
        assert(a.take(a.len() as int) =~= a);
    }
}

/// The number of matches a search returns at most (see `search_limit`).
pub fn match_limit(limit: Option<usize>) -> (r: usize)
    ensures
        r == search_limit(limit),
        1 <= r <= MAX_SEARCH_RESULTS,
{
    let wanted: usize = match limit {
        Some(l) => l,
        None => 10,
    };
    if wanted < 1 {
        1
    } else if wanted > MAX_SEARCH_RESULTS {
        MAX_SEARCH_RESULTS
    } else {
        wanted
    }
}

/// What `search_notes` answers.
pub open spec fn search_result(query: Seq<char>, limit: Option<usize>, notes: Seq<NoteText>) -> Option<(Seq<char>, Seq<MatchView>)> {
    let q = trim(query);
    if q.len() == 0 {
        None
    } else {
        let all = all_matches(notes, lowercase(q), notes.len() as int);
        let l = search_limit(limit);
        Some((q, if all.len() <= l { all } else { all.take(l) }))
    }
}

/// Plain-text search over the notes, case-insensitive: the first `limit`
/// matching lines (see `search_result`); a blank query is refused.
pub fn search_notes(query: &str, limit: Option<usize>, notes: &Vec<NoteText>) -> (r: Result<SearchNotesResult, ToolError>)
    ensures
        match search_result(query@, limit, notes@) {
            None => r matches Err(e) && tool_error_view(e) == (true, "query cannot be empty"@),
            Some((q, ms)) => r matches Ok(res) && res.query@ == q && res.matches@.map_values(
                |m: SearchMatch| match_view(m),
            ) == ms,
        },
{
    let q = crate::text::trim_str(query);
    if q.as_str().is_empty() {
        return Err(ToolError::InvalidArguments(String::from_str("query cannot be empty")));
    }
    let limit_n = match_limit(limit);
    let query_lower = to_lowercase(q.as_str());
    let qv = chars_of(query_lower.as_str());
    let ghost ql = lowercase(q@);
    let ghost total = all_matches(notes@, ql, notes@.len() as int);
    let mut matches: Vec<SearchMatch> = Vec::new();
    let mut i: usize = 0;
    while i < notes.len()
        invariant
            i <= notes.len(),
            q@ == trim(query@),
            ql == lowercase(q@),
            trim(query@).len() > 0,
            qv@ == ql,
            limit_n as int == search_limit(limit),
            1 <= limit_n <= MAX_SEARCH_RESULTS,
            matches@.len() < limit_n,
            matches@.map_values(|m: SearchMatch| match_view(m)) == all_matches(notes@, ql, i as int),
            total == all_matches(notes@, ql, notes@.len() as int),
        decreases notes.len() - i,
    {
        let note = &notes[i];
        let v = chars_of(note.content.as_str());
        let ranges = line_ranges(&v);
        let ghost ls = lines(note.content@);
        let ghost base = all_matches(notes@, ql, i as int);
        let mut j: usize = 0;
        while j < ranges.len()
            invariant
                i < notes.len(),
                *note == notes@[i as int],
                v@ == note.content@,
                ls == lines(v@),
                ranges@.len() == ls.len(),
                forall|k: int| 0 <= k < ranges@.len() ==> (#[trigger] ranges@[k]).0 <= ranges@[k].1 <= v@.len(),
                forall|k: int|
                    0 <= k < ranges@.len() ==> #[trigger] lines(v@)[k] == v@.subrange(
                        ranges@[k].0 as int,
                        ranges@[k].1 as int,
                    ),
                j <= ranges.len(),
                trim(query@).len() > 0,
                q@ == trim(query@),
                ql == lowercase(q@),
                qv@ == ql,
                limit_n as int == search_limit(limit),
                1 <= limit_n <= MAX_SEARCH_RESULTS,
                matches@.len() < limit_n,
                base == all_matches(notes@, ql, i as int),
                matches@.map_values(|m: SearchMatch| match_view(m)) == base + line_matches(
                    note.path@,
                    ls,
                    ql,
                    j as int,
                ),
                total == all_matches(notes@, ql, notes@.len() as int),
            decreases ranges.len() - j,
        {
            let (lo, hi) = ranges[j];
            assert(lines(v@)[j as int] == v@.subrange(lo as int, hi as int));
            let line = string_of_range(&v, lo, hi);
            let lower = to_lowercase(line.as_str());
            let lv = chars_of(lower.as_str());
            if contains_exec(&lv, &qv) {
                let (a, b) = trim_bounds(&v, lo, hi);
                let (snippet, _) = truncate_chars(string_of_range(&v, a, b), MAX_SNIPPET_CHARS);
                let ghost before = matches@;
                let m = SearchMatch { path: note.path.clone(), line: j + 1, snippet };
                matches.push(m);
                assert(matches@.map_values(|m: SearchMatch| match_view(m)) =~= before.map_values(
                    |m: SearchMatch| match_view(m),
                ).push(match_view(m)));
                assert(matches@.map_values(|m: SearchMatch| match_view(m)) =~= base + line_matches(
                    note.path@,
                    ls,
                    ql,
                    j + 1,
                ));
                if matches.len() >= limit_n {
                    proof {
                        let cur = base + line_matches(note.path@, ls, ql, j + 1);
                        lemma_line_matches_prefix(note.path@, ls, ql, j + 1, ls.len() as int);
                        lemma_all_matches_prefix(notes@, ql, i + 1, notes@.len() as int);
                        let full_note = all_matches(notes@, ql, i + 1);
                        assert(full_note == base + line_matches(note.path@, ls, ql, ls.len() as int));
                        assert(full_note.take(cur.len() as int) =~= cur);
                        assert(total.take(cur.len() as int) =~= full_note.take(cur.len() as int));
                        assert(cur.len() == limit_n);
                        if total.len() <= limit_n {
                            assert(total =~= total.take(limit_n as int));
                        }
                    }
                    return Ok(SearchNotesResult { query: q, matches });
                }
            }
            j = j + 1;
        }
        i = i + 1;
    }
    proof {
        assert(total.len() < limit_n);
    }
    Ok(SearchNotesResult { query: q, matches })
}

/// The names a note can be linked by: its path, its title and its file stem.
pub open spec fn is_identity(note: ScannedNote, x: Seq<char>) -> bool {
    x == note.relative_path@ || (note.title matches Some(t) && t@ == x) || file_stem(note.relative_path@) == Some(x)
}

/// The names a note can be linked by, sorted, without duplicates.
pub fn note_identities(note: &ScannedNote) -> (r: Vec<String>)
    ensures
        strictly_sorted(strs_view(r@)),
        forall|x: Seq<char>| strs_view(r@).contains(x) <==> is_identity(*note, x),
{
    let mut ids: Vec<String> = Vec::new();
    assert(strs_view(ids@) =~= seq![]);
    insert_unique_sorted(&mut ids, note.relative_path.clone());
    match &note.title {
        Some(t) => insert_unique_sorted(&mut ids, t.clone()),
        None => {},
    }
    match file_stem_of(note.relative_path.as_str()) {
        Some(stem) => insert_unique_sorted(&mut ids, stem),
        None => {},
    }
    ids
}

/// The result of `vault_neighbor_notes`.
#[derive(Debug, Clone, PartialEq, Eq)]
pub struct NeighborNotesResult {
    pub path: String,
    pub outgoing_links: Vec<String>,
    pub backlinks: Vec<String>,
}

/// Index of the first note of the scan at path `path`.
fn note_index(notes: &Vec<ScannedNote>, path: &str) -> (r: Option<usize>)
    ensures
        match r {
            Some(k) => k < notes@.len() && notes@[k as int].relative_path@ == path@ && forall|m: int|
                0 <= m < k ==> #[trigger] notes@[m].relative_path@ != path@,
            None => forall|m: int| 0 <= m < notes@.len() ==> #[trigger] notes@[m].relative_path@ != path@,
        },
{
    let mut k: usize = 0;
    while k < notes.len()
        invariant
            k <= notes.len(),
            forall|m: int| 0 <= m < k ==> #[trigger] notes@[m].relative_path@ != path@,
        decreases notes.len() - k,
    {
        if crate::text::str_eq(notes[k].relative_path.as_str(), path) {
            return Some(k);
        }
        k = k + 1;
    }
    None
}

/// The links and backlinks of the note at `path` in the scan: its outgoing link
/// targets in order, and the sorted paths of the notes linking to any name of it.
pub fn neighbor_notes(scan: &VaultScan, path: &str) -> (r: Result<NeighborNotesResult, ToolError>)
    ensures
        ({
            let n = normalized_path(path@);
            match markdown_path_result(n) {
                Err(e) => r matches Err(te) && tool_error_view(te) == path_error_view(e),
                Ok(_) => if exists|k: int| 0 <= k < scan.notes@.len() && scan.notes@[k].relative_path@ == n {
                    r matches Ok(res) && res.path@ == n && exists|k: int|
                        0 <= k < scan.notes@.len() && scan.notes@[k].relative_path@ == n && (forall|m: int|
                            0 <= m < k ==> #[trigger] scan.notes@[m].relative_path@ != n) && strs_view(
                            res.outgoing_links@,
                        ) == scan.notes@[k].links@.map_values(|l: crate::vault::wikilinks::WikiLink| l.target@)
                            && strictly_sorted(strs_view(res.backlinks@)) && forall|p: Seq<char>|
                            strs_view(res.backlinks@).contains(p) <==> exists|x: Seq<char>|
                                is_identity(scan.notes@[k], x) && #[trigger] linked_from(scan.notes@, x, p)
                } else {
                    r matches Err(te) && tool_error_view(te) == (false, "note not found: "@ + n)
                },
            }
        }),
{
    let normalized = normalize_relative_path(path);
    match tool_markdown_path(normalized.as_str()) {
        Err(e) => {
            return Err(e);
        },
        Ok(_) => {},
    }
    let k = match note_index(&scan.notes, normalized.as_str()) {
        Some(k) => k,
        None => {
            let mut m = String::from_str("note not found: ");
            m.append(normalized.as_str());
            return Err(ToolError::Execution(m));
        },
    };
    let note = &scan.notes[k];
    let mut outgoing: Vec<String> = Vec::new();
    let mut i: usize = 0;
    while i < note.links.len()
        invariant
            i <= note.links.len(),
            strs_view(outgoing@) == note.links@.take(i as int).map_values(
                |l: crate::vault::wikilinks::WikiLink| l.target@,
            ),
        decreases note.links.len() - i,
    {
        let t = note.links[i].target.clone();
        assert(t@ == note.links@[i as int].target@);
        let ghost before = outgoing@;
        outgoing.push(t);
        assert(strs_view(outgoing@) =~= strs_view(before).push(t@));
        assert(note.links@.take(i + 1) =~= note.links@.take(i as int).push(note.links@[i as int]));
        i = i + 1;
        assert(strs_view(outgoing@) =~= note.links@.take(i as int).map_values(
            |l: crate::vault::wikilinks::WikiLink| l.target@,
        ));
    }
    assert(note.links@.take(note.links@.len() as int) =~= note.links@);
    let graph = build_link_graph(scan);
    let identities = note_identities(note);
    let mut backlinks = graph.backlinks_to(normalized.as_str());
    let mut a: usize = 0;
    while a < identities.len()
        invariant
            a <= identities.len(),
            k < scan.notes@.len(),
            *note == scan.notes@[k as int],
            normalized@ == scan.notes@[k as int].relative_path@,
            forall|t: Seq<char>, p: Seq<char>| graph.has_backlink(t, p) <==> linked_from(scan.notes@, t, p),
            forall|x: Seq<char>| strs_view(identities@).contains(x) <==> is_identity(*note, x),
            strictly_sorted(strs_view(backlinks@)),
            forall|p: Seq<char>|
                strs_view(backlinks@).contains(p) <==> (linked_from(scan.notes@, normalized@, p) || exists|b: int|
                    0 <= b < a && #[trigger] linked_from(scan.notes@, identities@[b]@, p)),
        decreases identities.len() - a,
    {
        let more = graph.backlinks_to(identities[a].as_str());
        let ghost before = backlinks@;
        let mut c: usize = 0;
        while c < more.len()
            invariant
                c <= more.len(),
                strictly_sorted(strs_view(backlinks@)),
                forall|p: Seq<char>|
                    #[trigger] strs_view(backlinks@).contains(p) <==> (strs_view(before).contains(p)
                        || strs_view(more@.take(c as int)).contains(p)),
            decreases more.len() - c,
        {
            let ghost b2 = backlinks@;
            let item = more[c].clone();
            assert(item@ == more@[c as int]@);
            insert_unique_sorted(&mut backlinks, item);
            assert forall|p: Seq<char>|
                strs_view(backlinks@).contains(p) <==> (strs_view(before).contains(p) || strs_view(
                    more@.take(c + 1),
                ).contains(p)) by {
                assert(strs_view(backlinks@).contains(p) <==> (strs_view(b2).contains(p) || p == item@));
                assert(strs_view(b2).contains(p) <==> (strs_view(before).contains(p) || strs_view(
                    more@.take(c as int),
                ).contains(p)));
                let sv_new = strs_view(more@.take(c + 1));
                let sv_old = strs_view(more@.take(c as int));
                assert(sv_new =~= sv_old.push(more@[c as int]@));
                if sv_new.contains(p) {
                    let j = choose|j: int| 0 <= j < sv_new.len() && sv_new[j] == p;
                    if j < c {
                        assert(sv_old[j] == p);
                    }
                }
                if sv_old.contains(p) {
                    let j = choose|j: int| 0 <= j < sv_old.len() && sv_old[j] == p;
                    assert(sv_new[j] == p);
                }
                assert(sv_new[c as int] == more@[c as int]@);
            }
            c = c + 1;
        }
        assert(more@.take(more@.len() as int) =~= more@);
        assert forall|p: Seq<char>|
            strs_view(backlinks@).contains(p) <==> (linked_from(scan.notes@, normalized@, p) || exists|b: int|
                0 <= b < a + 1 && #[trigger] linked_from(scan.notes@, identities@[b]@, p)) by {
            assert(strs_view(more@).contains(p) <==> graph.has_backlink(identities@[a as int]@, p));
            assert(graph.has_backlink(identities@[a as int]@, p) <==> linked_from(
                scan.notes@,
                identities@[a as int]@,
                p,
            ));
            if exists|b: int| 0 <= b < a + 1 && #[trigger] linked_from(scan.notes@, identities@[b]@, p) {
                let b = choose|b: int| 0 <= b < a + 1 && #[trigger] linked_from(scan.notes@, identities@[b]@, p);
                if b < a {
                    assert(linked_from(scan.notes@, identities@[b]@, p));
                }
            }
            if linked_from(scan.notes@, identities@[a as int]@, p) {
                assert(0 <= a < a + 1 && linked_from(scan.notes@, identities@[a as int]@, p));
            }
            if strs_view(before).contains(p) && !linked_from(scan.notes@, normalized@, p) {
                let b = choose|b: int| 0 <= b < a && #[trigger] linked_from(scan.notes@, identities@[b]@, p);
                assert(0 <= b < a + 1);
            }
        }
        a = a + 1;
    }
    assert forall|p: Seq<char>|
        strs_view(backlinks@).contains(p) <==> exists|x: Seq<char>|
            is_identity(scan.notes@[k as int], x) && #[trigger] linked_from(scan.notes@, x, p) by {
        if strs_view(backlinks@).contains(p) {
            if linked_from(scan.notes@, normalized@, p) {
                assert(is_identity(scan.notes@[k as int], normalized@));
            } else {
                let b = choose|b: int|
                    0 <= b < identities@.len() && #[trigger] linked_from(scan.notes@, identities@[b]@, p);
                assert(strs_view(identities@)[b] == identities@[b]@);
                assert(strs_view(identities@).contains(identities@[b]@));
            }
        }
        if exists|x: Seq<char>| is_identity(scan.notes@[k as int], x) && #[trigger] linked_from(scan.notes@, x, p) {
            let x = choose|x: Seq<char>| is_identity(scan.notes@[k as int], x) && #[trigger] linked_from(scan.notes@, x, p);
            assert(strs_view(identities@).contains(x));
            let b = choose|b: int| 0 <= b < strs_view(identities@).len() && strs_view(identities@)[b] == x;
            assert(linked_from(scan.notes@, identities@[b]@, p));
        }
    }
    Ok(NeighborNotesResult { path: normalized, outgoing_links: outgoing, backlinks })
}

/// `- link: [[`
pub open spec fn link_prefix() -> Seq<char> {
    seq!['-', ' ', 'l', 'i', 'n', 'k', ':', ' ', '[', '[']
}

/// The lines appended to an index for a new entry: a blank line, the heading
/// `## title`, a blank line, `- link: [[target]]`, and `- summary: text` when
/// a summary that is not blank is given.
pub open spec fn index_entry_text(title: Seq<char>, target: Seq<char>, summary: Option<Seq<char>>) -> Seq<char> {
    seq!['\n'] + crate::vault::index_docs::heading_marker() + trim(title) + seq!['\n', '\n'] + link_prefix()
        + target + seq![']', ']', '\n'] + match summary {
        Some(s) => if trim(s).len() > 0 {
            crate::vault::index_docs::summary_marker() + seq![' '] + trim(s) + seq!['\n']
        } else {
            seq![]
        },
        None => seq![],
    }
}

/// The result of `vault_append_index_entry`.
#[derive(Debug, Clone, PartialEq, Eq)]
pub struct AppendIndexEntryResult {
    pub index_path: String,
    pub target_path: String,
    pub written: bool,
    pub decision: String,
}

/// An index entry ready to be appended: the text to append and the tool's answer.
#[derive(Debug, Clone, PartialEq, Eq)]
pub struct IndexEntryAppend {
    pub entry: String,
    pub result: AppendIndexEntryResult,
}

/// Prepares `vault_append_index_entry`: both paths are normalized, the write
/// policy is asked, the index path is checked, and the entry text is built
/// (see `index_entry_text`). Appending it is the caller's part.
pub fn prepare_index_entry(index_path: &str, target_path: &str, title: &str, summary: Option<String>) -> (r: Result<
    IndexEntryAppend,
    ToolError,
>)
    ensures
        ({
            let ip = normalized_path(index_path@);
            let tp = normalized_path(target_path@);
            match markdown_path_result(ip) {
                Err(e) => r matches Err(te) && tool_error_view(te) == path_error_view(e),
                Ok(_) => r matches Ok(a) && a.result.index_path@ == ip && a.result.target_path@ == tp
                    && a.result.written && a.result.decision@ == "allow_automatic"@ && a.entry@
                    == index_entry_text(title@, tp, opt_view(summary)),
            }
        }),
{
    let index_n = normalize_relative_path(index_path);
    let target_n = normalize_relative_path(target_path);
    let operation = VaultWriteOperation::AddIndexEntry {
        index_path: index_n.clone(),
        target_path: target_n.clone(),
    };
    if VaultWritePolicy.decide(&operation) != WriteDecision::AllowAutomatic {
        return Err(
            ToolError::Execution(
                String::from_str("write policy requires confirmation for this index update"),
            ),
        );
    }
    match tool_markdown_path(index_n.as_str()) {
        Err(e) => {
            return Err(e);
        },
        Ok(_) => {},
    }
    let mut entry = String::from_str("\n## ");
    entry.append(crate::text::trim_str(title).as_str());
    entry.append("\n\n- link: [[");
    entry.append(target_n.as_str());
    entry.append("]]\n");
    let ghost head = entry@;
    proof {
        reveal_strlit("\n## ");
        reveal_strlit("\n\n- link: [[");
        reveal_strlit("]]\n");
    }
    match &summary {
        Some(s) => {
            if !is_blank(s.as_str()) {
                entry.append("- summary: ");
                entry.append(crate::text::trim_str(s.as_str()).as_str());
                entry.append("\n");
                proof {
                    reveal_strlit("- summary: ");
                    reveal_strlit("\n");
                }
            }
        },
        None => {},
    }
    assert(entry@ =~= index_entry_text(title@, target_n@, opt_view(summary)));
    Ok(
        IndexEntryAppend {
            entry,
            result: AppendIndexEntryResult {
                index_path: index_n,
                target_path: target_n,
                written: true,
                decision: String::from_str("allow_automatic"),
            },
        },
    )
}

} // verus!
