//! The confirmation queue: proposed note replacements that wait for the user.
use vstd::prelude::*;
use crate::sorting::{sort_by_key, sorted_by_key, with_key, Keyed};
use crate::text::{
    chars_of, contains_exec, contains_seq, is_ascii_alnum, is_ascii_alphanumeric, str_eq,
    string_of_range, strip_trailing, trim, trim_bounds,
};
use crate::vault::paths::{
    check_markdown_path, markdown_path_result, normalize_relative_path, normalized_path,
    path_error_message, strip_leading, PathError,
};
use crate::vault::wikilinks::opt_view;

verus! {

/// The pending confirmations, oldest first.
#[derive(Debug, Clone, PartialEq, Eq)]
pub struct ConfirmationQueue {
    pub items: Vec<ConfirmationItem>,
}

/// A proposed write that waits for the user's decision.
#[derive(Debug, Clone, PartialEq, Eq)]
pub struct ConfirmationItem {
    pub id: String,
    pub kind: ConfirmationKind,
    pub path: String,
    pub reason: Option<String>,
    pub original_content: String,
    pub proposed_content: String,
    pub created_at: String,
}

/// The kinds of writes that can wait for confirmation.
#[derive(Debug, Clone, Copy, PartialEq, Eq, Structural)]
pub enum ConfirmationKind {
    ReplaceNote,
}

/// A request to replace the whole content of an existing note.
#[derive(Debug, Clone, PartialEq, Eq)]
pub struct CreateReplaceNoteConfirmation {
    pub path: String,
    pub reason: Option<String>,
    pub proposed_content: String,
}

/// Why a confirmation request failed.
#[derive(Debug, Clone, PartialEq, Eq)]
pub enum ConfirmationError {
    /// The note path was refused.
    InvalidPath(PathError),
    /// The id cannot name a queue entry.
    InvalidId,
    /// No pending confirmation has this id.
    NotFound(String),
}

/// The message of a confirmation error.
pub open spec fn confirmation_error_message(e: ConfirmationError) -> Seq<char> {
    match e {
        ConfirmationError::InvalidPath(p) => path_error_message(p),
        ConfirmationError::InvalidId => "invalid confirmation id"@,
        ConfirmationError::NotFound(id) => "confirmation not found: "@ + id@,
    }
}

impl ConfirmationError {
    /// The message shown to the user.
    pub fn message(&self) -> (r: String)
        ensures
            r@ == confirmation_error_message(*self),
    {
        match self {
            ConfirmationError::InvalidPath(e) => e.message(),
            ConfirmationError::InvalidId => String::from_str("invalid confirmation id"),
            ConfirmationError::NotFound(id) => {
                let mut m = String::from_str("confirmation not found: ");
                m.append(id.as_str());
                m
            },
        }
    }
}

impl Keyed for ConfirmationItem {
    open spec fn key_view(&self) -> Seq<char> {
        self.created_at@
    }

    fn key(&self) -> (r: &str) {
        self.created_at.as_str()
    }
}

/// An id that can safely name a file of the queue: not blank, and without
/// `/`, `\`, `..` or `:`.
pub open spec fn valid_id(id: Seq<char>) -> bool {
    &&& trim(id).len() > 0
    &&& !contains_seq(id, seq!['/'])
    &&& !contains_seq(id, seq!['\\'])
    &&& !contains_seq(id, seq!['.', '.'])
    &&& !contains_seq(id, seq![':'])
}

/// Every character that is not an ASCII letter or digit turned into `-`.
pub open spec fn dash_non_alnum(s: Seq<char>) -> Seq<char> {
    s.map_values(|c: char| if is_ascii_alnum(c) { c } else { '-' })
}

/// A path turned into an id segment: non-alphanumerics become `-`, and leading
/// and trailing `-` are dropped.
pub open spec fn sanitized(s: Seq<char>) -> Seq<char> {
    strip_trailing(strip_leading(dash_non_alnum(s), '-'), '-')
}

/// The id of a confirmation created at `created_at` for `path`.
pub open spec fn confirmation_id(created_at: Seq<char>, path: Seq<char>) -> Seq<char> {
    created_at + seq!['-'] + sanitized(path)
}

/// Checks that `id` may name an entry of the queue.
pub fn validate_confirmation_id(id: &str) -> (r: Result<(), ConfirmationError>)
    ensures
        r is Ok <==> valid_id(id@),
        r matches Err(e) ==> e == ConfirmationError::InvalidId,
{
    let v = chars_of(id);
    assert(v@.subrange(0, v@.len() as int) =~= v@);
    let (a, b) = trim_bounds(&v, 0, v.len());
    let slash: Vec<char> = vec!['/'];
    let backslash: Vec<char> = vec!['\\'];
    let dots: Vec<char> = vec!['.', '.'];
    let colon: Vec<char> = vec![':'];
    assert(slash@ =~= seq!['/']);
    assert(backslash@ =~= seq!['\\']);
    assert(dots@ =~= seq!['.', '.']);
    assert(colon@ =~= seq![':']);
    if a == b || contains_exec(&v, &slash) || contains_exec(&v, &backslash) || contains_exec(&v, &dots)
        || contains_exec(&v, &colon) {
        return Err(ConfirmationError::InvalidId);
    }
    Ok(())
}

/// Turns a path into an id segment (see `sanitized`).
pub fn sanitize_id_segment(value: &str) -> (r: String)
    ensures
        r@ == sanitized(value@),
{
    let v = chars_of(value);
    let mut w: Vec<char> = Vec::new();
    let mut i: usize = 0;
    while i < v.len()
        invariant
            i <= v.len(),
            w@ == dash_non_alnum(v@.take(i as int)),
        decreases v.len() - i,
    {
        let c = v[i];
        if is_ascii_alphanumeric(c) {
            w.push(c);
        } else {
            w.push('-');
        }
        i = i + 1;
        assert(w@ =~= dash_non_alnum(v@.take(i as int)));
    }
    assert(v@.take(v@.len() as int) =~= v@);
    let mut a: usize = 0;
    assert(w@.skip(0) =~= w@);
    while a < w.len() && w[a] == '-'
        invariant
            a <= w.len(),
            strip_leading(w@, '-') == strip_leading(w@.skip(a as int), '-'),
        decreases w.len() - a,
    {
        assert(w@.skip(a as int).drop_first() =~= w@.skip(a + 1));
        a = a + 1;
    }
    let ghost u = w@.skip(a as int);
    assert(strip_leading(u, '-') == u);
    let mut b: usize = w.len();
    assert(u.take(u.len() as int) =~= u);
    while b > a && w[b - 1] == '-'
        invariant
            a <= b <= w.len(),
            u == w@.skip(a as int),
            strip_trailing(u, '-') == strip_trailing(u.take(b - a), '-'),
        decreases b,
    {
        assert(u.take(b - a).last() == w@[b - 1]);
        assert(u.take(b - a).drop_last() =~= u.take(b - 1 - a));
        b = b - 1;
    }
    if b > a {
        assert(u.take(b - a).last() == w@[b - 1]);
    }
    assert(u.take(b - a) =~= w@.subrange(a as int, b as int));
    string_of_range(&w, a, b)
}

/// What `create_replace_note_confirmation` answers: the path is normalized, then
/// checked, and the item takes its id from the creation time and the path.
pub open spec fn created_item_ok(
    proposal: CreateReplaceNoteConfirmation,
    original_content: Seq<char>,
    created_at: Seq<char>,
    item: ConfirmationItem,
) -> bool {
    let path = normalized_path(proposal.path@);
    &&& item.path@ == path
    &&& item.id@ == confirmation_id(created_at, path)
    &&& item.kind == ConfirmationKind::ReplaceNote
    &&& opt_view(item.reason) == opt_view(proposal.reason)
    &&& item.original_content@ == original_content
    &&& item.proposed_content@ == proposal.proposed_content@
    &&& item.created_at@ == created_at
}

/// Records a proposed replacement of an existing note, given the note's current
/// content and the creation time (as decimal nanoseconds since the epoch).
pub fn create_replace_note_confirmation(
    proposal: CreateReplaceNoteConfirmation,
    original_content: String,
    created_at: String,
) -> (r: Result<ConfirmationItem, ConfirmationError>)
    ensures
        match r {
            Ok(item) => markdown_path_result(normalized_path(proposal.path@)) is Ok
                && created_item_ok(proposal, original_content@, created_at@, item),
            Err(e) => markdown_path_result(normalized_path(proposal.path@)) matches Err(pe) && e
                == ConfirmationError::InvalidPath(pe),
        },
{
    let path = normalize_relative_path(proposal.path.as_str());
    match check_markdown_path(path.as_str()) {
        Err(e) => {
            return Err(ConfirmationError::InvalidPath(e));
        },
        Ok(_) => {},
    }
    let mut id = created_at.clone();
    id.append("-");
    let seg = sanitize_id_segment(path.as_str());
    id.append(seg.as_str());
    proof {
        reveal_strlit("-");
    }
    assert(id@ =~= confirmation_id(created_at@, path@));
    Ok(
        ConfirmationItem {
            id,
            kind: ConfirmationKind::ReplaceNote,
            path,
            reason: proposal.reason,
            original_content,
            proposed_content: proposal.proposed_content,
            created_at,
        },
    )
}

/// The queue as read from its files: ordered by creation time; items created
/// at the same time keep the order in which they were read.
pub fn list_confirmations(items: Vec<ConfirmationItem>) -> (r: ConfirmationQueue)
    ensures
        sorted_by_key(r.items@),
        forall|k: Seq<char>| #[trigger] with_key(r.items@, k) == with_key(items@, k),
        r.items@.to_multiset() == items@.to_multiset(),
{
    let sorted = sort_by_key(items);
    ConfirmationQueue { items: sorted }
}

/// The position of the first item of `items` from `i` on whose id is `id`.
pub open spec fn position_with_id(items: Seq<ConfirmationItem>, id: Seq<char>, i: int) -> Option<int>
    decreases items.len() - i,
{
    if i < 0 || i >= items.len() {
        None
    } else if items[i].id@ == id {
        Some(i)
    } else {
        position_with_id(items, id, i + 1)
    }
}

/// `position_with_id` finds the first item with the id, from `i` on.
pub proof fn lemma_position_with_id(items: Seq<ConfirmationItem>, id: Seq<char>, i: int)
    requires
        0 <= i,
    ensures
        match position_with_id(items, id, i) {
            Some(k) => i <= k < items.len() && items[k].id@ == id && forall|m: int|
                i <= m < k ==> #[trigger] items[m].id@ != id,
            None => forall|m: int| i <= m < items.len() ==> #[trigger] items[m].id@ != id,
        },
    decreases items.len() - i,
{
    if i < items.len() && items[i].id@ != id {
        lemma_position_with_id(items, id, i + 1);
    }
}

/// Index of the first item with id `id`.
fn position_of(queue: &ConfirmationQueue, id: &str) -> (r: Option<usize>)
    ensures
        match r {
            Some(k) => k < queue.items@.len() && position_with_id(queue.items@, id@, 0) == Some(k as int),
            None => position_with_id(queue.items@, id@, 0) is None,
        },
{
    proof {
        lemma_position_with_id(queue.items@, id@, 0);
    }
    let mut k: usize = 0;
    while k < queue.items.len()
        invariant
            k <= queue.items.len(),
            forall|m: int| 0 <= m < k ==> #[trigger] queue.items@[m].id@ != id@,
            match position_with_id(queue.items@, id@, 0) {
                Some(j) => 0 <= j < queue.items@.len() && queue.items@[j].id@ == id@ && forall|m: int|
                    0 <= m < j ==> #[trigger] queue.items@[m].id@ != id@,
                None => forall|m: int| 0 <= m < queue.items@.len() ==> #[trigger] queue.items@[m].id@ != id@,
            },
        decreases queue.items.len() - k,
    {
        if str_eq(queue.items[k].id.as_str(), id) {
            proof {
                if let Some(j) = position_with_id(queue.items@, id@, 0) {
                    if j < k {
                        assert(queue.items@[j].id@ != id@);
                    } else if j > k {
                        assert(queue.items@[k as int].id@ != id@);
                    }
                }
            }
            return Some(k);
        }
        k = k + 1;
    }
    None
}

/// What rejecting `id` answers for a queue holding `items`, and the items left.
pub open spec fn reject_outcome(
    items: Seq<ConfirmationItem>,
    id: Seq<char>,
    r: Result<ConfirmationItem, ConfirmationError>,
    left: Seq<ConfirmationItem>,
) -> bool {
    if !valid_id(id) {
        r == Err::<ConfirmationItem, ConfirmationError>(ConfirmationError::InvalidId) && left == items
    } else {
        match position_with_id(items, id, 0) {
            Some(k) => r == Ok::<ConfirmationItem, ConfirmationError>(items[k]) && left == items.remove(k),
            None => (r matches Err(ConfirmationError::NotFound(s)) && s@ == id) && left == items,
        }
    }
}

/// What applying `id` answers for a queue holding `items`, and the items left:
/// the item must still have a Markdown path inside the vault.
pub open spec fn apply_outcome(
    items: Seq<ConfirmationItem>,
    id: Seq<char>,
    r: Result<ConfirmationItem, ConfirmationError>,
    left: Seq<ConfirmationItem>,
) -> bool {
    if !valid_id(id) {
        r == Err::<ConfirmationItem, ConfirmationError>(ConfirmationError::InvalidId) && left == items
    } else {
        match position_with_id(items, id, 0) {
            Some(k) => match markdown_path_result(items[k].path@) {
                Ok(_) => r == Ok::<ConfirmationItem, ConfirmationError>(items[k]) && left == items.remove(k),
                Err(pe) => r == Err::<ConfirmationItem, ConfirmationError>(ConfirmationError::InvalidPath(pe))
                    && left == items,
            },
            None => (r matches Err(ConfirmationError::NotFound(s)) && s@ == id) && left == items,
        }
    }
}

/// Drops the pending confirmation `id` without writing anything.
pub fn reject_confirmation(queue: &mut ConfirmationQueue, id: &str) -> (r: Result<
    ConfirmationItem,
    ConfirmationError,
>)
    ensures
        reject_outcome(old(queue).items@, id@, r, final(queue).items@),
{
    if validate_confirmation_id(id).is_err() {
        return Err(ConfirmationError::InvalidId);
    }
    match position_of(queue, id) {
        None => Err(ConfirmationError::NotFound(String::from_str(id))),
        Some(k) => {
            let item = queue.items.remove(k);
            Ok(item)
        },
    }
}

/// Accepts the pending confirmation `id`: its note path must still be a Markdown
/// path inside the vault; the item leaves the queue and is returned so that its
/// proposed content can be written to its path.
pub fn apply_confirmation(queue: &mut ConfirmationQueue, id: &str) -> (r: Result<
    ConfirmationItem,
    ConfirmationError,
>)
    ensures
        apply_outcome(old(queue).items@, id@, r, final(queue).items@),
{
    if validate_confirmation_id(id).is_err() {
        return Err(ConfirmationError::InvalidId);
    }
    match position_of(queue, id) {
        None => Err(ConfirmationError::NotFound(String::from_str(id))),
        Some(k) => {
            match check_markdown_path(queue.items[k].path.as_str()) {
                Err(e) => Err(ConfirmationError::InvalidPath(e)),
                Ok(_) => {
                    let item = queue.items.remove(k);
                    Ok(item)
                },
            }
        },
    }
}

} // verus!
