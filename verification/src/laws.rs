//! Properties of the library that relate several of its functions.
use vstd::prelude::*;
use crate::text::{
    contains_seq, first_non_ws, is_ws, lemma_find_first, lemma_find_none, lemma_first_non_ws,
    lemma_lines_cons, lemma_occurs_char, lemma_trim_end_take, lemma_trim_idempotent, lemma_trim_shape,
    lemma_trim_start_skip, last_non_ws_end, lemma_last_non_ws_end, lines, occurs_at, strip_cr, trim,
};
use crate::tools::{index_entry_text, link_prefix};
use crate::vault::index_docs::{
    heading_marker, heading_title, index_entries, index_state, summary_marker, summary_of,
    };
use crate::vault::wikilinks::{link_of, wikilinks, wikilinks_from, LinkView};
use crate::text::{find_from, lemma_find_from, lemma_find_from_skip};
use crate::ask::session_id_of;
use crate::maintenance::checks::{broken_link_item, is_known_target, md_stem, note_items, scan_items};
use crate::maintenance::inbox::ItemView;
use crate::text::{is_ascii_alnum, strip_trailing};
use crate::tools::{
    all_matches, line_matches, lowercase, search_limit, search_result, truncated, MatchView, NoteText,
    MAX_SEARCH_RESULTS, MAX_SNIPPET_CHARS,
};
use crate::vault::confirmation::{
    confirmation_id, created_item_ok, dash_non_alnum, lemma_position_with_id, position_with_id,
    apply_outcome, reject_outcome, sanitized, valid_id, ConfirmationError, ConfirmationItem,
    CreateReplaceNoteConfirmation,
};
use crate::vault::paths::{
    last_component, last_slash, markdown_path_result, normalized_path, strip_leading, PathError,
};
use crate::text::{ends_with, replace_char};
use crate::vault::scanner::{file_note, note_view, MarkdownFile, ScannedNote};
use crate::vault::wikilinks::{links_view, opt_view};
use crate::vault::frontmatter::strs_view;

verus! {

/// `s` holds no `c`.
pub open spec fn lacks(s: Seq<char>, c: char) -> bool {
    forall|i: int| 0 <= i < s.len() ==> s[i] != c
}

/// The summary an index entry ends up with: the trimmed text, if it is not blank.
pub open spec fn kept_summary(summary: Option<Seq<char>>) -> Option<Seq<char>> {
    match summary {
        Some(s) => if trim(s).len() > 0 {
            Some(trim(s))
        } else {
            None
        },
        None => None,
    }
}

/// A sequence that starts and ends with characters other than white space is its own trim.
proof fn lemma_trim_fixed(s: Seq<char>)
    requires
        s.len() > 0,
        !is_ws(s[0]),
        !is_ws(s.last()),
    ensures
        trim(s) == s,
{
    lemma_trim_start_skip(s, 0);
    assert(s.skip(0) =~= s);
    lemma_trim_end_take(s, s.len() as int);
    assert(s.take(s.len() as int) =~= s);
}

/// The lines of the text appended for an index entry.
#[verifier::rlimit(100)]
#[verifier::spinoff_prover]
proof fn lemma_entry_lines(title: Seq<char>, target: Seq<char>, summary: Option<Seq<char>>) -> (r: (Seq<char>, Seq<Seq<char>>))
    requires
        lacks(trim(title), '\n'),
        lacks(target, '\n'),
        summary matches Some(s) ==> (trim(s).len() > 0 ==> lacks(trim(s), '\n')),
    ensures
        r.0 == index_entry_text(title, target, summary).skip(1),
        index_entry_text(title, target, summary)[0] == '\n',
        lines(r.0) == r.1,
        r.1 == seq![
            heading_marker() + trim(title),
            Seq::<char>::empty(),
            link_prefix() + target + seq![']', ']'],
        ] + match kept_summary(summary) {
            Some(ts) => seq![summary_marker() + seq![' '] + ts],
            None => Seq::<Seq<char>>::empty(),
        },
{
    let tt = trim(title);
    lemma_trim_shape(title);
    let h = heading_marker() + tt;
    let l = link_prefix() + target + seq![']', ']'];
    let nl = seq!['\n'];
    let empty = Seq::<char>::empty();
    let opt = match kept_summary(summary) {
        Some(ts) => summary_marker() + seq![' '] + ts + nl,
        None => empty,
    };
    let text = index_entry_text(title, target, summary);
    let rest = h + nl + (empty + nl + (l + nl + opt));
    assert(text =~= nl + rest);
    assert(text.skip(1) =~= rest);
    assert(lacks(h, '\n'));
    assert(lacks(l, '\n'));
    lemma_lines_cons(h, empty + nl + (l + nl + opt));
    lemma_lines_cons(empty, l + nl + opt);
    assert(empty + nl + (l + nl + opt) =~= empty + seq!['\n'] + (l + nl + opt));
    lemma_lines_cons(l, opt);
    assert(lines(empty) =~= Seq::<Seq<char>>::empty());
    assert(strip_cr(h) == h) by {
        if tt.len() > 0 {
            assert(h.last() == tt.last());
        } else {
            assert(h.last() == ' ');
        }
    }
    assert(strip_cr(empty) == empty);
    assert(strip_cr(l) == l) by {
        assert(l.last() == ']');
    }
    let ls_opt = match kept_summary(summary) {
        Some(ts) => seq![summary_marker() + seq![' '] + ts],
        None => Seq::<Seq<char>>::empty(),
    };
    match summary {
        Some(s) => {
            if trim(s).len() > 0 {
                let ts = trim(s);
                lemma_trim_shape(s);
                let sl = summary_marker() + seq![' '] + ts;
                assert(lacks(sl, '\n'));
                assert(opt =~= sl + nl + empty);
                lemma_lines_cons(sl, empty);
                assert(strip_cr(sl) == sl) by {
                    assert(sl.last() == ts.last());
                }
                assert(lines(opt) =~= ls_opt);
            } else {
                assert(lines(opt) =~= ls_opt);
            }
        },
        None => {
            assert(lines(opt) =~= ls_opt);
        },
    }
    let r1 = seq![h, empty, l] + ls_opt;
    assert(lines(rest) =~= r1);
    (rest, r1)
}

/// The links of the line `- link: [[target]]`.
proof fn lemma_link_line(target: Seq<char>)
    requires
        !contains_seq(target, seq![']', ']']),
        !(target.len() > 0 && target.last() == ']'),
        lacks(target, '|'),
        trim(target).len() > 0,
    ensures
        wikilinks(link_prefix() + target + seq![']', ']']) == seq![(trim(target), None::<Seq<char>>)],
        summary_of(link_prefix() + target + seq![']', ']']) is None,
        heading_title(link_prefix() + target + seq![']', ']']) is None,
{
    let l = link_prefix() + target + seq![']', ']'];
    let open = seq!['[', '['];
    let close = seq![']', ']'];
    let n = target.len() as int;
    assert(l.len() == 12 + n);
    assert(l.subrange(8, 10) =~= open);
    assert forall|j: int| 0 <= j < 8 implies !occurs_at(l, open, j) by {
        if occurs_at(l, open, j) {
            assert(l.subrange(j, j + 2)[0] == l[j]);
        }
    }
    lemma_find_first(l, open, 0, 8);
    assert(l.subrange(10 + n, 12 + n) =~= close);
    assert forall|j: int| 10 <= j < 10 + n implies !occurs_at(l, close, j) by {
        if occurs_at(l, close, j) {
            assert(l.subrange(j, j + 2)[0] == l[j]);
            assert(l.subrange(j, j + 2)[1] == l[j + 1]);
            assert(l[j] == target[j - 10]);
            if j + 1 < 10 + n {
                assert(l[j + 1] == target[j - 9]);
                assert(target.subrange(j - 10, j - 8) =~= close);
                assert(occurs_at(target, close, j - 10));
            } else {
                assert(target.last() == target[n - 1]);
            }
        }
    }
    lemma_find_first(l, close, 10, 10 + n);
    assert(l.subrange(10, 10 + n) =~= target);
    assert forall|j: int| 0 <= j implies !occurs_at(target, seq!['|'], j) by {
        lemma_occurs_char(target, '|', j);
    }
    lemma_find_none(target, seq!['|'], 0);
    assert(link_of(target) == Some((trim(target), None::<Seq<char>>)));
    assert(wikilinks_from(l, 12 + n) =~= Seq::<LinkView>::empty());
    assert(wikilinks(l) =~= seq![(trim(target), None::<Seq<char>>)]);
    assert(!is_ws(l[0]));
    assert(l.last() == ']');
    lemma_trim_fixed(l);
    assert(l.take(10)[2] != summary_marker()[2]);
    assert(l.take(3)[0] != heading_marker()[0]);
}

/// The line `- summary: text` gives `text` as summary.
proof fn lemma_summary_line(s: Seq<char>)
    requires
        trim(s).len() > 0,
    ensures
        summary_of(summary_marker() + seq![' '] + trim(s)) == Some(trim(s)),
        heading_title(summary_marker() + seq![' '] + trim(s)) is None,
{
    let ts = trim(s);
    lemma_trim_shape(s);
    let sl = summary_marker() + seq![' '] + ts;
    assert(!is_ws(sl[0]));
    assert(sl.last() == ts.last());
    lemma_trim_fixed(sl);
    assert(sl.take(10) =~= summary_marker());
    let u = sl.skip(10);
    assert(u =~= seq![' '] + ts);
    lemma_trim_start_skip(u, 1);
    assert(u.skip(1) =~= ts);
    lemma_trim_end_take(ts, ts.len() as int);
    assert(ts.take(ts.len() as int) =~= ts);
    assert(sl.take(3)[0] != heading_marker()[0]);
}

/// The lines of `a` when a line break follows it: a last blank line when `a`
/// is empty or ends with a line break, else its last line loses a final `\r`.
pub open spec fn lines_then_break(a: Seq<char>) -> Seq<Seq<char>> {
    if a.len() == 0 || a.last() == '\n' {
        lines(a).push(Seq::<char>::empty())
    } else {
        lines(a).drop_last().push(strip_cr(lines(a).last()))
    }
}

/// A text that is not empty has a line.
proof fn lemma_lines_nonempty(a: Seq<char>)
    requires
        a.len() > 0,
    ensures
        lines(a).len() > 0,
{
    lemma_find_from(a, seq!['\n'], 0);
}

/// The lines of `a`, a line break, then `b`.
proof fn lemma_lines_break(a: Seq<char>, b: Seq<char>)
    ensures
        lines(a + seq!['\n'] + b) == lines_then_break(a) + lines(b),
    decreases a.len(),
{
    let nl = seq!['\n'];
    lemma_find_from(a, nl, 0);
    match find_from(a, nl, 0) {
        None => {
            assert forall|i: int| 0 <= i < a.len() implies a[i] != '\n' by {
                lemma_occurs_char(a, '\n', i);
            }
            lemma_lines_cons(a, b);
            if a.len() == 0 {
                assert(lines(a) =~= Seq::<Seq<char>>::empty());
                assert(strip_cr(a) =~= Seq::<char>::empty());
            } else {
                assert(a.subrange(0, a.len() as int) =~= a);
                assert(lines(a) =~= seq![a]);
                assert(a.last() == a[a.len() - 1]);
            }
            assert(lines(a + nl + b) =~= lines_then_break(a) + lines(b));
        },
        Some(f) => {
            lemma_occurs_char(a, '\n', f);
            let a1 = a.take(f);
            let a2 = a.skip(f + 1);
            assert forall|i: int| 0 <= i < a1.len() implies a1[i] != '\n' by {
                lemma_occurs_char(a, '\n', i);
            }
            assert(a =~= a1 + nl + a2);
            assert(a + nl + b =~= a1 + nl + (a2 + nl + b));
            lemma_lines_cons(a1, a2 + nl + b);
            lemma_lines_cons(a1, a2);
            lemma_lines_break(a2, b);
            let c = strip_cr(a1);
            if a2.len() == 0 {
                assert(a.last() == '\n');
                assert(lines(a2) =~= Seq::<Seq<char>>::empty());
                assert(lines(a) =~= seq![c]);
            } else {
                assert(a.last() == a2.last());
                lemma_lines_nonempty(a2);
                if a2.last() != '\n' {
                    assert(lines(a).last() == lines(a2).last());
                    assert(lines(a).drop_last() =~= seq![c] + lines(a2).drop_last());
                }
            }
            assert(lines(a + nl + b) =~= lines_then_break(a) + lines(b));
        },
    }
}

/// The index state after `n` lines depends only on those lines.
proof fn lemma_index_state_prefix(a: Seq<Seq<char>>, b: Seq<Seq<char>>, n: int)
    requires
        0 <= n <= a.len(),
        n <= b.len(),
        forall|i: int| 0 <= i < n ==> a[i] == b[i],
    ensures
        index_state(a, n) == index_state(b, n),
    decreases n,
{
    if n > 0 {
        lemma_index_state_prefix(a, b, n - 1);
        assert(a[n - 1] == b[n - 1]);
    }
}

/// White space at the end does not change the trim.
proof fn lemma_trim_push_ws(s: Seq<char>, c: char)
    requires
        is_ws(c),
    ensures
        trim(s.push(c)) == trim(s),
{
    let t = s.push(c);
    let k = first_non_ws(s, 0);
    lemma_first_non_ws(s, 0);
    if k == s.len() {
        lemma_trim_start_skip(t, t.len() as int);
        lemma_trim_start_skip(s, k);
        assert(t.skip(t.len() as int) =~= Seq::<char>::empty());
        assert(s.skip(k) =~= Seq::<char>::empty());
    } else {
        lemma_trim_start_skip(t, k);
        lemma_trim_start_skip(s, k);
        let u = s.skip(k);
        assert(t.skip(k) =~= u.push(c));
        assert(u.push(c).drop_last() =~= u);
    }
}

/// Adding a character that is not `p[1]` adds no occurrence of the pair `p`.
proof fn lemma_find_pair_push(s: Seq<char>, p: Seq<char>, c: char, i: int)
    requires
        p.len() == 2,
        p[1] != c,
        0 <= i,
    ensures
        find_from(s.push(c), p, i) == find_from(s, p, i),
    decreases s.len() + 1 - i,
{
    let t = s.push(c);
    if i + 2 <= t.len() {
        if i + 2 <= s.len() {
            assert(t.subrange(i, i + 2) =~= s.subrange(i, i + 2));
        } else {
            assert(t.subrange(i, i + 2)[1] == c);
        }
        lemma_find_pair_push(s, p, c, i + 1);
    }
}

/// Adding a character that is not a bracket adds no link.
proof fn lemma_wikilinks_push(s: Seq<char>, c: char, pos: int)
    requires
        c != '[',
        c != ']',
        0 <= pos,
    ensures
        wikilinks_from(s.push(c), pos) == wikilinks_from(s, pos),
    decreases s.len() + 1 - pos,
{
    let t = s.push(c);
    let open = seq!['[', '['];
    let close = seq![']', ']'];
    if pos <= s.len() {
        lemma_find_pair_push(s, open, c, pos);
        if let Some(st) = find_from(s, open, pos) {
            lemma_find_from(s, open, pos);
            lemma_find_pair_push(s, close, c, st + 2);
            if let Some(en) = find_from(s, close, st + 2) {
                lemma_find_from(s, close, st + 2);
                assert(t.subrange(st + 2, en) =~= s.subrange(st + 2, en));
                lemma_wikilinks_push(s, c, en + 2);
            }
        }
    } else if pos == t.len() {
        lemma_find_from(t, open, pos);
    }
}

/// A final `\r` changes nothing in how an index reads a line.
proof fn lemma_index_line_cr(l: Seq<char>)
    ensures
        heading_title(strip_cr(l)) == heading_title(l),
        wikilinks(strip_cr(l)) == wikilinks(l),
        summary_of(strip_cr(l)) == summary_of(l),
{
    if l.len() > 0 && l.last() == '\r' {
        let m = l.drop_last();
        assert(l =~= m.push('\r'));
        lemma_wikilinks_push(m, '\r', 0);
        lemma_trim_push_ws(m, '\r');
        if m.len() >= 3 {
            assert(l.take(3) =~= m.take(3));
            assert(l.skip(3) =~= m.skip(3).push('\r'));
            lemma_trim_push_ws(m.skip(3), '\r');
        } else if l.len() == 3 {
            assert(l.take(3)[2] == '\r');
            assert(heading_marker()[2] == ' ');
        }
    }
}

/// The lines of a document, a line break, then more: the index state after the
/// document's part is the state of the document alone.
proof fn lemma_lines_after_doc(doc: Seq<char>, rest: Seq<char>)
    ensures
        lines(doc + seq!['\n'] + rest) == lines_then_break(doc) + lines(rest),
        index_state(lines(doc + seq!['\n'] + rest), lines_then_break(doc).len() as int) == index_state(
            lines(doc),
            lines(doc).len() as int,
        ),
{
    lemma_lines_break(doc, rest);
    let x = lines_then_break(doc);
    let ls = lines(doc + seq!['\n'] + rest);
    let k = x.len() as int;
    let ld = lines(doc);
    let nd = ld.len() as int;
    lemma_index_state_prefix(ls, x, k);
    if doc.len() == 0 || doc.last() == '\n' {
        lemma_index_state_prefix(x, ld, nd);
        let empty0 = Seq::<char>::empty();
        assert(x[nd] == empty0);
        assert(heading_title(empty0) is None);
        assert(wikilinks(empty0) =~= Seq::<LinkView>::empty());
        assert(trim(empty0) =~= empty0);
        assert(summary_of(empty0) is None);
        let st = index_state(ld, nd);
        if let Some(c) = st.1 {
            assert(c.1 + wikilinks(empty0) =~= c.1);
        }
        assert(index_state(x, k) == index_state(ld, nd));
    } else {
        lemma_lines_nonempty(doc);
        lemma_index_state_prefix(x, ld, nd - 1);
        lemma_index_line_cr(ld.last());
        assert(x[nd - 1] == strip_cr(ld[nd - 1]));
        assert(index_state(x, k) == index_state(ld, nd));
    }
}

/// White space in front does not change the trim.
proof fn lemma_trim_ws_cons(c: char, s: Seq<char>)
    requires
        is_ws(c),
    ensures
        trim(seq![c] + s) == trim(s),
{
    assert((seq![c] + s).drop_first() =~= s);
}

/// Cutting trailing white space does not change the trim.
proof fn lemma_trim_take_ws(y: Seq<char>, m: int)
    requires
        0 <= m <= y.len(),
        forall|i: int| m <= i < y.len() ==> is_ws(#[trigger] y[i]),
    ensures
        trim(y.take(m)) == trim(y),
{
    let w = y.take(m);
    let k = first_non_ws(y, 0);
    lemma_first_non_ws(y, 0);
    if k >= m {
        assert(k == y.len()) by {
            if k < y.len() {
                assert(is_ws(y[k]));
            }
        }
        assert forall|i: int| 0 <= i < w.len() implies is_ws(#[trigger] w[i]) by {
            assert(w[i] == y[i]);
        }
        lemma_trim_start_skip(y, k);
        lemma_trim_start_skip(w, m);
        assert(y.skip(k) =~= Seq::<char>::empty());
        assert(w.skip(m) =~= Seq::<char>::empty());
    } else {
        assert forall|i: int| 0 <= i < k implies is_ws(#[trigger] w[i]) by {
            assert(w[i] == y[i]);
        }
        assert(w[k] == y[k]);
        lemma_trim_start_skip(y, k);
        lemma_trim_start_skip(w, k);
        let u = y.skip(k);
        let v = w.skip(k);
        let e = last_non_ws_end(u, u.len() as int);
        lemma_last_non_ws_end(u, u.len() as int);
        assert(u[0] == y[k]);
        assert(e > 0);
        assert(e <= m - k) by {
            if e > m - k {
                assert(u[e - 1] == y[k + e - 1]);
            }
        }
        assert forall|i: int| e <= i < v.len() implies is_ws(#[trigger] v[i]) by {
            assert(v[i] == u[i]);
        }
        assert(v[e - 1] == u[e - 1]);
        lemma_trim_end_take(u, e);
        lemma_trim_end_take(v, e);
        assert(u.take(e) =~= v.take(e));
    }
}

/// The line `- summary: s` gives the trimmed `s` as summary, whatever `s` is.
proof fn lemma_summary_line_any(s: Seq<char>)
    ensures
        summary_of(summary_marker() + seq![' '] + s) == Some(trim(s)),
        heading_title(summary_marker() + seq![' '] + s) is None,
{
    let mk = summary_marker();
    let u = seq![' '] + s;
    let line = mk + u;
    assert(line =~= summary_marker() + seq![' '] + s);
    assert(line[0] == '-');
    lemma_trim_start_skip(line, 0);
    assert(line.skip(0) =~= line);
    let m = last_non_ws_end(line, line.len() as int);
    lemma_last_non_ws_end(line, line.len() as int);
    assert(line[9] == ':');
    assert(m >= 10) by {
        if m < 10 {
            assert(is_ws(line[9]));
        }
    }
    lemma_trim_end_take(line, m);
    let tl = line.take(m);
    assert(tl.take(10) =~= mk);
    assert(tl.skip(10) =~= u.take(m - 10));
    assert forall|i: int| m - 10 <= i < u.len() implies is_ws(#[trigger] u[i]) by {
        assert(u[i] == line[i + 10]);
    }
    lemma_trim_take_ws(u, m - 10);
    lemma_trim_ws_cons(' ', s);
    assert(line.take(3)[0] != heading_marker()[0]);
}

/// The block `## t`, a blank line, `- link: [[q]]` and `- summary: s`, each
/// line ended by a line break, after a line break.
pub open spec fn index_block(t: Seq<char>, q: Seq<char>, s: Seq<char>) -> Seq<char> {
    seq!['\n'] + heading_marker() + t + seq!['\n', '\n'] + link_prefix() + q + seq![']', ']', '\n']
        + summary_marker() + seq![' '] + s + seq!['\n']
}

/// Appending an index block `## t`, a blank line, `- link: [[q]]` and
/// `- summary: s` gives the entries of the index as they were, then the
/// block's entry: the trimmed title, the one link to the trimmed target, and
/// the trimmed summary (empty when the summary is blank). This holds for a
/// title and a summary on one line, a summary line that holds no wikilink, and
/// a target on one line, not blank, without `|` or `]]`, that does not end
/// with `]`.
#[verifier::rlimit(60)]
pub proof fn law_appended_index_block_reads_back(doc: Seq<char>, t: Seq<char>, q: Seq<char>, s: Seq<char>)
    requires
        lacks(t, '\n'),
        lacks(q, '\n'),
        lacks(q, '|'),
        !contains_seq(q, seq![']', ']']),
        !(q.len() > 0 && q.last() == ']'),
        trim(q).len() > 0,
        lacks(s, '\n'),
        wikilinks(summary_marker() + seq![' '] + s).len() == 0,
    ensures
        ({
            let entries = index_entries(doc + index_block(t, q, s));
            entries.len() > 0 && entries.drop_last() == index_entries(doc) && entries.last() == (
                trim(t),
                seq![(trim(q), None::<Seq<char>>)],
                Some(trim(s)),
            )
        }),
{
    let h = heading_marker() + t;
    let l = link_prefix() + q + seq![']', ']'];
    let sl = summary_marker() + seq![' '] + s;
    let empty = Seq::<char>::empty();
    let nl = seq!['\n'];
    let rest = h + nl + (empty + nl + (l + nl + (sl + nl + empty)));
    assert(index_block(t, q, s) =~= nl + rest);
    assert(doc + index_block(t, q, s) =~= doc + nl + rest);
    assert(lacks(h, '\n'));
    assert(lacks(l, '\n'));
    assert(lacks(sl, '\n'));
    lemma_lines_cons(h, empty + nl + (l + nl + (sl + nl + empty)));
    lemma_lines_cons(empty, l + nl + (sl + nl + empty));
    assert(empty + nl + (l + nl + (sl + nl + empty)) =~= empty + seq!['\n'] + (l + nl + (sl + nl + empty)));
    lemma_lines_cons(l, sl + nl + empty);
    lemma_lines_cons(sl, empty);
    assert(lines(empty) =~= Seq::<Seq<char>>::empty());
    assert(strip_cr(empty) == empty);
    assert(strip_cr(l) == l) by {
        assert(l.last() == ']');
    }
    let tail = seq![strip_cr(h), empty, l, strip_cr(sl)];
    assert(lines(rest) =~= tail);
    lemma_lines_after_doc(doc, rest);
    let x = lines_then_break(doc);
    let ls = lines(doc + index_block(t, q, s));
    assert(ls == x + tail);
    let k = x.len() as int;
    assert(ls.len() == k + 4);
    assert(ls[k] == strip_cr(h));
    assert(ls[k + 1] == empty);
    assert(ls[k + 2] == l);
    assert(ls[k + 3] == strip_cr(sl));
    // The heading opens the entry.
    let tt = trim(t);
    assert(h.take(3) =~= heading_marker());
    assert(h.skip(3) =~= t);
    lemma_index_line_cr(h);
    assert(heading_title(strip_cr(h)) == Some(tt));
    let st0 = index_state(ls, k);
    let done1 = match st0.1 {
        Some(e0) => st0.0.push(e0),
        None => st0.0,
    };
    assert(index_state(ls, k + 1) == (done1, Some((tt, Seq::<LinkView>::empty(), None::<Seq<char>>))));
    // The blank line changes nothing.
    assert(heading_title(empty) is None);
    assert(wikilinks(empty) =~= Seq::<LinkView>::empty());
    assert(trim(empty) =~= empty);
    assert(summary_of(empty) is None);
    assert(Seq::<LinkView>::empty() + wikilinks(empty) =~= Seq::<LinkView>::empty());
    assert(index_state(ls, k + 2) == (done1, Some((tt, Seq::<LinkView>::empty(), None::<Seq<char>>))));
    // The link line adds the link.
    lemma_link_line(q);
    let links1 = seq![(trim(q), None::<Seq<char>>)];
    assert(Seq::<LinkView>::empty() + wikilinks(l) =~= links1);
    assert(index_state(ls, k + 3) == (done1, Some((tt, links1, None::<Seq<char>>))));
    // The summary line sets the summary.
    lemma_summary_line_any(s);
    lemma_index_line_cr(sl);
    assert(wikilinks(strip_cr(sl)) =~= Seq::<LinkView>::empty());
    assert(links1 + wikilinks(strip_cr(sl)) =~= links1);
    assert(index_state(ls, k + 4) == (done1, Some((tt, links1, Some(trim(s))))));
}

/// Appending an index entry and reading the index back gives the entries of
/// the index as they were, then that entry: its trimmed title, the one link to
/// the target, and the summary if it is not blank. This holds when the trimmed title fits on one line; the target is on
/// one line, not blank, without `|` or `]]`, and does not end with `]`; and the
/// trimmed summary, if any, fits on one line and its line holds no wikilink.
#[verifier::rlimit(60)]
pub proof fn law_appended_index_entry_reads_back(
    doc: Seq<char>,
    title: Seq<char>,
    target: Seq<char>,
    summary: Option<Seq<char>>,
)
    requires
        lacks(trim(title), '\n'),
        lacks(target, '\n'),
        lacks(target, '|'),
        !contains_seq(target, seq![']', ']']),
        !(target.len() > 0 && target.last() == ']'),
        trim(target).len() > 0,
        summary matches Some(s) ==> (trim(s).len() > 0 ==> lacks(trim(s), '\n') && wikilinks(
            summary_marker() + seq![' '] + trim(s),
        ).len() == 0),
    ensures
        ({
            let entries = index_entries(doc + index_entry_text(title, target, summary));
            entries.len() > 0 && entries.drop_last() == index_entries(doc) && entries.last() == (
                trim(title),
                seq![(trim(target), None::<Seq<char>>)],
                kept_summary(summary),
            )
        }),
{
    let e = index_entry_text(title, target, summary);
    let (rest, tail) = lemma_entry_lines(title, target, summary);
    let s = doc + e;
    assert(e =~= seq!['\n'] + rest);
    assert(s =~= doc + seq!['\n'] + rest);
    lemma_lines_after_doc(doc, rest);
    let x = lines_then_break(doc);
    let ls = lines(s);
    assert(ls == x + tail);
    let k = x.len() as int;
    let tt = trim(title);
    let h = heading_marker() + tt;
    let l = link_prefix() + target + seq![']', ']'];
    let empty = Seq::<char>::empty();
    assert(ls[k] == h);
    assert(ls[k + 1] == empty);
    assert(ls[k + 2] == l);
    // The heading opens the entry.
    lemma_trim_idempotent(title);
    assert(h.take(3) =~= heading_marker());
    assert(h.skip(3) =~= tt);
    assert(heading_title(h) == Some(tt));
    let st0 = index_state(ls, k);
    let done1 = match st0.1 {
        Some(e0) => st0.0.push(e0),
        None => st0.0,
    };
    assert(index_state(ls, k + 1) == (done1, Some((tt, Seq::<LinkView>::empty(), None::<Seq<char>>))));
    // The blank line changes nothing.
    assert(heading_title(empty) is None);
    assert(wikilinks(empty) =~= Seq::<LinkView>::empty());
    assert(trim(empty) =~= empty);
    assert(summary_of(empty) is None);
    let links0 = Seq::<LinkView>::empty() + wikilinks(empty);
    assert(links0 =~= Seq::<LinkView>::empty());
    assert(index_state(ls, k + 2) == (done1, Some((tt, Seq::<LinkView>::empty(), None::<Seq<char>>))));
    // The link line adds the link.
    lemma_link_line(target);
    let links1 = seq![(trim(target), None::<Seq<char>>)];
    assert(Seq::<LinkView>::empty() + wikilinks(l) =~= links1);
    assert(index_state(ls, k + 3) == (done1, Some((tt, links1, None::<Seq<char>>))));
    match kept_summary(summary) {
        Some(ts) => {
            let sv = summary->Some_0;
            lemma_summary_line(sv);
            let sl = summary_marker() + seq![' '] + ts;
            assert(ls.len() == k + 4);
            assert(ls[k + 3] == sl);
            assert(wikilinks(sl) =~= Seq::<LinkView>::empty());
            assert(links1 + wikilinks(sl) =~= links1);
            assert(index_state(ls, k + 4) == (done1, Some((tt, links1, Some(ts)))));
        },
        None => {
            assert(ls.len() == k + 3);
        },
    }
}

/// An ASCII digit.
pub open spec fn is_digit(c: char) -> bool {
    0x30 <= (c as u32) && (c as u32) <= 0x39
}

/// Every character of a sanitized id segment is an ASCII letter, a digit or
/// `-`, and the segment neither starts nor ends with `-`.
pub proof fn law_sanitized_segment_shape(s: Seq<char>)
    ensures
        forall|i: int|
            0 <= i < sanitized(s).len() ==> is_ascii_alnum(#[trigger] sanitized(s)[i]) || sanitized(s)[i] == '-',
        sanitized(s).len() > 0 ==> sanitized(s)[0] != '-' && sanitized(s).last() != '-',
{
    let d = dash_non_alnum(s);
    assert forall|i: int| 0 <= i < d.len() implies is_ascii_alnum(#[trigger] d[i]) || d[i] == '-' by {}
    let (a, u) = lemma_strip_leading_shape(d, '-');
    let (b, w) = lemma_strip_trailing_shape(u, '-');
    assert(sanitized(s) == w);
    assert forall|i: int| 0 <= i < w.len() implies is_ascii_alnum(#[trigger] w[i]) || w[i] == '-' by {
        assert(w[i] == u[i]);
        assert(u[i] == d[a + i]);
    }
    if w.len() > 0 {
        assert(w[0] == u[0]);
    }
}

/// Leading `c` removed: a suffix of `s` that does not start with `c`.
proof fn lemma_strip_leading_shape(s: Seq<char>, c: char) -> (r: (int, Seq<char>))
    ensures
        0 <= r.0 <= s.len(),
        r.1 == s.skip(r.0),
        r.1 == strip_leading(s, c),
        r.1.len() > 0 ==> r.1[0] != c,
    decreases s.len(),
{
    if s.len() > 0 && s[0] == c {
        let (a, u) = lemma_strip_leading_shape(s.drop_first(), c);
        assert(s.drop_first().skip(a) =~= s.skip(a + 1));
        (a + 1, u)
    } else {
        assert(s.skip(0) =~= s);
        (0, s)
    }
}

/// Trailing `c` removed: a prefix of `s` that does not end with `c`.
proof fn lemma_strip_trailing_shape(s: Seq<char>, c: char) -> (r: (int, Seq<char>))
    ensures
        0 <= r.0 <= s.len(),
        r.1 == s.take(r.0),
        r.1 == strip_trailing(s, c),
        r.1.len() > 0 ==> r.1.last() != c,
        r.1.len() > 0 && s.len() > 0 ==> r.1[0] == s[0],
    decreases s.len(),
{
    if s.len() > 0 && s.last() == c {
        let (b, u) = lemma_strip_trailing_shape(s.drop_last(), c);
        assert(s.drop_last().take(b) =~= s.take(b));
        (b, u)
    } else {
        assert(s.take(s.len() as int) =~= s);
        (s.len() as int, s)
    }
}

/// A note path that passed the check passes it again, unchanged: checking is
/// stable on its own results (tools and the confirmation queue check paths that
/// were normalized before). This holds unless the checked path begins with
/// white space (a leading `/` can leave some in front), which the second
/// normalization trims away.
pub proof fn law_checked_paths_pass_again(p: Seq<char>)
    requires
        markdown_path_result(p) is Ok,
        !(normalized_path(p).len() > 0 && is_ws(normalized_path(p)[0])),
    ensures
        markdown_path_result(normalized_path(p)) == Ok::<Seq<char>, PathError>(normalized_path(p)),
{
    let n = normalized_path(p);
    let r = replace_char(trim(p), '\\', '/');
    let (k, u) = lemma_strip_leading_shape(r, '/');
    assert(u == n);
    assert(ends_with(n, seq!['.', 'm', 'd']));
    assert(n.len() >= 3);
    assert(n.last() == n.skip(n.len() - 3)[2]);
    assert(!is_ws(n.last()));
    lemma_trim_fixed(n);
    assert forall|i: int| 0 <= i < n.len() implies n[i] != '\\' by {
        assert(n[i] == r[k + i]);
    }
    assert(replace_char(n, '\\', '/') =~= n);
    assert(strip_leading(n, '/') == n);
}

/// The id of a confirmation created at a time written in decimal digits can
/// always name a queue entry, whatever the note path.
pub proof fn law_created_ids_are_valid(created_at: Seq<char>, path: Seq<char>)
    requires
        created_at.len() > 0,
        forall|i: int| 0 <= i < created_at.len() ==> is_digit(#[trigger] created_at[i]),
    ensures
        valid_id(confirmation_id(created_at, path)),
{
    let seg = sanitized(path);
    law_sanitized_segment_shape(path);
    let id = confirmation_id(created_at, path);
    assert(id =~= created_at + seq!['-'] + seg);
    assert forall|i: int| 0 <= i < id.len() implies is_ascii_alnum(#[trigger] id[i]) || id[i] == '-' by {
        if i < created_at.len() {
            assert(id[i] == created_at[i]);
            assert(is_digit(created_at[i]));
        } else if i > created_at.len() {
            assert(id[i] == seg[i - created_at.len() - 1]);
        }
    }
    assert forall|p: Seq<char>, j: int| p.len() > 0 && (p[0] == '/' || p[0] == '\\' || p[0] == '.' || p[0] == ':')
        implies !occurs_at(id, p, j) by {
        if occurs_at(id, p, j) {
            assert(id.subrange(j, j + p.len())[0] == id[j]);
            assert(is_ascii_alnum(id[j]) || id[j] == '-');
        }
    }
    assert(!contains_seq(id, seq!['/']));
    assert(!contains_seq(id, seq!['\\']));
    assert(!contains_seq(id, seq!['.', '.']));
    assert(!contains_seq(id, seq![':']));
    assert(!is_ws(id[0])) by {
        assert(id[0] == created_at[0]);
        assert(is_digit(created_at[0]));
    }
    lemma_trim_start_skip(id, 0);
    assert(id.skip(0) =~= id);
    lemma_trim_shape(id);
}

/// A session id never holds `/` or `\\`, so it cannot name a path outside
/// the sessions directory.
pub proof fn law_session_ids_have_no_separators(name: Seq<char>)
    ensures
        lacks(session_id_of(name), '/'),
        lacks(session_id_of(name), '\\'),
{
}

/// A search returns at most as many matches as asked for, and never more than
/// `MAX_SEARCH_RESULTS`.
pub proof fn law_search_is_bounded(query: Seq<char>, limit: Option<usize>, notes: Seq<NoteText>)
    ensures
        search_result(query, limit, notes) matches Some((q, ms)) ==> ms.len() <= search_limit(limit)
            && search_limit(limit) <= MAX_SEARCH_RESULTS,
{
}

/// In a vault where every link names some note by title or file stem, the
/// maintenance scan reports nothing.
pub proof fn law_no_items_when_every_link_resolves(notes: Seq<ScannedNote>)
    requires
        forall|k: int, l: int|
            0 <= k < notes.len() && 0 <= l < notes[k].links@.len() ==> is_known_target(
                notes,
                #[trigger] notes[k].links@[l].target@,
            ),
    ensures
        scan_items(notes, notes.len() as int) == Seq::<ItemView>::empty(),
{
    lemma_scan_items_empty(notes, notes.len() as int);
}

proof fn lemma_note_items_empty(notes: Seq<ScannedNote>, k: int, j: int)
    requires
        0 <= k < notes.len(),
        0 <= j <= notes[k].links@.len(),
        forall|l: int| 0 <= l < notes[k].links@.len() ==> is_known_target(notes, #[trigger] notes[k].links@[l].target@),
    ensures
        note_items(notes, notes[k], j) == Seq::<ItemView>::empty(),
    decreases j,
{
    if j > 0 {
        lemma_note_items_empty(notes, k, j - 1);
    }
}

proof fn lemma_scan_items_empty(notes: Seq<ScannedNote>, i: int)
    requires
        0 <= i <= notes.len(),
        forall|k: int, l: int|
            0 <= k < notes.len() && 0 <= l < notes[k].links@.len() ==> is_known_target(
                notes,
                #[trigger] notes[k].links@[l].target@,
            ),
    ensures
        scan_items(notes, i) == Seq::<ItemView>::empty(),
    decreases i,
{
    if i > 0 {
        lemma_scan_items_empty(notes, i - 1);
        lemma_note_items_empty(notes, i - 1, notes[i - 1].links@.len() as int);
        assert(scan_items(notes, i) =~= Seq::<ItemView>::empty());
    }
}

/// The links from position `k + i` of `s` are the links from `i` of `s.skip(k)`.
proof fn lemma_wikilinks_from_skip(s: Seq<char>, k: int, i: int)
    requires
        0 <= k <= s.len(),
        0 <= i,
    ensures
        wikilinks_from(s, k + i) == wikilinks_from(s.skip(k), i),
    decreases s.len() - (k + i),
{
    let t = s.skip(k);
    let open = seq!['[', '['];
    let close = seq![']', ']'];
    if k + i <= s.len() {
        lemma_find_from_skip(s, open, k, i);
        if let Some(st) = find_from(t, open, i) {
            lemma_find_from(t, open, i);
            lemma_find_from_skip(s, close, k, st + 2);
            if let Some(en) = find_from(t, close, st + 2) {
                lemma_find_from(t, close, st + 2);
                assert(s.subrange(st + k + 2, en + k) =~= t.subrange(st + 2, en));
                lemma_wikilinks_from_skip(s, k, en + 2);
            }
        }
    }
}

/// The first `[[` of `u + r` is where `r` starts with one, when `u` opens none.
proof fn lemma_first_open(u: Seq<char>, r: Seq<char>)
    requires
        !contains_seq(u, seq!['[', '[']),
        !(u.len() > 0 && u.last() == '['),
        r.len() >= 2,
        r[0] == '[',
        r[1] == '[',
    ensures
        find_from(u + r, seq!['[', '['], 0) == Some(u.len() as int),
{
    let open = seq!['[', '['];
    let s = u + r;
    let n = u.len() as int;
    assert(s.subrange(n, n + 2) =~= open);
    assert forall|j: int| 0 <= j < n implies !occurs_at(s, open, j) by {
        if occurs_at(s, open, j) {
            assert(s.subrange(j, j + 2)[0] == s[j]);
            assert(s.subrange(j, j + 2)[1] == s[j + 1]);
            if j + 1 < n {
                assert(u.subrange(j, j + 2) =~= open);
                assert(occurs_at(u, open, j));
            } else {
                assert(u.last() == u[n - 1]);
            }
        }
    }
    lemma_find_first(s, open, 0, n);
}

/// In `p + x + "]]" + b`, the first `]]` from `p.len()` is the one after `x`,
/// when `x` does not close a link early.
proof fn lemma_first_close(p: Seq<char>, x: Seq<char>, b: Seq<char>)
    requires
        !contains_seq(x, seq![']', ']']),
        !(x.len() > 0 && x.last() == ']'),
    ensures
        find_from(p + x + seq![']', ']'] + b, seq![']', ']'], p.len() as int) == Some(p.len() + x.len() as int),
{
    let close = seq![']', ']'];
    let s = p + x + close + b;
    let n = p.len() as int;
    let m = x.len() as int;
    assert(s.subrange(n + m, n + m + 2) =~= close);
    assert forall|j: int| n <= j < n + m implies !occurs_at(s, close, j) by {
        if occurs_at(s, close, j) {
            assert(s.subrange(j, j + 2)[0] == s[j]);
            assert(s.subrange(j, j + 2)[1] == s[j + 1]);
            if j + 1 < n + m {
                assert(x.subrange(j - n, j - n + 2) =~= close);
                assert(occurs_at(x, close, j - n));
            } else {
                assert(x.last() == x[m - 1]);
            }
        }
    }
    lemma_find_first(s, close, n, n + m);
}

/// The links of `u`, then `[[x]]`, then `b`: the link that `x` makes, then the
/// links of `b`, when `u` opens no link and `x` does not close one early.
proof fn lemma_closed_link_first(u: Seq<char>, x: Seq<char>, b: Seq<char>)
    requires
        !contains_seq(u, seq!['[', '[']),
        !(u.len() > 0 && u.last() == '['),
        !contains_seq(x, seq![']', ']']),
        !(x.len() > 0 && x.last() == ']'),
    ensures
        wikilinks(u + (seq!['[', '['] + x + seq![']', ']']) + b) == match link_of(x) {
            Some(l) => seq![l],
            None => Seq::<LinkView>::empty(),
        } + wikilinks(b),
{
    let open = seq!['[', '['];
    let close = seq![']', ']'];
    let s = u + (open + x + close) + b;
    let n = u.len() as int;
    let m = x.len() as int;
    let r = (open + x + close) + b;
    assert(s =~= u + r);
    lemma_first_open(u, r);
    assert(s =~= (u + open) + x + close + b);
    lemma_first_close(u + open, x, b);
    assert(find_from(s, open, 0) == Some(n));
    assert(find_from(s, close, n + 2) == Some(n + 2 + m));
    assert(s.subrange(n + 2, n + 2 + m) =~= x);
    lemma_wikilinks_from_skip(s, n + m + 4, 0);
    assert(s.skip(n + m + 4) =~= b);
    let rest = wikilinks_from(s, n + m + 4);
    assert(wikilinks_from(s, 0) == match link_of(x) {
        Some(l) => seq![l] + rest,
        None => rest,
    });
    assert(rest == wikilinks(b));
    match link_of(x) {
        Some(l) => {},
        None => {
            assert(Seq::<LinkView>::empty() + rest =~= rest);
        },
    }
}

/// Text that opens no link, then a closed link `[[x]]`, then any text: the
/// links are those of the closed link, then those of the rest. This holds when
/// the text before holds no `[[` and does not end with `[`, and `x` holds no
/// `]]` and does not end with `]`.
pub proof fn law_wikilinks_of_closed_link_then_rest(u: Seq<char>, x: Seq<char>, b: Seq<char>)
    requires
        !contains_seq(u, seq!['[', '[']),
        !(u.len() > 0 && u.last() == '['),
        !contains_seq(x, seq![']', ']']),
        !(x.len() > 0 && x.last() == ']'),
    ensures
        wikilinks(u + (seq!['[', '['] + x + seq![']', ']']) + b) == wikilinks(
            seq!['[', '['] + x + seq![']', ']'],
        ) + wikilinks(b),
{
    let a = seq!['[', '['] + x + seq![']', ']'];
    let empty = Seq::<char>::empty();
    lemma_closed_link_first(u, x, b);
    lemma_closed_link_first(empty, x, empty);
    assert(empty + a + empty =~= a);
    assert(wikilinks(empty) =~= Seq::<LinkView>::empty());
}

/// `a` is `b` with some of its elements left out.
pub open spec fn is_subsequence<A>(a: Seq<A>, b: Seq<A>) -> bool
    decreases b.len(),
{
    if a.len() == 0 {
        true
    } else if b.len() == 0 {
        false
    } else {
        is_subsequence(a, b.drop_last()) || (a.last() == b.last() && is_subsequence(
            a.drop_last(),
            b.drop_last(),
        ))
    }
}

/// Some note of `notes` is at path `p`.
pub open spec fn has_note_at(notes: Seq<ScannedNote>, p: Seq<char>) -> bool {
    exists|m: int| 0 <= m < notes.len() && #[trigger] notes[m].relative_path@ == p
}

/// `b` is `a` with notes inserted, none of them at the path of a note of `old`.
pub open spec fn with_new_notes(a: Seq<ScannedNote>, b: Seq<ScannedNote>, old: Seq<ScannedNote>) -> bool
    decreases b.len(),
{
    if b.len() == 0 {
        a.len() == 0
    } else if a.len() > 0 && a.last() == b.last() {
        with_new_notes(a.drop_last(), b.drop_last(), old)
    } else {
        !has_note_at(old, b.last().relative_path@) && with_new_notes(a, b.drop_last(), old)
    }
}

/// The maintenance items about a note of `old`.
pub open spec fn about_note_of(old: Seq<ScannedNote>) -> spec_fn(ItemView) -> bool {
    |it: ItemView| has_note_at(old, it.2)
}

proof fn lemma_subsequence_extend<A>(a: Seq<A>, b: Seq<A>, d: Seq<A>)
    requires
        is_subsequence(a, b),
    ensures
        is_subsequence(a, b + d),
    decreases d.len(),
{
    if d.len() == 0 {
        assert(b + d =~= b);
    } else {
        lemma_subsequence_extend(a, b, d.drop_last());
        assert((b + d).drop_last() =~= b + d.drop_last());
    }
}

proof fn lemma_subsequence_concat<A>(a: Seq<A>, b: Seq<A>, c: Seq<A>, d: Seq<A>)
    requires
        is_subsequence(a, b),
        is_subsequence(c, d),
    ensures
        is_subsequence(a + c, b + d),
    decreases d.len(),
{
    if c.len() == 0 {
        assert(a + c =~= a);
        lemma_subsequence_extend(a, b, d);
    } else {
        assert((b + d).drop_last() =~= b + d.drop_last());
        assert((b + d).last() == d.last());
        assert((a + c).last() == c.last());
        if is_subsequence(c, d.drop_last()) {
            lemma_subsequence_concat(a, b, c, d.drop_last());
        } else {
            lemma_subsequence_concat(a, b, c.drop_last(), d.drop_last());
            assert((a + c).drop_last() =~= a + c.drop_last());
        }
    }
}

/// Every item about note `n` concerns its file.
proof fn lemma_note_items_file(notes: Seq<ScannedNote>, n: ScannedNote, j: int)
    ensures
        forall|x: int| 0 <= x < note_items(notes, n, j).len() ==> (#[trigger] note_items(notes, n, j)[x]).2
            == n.relative_path@,
    decreases j,
{
    if j > 0 {
        lemma_note_items_file(notes, n, j - 1);
        let rest = note_items(notes, n, j - 1);
        let t = n.links@[j - 1].target@;
        let all = note_items(notes, n, j);
        assert forall|x: int| 0 <= x < all.len() implies (#[trigger] all[x]).2 == n.relative_path@ by {
            if x < rest.len() {
                assert(all[x] == rest[x]);
            } else {
                assert(all[x] == broken_link_item(n.relative_path@, t));
            }
        }
    }
}

proof fn lemma_filter_keeps_all<A>(s: Seq<A>, p: spec_fn(A) -> bool)
    requires
        forall|i: int| 0 <= i < s.len() ==> p(#[trigger] s[i]),
    ensures
        s.filter(p) == s,
    decreases s.len(),
{
    reveal(Seq::filter);
    if s.len() > 0 {
        lemma_filter_keeps_all(s.drop_last(), p);
        assert(p(s[s.len() - 1]));
        assert(s.drop_last().push(s.last()) =~= s);
    }
}

proof fn lemma_filter_keeps_none<A>(s: Seq<A>, p: spec_fn(A) -> bool)
    requires
        forall|i: int| 0 <= i < s.len() ==> !p(#[trigger] s[i]),
    ensures
        s.filter(p) == Seq::<A>::empty(),
    decreases s.len(),
{
    reveal(Seq::filter);
    if s.len() > 0 {
        lemma_filter_keeps_none(s.drop_last(), p);
        assert(!p(s[s.len() - 1]));
    }
}

/// With more targets known, the items about a note are some of the items before.
proof fn lemma_note_items_fewer(n1: Seq<ScannedNote>, n2: Seq<ScannedNote>, n: ScannedNote, j: int)
    requires
        forall|t: Seq<char>| is_known_target(n1, t) ==> is_known_target(n2, t),
    ensures
        is_subsequence(note_items(n2, n, j), note_items(n1, n, j)),
    decreases j,
{
    if j > 0 {
        lemma_note_items_fewer(n1, n2, n, j - 1);
        let r1 = note_items(n1, n, j - 1);
        let r2 = note_items(n2, n, j - 1);
        let t = n.links@[j - 1].target@;
        let x = broken_link_item(n.relative_path@, t);
        if is_known_target(n2, t) {
            if !is_known_target(n1, t) {
                lemma_subsequence_extend(r2, r1, seq![x]);
                assert(r1 + seq![x] =~= r1.push(x));
            }
        } else {
            assert(r2.push(x).drop_last() =~= r2);
            assert(r1.push(x).drop_last() =~= r1);
        }
    }
}

/// The notes of `a` are notes of `b`.
proof fn lemma_new_notes_keep_old(a: Seq<ScannedNote>, b: Seq<ScannedNote>, old: Seq<ScannedNote>)
    requires
        with_new_notes(a, b, old),
    ensures
        forall|m: int| 0 <= m < a.len() ==> exists|k: int| 0 <= k < b.len() && b[k] == #[trigger] a[m],
    decreases b.len(),
{
    if b.len() > 0 {
        if a.len() > 0 && a.last() == b.last() {
            lemma_new_notes_keep_old(a.drop_last(), b.drop_last(), old);
            assert forall|m: int| 0 <= m < a.len() implies exists|k: int| 0 <= k < b.len() && b[k] == #[trigger] a[m] by {
                if m == a.len() - 1 {
                    assert(b[b.len() - 1] == a[m]);
                } else {
                    assert(a.drop_last()[m] == a[m]);
                    let k = choose|k: int| 0 <= k < b.drop_last().len() && b.drop_last()[k] == #[trigger] a.drop_last()[m];
                    assert(b[k] == a[m]);
                }
            }
        } else {
            lemma_new_notes_keep_old(a, b.drop_last(), old);
            assert forall|m: int| 0 <= m < a.len() implies exists|k: int| 0 <= k < b.len() && b[k] == #[trigger] a[m] by {
                let k = choose|k: int| 0 <= k < b.drop_last().len() && b.drop_last()[k] == #[trigger] a[m];
                assert(b[k] == a[m]);
            }
        }
    }
}

proof fn lemma_new_notes_prefix(old: Seq<ScannedNote>, new: Seq<ScannedNote>, i: int, j: int)
    requires
        0 <= i <= old.len(),
        0 <= j <= new.len(),
        with_new_notes(old.take(i), new.take(j), old),
        forall|t: Seq<char>| is_known_target(old, t) ==> is_known_target(new, t),
    ensures
        is_subsequence(scan_items(new, j).filter(about_note_of(old)), scan_items(old, i)),
    decreases j,
{
    let p = about_note_of(old);
    if j == 0 {
        lemma_filter_keeps_none(scan_items(new, 0), p);
    } else {
        let a = old.take(i);
        let b = new.take(j);
        let n = new[j - 1];
        assert(b.last() == n);
        assert(b.drop_last() =~= new.take(j - 1));
        let items = note_items(new, n, n.links@.len() as int);
        Seq::filter_distributes_over_add(scan_items(new, j - 1), items, p);
        lemma_note_items_file(new, n, n.links@.len() as int);
        if i > 0 && a.last() == b.last() {
            assert(a.last() == old[i - 1]);
            assert(a.drop_last() =~= old.take(i - 1));
            lemma_new_notes_prefix(old, new, i - 1, j - 1);
            assert(old[i - 1].relative_path@ == n.relative_path@);
            assert(has_note_at(old, n.relative_path@));
            assert forall|x: int| 0 <= x < items.len() implies p(#[trigger] items[x]) by {
                assert(items[x].2 == n.relative_path@);
            }
            lemma_filter_keeps_all(items, p);
            lemma_note_items_fewer(old, new, n, n.links@.len() as int);
            lemma_subsequence_concat(
                scan_items(new, j - 1).filter(p),
                scan_items(old, i - 1),
                items,
                note_items(old, old[i - 1], old[i - 1].links@.len() as int),
            );
        } else {
            lemma_new_notes_prefix(old, new, i, j - 1);
            assert forall|x: int| 0 <= x < items.len() implies !p(#[trigger] items[x]) by {
                assert(items[x].2 == n.relative_path@);
            }
            lemma_filter_keeps_none(items, p);
            assert(scan_items(new, j - 1).filter(p) + items.filter(p) =~= scan_items(new, j - 1).filter(p));
        }
    }
}

/// Adding notes at new paths to a vault adds no broken-link item about the
/// notes it had: the items the larger scan reports about those notes are some
/// of the items the first scan reported, in the same order.
pub proof fn law_new_notes_add_no_broken_links(old: Seq<ScannedNote>, new: Seq<ScannedNote>)
    requires
        with_new_notes(old, new, old),
    ensures
        is_subsequence(
            scan_items(new, new.len() as int).filter(about_note_of(old)),
            scan_items(old, old.len() as int),
        ),
{
    assert(old.take(old.len() as int) =~= old);
    assert(new.take(new.len() as int) =~= new);
    lemma_new_notes_keep_old(old, new, old);
    assert forall|t: Seq<char>| is_known_target(old, t) implies is_known_target(new, t) by {
        let k = choose|k: int|
            0 <= k < old.len() && (#[trigger] old[k].title matches Some(title) && title@ == t
                || md_stem(old[k].relative_path@) == Some(t));
        let k2 = choose|k2: int| 0 <= k2 < new.len() && new[k2] == #[trigger] old[k];
        assert(new[k2].title == old[k].title);
    }
    lemma_new_notes_prefix(old, new, old.len() as int, new.len() as int);
}

/// Rejecting a confirmation gives back the very item that creating it made,
/// and that item alone leaves the queue. This holds in a queue whose ids are
/// distinct (each is the name of its own file), for an item created at a time
/// written in decimal digits.
pub proof fn law_reject_gives_back_the_created_item(
    proposal: CreateReplaceNoteConfirmation,
    original_content: Seq<char>,
    created_at: Seq<char>,
    item: ConfirmationItem,
    items: Seq<ConfirmationItem>,
    k: int,
    r: Result<ConfirmationItem, ConfirmationError>,
    left: Seq<ConfirmationItem>,
)
    requires
        created_at.len() > 0,
        forall|i: int| 0 <= i < created_at.len() ==> is_digit(#[trigger] created_at[i]),
        created_item_ok(proposal, original_content, created_at, item),
        0 <= k < items.len(),
        items[k] == item,
        forall|i: int, j: int| 0 <= i < j < items.len() ==> #[trigger] items[i].id@ != #[trigger] items[j].id@,
        reject_outcome(items, item.id@, r, left),
    ensures
        r == Ok::<ConfirmationItem, ConfirmationError>(item),
        left == items.remove(k),
{
    law_created_ids_are_valid(created_at, normalized_path(proposal.path@));
    lemma_position_with_id(items, item.id@, 0);
    match position_with_id(items, item.id@, 0) {
        Some(j) => {
            if j < k {
                assert(items[j].id@ != items[k].id@);
            } else if j > k {
                assert(items[k].id@ != item.id@);
            }
        },
        None => {
            assert(items[k].id@ != item.id@);
        },
    }
}

/// Every note of a scan comes from one of the scanned files: at that file's
/// path (with `/` separators), with the title, the type and the tags of that
/// file's frontmatter (none without frontmatter; no tags without a `tags`
/// field), and the wikilinks of the file's whole text. This is what the scan's
/// own contract gives for the notes it returns.
pub proof fn law_scanned_notes_keep_their_frontmatter(files: Seq<MarkdownFile>, notes: Seq<ScannedNote>)
    requires
        notes.map_values(|n: ScannedNote| note_view(n)).to_multiset() == files.map_values(
            |f: MarkdownFile| file_note(f),
        ).to_multiset(),
    ensures
        forall|i: int|
            0 <= i < notes.len() ==> exists|j: int|
                0 <= j < files.len() && (#[trigger] notes[i]).relative_path@ == replace_char(
                    files[j].relative_path@,
                    '\\',
                    '/',
                ) && opt_view(notes[i].title) == match files[j].front_matter {
                    Some(fm) => opt_view(fm.title),
                    None => None,
                } && opt_view(notes[i].note_type) == match files[j].front_matter {
                    Some(fm) => opt_view(fm.note_type),
                    None => None,
                } && strs_view(notes[i].tags@) == match files[j].front_matter {
                    Some(fm) => match fm.tags {
                        Some(t) => strs_view(t@),
                        None => Seq::<Seq<char>>::empty(),
                    },
                    None => Seq::<Seq<char>>::empty(),
                } && links_view(notes[i].links@) == wikilinks(files[j].raw@),
{
    let nv = notes.map_values(|n: ScannedNote| note_view(n));
    let fv = files.map_values(|f: MarkdownFile| file_note(f));
    nv.to_multiset_ensures();
    fv.to_multiset_ensures();
    assert forall|i: int| 0 <= i < notes.len() implies exists|j: int|
        0 <= j < files.len() && (#[trigger] notes[i]).relative_path@ == replace_char(
            files[j].relative_path@,
            '\\',
            '/',
        ) && opt_view(notes[i].title) == match files[j].front_matter {
            Some(fm) => opt_view(fm.title),
            None => None,
        } && opt_view(notes[i].note_type) == match files[j].front_matter {
            Some(fm) => opt_view(fm.note_type),
            None => None,
        } && strs_view(notes[i].tags@) == match files[j].front_matter {
            Some(fm) => match fm.tags {
                Some(t) => strs_view(t@),
                None => Seq::<Seq<char>>::empty(),
            },
            None => Seq::<Seq<char>>::empty(),
        } && links_view(notes[i].links@) == wikilinks(files[j].raw@) by {
        let x = nv[i];
        assert(nv.contains(x));
        assert(nv.to_multiset().count(x) > 0);
        assert(fv.to_multiset().count(x) > 0);
        assert(fv.contains(x));
        let j = choose|j: int| 0 <= j < fv.len() && fv[j] == x;
        assert(file_note(files[j]) == note_view(notes[i]));
    }
}

/// Applying or rejecting a pending confirmation takes out that one item and
/// keeps every other pending item, in order; when it fails, the queue is
/// left as it was.
pub proof fn law_resolving_keeps_the_other_items(
    items: Seq<ConfirmationItem>,
    id: Seq<char>,
    r: Result<ConfirmationItem, ConfirmationError>,
    left: Seq<ConfirmationItem>,
)
    requires
        apply_outcome(items, id, r, left) || reject_outcome(items, id, r, left),
    ensures
        r is Err ==> left == items,
        r matches Ok(x) ==> exists|k: int|
            0 <= k < items.len() && items[k] == x && x.id@ == id && left.len() + 1 == items.len() && (forall|
                m: int,
            | 0 <= m < k ==> #[trigger] left[m] == items[m]) && (forall|m: int|
                k < m < items.len() ==> #[trigger] items[m] == left[m - 1]),
{
    lemma_position_with_id(items, id, 0);
    if let Ok(x) = r {
        let k = position_with_id(items, id, 0)->Some_0;
        assert(items[k] == x);
        assert(left == items.remove(k));
    }
}

/// A note at `dir/name.md` can be linked to by `name`, exactly as written: the
/// stem is the last path component with `.md` taken off, character for
/// character.
pub proof fn law_markdown_stem_is_the_file_name(dir: Seq<char>, name: Seq<char>)
    requires
        lacks(name, '/'),
    ensures
        md_stem(name + seq!['.', 'm', 'd']) == Some(name),
        md_stem(dir + seq!['/'] + name + seq!['.', 'm', 'd']) == Some(name),
{
    let f = name + seq!['.', 'm', 'd'];
    assert(lacks(f, '/')) by {
        assert forall|i: int| 0 <= i < f.len() implies f[i] != '/' by {
            if i < name.len() {
                assert(f[i] == name[i]);
            }
        }
    }
    lemma_last_slash_lacks(f);
    assert(last_component(f) == f);
    assert(f.skip(f.len() - 3) =~= seq!['.', 'm', 'd']);
    assert(f.take(f.len() - 3) =~= name);
    let p = dir + seq!['/'] + f;
    lemma_last_slash_before(dir + seq!['/'], f);
    assert(p =~= (dir + seq!['/']) + f);
    assert(dir + seq!['/'] + name + seq!['.', 'm', 'd'] =~= p);
    assert((dir + seq!['/']).len() - 1 == dir.len());
    assert(last_slash(p) == Some(dir.len() as int));
    assert(p.skip(dir.len() + 1 as int) =~= f);
    assert(last_component(p) == f);
}

/// A text without `/` has no last `/`.
proof fn lemma_last_slash_lacks(f: Seq<char>)
    requires
        lacks(f, '/'),
    ensures
        last_slash(f) is None,
    decreases f.len(),
{
    if f.len() > 0 {
        assert(f.last() == f[f.len() - 1]);
        lemma_last_slash_lacks(f.drop_last());
    }
}

/// The last `/` of `a + f` is the last character of `a` when `f` has none.
proof fn lemma_last_slash_before(a: Seq<char>, f: Seq<char>)
    requires
        a.len() > 0,
        a.last() == '/',
        lacks(f, '/'),
    ensures
        last_slash(a + f) == Some(a.len() - 1),
    decreases f.len(),
{
    if f.len() == 0 {
        assert(a + f =~= a);
    } else {
        assert((a + f).last() == f[f.len() - 1]);
        assert((a + f).drop_last() =~= a + f.drop_last());
        lemma_last_slash_before(a, f.drop_last());
    }
}

/// A link made from the text between `[[` and `]]` has a target that is not
/// blank and is trimmed on both ends, and an alias, if any, likewise.
proof fn lemma_link_of_trimmed(x: Seq<char>)
    ensures
        link_of(x) matches Some(l) ==> l.0.len() > 0 && trim(l.0) == l.0 && (l.1 matches Some(a) ==> a.len()
            > 0 && trim(a) == a),
{
    lemma_trim_idempotent(x);
    if let Some(k) = find_from(x, seq!['|'], 0) {
        lemma_trim_idempotent(x.take(k));
        lemma_trim_idempotent(x.skip(k + 1));
    }
}

proof fn lemma_wikilinks_from_trimmed(s: Seq<char>, pos: int)
    ensures
        forall|i: int|
            0 <= i < wikilinks_from(s, pos).len() ==> (#[trigger] wikilinks_from(s, pos)[i]).0.len() > 0 && trim(
                wikilinks_from(s, pos)[i].0,
            ) == wikilinks_from(s, pos)[i].0 && (wikilinks_from(s, pos)[i].1 matches Some(a) ==> a.len() > 0
                && trim(a) == a),
    decreases s.len() - pos,
{
    let open = seq!['[', '['];
    let close = seq![']', ']'];
    if 0 <= pos <= s.len() {
        if let Some(start) = find_from(s, open, pos) {
            if let Some(end) = find_from(s, close, start + 2) {
                if pos <= start && start + 2 <= end && end + 2 <= s.len() {
                    lemma_wikilinks_from_trimmed(s, end + 2);
                    let inner = s.subrange(start + 2, end);
                    lemma_link_of_trimmed(inner);
                    let rest = wikilinks_from(s, end + 2);
                    if let Some(l) = link_of(inner) {
                        let all = wikilinks_from(s, pos);
                        assert(all == seq![l] + rest);
                        assert forall|i: int| 0 <= i < all.len() implies (#[trigger] all[i]).0.len() > 0
                            && trim(all[i].0) == all[i].0 && (all[i].1 matches Some(a) ==> a.len() > 0 && trim(a)
                            == a) by {
                            if i > 0 {
                                assert(all[i] == rest[i - 1]);
                            }
                        }
                    }
                }
            }
        }
    }
}

/// Every wikilink read from a text has a target that is not blank and is
/// trimmed on both ends (so `[[Agent Harness | the harness]]` links to
/// `Agent Harness`), and an alias, if any, that is not blank and is trimmed.
pub proof fn law_link_targets_are_trimmed(s: Seq<char>)
    ensures
        forall|i: int|
            0 <= i < wikilinks(s).len() ==> (#[trigger] wikilinks(s)[i]).0.len() > 0 && trim(wikilinks(s)[i].0)
                == wikilinks(s)[i].0 && (wikilinks(s)[i].1 matches Some(a) ==> a.len() > 0 && trim(a) == a),
{
    lemma_wikilinks_from_trimmed(s, 0);
}

/// The matches of a note's first `n` lines include line `j` when its lowercase
/// form contains `q`.
proof fn lemma_line_matches_has(path: Seq<char>, ls: Seq<Seq<char>>, q: Seq<char>, n: int, j: int)
    requires
        0 <= j < n <= ls.len(),
        contains_seq(lowercase(ls[j]), q),
    ensures
        line_matches(path, ls, q, n).contains((path, j + 1, truncated(trim(ls[j]), MAX_SNIPPET_CHARS as int).0)),
    decreases n,
{
    let x = (path, j + 1, truncated(trim(ls[j]), MAX_SNIPPET_CHARS as int).0);
    let rest = line_matches(path, ls, q, n - 1);
    if j == n - 1 {
        let all = rest.push(x);
        assert(all[all.len() - 1] == x);
    } else {
        lemma_line_matches_has(path, ls, q, n - 1, j);
        let k = choose|k: int| 0 <= k < rest.len() && rest[k] == x;
        let all = line_matches(path, ls, q, n);
        if contains_seq(lowercase(ls[n - 1]), q) {
            assert(all[k] == x);
        } else {
            assert(all[k] == x);
        }
    }
}

/// The matches of the first `n` notes include those of note `i < n`.
proof fn lemma_all_matches_has(notes: Seq<NoteText>, q: Seq<char>, n: int, i: int, x: MatchView)
    requires
        0 <= i < n <= notes.len(),
        line_matches(notes[i].path@, lines(notes[i].content@), q, lines(notes[i].content@).len() as int).contains(
            x,
        ),
    ensures
        all_matches(notes, q, n).contains(x),
    decreases n,
{
    let before = all_matches(notes, q, n - 1);
    let ls = lines(notes[n - 1].content@);
    let here = line_matches(notes[n - 1].path@, ls, q, ls.len() as int);
    let all = all_matches(notes, q, n);
    assert(all == before + here);
    if i == n - 1 {
        let k = choose|k: int| 0 <= k < here.len() && here[k] == x;
        assert(all[before.len() + k] == x);
    } else {
        lemma_all_matches_has(notes, q, n - 1, i, x);
        let k = choose|k: int| 0 <= k < before.len() && before[k] == x;
        assert(all[k] == x);
    }
}

/// A search that returns fewer matches than asked for has found every line
/// whose whole lowercase text contains the lowercase trimmed query, however
/// long the line (a match may lie beyond the snippet): each such line is in
/// the result, numbered from 1, with its trimmed text cut to
/// `MAX_SNIPPET_CHARS` as snippet.
pub proof fn law_search_finds_every_matching_line(
    query: Seq<char>,
    limit: Option<usize>,
    notes: Seq<NoteText>,
    i: int,
    j: int,
)
    requires
        search_result(query, limit, notes) is Some,
        search_result(query, limit, notes)->Some_0.1.len() < search_limit(limit),
        0 <= i < notes.len(),
        0 <= j < lines(notes[i].content@).len(),
        contains_seq(lowercase(lines(notes[i].content@)[j]), lowercase(trim(query))),
    ensures
        search_result(query, limit, notes)->Some_0.1.contains(
            (
                notes[i].path@,
                j + 1,
                truncated(trim(lines(notes[i].content@)[j]), MAX_SNIPPET_CHARS as int).0,
            ),
        ),
{
    let q = lowercase(trim(query));
    let ls = lines(notes[i].content@);
    let x = (notes[i].path@, j + 1, truncated(trim(ls[j]), MAX_SNIPPET_CHARS as int).0);
    lemma_line_matches_has(notes[i].path@, ls, q, ls.len() as int, j);
    lemma_all_matches_has(notes, q, notes.len() as int, i, x);
    let all = all_matches(notes, q, notes.len() as int);
    let l = search_limit(limit);
    if all.len() > l {
        assert(all.take(l).len() == l);
    }
}

/// Every match of a note's first `n` lines is a line of the note whose
/// lowercase form contains `q`, numbered from 1, with its snippet.
proof fn lemma_line_matches_sound(path: Seq<char>, ls: Seq<Seq<char>>, q: Seq<char>, n: int)
    requires
        0 <= n <= ls.len(),
    ensures
        forall|m: int|
            #![trigger line_matches(path, ls, q, n)[m]]
            0 <= m < line_matches(path, ls, q, n).len() ==> exists|j: int|
                0 <= j < n && #[trigger] line_matches(path, ls, q, n)[m] == (
                    path,
                    j + 1,
                    truncated(trim(ls[j]), MAX_SNIPPET_CHARS as int).0,
                ) && contains_seq(lowercase(ls[j]), q),
    decreases n,
{
    if n > 0 {
        lemma_line_matches_sound(path, ls, q, n - 1);
        let rest = line_matches(path, ls, q, n - 1);
        let all = line_matches(path, ls, q, n);
        assert forall|m: int| #![trigger all[m]] 0 <= m < all.len() implies exists|j: int|
            0 <= j < n && #[trigger] all[m] == (path, j + 1, truncated(trim(ls[j]), MAX_SNIPPET_CHARS as int).0)
                && contains_seq(lowercase(ls[j]), q) by {
            if m < rest.len() {
                assert(all[m] == rest[m]);
                let j = choose|j: int|
                    0 <= j < n - 1 && #[trigger] rest[m] == (
                        path,
                        j + 1,
                        truncated(trim(ls[j]), MAX_SNIPPET_CHARS as int).0,
                    ) && contains_seq(lowercase(ls[j]), q);
                assert(all[m] == (path, j + 1, truncated(trim(ls[j]), MAX_SNIPPET_CHARS as int).0));
            } else {
                assert(all[m] == (path, n, truncated(trim(ls[n - 1]), MAX_SNIPPET_CHARS as int).0));
                assert(contains_seq(lowercase(ls[n - 1]), q));
            }
        }
    }
}

/// Match `x` is line `j` of note `i`, whose lowercase form contains `q`.
pub open spec fn match_of_note_line(notes: Seq<NoteText>, q: Seq<char>, x: MatchView, i: int, j: int) -> bool {
    &&& 0 <= i < notes.len()
    &&& 0 <= j < lines(notes[i].content@).len()
    &&& x == (
        notes[i].path@,
        j + 1,
        truncated(trim(lines(notes[i].content@)[j]), MAX_SNIPPET_CHARS as int).0,
    )
    &&& contains_seq(lowercase(lines(notes[i].content@)[j]), q)
}

/// Match `x` is a line of some note whose lowercase form contains `q`.
pub open spec fn from_matching_line(notes: Seq<NoteText>, q: Seq<char>, x: MatchView) -> bool {
    exists|i: int, j: int| #[trigger] match_of_note_line(notes, q, x, i, j)
}

proof fn lemma_all_matches_sound(notes: Seq<NoteText>, q: Seq<char>, n: int)
    requires
        0 <= n <= notes.len(),
    ensures
        forall|m: int|
            0 <= m < all_matches(notes, q, n).len() ==> from_matching_line(
                notes,
                q,
                #[trigger] all_matches(notes, q, n)[m],
            ),
    decreases n,
{
    if n > 0 {
        lemma_all_matches_sound(notes, q, n - 1);
        let ls = lines(notes[n - 1].content@);
        lemma_line_matches_sound(notes[n - 1].path@, ls, q, ls.len() as int);
        let here = line_matches(notes[n - 1].path@, ls, q, ls.len() as int);
        assert(all_matches(notes, q, n) == all_matches(notes, q, n - 1) + here);
        assert forall|m: int| 0 <= m < all_matches(notes, q, n).len() implies from_matching_line(
            notes,
            q,
            #[trigger] all_matches(notes, q, n)[m],
        ) by {
            let before = all_matches(notes, q, n - 1);
            if m < before.len() {
                assert(all_matches(notes, q, n)[m] == before[m]);
            } else {
                assert(all_matches(notes, q, n)[m] == here[m - before.len()]);
                let j = choose|j: int|
                    0 <= j < ls.len() && #[trigger] here[m - before.len()] == (
                        notes[n - 1].path@,
                        j + 1,
                        truncated(trim(ls[j]), MAX_SNIPPET_CHARS as int).0,
                    ) && contains_seq(lowercase(ls[j]), q);
                assert(match_of_note_line(notes, q, all_matches(notes, q, n)[m], n - 1, j));
            }
        }
    }
}

/// Every match a search returns is a line of one of the notes whose whole
/// lowercase text contains the lowercase trimmed query, numbered from 1, with
/// its trimmed text cut to `MAX_SNIPPET_CHARS` as snippet; the query given
/// back is the trimmed query.
pub proof fn law_search_matches_are_matching_lines(query: Seq<char>, limit: Option<usize>, notes: Seq<NoteText>)
    ensures
        search_result(query, limit, notes) is Some ==> search_result(query, limit, notes)->Some_0.0 == trim(query),
        search_result(query, limit, notes) is Some ==> forall|m: int|
            0 <= m < search_result(query, limit, notes)->Some_0.1.len() ==> from_matching_line(
                notes,
                lowercase(trim(query)),
                #[trigger] search_result(query, limit, notes)->Some_0.1[m],
            ),
{
    let q = lowercase(trim(query));
    lemma_all_matches_sound(notes, q, notes.len() as int);
    let all = all_matches(notes, q, notes.len() as int);
    if search_result(query, limit, notes) is Some {
        let ms = search_result(query, limit, notes)->Some_0.1;
        assert forall|m: int| 0 <= m < ms.len() implies from_matching_line(notes, q, #[trigger] ms[m]) by {
            assert(ms[m] == all[m]);
        }
    }
}

/// No note has `t` as its title or as its Markdown file stem.
pub open spec fn no_note_named(notes: Seq<ScannedNote>, t: Seq<char>) -> bool {
    forall|m: int|
        0 <= m < notes.len() ==> !(#[trigger] notes[m].title matches Some(tt) && tt@ == t) && md_stem(
            notes[m].relative_path@,
        ) != Some(t)
}

/// Item `x` reports link `l` of note `k` as broken.
pub open spec fn reports_link(notes: Seq<ScannedNote>, x: ItemView, k: int, l: int) -> bool {
    &&& 0 <= k < notes.len()
    &&& 0 <= l < notes[k].links@.len()
    &&& x == (
        "P0"@,
        "broken_wikilink"@,
        notes[k].relative_path@,
        "Missing target [["@ + notes[k].links@[l].target@ + "]]"@,
        false,
    )
    &&& no_note_named(notes, notes[k].links@[l].target@)
}

/// Item `x` reports some link of some note as broken.
pub open spec fn reports_a_link(notes: Seq<ScannedNote>, x: ItemView) -> bool {
    exists|k: int, l: int| #[trigger] reports_link(notes, x, k, l)
}

proof fn lemma_known_is_named(notes: Seq<ScannedNote>, t: Seq<char>)
    ensures
        is_known_target(notes, t) <==> !no_note_named(notes, t),
{
    if !no_note_named(notes, t) {
        let m = choose|m: int|
            0 <= m < notes.len() && !(!(#[trigger] notes[m].title matches Some(tt) && tt@ == t) && md_stem(
                notes[m].relative_path@,
            ) != Some(t));
        assert(is_known_target(notes, t));
    }
}

proof fn lemma_note_items_report(notes: Seq<ScannedNote>, k: int, j: int)
    requires
        0 <= k < notes.len(),
        0 <= j <= notes[k].links@.len(),
    ensures
        forall|x: int|
            0 <= x < note_items(notes, notes[k], j).len() ==> reports_a_link(
                notes,
                #[trigger] note_items(notes, notes[k], j)[x],
            ),
        forall|l: int|
            0 <= l < j && no_note_named(notes, #[trigger] notes[k].links@[l].target@) ==> note_items(
                notes,
                notes[k],
                j,
            ).contains(broken_link_item(notes[k].relative_path@, notes[k].links@[l].target@)),
    decreases j,
{
    if j > 0 {
        lemma_note_items_report(notes, k, j - 1);
        let n = notes[k];
        let t = n.links@[j - 1].target@;
        lemma_known_is_named(notes, t);
        let rest = note_items(notes, n, j - 1);
        assert forall|x: int| 0 <= x < note_items(notes, n, j).len() implies reports_a_link(
            notes,
            #[trigger] note_items(notes, n, j)[x],
        ) by {
            if x < rest.len() {
                assert(note_items(notes, n, j)[x] == rest[x]);
            } else {
                assert(reports_link(notes, note_items(notes, n, j)[x], k, j - 1));
            }
        }
        assert forall|l: int|
            0 <= l < j && no_note_named(notes, #[trigger] notes[k].links@[l].target@) implies note_items(
                notes,
                n,
                j,
            ).contains(broken_link_item(n.relative_path@, n.links@[l].target@)) by {
            let all = note_items(notes, n, j);
            let y = broken_link_item(n.relative_path@, n.links@[l].target@);
            if l < j - 1 {
                let x = choose|x: int| 0 <= x < rest.len() && rest[x] == y;
                assert(all[x] == y);
            } else {
                assert(all[all.len() - 1] == y);
            }
        }
    }
}

proof fn lemma_scan_items_report(notes: Seq<ScannedNote>, i: int)
    requires
        0 <= i <= notes.len(),
    ensures
        forall|x: int|
            0 <= x < scan_items(notes, i).len() ==> reports_a_link(notes, #[trigger] scan_items(notes, i)[x]),
        forall|k: int, l: int|
            0 <= k < i && 0 <= l < notes[k].links@.len() && no_note_named(
                notes,
                #[trigger] notes[k].links@[l].target@,
            ) ==> scan_items(notes, i).contains(
                broken_link_item(notes[k].relative_path@, notes[k].links@[l].target@),
            ),
    decreases i,
{
    if i > 0 {
        lemma_scan_items_report(notes, i - 1);
        let before = scan_items(notes, i - 1);
        let n = notes[i - 1];
        lemma_note_items_report(notes, i - 1, n.links@.len() as int);
        let here = note_items(notes, n, n.links@.len() as int);
        assert(scan_items(notes, i) == before + here);
        assert forall|x: int| 0 <= x < scan_items(notes, i).len() implies reports_a_link(
            notes,
            #[trigger] scan_items(notes, i)[x],
        ) by {
            if x < before.len() {
                assert(scan_items(notes, i)[x] == before[x]);
            } else {
                assert(scan_items(notes, i)[x] == here[x - before.len()]);
            }
        }
        assert forall|k: int, l: int|
            0 <= k < i && 0 <= l < notes[k].links@.len() && no_note_named(
                notes,
                #[trigger] notes[k].links@[l].target@,
            ) implies scan_items(notes, i).contains(
                broken_link_item(notes[k].relative_path@, notes[k].links@[l].target@),
            ) by {
            let all = scan_items(notes, i);
            let y = broken_link_item(notes[k].relative_path@, notes[k].links@[l].target@);
            if k < i - 1 {
                let x = choose|x: int| 0 <= x < before.len() && before[x] == y;
                assert(all[x] == y);
            } else {
                let x = choose|x: int| 0 <= x < here.len() && here[x] == y;
                assert(all[before.len() + x] == y);
            }
        }
    }
}

/// The maintenance scan reports a wikilink exactly when its target is neither
/// the title nor the Markdown file stem of any note: every item is a `P0`
/// `broken_wikilink` item, needing no confirmation, for a link of its file
/// whose target names no note, with the evidence `Missing target [[t]]`; and
/// every such link is reported.
pub proof fn law_scan_reports_exactly_the_unnamed_targets(notes: Seq<ScannedNote>)
    ensures
        forall|x: int|
            0 <= x < scan_items(notes, notes.len() as int).len() ==> reports_a_link(
                notes,
                #[trigger] scan_items(notes, notes.len() as int)[x],
            ),
        forall|k: int, l: int|
            0 <= k < notes.len() && 0 <= l < notes[k].links@.len() && no_note_named(
                notes,
                #[trigger] notes[k].links@[l].target@,
            ) ==> scan_items(notes, notes.len() as int).contains(
                (
                    "P0"@,
                    "broken_wikilink"@,
                    notes[k].relative_path@,
                    "Missing target [["@ + notes[k].links@[l].target@ + "]]"@,
                    false,
                ),
            ),
{
    lemma_scan_items_report(notes, notes.len() as int);
}
} // verus!
