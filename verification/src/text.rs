//! Character-level text utilities shared by the vault parsers.
//!
//! Strings are handled as sequences of Unicode scalar values (`Seq<char>`),
//! which is also how vstd views `str` and `String`.
use vstd::prelude::*;

verus! {

// ---------------------------------------------------------------------------
// Specifications
// ---------------------------------------------------------------------------

/// Unicode `White_Space`: the characters that `char::is_whitespace` accepts.
pub open spec fn is_ws(c: char) -> bool {
    let u: u32 = c as u32;
    ||| u == 0x20
    ||| (0x09 <= u && u <= 0x0d)
    ||| u == 0x85
    ||| u == 0xa0
    ||| u == 0x1680
    ||| (0x2000 <= u && u <= 0x200a)
    ||| u == 0x2028
    ||| u == 0x2029
    ||| u == 0x202f
    ||| u == 0x205f
    ||| u == 0x3000
}

/// ASCII letters and digits.
pub open spec fn is_ascii_alnum(c: char) -> bool {
    let u: u32 = c as u32;
    ||| (0x30 <= u && u <= 0x39)
    ||| (0x41 <= u && u <= 0x5a)
    ||| (0x61 <= u && u <= 0x7a)
}

/// `s` with leading white space removed.
pub open spec fn trim_start(s: Seq<char>) -> Seq<char>
    decreases s.len(),
{
    if s.len() > 0 && is_ws(s[0]) {
        trim_start(s.drop_first())
    } else {
        s
    }
}

/// `s` with trailing white space removed.
pub open spec fn trim_end(s: Seq<char>) -> Seq<char>
    decreases s.len(),
{
    if s.len() > 0 && is_ws(s.last()) {
        trim_end(s.drop_last())
    } else {
        s
    }
}

/// `s` with leading and trailing white space removed (`str::trim`).
pub open spec fn trim(s: Seq<char>) -> Seq<char> {
    trim_end(trim_start(s))
}

/// `p` is a prefix of `s`.
pub open spec fn starts_with(s: Seq<char>, p: Seq<char>) -> bool {
    p.len() <= s.len() && s.take(p.len() as int) == p
}

/// `p` is a suffix of `s`.
pub open spec fn ends_with(s: Seq<char>, p: Seq<char>) -> bool {
    p.len() <= s.len() && s.skip(s.len() - p.len()) == p
}

/// `p` occurs in `s` at position `i`.
pub open spec fn occurs_at(s: Seq<char>, p: Seq<char>, i: int) -> bool {
    0 <= i && i + p.len() <= s.len() && s.subrange(i, i + p.len()) == p
}

/// The first position at or after `from` where `p` occurs in `s`.
pub open spec fn find_from(s: Seq<char>, p: Seq<char>, from: int) -> Option<int>
    decreases s.len() - from,
{
    if from < 0 || from + p.len() > s.len() {
        None
    } else if p.len() == 0 || occurs_at(s, p, from) {
        Some(from)
    } else {
        find_from(s, p, from + 1)
    }
}

/// `p` occurs somewhere in `s` (`str::contains`).
pub open spec fn contains_seq(s: Seq<char>, p: Seq<char>) -> bool {
    exists|i: int| occurs_at(s, p, i)
}

/// Drops one trailing carriage return.
pub open spec fn strip_cr(l: Seq<char>) -> Seq<char> {
    if l.len() > 0 && l.last() == '\r' {
        l.drop_last()
    } else {
        l
    }
}

/// The lines of `s` from position `start` on, split as `str::lines` does:
/// at `\n` or `\r\n`, with an optional final line ending; a `\r` that no
/// `\n` follows stays in its line.
pub open spec fn lines_from(s: Seq<char>, start: int) -> Seq<Seq<char>>
    decreases s.len() - start,
{
    if start < 0 || start >= s.len() {
        seq![]
    } else {
        match find_from(s, seq!['\n'], start) {
            None => seq![s.subrange(start, s.len() as int)],
            Some(k) => if start <= k && k < s.len() {
                seq![strip_cr(s.subrange(start, k))] + lines_from(s, k + 1)
            } else {
                seq![]
            },
        }
    }
}

/// The lines of `s` (`str::lines`).
pub open spec fn lines(s: Seq<char>) -> Seq<Seq<char>> {
    lines_from(s, 0)
}

/// Every occurrence of `from` in `s` replaced by `to`.
pub open spec fn replace_char(s: Seq<char>, from: char, to: char) -> Seq<char> {
    s.map_values(|c: char| if c == from { to } else { c })
}

/// Strict lexicographic order of character sequences, as `str` orders them.
pub open spec fn seq_lt(a: Seq<char>, b: Seq<char>) -> bool
    decreases a.len(),
{
    if a.len() == 0 {
        b.len() > 0
    } else if b.len() == 0 {
        false
    } else if (a[0] as u32) < (b[0] as u32) {
        true
    } else if a[0] == b[0] {
        seq_lt(a.drop_first(), b.drop_first())
    } else {
        false
    }
}

/// Non-strict lexicographic order.
pub open spec fn seq_le(a: Seq<char>, b: Seq<char>) -> bool {
    seq_lt(a, b) || a == b
}

// ---------------------------------------------------------------------------
// Lemmas
// ---------------------------------------------------------------------------

/// A found position is an occurrence, and nothing earlier from `from` is one.
pub proof fn lemma_find_from(s: Seq<char>, p: Seq<char>, from: int)
    requires
        0 <= from,
    ensures
        match find_from(s, p, from) {
            Some(k) => from <= k && occurs_at(s, p, k) && forall|j: int|
                from <= j < k ==> !occurs_at(s, p, j),
            None => forall|j: int| from <= j ==> !occurs_at(s, p, j),
        },
    decreases s.len() - from,
{
    if from + p.len() > s.len() {
    } else if p.len() == 0 {
        assert(s.subrange(from, from + p.len()) =~= p);
    } else if occurs_at(s, p, from) {
    } else {
        lemma_find_from(s, p, from + 1);
    }
}

/// Leading white space can be cut at the first non-white-space character.
pub proof fn lemma_trim_start_skip(s: Seq<char>, k: int)
    requires
        0 <= k <= s.len(),
        forall|i: int| 0 <= i < k ==> is_ws(#[trigger] s[i]),
        k == s.len() || !is_ws(s[k]),
    ensures
        trim_start(s) == s.skip(k),
    decreases k,
{
    if k == 0 {
        assert(s.skip(0) =~= s);
    } else {
        assert(is_ws(s[0]));
        let t = s.drop_first();
        assert forall|i: int| 0 <= i < k - 1 implies is_ws(#[trigger] t[i]) by {
            assert(t[i] == s[i + 1]);
        }
        if k - 1 < t.len() {
            assert(t[k - 1] == s[k]);
        }
        lemma_trim_start_skip(t, k - 1);
        assert(t.skip(k - 1) =~= s.skip(k));
    }
}

/// Trailing white space can be cut after the last non-white-space character.
pub proof fn lemma_trim_end_take(s: Seq<char>, m: int)
    requires
        0 <= m <= s.len(),
        forall|i: int| m <= i < s.len() ==> is_ws(#[trigger] s[i]),
        m == 0 || !is_ws(s[m - 1]),
    ensures
        trim_end(s) == s.take(m),
    decreases s.len() - m,
{
    if m == s.len() {
        assert(s.take(m) =~= s);
        if s.len() > 0 {
            assert(s.last() == s[m - 1]);
        }
    } else {
        assert(is_ws(s.last()));
        let t = s.drop_last();
        assert forall|i: int| m <= i < t.len() implies is_ws(#[trigger] t[i]) by {
            assert(t[i] == s[i]);
        }
        if m > 0 {
            assert(t[m - 1] == s[m - 1]);
        }
        lemma_trim_end_take(t, m);
        assert(t.take(m) =~= s.take(m));
    }
}

/// Trimming twice is trimming once.
pub proof fn lemma_trim_idempotent(s: Seq<char>)
    ensures
        trim(trim(s)) == trim(s),
{
    lemma_trim_shape(s);
    let t = trim(s);
    if t.len() == 0 {
        lemma_trim_start_skip(t, 0);
        lemma_trim_end_take(t, 0);
        assert(t.skip(0) =~= t);
        assert(t.take(0) =~= t);
    } else {
        lemma_trim_start_skip(t, 0);
        assert(t.skip(0) =~= t);
        lemma_trim_end_take(t, t.len() as int);
        assert(t.take(t.len() as int) =~= t);
    }
}

/// A trimmed sequence neither starts nor ends with white space, and it is a
/// contiguous piece of the original.
pub proof fn lemma_trim_shape(s: Seq<char>)
    ensures
        trim(s).len() > 0 ==> !is_ws(trim(s)[0]) && !is_ws(trim(s).last()),
        exists|a: int, b: int| 0 <= a <= b <= s.len() && trim(s) == s.subrange(a, b),
{
    let k = first_non_ws(s, 0);
    lemma_first_non_ws(s, 0);
    lemma_trim_start_skip(s, k);
    let t = s.skip(k);
    let m = last_non_ws_end(t, t.len() as int);
    lemma_last_non_ws_end(t, t.len() as int);
    lemma_trim_end_take(t, m);
    assert(trim(s) == t.take(m));
    assert(t.take(m) =~= s.subrange(k, k + m));
    if m > 0 {
        assert(t.take(m).last() == t[m - 1]);
        assert(t.take(m)[0] == t[0]);
        if k < s.len() {
            assert(t[0] == s[k]);
        }
    }
}

/// Index of the first non-white-space character at or after `i`.
pub open spec fn first_non_ws(s: Seq<char>, i: int) -> int
    decreases s.len() - i,
{
    if i < 0 || i >= s.len() {
        if i < 0 { 0 } else { i }
    } else if !is_ws(s[i]) {
        i
    } else {
        first_non_ws(s, i + 1)
    }
}

pub proof fn lemma_first_non_ws(s: Seq<char>, i: int)
    requires
        0 <= i <= s.len(),
        forall|j: int| 0 <= j < i ==> is_ws(#[trigger] s[j]),
    ensures
        i <= first_non_ws(s, i) <= s.len(),
        forall|j: int| 0 <= j < first_non_ws(s, i) ==> is_ws(#[trigger] s[j]),
        first_non_ws(s, i) == s.len() || !is_ws(s[first_non_ws(s, i)]),
    decreases s.len() - i,
{
    if i < s.len() && is_ws(s[i]) {
        lemma_first_non_ws(s, i + 1);
    }
}

/// One past the index of the last non-white-space character before `m`.
pub open spec fn last_non_ws_end(s: Seq<char>, m: int) -> int
    decreases m,
{
    if m <= 0 {
        0
    } else if !is_ws(s[m - 1]) {
        m
    } else {
        last_non_ws_end(s, m - 1)
    }
}

pub proof fn lemma_last_non_ws_end(s: Seq<char>, m: int)
    requires
        0 <= m <= s.len(),
        forall|j: int| m <= j < s.len() ==> is_ws(#[trigger] s[j]),
    ensures
        0 <= last_non_ws_end(s, m) <= m,
        forall|j: int| last_non_ws_end(s, m) <= j < s.len() ==> is_ws(#[trigger] s[j]),
        last_non_ws_end(s, m) == 0 || !is_ws(s[last_non_ws_end(s, m) - 1]),
    decreases m,
{
    if m > 0 && is_ws(s[m - 1]) {
        lemma_last_non_ws_end(s, m - 1);
    }
}

// ---------------------------------------------------------------------------
// Executable functions
// ---------------------------------------------------------------------------

/// The characters of `s`, in order.
pub fn chars_of(s: &str) -> (r: Vec<char>)
    ensures
        r@ == s@,
{
    let mut r: Vec<char> = Vec::new();
    for c in it: s.chars()
        invariant
            r@ == it.seq().take(it.index() as int),
            it.seq() == s@,
    {
        r.push(c);
    }
    r
}

/// Appends one character to a `String` (`String::push`).
#[verifier::external_body]
pub fn push_char(s: &mut String, c: char)
    ensures
        final(s)@ == old(s)@.push(c),
{
    s.push(c);
}

/// The string made of the characters `v[lo..hi]`.
pub fn string_of_range(v: &Vec<char>, lo: usize, hi: usize) -> (r: String)
    requires
        lo <= hi <= v.len(),
    ensures
        r@ == v@.subrange(lo as int, hi as int),
{
    let mut r = String::new();
    let mut i: usize = lo;
    while i < hi
        invariant
            lo <= i <= hi <= v.len(),
            r@ == v@.subrange(lo as int, i as int),
        decreases hi - i,
    {
        push_char(&mut r, v[i]);
        i = i + 1;
        assert(r@ =~= v@.subrange(lo as int, i as int));
    }
    r
}

/// The string made of all the characters of `v`.
pub fn string_of(v: &Vec<char>) -> (r: String)
    ensures
        r@ == v@,
{
    let r = string_of_range(v, 0, v.len());
    assert(v@.subrange(0, v@.len() as int) =~= v@);
    r
}

/// `char::is_whitespace`.
pub fn is_whitespace(c: char) -> (r: bool)
    ensures
        r == is_ws(c),
{
    let u: u32 = c as u32;
    u == 0x20 || (0x09 <= u && u <= 0x0d) || u == 0x85 || u == 0xa0 || u == 0x1680 || (0x2000
        <= u && u <= 0x200a) || u == 0x2028 || u == 0x2029 || u == 0x202f || u == 0x205f || u
        == 0x3000
}

/// `char::is_ascii_alphanumeric`.
pub fn is_ascii_alphanumeric(c: char) -> (r: bool)
    ensures
        r == is_ascii_alnum(c),
{
    let u: u32 = c as u32;
    (0x30 <= u && u <= 0x39) || (0x41 <= u && u <= 0x5a) || (0x61 <= u && u <= 0x7a)
}

/// Bounds of the trimmed part of `v[lo..hi]`.
pub fn trim_bounds(v: &Vec<char>, lo: usize, hi: usize) -> (r: (usize, usize))
    requires
        lo <= hi <= v.len(),
    ensures
        lo <= r.0 <= r.1 <= hi,
        v@.subrange(r.0 as int, r.1 as int) == trim(v@.subrange(lo as int, hi as int)),
{
    let ghost s = v@.subrange(lo as int, hi as int);
    let mut a: usize = lo;
    while a < hi && is_whitespace(v[a])
        invariant
            lo <= a <= hi <= v.len(),
            s == v@.subrange(lo as int, hi as int),
            forall|i: int| 0 <= i < a - lo ==> is_ws(#[trigger] s[i]),
        decreases hi - a,
    {
        assert(s[a - lo] == v@[a as int]);
        a = a + 1;
    }
    if a < hi {
        assert(s[a - lo] == v@[a as int]);
    }
    proof {
        lemma_trim_start_skip(s, a - lo);
    }
    let ghost t = s.skip(a - lo);
    assert(t =~= v@.subrange(a as int, hi as int));
    let mut b: usize = hi;
    while b > a && is_whitespace(v[b - 1])
        invariant
            lo <= a <= b <= hi <= v.len(),
            t == v@.subrange(a as int, hi as int),
            forall|i: int| b - a <= i < t.len() ==> is_ws(#[trigger] t[i]),
        decreases b - a,
    {
        assert(t[b - 1 - a] == v@[b - 1]);
        b = b - 1;
    }
    if b > a {
        assert(t[b - 1 - a] == v@[b - 1]);
    }
    proof {
        lemma_trim_end_take(t, b - a);
    }
    assert(t.take(b - a) =~= v@.subrange(a as int, b as int));
    (a, b)
}

/// `str::trim`, returning an owned string.
pub fn trim_str(s: &str) -> (r: String)
    ensures
        r@ == trim(s@),
{
    let v = chars_of(s);
    let (a, b) = trim_bounds(&v, 0, v.len());
    assert(v@.subrange(0, v@.len() as int) =~= v@);
    string_of_range(&v, a, b)
}

/// Whether `p` occurs in `v` at position `i`.
pub fn matches_at(v: &Vec<char>, i: usize, p: &Vec<char>) -> (r: bool)
    ensures
        r == occurs_at(v@, p@, i as int),
{
    if i > v.len() || p.len() > v.len() - i {
        return false;
    }
    let mut j: usize = 0;
    while j < p.len()
        invariant
            j <= p.len(),
            i + p.len() <= v.len(),
            forall|k: int| 0 <= k < j ==> v@[i + k] == p@[k],
        decreases p.len() - j,
    {
        if v[i + j] != p[j] {
            assert(v@.subrange(i as int, i + p.len())[j as int] == v@[i + j]);
            return false;
        }
        j = j + 1;
    }
    assert(v@.subrange(i as int, i + p.len()) =~= p@);
    true
}

/// The first position at or after `from` where `p` occurs in `v`.
pub fn find_from_exec(v: &Vec<char>, p: &Vec<char>, from: usize) -> (r: Option<usize>)
    ensures
        match r {
            Some(k) => find_from(v@, p@, from as int) == Some(k as int),
            None => find_from(v@, p@, from as int) is None,
        },
{
    if from > v.len() || p.len() > v.len() - from {
        return None;
    }
    let mut i: usize = from;
    while i <= v.len() - p.len()
        invariant
            from <= i,
            p.len() <= v.len(),
            find_from(v@, p@, from as int) == find_from(v@, p@, i as int),
        decreases v.len() - i,
    {
        if p.len() == 0 || matches_at(v, i, p) {
            return Some(i);
        }
        i = i + 1;
    }
    None
}

/// The characters of `v` with every `from` replaced by `to`.
pub fn replace_char_exec(v: &Vec<char>, from: char, to: char) -> (r: Vec<char>)
    ensures
        r@ == replace_char(v@, from, to),
{
    let mut r: Vec<char> = Vec::new();
    let mut i: usize = 0;
    while i < v.len()
        invariant
            i <= v.len(),
            r@ == replace_char(v@.take(i as int), from, to),
        decreases v.len() - i,
    {
        let c = v[i];
        if c == from {
            r.push(to);
        } else {
            r.push(c);
        }
        i = i + 1;
        assert(r@ =~= replace_char(v@.take(i as int), from, to));
    }
    assert(v@.take(v@.len() as int) =~= v@);
    r
}

/// The lines of `v` as character ranges `[start, end)`, split as `str::lines` does.
pub fn line_ranges(v: &Vec<char>) -> (r: Vec<(usize, usize)>)
    ensures
        r@.len() == lines(v@).len(),
        forall|i: int| 0 <= i < r@.len() ==> (#[trigger] r@[i]).0 <= r@[i].1 <= v@.len(),
        forall|i: int|
            0 <= i < r@.len() ==> #[trigger] lines(v@)[i] == v@.subrange(
                r@[i].0 as int,
                r@[i].1 as int,
            ),
{
    let nl: Vec<char> = vec!['\n'];
    let mut out: Vec<(usize, usize)> = Vec::new();
    let ghost mut acc: Seq<Seq<char>> = seq![];
    let mut start: usize = 0;
    while start < v.len()
        invariant
            start <= v.len(),
            nl@ == seq!['\n'],
            acc.len() == out@.len(),
            forall|i: int|
                0 <= i < out@.len() ==> (#[trigger] out@[i]).0 <= out@[i].1 && out@[i].1 <= v@.len()
                    && acc[i] == v@.subrange(out@[i].0 as int, out@[i].1 as int),
            lines(v@) == acc + lines_from(v@, start as int),
        decreases v.len() - start,
    {
        let ghost old_acc = acc;
        let found = find_from_exec(v, &nl, start);
        proof {
            lemma_find_from(v@, nl@, start as int);
        }
        let end: usize = match found {
            Some(k) => k,
            None => v.len(),
        };
        assert(start <= end <= v.len());
        let mut stop: usize = end;
        if end < v.len() && stop > start && v[stop - 1] == '\r' {
            stop = stop - 1;
        }
        let ghost piece = v@.subrange(start as int, end as int);
        let ghost line = if found is None { piece } else { strip_cr(piece) };
        assert(line =~= v@.subrange(start as int, stop as int)) by {
            if end > start {
                assert(piece.last() == v@[end - 1]);
            }
        }
        proof {
            acc = acc.push(v@.subrange(start as int, stop as int));
            assert(lines(v@) =~= acc + lines_from(v@, end + 1)) by {
                assert(lines_from(v@, start as int) == seq![line] + lines_from(v@, end + 1)) by {
                    if found is None {
                        assert(lines_from(v@, end + 1) =~= seq![]);
                    }
                }
            }
        }
        let ghost old_out = out@;
        out.push((start, stop));
        assert forall|i: int|
            0 <= i < out@.len() implies (#[trigger] out@[i]).0 <= out@[i].1 && out@[i].1
            <= v@.len() && acc[i] == v@.subrange(out@[i].0 as int, out@[i].1 as int) by {
            if i < old_out.len() {
                assert(out@[i] == old_out[i]);
                assert(acc[i] == old_acc[i]);
            }
        }
        start = end;
        if start < v.len() {
            start = start + 1;
        }
    }
    assert(lines_from(v@, start as int) =~= seq![]);
    assert(lines(v@) =~= acc);
    assert forall|i: int| 0 <= i < out@.len() implies #[trigger] lines(v@)[i] == v@.subrange(
        out@[i].0 as int,
        out@[i].1 as int,
    ) by {
        assert(out@[i].0 <= out@[i].1);
    }
    out
}

/// `lt_chars` compares character vectors in the order of `str`.
pub fn lt_chars(a: &Vec<char>, b: &Vec<char>) -> (r: bool)
    ensures
        r == seq_lt(a@, b@),
{
    let mut i: usize = 0;
    assert(a@.skip(0) =~= a@);
    assert(b@.skip(0) =~= b@);
    loop
        invariant
            i <= a.len(),
            i <= b.len(),
            seq_lt(a@, b@) == seq_lt(a@.skip(i as int), b@.skip(i as int)),
        decreases a.len() - i,
    {
        if i == a.len() {
            return i < b.len();
        }
        if i == b.len() {
            return false;
        }
        let x = a[i];
        let y = b[i];
        assert(a@.skip(i as int)[0] == x);
        assert(b@.skip(i as int)[0] == y);
        if (x as u32) < (y as u32) {
            return true;
        }
        if x != y {
            return false;
        }
        assert(a@.skip(i as int).drop_first() =~= a@.skip(i + 1));
        assert(b@.skip(i as int).drop_first() =~= b@.skip(i + 1));
        i = i + 1;
    }
}

/// `a < b` for strings.
pub fn str_lt(a: &str, b: &str) -> (r: bool)
    ensures
        r == seq_lt(a@, b@),
{
    let x = chars_of(a);
    let y = chars_of(b);
    lt_chars(&x, &y)
}

/// `a == b` for strings.
pub fn str_eq(a: &str, b: &str) -> (r: bool)
    ensures
        r == (a@ == b@),
{
    let x = chars_of(a);
    let y = chars_of(b);
    if x.len() != y.len() {
        return false;
    }
    let mut i: usize = 0;
    while i < x.len()
        invariant
            i <= x.len(),
            x.len() == y.len(),
            x@ == a@,
            y@ == b@,
            forall|k: int| 0 <= k < i ==> x@[k] == y@[k],
        decreases x.len() - i,
    {
        if x[i] != y[i] {
            assert(x@[i as int] != y@[i as int]);
            assert(a@[i as int] != b@[i as int]);
            return false;
        }
        i = i + 1;
    }
    assert(x@ =~= y@);
    true
}

/// No sequence is below itself.
pub proof fn lemma_lt_irreflexive(a: Seq<char>)
    ensures
        !seq_lt(a, a),
    decreases a.len(),
{
    if a.len() > 0 {
        lemma_lt_irreflexive(a.drop_first());
    }
}

/// The order is transitive.
pub proof fn lemma_lt_transitive(a: Seq<char>, b: Seq<char>, c: Seq<char>)
    requires
        seq_lt(a, b),
        seq_lt(b, c),
    ensures
        seq_lt(a, c),
    decreases a.len(),
{
    if a.len() > 0 && b.len() > 0 && c.len() > 0 && a[0] == b[0] && b[0] == c[0] {
        lemma_lt_transitive(a.drop_first(), b.drop_first(), c.drop_first());
    }
}

/// Two distinct sequences are ordered one way or the other, never both.
pub proof fn lemma_lt_total(a: Seq<char>, b: Seq<char>)
    ensures
        a != b ==> (seq_lt(a, b) || seq_lt(b, a)),
        !(seq_lt(a, b) && seq_lt(b, a)),
    decreases a.len(),
{
    if a.len() > 0 && b.len() > 0 && a[0] == b[0] {
        lemma_lt_total(a.drop_first(), b.drop_first());
        if a.drop_first() == b.drop_first() {
            assert(a =~= seq![a[0]] + a.drop_first());
            assert(b =~= seq![b[0]] + b.drop_first());
        }
    } else if a.len() == 0 && b.len() == 0 {
        assert(a =~= b);
    } else if a.len() > 0 && b.len() > 0 {
        vstd::utf8::char_u32_cast(a[0], a[0] as u32);
        vstd::utf8::char_u32_cast(b[0], b[0] as u32);
    }
}

/// Whether `v[lo..hi]` starts with `p`.
pub fn starts_with_in(v: &Vec<char>, lo: usize, hi: usize, p: &Vec<char>) -> (r: bool)
    requires
        lo <= hi <= v.len(),
    ensures
        r == starts_with(v@.subrange(lo as int, hi as int), p@),
{
    let ghost sub = v@.subrange(lo as int, hi as int);
    if p.len() > hi - lo {
        return false;
    }
    let m = matches_at(v, lo, p);
    assert(v@.subrange(lo as int, lo + p.len()) =~= sub.take(p.len() as int));
    m
}

/// Whether `v[lo..hi]` ends with `p`.
pub fn ends_with_in(v: &Vec<char>, lo: usize, hi: usize, p: &Vec<char>) -> (r: bool)
    requires
        lo <= hi <= v.len(),
    ensures
        r == ends_with(v@.subrange(lo as int, hi as int), p@),
{
    let ghost sub = v@.subrange(lo as int, hi as int);
    if p.len() > hi - lo {
        return false;
    }
    let m = matches_at(v, hi - p.len(), p);
    assert(v@.subrange(hi - p.len(), hi as int) =~= sub.skip(sub.len() - p.len()));
    m
}

/// Whether `s` starts with the characters `p`.
pub fn str_starts_with(s: &str, p: &Vec<char>) -> (r: bool)
    ensures
        r == starts_with(s@, p@),
{
    let v = chars_of(s);
    assert(v@.subrange(0, v@.len() as int) =~= v@);
    starts_with_in(&v, 0, v.len(), p)
}

/// Whether `s` ends with the characters `p`.
pub fn str_ends_with(s: &str, p: &Vec<char>) -> (r: bool)
    ensures
        r == ends_with(s@, p@),
{
    let v = chars_of(s);
    assert(v@.subrange(0, v@.len() as int) =~= v@);
    ends_with_in(&v, 0, v.len(), p)
}

/// Whether `s` holds no character other than white space (`s.trim().is_empty()`).
pub fn is_blank(s: &str) -> (r: bool)
    ensures
        r == (trim(s@).len() == 0),
{
    let v = chars_of(s);
    let (a, b) = trim_bounds(&v, 0, v.len());
    assert(v@.subrange(0, v@.len() as int) =~= v@);
    a == b
}

/// Whether `p` occurs in `v`.
pub fn contains_exec(v: &Vec<char>, p: &Vec<char>) -> (r: bool)
    ensures
        r == contains_seq(v@, p@),
{
    let found = find_from_exec(v, p, 0);
    proof {
        lemma_find_from(v@, p@, 0);
    }
    match found {
        Some(k) => {
            assert(occurs_at(v@, p@, k as int));
            true
        },
        None => {
            assert forall|i: int| !occurs_at(v@, p@, i) by {
                if i >= 0 {
                }
            }
            false
        },
    }
}

/// `s` without its trailing `c` characters.
pub open spec fn strip_trailing(s: Seq<char>, c: char) -> Seq<char>
    decreases s.len(),
{
    if s.len() > 0 && s.last() == c {
        strip_trailing(s.drop_last(), c)
    } else {
        s
    }
}

/// A first occurrence is what `find_from` finds.
pub proof fn lemma_find_first(s: Seq<char>, p: Seq<char>, from: int, q: int)
    requires
        0 <= from <= q,
        occurs_at(s, p, q),
        forall|j: int| from <= j < q ==> !occurs_at(s, p, j),
    ensures
        find_from(s, p, from) == Some(q),
    decreases q - from,
{
    if from < q {
        assert(!occurs_at(s, p, from));
        if p.len() == 0 {
            assert(s.subrange(from, from + p.len()) =~= p);
        }
        lemma_find_first(s, p, from + 1, q);
    }
}

/// Without any occurrence from `from` on, `find_from` finds nothing.
pub proof fn lemma_find_none(s: Seq<char>, p: Seq<char>, from: int)
    requires
        0 <= from,
        forall|j: int| from <= j ==> !occurs_at(s, p, j),
    ensures
        find_from(s, p, from) is None,
    decreases s.len() - from,
{
    if from + p.len() <= s.len() {
        if p.len() == 0 {
            assert(s.subrange(from, from + p.len()) =~= p);
            assert(occurs_at(s, p, from));
        } else {
            assert(!occurs_at(s, p, from));
            lemma_find_none(s, p, from + 1);
        }
    }
}

/// A single character occurs where the sequence holds it.
pub proof fn lemma_occurs_char(s: Seq<char>, c: char, j: int)
    ensures
        occurs_at(s, seq![c], j) <==> (0 <= j < s.len() && s[j] == c),
{
    if 0 <= j < s.len() && s[j] == c {
        assert(s.subrange(j, j + 1) =~= seq![c]);
    }
    if occurs_at(s, seq![c], j) {
        assert(s.subrange(j, j + 1)[0] == s[j]);
    }
}

/// Searching from `k + i` in `s` is searching from `i` in `s.skip(k)`.
pub proof fn lemma_find_from_skip(s: Seq<char>, p: Seq<char>, k: int, i: int)
    requires
        0 <= k <= s.len(),
        0 <= i,
    ensures
        find_from(s, p, k + i) == match find_from(s.skip(k), p, i) {
            Some(x) => Some(x + k),
            None => None,
        },
    decreases s.len() - (k + i),
{
    let t = s.skip(k);
    if k + i + p.len() <= s.len() {
        assert(occurs_at(s, p, k + i) == occurs_at(t, p, i)) by {
            assert(s.subrange(k + i, k + i + p.len()) =~= t.subrange(i, i + p.len()));
        }
        if !(p.len() == 0 || occurs_at(s, p, k + i)) {
            lemma_find_from_skip(s, p, k, i + 1);
        }
    }
}

/// The lines from position `k + i` of `s` are the lines from `i` of `s.skip(k)`.
pub proof fn lemma_lines_from_skip(s: Seq<char>, k: int, i: int)
    requires
        0 <= k <= s.len(),
        0 <= i,
    ensures
        lines_from(s, k + i) == lines_from(s.skip(k), i),
    decreases s.len() - (k + i),
{
    let t = s.skip(k);
    if k + i < s.len() {
        lemma_find_from_skip(s, seq!['\n'], k, i);
        match find_from(t, seq!['\n'], i) {
            Some(x) => {
                lemma_find_from(t, seq!['\n'], i);
                assert(s.subrange(k + i, x + k) =~= t.subrange(i, x));
                lemma_lines_from_skip(s, k, x + 1);
            },
            None => {
                assert(s.subrange(k + i, s.len() as int) =~= t.subrange(i, t.len() as int));
            },
        }
    }
}

/// A line without a newline, a newline, then the rest.
pub proof fn lemma_lines_cons(a: Seq<char>, b: Seq<char>)
    requires
        forall|i: int| 0 <= i < a.len() ==> a[i] != '\n',
    ensures
        lines(a + seq!['\n'] + b) == seq![strip_cr(a)] + lines(b),
{
    let s = a + seq!['\n'] + b;
    assert forall|j: int| 0 <= j < a.len() implies !occurs_at(s, seq!['\n'], j) by {
        lemma_occurs_char(s, '\n', j);
    }
    lemma_occurs_char(s, '\n', a.len() as int);
    lemma_find_first(s, seq!['\n'], 0, a.len() as int);
    assert(s.subrange(0, a.len() as int) =~= a);
    lemma_lines_from_skip(s, a.len() as int + 1, 0);
    assert(s.skip(a.len() as int + 1) =~= b);
}

} // verus!
