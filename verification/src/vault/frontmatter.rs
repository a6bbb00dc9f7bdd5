//! YAML frontmatter of Markdown notes.
use vstd::prelude::*;
use crate::vault::wikilinks::opt_view;

verus! {

/// The frontmatter fields the vault relies on. The YAML engine of `gray_matter`
/// decodes them; a frontmatter that does not have this shape counts as absent.
#[derive(Debug, Clone, Default, PartialEq, Eq)]
pub struct FrontMatter {
    pub title: Option<String>,
    pub note_type: Option<String>,
    pub tags: Option<Vec<String>>,
}

/// A note split into its frontmatter fields and its body.
#[derive(Debug, Clone, PartialEq, Eq)]
pub struct ParsedNote {
    pub title: Option<String>,
    pub note_type: Option<String>,
    pub tags: Vec<String>,
    pub body: String,
}

/// The views of a sequence of strings.
pub open spec fn strs_view(v: Seq<String>) -> Seq<Seq<char>> {
    v.map_values(|s: String| s@)
}

/// The tags of a frontmatter; no `tags` field means no tags.
pub open spec fn tags_view(t: Option<Vec<String>>) -> Seq<Seq<char>> {
    match t {
        Some(v) => strs_view(v@),
        None => seq![],
    }
}

/// What `gray_matter`'s `Matter::<YAML>::parse` returns as `content` for `raw`:
/// the text with the frontmatter block and its delimiters taken out.
pub uninterp spec fn gray_matter_content(raw: Seq<char>) -> Seq<char>;

/// The body of a note, as `gray_matter` separates it from the frontmatter.
#[verifier::external_body]
fn note_body(raw: &str) -> (r: String)
    ensures
        r@ == gray_matter_content(raw@),
{
    gray_matter::Matter::<gray_matter::engine::YAML>::new().parse(raw).content
}

/// A copy of a list of strings.
pub fn copy_strings(v: &Vec<String>) -> (r: Vec<String>)
    ensures
        strs_view(r@) == strs_view(v@),
{
    let mut r: Vec<String> = Vec::new();
    let mut i: usize = 0;
    while i < v.len()
        invariant
            i <= v.len(),
            strs_view(r@) == strs_view(v@.take(i as int)),
        decreases v.len() - i,
    {
        let c = v[i].clone();
        assert(c@ == v@[i as int]@);
        let ghost before = r@;
        r.push(c);
        assert(strs_view(r@) =~= strs_view(before).push(c@));
        assert(v@.take(i + 1) =~= v@.take(i as int).push(v@[i as int]));
        i = i + 1;
        assert(strs_view(r@) =~= strs_view(v@.take(i as int)));
    }
    assert(v@.take(v@.len() as int) =~= v@);
    r
}

/// A copy of an optional string.
pub fn copy_opt(o: &Option<String>) -> (r: Option<String>)
    ensures
        opt_view(r) == opt_view(*o),
{
    match o {
        Some(s) => Some(s.clone()),
        None => None,
    }
}

/// Splits a note: the fields come from its decoded frontmatter (none when it has
/// no frontmatter of the expected shape), the body from `gray_matter`.
pub fn parse_markdown_note(raw: &str, front_matter: Option<FrontMatter>) -> (r: ParsedNote)
    ensures
        r.body@ == gray_matter_content(raw@),
        match front_matter {
            Some(fm) => opt_view(r.title) == opt_view(fm.title) && opt_view(r.note_type)
                == opt_view(fm.note_type) && strs_view(r.tags@) == tags_view(fm.tags),
            None => r.title is None && r.note_type is None && r.tags@.len() == 0,
        },
{
    let body = note_body(raw);
    match front_matter {
        Some(fm) => {
            let tags = match fm.tags {
                Some(t) => t,
                None => Vec::new(),
            };
            assert(strs_view(Seq::<String>::empty()) =~= seq![]);
            ParsedNote { title: fm.title, note_type: fm.note_type, tags, body }
        },
        None => ParsedNote { title: None, note_type: None, tags: Vec::new(), body },
    }
}

} // verus!
