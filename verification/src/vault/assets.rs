//! PDF files kept in the vault.
use vstd::prelude::*;
use crate::sorting::{
    lemma_filter_map_values, lemma_map_preserves_multiset, sort_by_key, sorted_by_key, with_key, Keyed,
};
use crate::text::{chars_of, replace_char, replace_char_exec, string_of};
use crate::vault::paths::{has_extension, path_has_extension};

verus! {

/// A PDF file of the vault: its vault-relative path and its size in bytes.
#[derive(Debug, Clone, PartialEq, Eq)]
pub struct PdfAsset {
    pub path: String,
    pub bytes: u64,
}

/// A file found in the vault: its path relative to the root (with the
/// platform's separators) and its size.
#[derive(Debug, Clone, PartialEq, Eq)]
pub struct VaultFile {
    pub relative_path: String,
    pub bytes: u64,
}

impl Keyed for PdfAsset {
    open spec fn key_view(&self) -> Seq<char> {
        self.path@
    }

    fn key(&self) -> (r: &str) {
        self.path.as_str()
    }
}

/// `pdf`
pub open spec fn pdf_ext() -> Seq<char> {
    seq!['p', 'd', 'f']
}

/// The assets among the first `i` files: the files with extension `pdf`, with
/// `/` separators.
pub open spec fn pdf_assets(files: Seq<VaultFile>, i: int) -> Seq<(Seq<char>, u64)>
    decreases i,
{
    if i <= 0 {
        seq![]
    } else {
        let rest = pdf_assets(files, i - 1);
        let f = files[i - 1];
        if has_extension(f.relative_path@, pdf_ext()) {
            rest.push((replace_char(f.relative_path@, '\\', '/'), f.bytes))
        } else {
            rest
        }
    }
}

/// The abstract value of an asset.
pub open spec fn asset_view(a: PdfAsset) -> (Seq<char>, u64) {
    (a.path@, a.bytes)
}

/// The PDF assets among the files of the vault, ordered by path; assets with
/// the same path keep the order of their files.
pub fn list_pdf_assets(files: Vec<VaultFile>) -> (r: Vec<PdfAsset>)
    ensures
        sorted_by_key(r@),
        forall|k: Seq<char>|
            (#[trigger] with_key(r@, k)).map_values(|a: PdfAsset| asset_view(a)) == pdf_assets(
                files@,
                files@.len() as int,
            ).filter(|a: (Seq<char>, u64)| a.0 == k),
        r@.map_values(|a: PdfAsset| asset_view(a)).to_multiset() == pdf_assets(files@, files@.len() as int).to_multiset(),
{
    let pdf = "pdf";
    proof {
        reveal_strlit("pdf");
    }
    assert(pdf@ =~= pdf_ext());
    let mut pdfs: Vec<PdfAsset> = Vec::new();
    let mut i: usize = 0;
    while i < files.len()
        invariant
            i <= files.len(),
            pdf@ == pdf_ext(),
            pdfs@.map_values(|a: PdfAsset| asset_view(a)) == pdf_assets(files@, i as int),
        decreases files.len() - i,
    {
        let f = &files[i];
        if path_has_extension(f.relative_path.as_str(), pdf) {
            let v = chars_of(f.relative_path.as_str());
            let path = string_of(&replace_char_exec(&v, '\\', '/'));
            let ghost before = pdfs@;
            let a = PdfAsset { path, bytes: f.bytes };
            pdfs.push(a);
            assert(pdfs@.map_values(|a: PdfAsset| asset_view(a)) =~= before.map_values(
                |a: PdfAsset| asset_view(a),
            ).push(asset_view(a)));
        }
        i = i + 1;
    }
    let sorted = sort_by_key(pdfs);
    proof {
        lemma_map_preserves_multiset(sorted@, pdfs@, |a: PdfAsset| asset_view(a));
        assert forall|k: Seq<char>|
            (#[trigger] with_key(sorted@, k)).map_values(|a: PdfAsset| asset_view(a)) == pdf_assets(
                files@,
                files@.len() as int,
            ).filter(|a: (Seq<char>, u64)| a.0 == k) by {
            lemma_filter_map_values(
                pdfs@,
                |a: PdfAsset| asset_view(a),
                |t: PdfAsset| t.key_view() == k,
                |a: (Seq<char>, u64)| a.0 == k,
            );
        }
    }
    sorted
}

} // verus!
