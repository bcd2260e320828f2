//! The bundled PDF edition that some issues offer.

use vstd::prelude::*;

verus! {

/// The companion PDF of an issue: the link that offered it and the name of
/// the file it is stored as.
#[derive(Debug, PartialEq, Eq)]
pub struct PhrackPdf {
    /// The file name: the token of the link and `.pdf`.
    pub filename: String,
    /// The link to the file as the page gave it, relative to the archive.
    pub uri_path: String,
}

/// The mathematical content of a [`PhrackPdf`].
pub struct PhrackPdfView {
    pub filename: Seq<char>,
    pub uri_path: Seq<char>,
}

impl View for PhrackPdf {
    type V = PhrackPdfView;

    open spec fn view(&self) -> PhrackPdfView {
        PhrackPdfView { filename: self.filename@, uri_path: self.uri_path@ }
    }
}

impl Clone for PhrackPdf {
    fn clone(&self) -> (copy: Self)
        ensures
            copy@ == self@,
    {
        PhrackPdf { filename: self.filename.clone(), uri_path: self.uri_path.clone() }
    }
}

} // verus!
