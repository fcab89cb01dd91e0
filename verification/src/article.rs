//! The unit of output: one article as fetched from the remote service.

use vstd::prelude::*;

verus! {

/// An article record as decoded from a fetched JSON document. The
/// `xhtml_body` field starts as raw markup and is stripped of tags
/// before the collection is persisted.
#[derive(Debug)]
pub struct SnlArticle {
    pub id: usize,
    pub url: String,
    pub title: String,
    pub subject_title: String,
    pub xhtml_body: String,
}

} // verus!
