//! A single link record: identifier, title, url, and the reserved active
//! flag.

use vstd::prelude::*;

use crate::bounds::MAX_TITLE_CHARS;
use crate::bounds::MAX_URL_CHARS;

verus! {

/// One link inside a record.
#[derive(Debug, PartialEq)]
pub struct Link {
    /// Identifier, unique within the owning record, assigned from the
    /// record's link counter and never reused.
    pub id: u64,
    pub title: String,
    pub url: String,
    /// Reserved flag: set true at creation, preserved verbatim; no
    /// operation toggles it.
    pub active: bool,
}

/// The mathematical image of a [`Link`].
#[verifier::ext_equal]
pub ghost struct LinkModel {
    pub id: u64,
    pub title: Seq<char>,
    pub url: Seq<char>,
    pub active: bool,
}

impl View for Link {
    type V = LinkModel;

    open spec fn view(&self) -> LinkModel {
        LinkModel { id: self.id, title: self.title@, url: self.url@, active: self.active }
    }
}

/// A link's fields are within their bounds.
pub open spec fn link_wf(l: LinkModel) -> bool {
    &&& l.title.len() <= MAX_TITLE_CHARS
    &&& l.url.len() <= MAX_URL_CHARS
}

/// The image of a sequence of stored links.
pub open spec fn links_model(s: Seq<Link>) -> Seq<LinkModel> {
    Seq::new(s.len(), |i: int| s[i]@)
}

} // verus!
