//! The structured form of a feed's `<link>` element.

use vstd::prelude::*;

verus! {

/// One `<link>` relation: where it points, what it is to the feed, and the
/// optional media type, language, title and length of what it points at.
#[derive(Clone, Debug, PartialEq, Eq)]
pub struct Link {
    /// The URI of the referenced resource.
    pub href: String,
    /// The relation of the resource to the feed; may be empty.
    pub rel: String,
    /// The language of the resource.
    pub hreflang: Option<String>,
    /// The MIME type of the resource.
    pub mime_type: Option<String>,
    /// Human-readable information about the link.
    pub title: Option<String>,
    /// The length of the resource, in bytes.
    pub length: Option<u64>,
}

/// What a [`Link`] holds, as sequences of characters.
pub struct LinkView {
    pub href: Seq<char>,
    pub rel: Seq<char>,
    pub hreflang: Option<Seq<char>>,
    pub mime_type: Option<Seq<char>>,
    pub title: Option<Seq<char>>,
    pub length: Option<u64>,
}

/// The characters of an optional string.
pub open spec fn text_of(value: Option<String>) -> Option<Seq<char>> {
    match value {
        Some(s) => Some(s@),
        None => None,
    }
}

impl View for Link {
    type V = LinkView;

    open spec fn view(&self) -> LinkView {
        LinkView {
            href: self.href@,
            rel: self.rel@,
            hreflang: text_of(self.hreflang),
            mime_type: text_of(self.mime_type),
            title: text_of(self.title),
            length: self.length,
        }
    }
}

/// A copy of an optional string.
pub fn copy_text(value: &Option<String>) -> (copy: Option<String>)
    ensures
        text_of(copy) == text_of(*value),
{
    match value {
        Some(s) => Some(s.clone()),
        None => None,
    }
}

/// Whether two optional strings hold the same text, or are both absent.
pub fn same_text(a: &Option<String>, b: &Option<String>) -> (same: bool)
    ensures
        same == (text_of(*a) == text_of(*b)),
{
    match (a, b) {
        (Some(x), Some(y)) => *x == *y,
        (None, None) => true,
        _ => false,
    }
}

impl Link {
    /// A link that holds what `self` holds.
    pub fn duplicate(&self) -> (copy: Link)
        ensures
            copy@ == self@,
    {
        Link {
            href: self.href.clone(),
            rel: self.rel.clone(),
            hreflang: copy_text(&self.hreflang),
            mime_type: copy_text(&self.mime_type),
            title: copy_text(&self.title),
            length: self.length,
        }
    }

    /// Whether the two links agree in every field.
    pub fn same_as(&self, other: &Link) -> (same: bool)
        ensures
            same == (self@ == other@),
    {
        let same_length = match (self.length, other.length) {
            (Some(a), Some(b)) => a == b,
            (None, None) => true,
            _ => false,
        };
        self.href == other.href && self.rel == other.rel && same_text(
            &self.hreflang,
            &other.hreflang,
        ) && same_text(&self.mime_type, &other.mime_type) && same_text(&self.title, &other.title)
            && same_length
    }
}

} // verus!
