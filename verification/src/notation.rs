//! The bracket notation for links, as a mathematical model.
//!
//! A link is written as its URL followed by annotations, each of the form
//! `[key=value]`, for example `https://example.com/feed.xml[rel=self][lang=en-us]`.
//! Nothing is escaped: what cannot be read as an annotation is part of the URL.

use vstd::prelude::*;
use crate::link::LinkView;

verus! {

/// The fields of a link that an annotation can set.
#[derive(Clone, Copy, Debug, PartialEq, Eq)]
pub enum Tag {
    Rel,
    Type,
    Lang,
    Title,
}

/// The text between the opening bracket and the value; it ends in the equals sign.
pub open spec fn tag_text(tag: Tag) -> Seq<char> {
    match tag {
        Tag::Rel => "rel="@,
        Tag::Type => "type="@,
        Tag::Lang => "lang="@,
        Tag::Title => "title="@,
    }
}

/// The tag that `key` spells, compared exactly: case matters and nothing is trimmed.
pub open spec fn tag_of(key: Seq<char>) -> Option<Tag> {
    if key == tag_text(Tag::Rel) {
        Some(Tag::Rel)
    } else if key == tag_text(Tag::Type) {
        Some(Tag::Type)
    } else if key == tag_text(Tag::Title) {
        Some(Tag::Title)
    } else if key == tag_text(Tag::Lang) {
        Some(Tag::Lang)
    } else {
        None
    }
}

/// The default relation of a link whose text names none.
pub open spec fn default_rel() -> Seq<char> {
    "related"@
}

/// One annotation, written out.
pub open spec fn annotation(tag: Tag, value: Seq<char>) -> Seq<char> {
    "["@ + tag_text(tag) + value + "]"@
}

/// The annotation of a field that may be absent.
pub open spec fn optional_annotation(tag: Tag, value: Option<Seq<char>>) -> Seq<char> {
    match value {
        Some(v) => annotation(tag, v),
        None => Seq::empty(),
    }
}

/// The annotations of a link, in their fixed order: relation (left out when it
/// is empty), media type, language, title.
pub open spec fn annotations(link: LinkView) -> Seq<char> {
    (if link.rel.len() == 0 {
        Seq::empty()
    } else {
        annotation(Tag::Rel, link.rel)
    }) + optional_annotation(Tag::Type, link.mime_type) + optional_annotation(
        Tag::Lang,
        link.hreflang,
    ) + optional_annotation(Tag::Title, link.title)
}

/// The text of a link: its URL, then its annotations.
pub open spec fn encode(link: LinkView) -> Seq<char> {
    link.href + annotations(link)
}

/// An annotation found at the end of a text.
pub struct Trailing {
    /// Where its opening bracket stands.
    pub start: int,
    /// The field it sets.
    pub tag: Tag,
    /// What it sets the field to.
    pub value: Seq<char>,
}

/// The annotation that ends `text`, if one does.
///
/// The text must end in `]`; the annotation opens at the last `[` of the text;
/// the last `=` of the text must stand after that bracket; and what lies
/// between bracket and equals sign, the sign included, must spell a tag.
pub open spec fn trailing(text: Seq<char>) -> Option<Trailing> {
    if text.len() == 0 || text.last() != ']' {
        None
    } else {
        match text.index_of_last('[') {
            None => None,
            Some(open) => match text.index_of_last('=') {
                None => None,
                Some(eq) => if eq < open {
                    None
                } else {
                    match tag_of(text.subrange(open + 1, eq + 1)) {
                        None => None,
                        Some(tag) => Some(
                            Trailing { start: open, tag, value: text.subrange(eq + 1, text.len() - 1) },
                        ),
                    }
                },
            },
        }
    }
}

/// A trailing annotation opens inside the text.
pub proof fn lemma_trailing_starts_inside(text: Seq<char>)
    ensures
        trailing(text) matches Some(found) ==> 0 <= found.start < text.len(),
{
    text.index_of_last_ensures('[');
}

/// `link` with the field that `tag` names set to `value`.
pub open spec fn with_field(link: LinkView, tag: Tag, value: Seq<char>) -> LinkView {
    match tag {
        Tag::Rel => LinkView { rel: value, ..link },
        Tag::Type => LinkView { mime_type: Some(value), ..link },
        Tag::Lang => LinkView { hreflang: Some(value), ..link },
        Tag::Title => LinkView { title: Some(value), ..link },
    }
}

/// Reads `text` from its right end onto `link`: each trailing annotation sets
/// its field and is cut off; what is left when no annotation ends the text is
/// the URL. An annotation further left is applied later, so where a tag occurs
/// more than once the occurrence nearest the URL is the one that stays.
pub open spec fn decode_onto(text: Seq<char>, link: LinkView) -> LinkView
    decreases text.len(),
{
    match trailing(text) {
        Some(found) => {
            proof {
                lemma_trailing_starts_inside(text);
            }
            decode_onto(text.take(found.start), with_field(link, found.tag, found.value))
        },
        None => LinkView { href: text, ..link },
    }
}

/// The link that nothing has been read onto yet.
pub open spec fn blank() -> LinkView {
    LinkView {
        href: Seq::empty(),
        rel: default_rel(),
        hreflang: None,
        mime_type: None,
        title: None,
        length: None,
    }
}

/// The link that `text` stands for. Every text stands for one.
pub open spec fn decode(text: Seq<char>) -> LinkView {
    decode_onto(text, blank())
}

} // verus!
