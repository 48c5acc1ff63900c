//! Links as they are typed on a command line: reading the bracket notation
//! into a [`Link`] and writing a [`Link`] out in it.

use vstd::prelude::*;
use vstd::string::*;
use crate::link::{Link, LinkView, text_of};
use crate::notation::{Tag, annotation, decode, decode_onto, encode, tag_of, trailing};
use crate::text::chars_of;

verus! {

/// Where `needle` last occurs among the first `end` characters.
fn last_index(chars: &Vec<char>, end: usize, needle: char) -> (found: Option<usize>)
    requires
        end <= chars.len(),
    ensures
        match found {
            Some(i) => chars@.take(end as int).index_of_last(needle) == Some(i as int) && i < end,
            None => chars@.take(end as int).index_of_last(needle) is None,
        },
{
    let ghost prefix = chars@.take(end as int);
    let mut i: usize = end;
    while i > 0
        invariant
            i <= end <= chars.len(),
            prefix == chars@.take(end as int),
            forall|j: int| i <= j < end ==> prefix[j] != needle,
        decreases i,
    {
        i = i - 1;
        if chars[i] == needle {
            proof {
                assert(prefix[i as int] == needle);
                prefix.index_of_last_ensures(needle);
            }
            return Some(i);
        }
    }
    proof {
        prefix.index_of_last_ensures(needle);
    }
    None
}

/// Whether the characters from `from` up to `to` spell `word`.
fn spells(chars: &Vec<char>, from: usize, to: usize, word: &str) -> (yes: bool)
    requires
        from <= to <= chars.len(),
    ensures
        yes == (chars@.subrange(from as int, to as int) == word@),
{
    let letters = chars_of(word);
    let ghost part = chars@.subrange(from as int, to as int);
    if letters.len() != to - from {
        return false;
    }
    let mut i: usize = 0;
    while i < letters.len()
        invariant
            from <= to <= chars.len(),
            letters.len() == to - from,
            letters@ == word@,
            i <= letters.len(),
            part == chars@.subrange(from as int, to as int),
            forall|j: int| 0 <= j < i ==> part[j] == letters@[j],
        decreases letters.len() - i,
    {
        if chars[from + i] != letters[i] {
            assert(part[i as int] != letters@[i as int]);
            return false;
        }
        i = i + 1;
    }
    assert(part =~= letters@);
    true
}

/// The tag that the characters from `from` up to `to` spell.
fn read_tag(chars: &Vec<char>, from: usize, to: usize) -> (tag: Option<Tag>)
    requires
        from <= to <= chars.len(),
    ensures
        tag == tag_of(chars@.subrange(from as int, to as int)),
{
    if spells(chars, from, to, "rel=") {
        Some(Tag::Rel)
    } else if spells(chars, from, to, "type=") {
        Some(Tag::Type)
    } else if spells(chars, from, to, "title=") {
        Some(Tag::Title)
    } else if spells(chars, from, to, "lang=") {
        Some(Tag::Lang)
    } else {
        None
    }
}

/// Reads a link from its text. No text is refused: what cannot be read as an
/// annotation stays in the URL.
pub fn string_to_link(it: &str) -> (link: Link)
    ensures
        link@ == decode(it@),
{
    let chars = chars_of(it);
    let mut rel: String = "related".to_owned();
    let mut hreflang: Option<String> = None;
    let mut mime_type: Option<String> = None;
    let mut title: Option<String> = None;
    let mut end: usize = chars.len();
    assert(it@.take(end as int) =~= it@);
    loop
        invariant
            chars@ == it@,
            end <= chars.len(),
            decode(it@) == decode_onto(
                it@.take(end as int),
                LinkView {
                    href: Seq::empty(),
                    rel: rel@,
                    hreflang: text_of(hreflang),
                    mime_type: text_of(mime_type),
                    title: text_of(title),
                    length: None,
                },
            ),
        ensures
            trailing(it@.take(end as int)) is None,
        decreases end,
    {
        let ghost rest = it@.take(end as int);
        if end == 0 || chars[end - 1] != ']' {
            break ;
        }
        let open = match last_index(&chars, end, '[') {
            Some(open) => open,
            None => { break ; },
        };
        let eq = match last_index(&chars, end, '=') {
            Some(eq) => eq,
            None => { break ; },
        };
        if eq < open {
            break ;
        }
        proof {
            rest.index_of_last_ensures('=');
            assert(rest.subrange(open + 1, eq + 1) =~= chars@.subrange(open + 1, eq + 1));
            assert(rest.subrange(eq + 1, end - 1) =~= it@.subrange(eq + 1, end - 1));
            assert(rest.take(open as int) =~= it@.take(open as int));
        }
        let tag = match read_tag(&chars, open + 1, eq + 1) {
            Some(tag) => tag,
            None => { break ; },
        };
        let value = it.substring_char(eq + 1, end - 1).to_owned();
        match tag {
            Tag::Rel => { rel = value; },
            Tag::Type => { mime_type = Some(value); },
            Tag::Lang => { hreflang = Some(value); },
            Tag::Title => { title = Some(value); },
        }
        end = open;
    }
    let href = it.substring_char(0, end).to_owned();
    assert(href@ =~= it@.take(end as int));
    Link { href, rel, hreflang, mime_type, title, length: None }
}

/// Appends the annotation that sets `tag` to `value`.
fn push_annotation(text: &mut String, tag: Tag, value: &str)
    ensures
        final(text)@ == old(text)@ + annotation(tag, value@),
{
    text.append("[");
    match tag {
        Tag::Rel => text.append("rel="),
        Tag::Type => text.append("type="),
        Tag::Lang => text.append("lang="),
        Tag::Title => text.append("title="),
    }
    text.append(value);
    text.append("]");
    assert(final(text)@ =~= old(text)@ + annotation(tag, value@));
}

/// Writes a link as its URL followed by its annotations: the relation unless
/// it is empty, then the media type, the language and the title where the
/// link has them. Nothing in a value is escaped.
pub fn link_to_string(it: &Link) -> (text: String)
    ensures
        text@ == encode(it@),
{
    let mut text = it.href.clone();
    if !it.rel.as_str().is_empty() {
        push_annotation(&mut text, Tag::Rel, it.rel.as_str());
    }
    match &it.mime_type {
        Some(mime) => push_annotation(&mut text, Tag::Type, mime.as_str()),
        None => {},
    }
    match &it.hreflang {
        Some(lang) => push_annotation(&mut text, Tag::Lang, lang.as_str()),
        None => {},
    }
    match &it.title {
        Some(title) => push_annotation(&mut text, Tag::Title, title.as_str()),
        None => {},
    }
    assert(text@ =~= encode(it@));
    text
}

/// A link in both its forms: the structured one, and the text it was read
/// from or is written as.
///
/// The two need not say the same: a text that names no relation reads as a
/// link that has the default one, and that link is written with it.
#[derive(Clone, Debug, PartialEq, Eq)]
pub struct StringableLink {
    pub link_form: Link,
    pub string_form: String,
}

impl StringableLink {
    /// The link, and the text it is written as.
    pub fn from_link(it: &Link) -> (both: StringableLink)
        ensures
            both.link_form@ == it@,
            both.string_form@ == encode(it@),
    {
        StringableLink { link_form: it.duplicate(), string_form: link_to_string(it) }
    }

    /// The text, and the link it reads as.
    pub fn from_text(it: &str) -> (both: StringableLink)
        ensures
            both.link_form@ == decode(it@),
            both.string_form@ == it@,
    {
        StringableLink { link_form: string_to_link(it), string_form: it.to_owned() }
    }

    /// The text, and the link it reads as. No text is refused.
    pub fn from_str(it: &str) -> (parsed: Result<StringableLink, &'static str>)
        ensures
            parsed matches Ok(both) && both.link_form@ == decode(it@) && both.string_form@ == it@,
    {
        Ok(StringableLink::from_text(it))
    }

    /// The text form.
    pub fn to_string(&self) -> (text: String)
        ensures
            text@ == self.string_form@,
    {
        self.string_form.clone()
    }

    /// Gives up the text and keeps the link.
    pub fn into_link(self) -> (link: Link)
        ensures
            link == self.link_form,
    {
        self.link_form
    }

    /// Gives up the link and keeps the text.
    pub fn into_string(self) -> (text: String)
        ensures
            text == self.string_form,
    {
        self.string_form
    }
}

} // verus!
