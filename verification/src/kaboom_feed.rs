//! A feed's metadata, and the text that shows it.

use vstd::prelude::*;
use vstd::string::*;
use crate::link::{Link, LinkView, copy_text, same_text, text_of};
use crate::notation::encode;
use crate::stringable_link::link_to_string;
use crate::timestamp::Timestamp;

verus! {

/// What the text of a text construct is written in.
#[derive(Clone, Copy, Debug, PartialEq, Eq, Structural)]
pub enum TextType {
    /// Plain text.
    Text,
    /// HTML.
    Html,
    /// XHTML.
    Xhtml,
}

/// A text construct: a title, a subtitle and the like.
#[derive(Clone, Debug, PartialEq, Eq)]
pub struct Text {
    /// The text itself.
    pub value: String,
    /// The base URL for relative references in the text.
    pub base: Option<String>,
    /// The natural language of the text.
    pub lang: Option<String>,
    /// What the text is written in.
    pub kind: TextType,
}

/// What a [`Text`] holds.
pub struct TextView {
    pub value: Seq<char>,
    pub base: Option<Seq<char>>,
    pub lang: Option<Seq<char>>,
    pub kind: TextType,
}

impl View for Text {
    type V = TextView;

    open spec fn view(&self) -> TextView {
        TextView {
            value: self.value@,
            base: text_of(self.base),
            lang: text_of(self.lang),
            kind: self.kind,
        }
    }
}

/// The plain text construct of a value.
pub open spec fn plain_text(value: Seq<char>) -> TextView {
    TextView { value, base: None, lang: None, kind: TextType::Text }
}

/// What an optional text construct holds.
pub open spec fn construct_of(text: Option<Text>) -> Option<TextView> {
    match text {
        Some(t) => Some(t@),
        None => None,
    }
}

/// The text of an optional text construct.
pub open spec fn value_of(text: Option<TextView>) -> Option<Seq<char>> {
    match text {
        Some(t) => Some(t.value),
        None => None,
    }
}

impl Text {
    /// A plain text construct.
    pub fn plain(value: String) -> (text: Text)
        ensures
            text@ == plain_text(value@),
    {
        Text { value, base: None, lang: None, kind: TextType::Text }
    }

    /// A text construct that holds what `self` holds.
    pub fn duplicate(&self) -> (copy: Text)
        ensures
            copy@ == self@,
    {
        Text {
            value: self.value.clone(),
            base: copy_text(&self.base),
            lang: copy_text(&self.lang),
            kind: self.kind,
        }
    }

    /// Whether the two constructs agree in every field.
    pub fn same_as(&self, other: &Text) -> (same: bool)
        ensures
            same == (self@ == other@),
    {
        self.value == other.value && same_text(&self.base, &other.base) && same_text(
            &self.lang,
            &other.lang,
        ) && self.kind == other.kind
    }
}

/// The program that wrote a feed.
#[derive(Clone, Debug, PartialEq, Eq)]
pub struct Generator {
    /// The name of the program.
    pub value: String,
    /// Where the program is at home.
    pub uri: Option<String>,
    /// The version of the program.
    pub version: Option<String>,
}

/// What a [`Generator`] holds.
pub struct GeneratorView {
    pub value: Seq<char>,
    pub uri: Option<Seq<char>>,
    pub version: Option<Seq<char>>,
}

impl View for Generator {
    type V = GeneratorView;

    open spec fn view(&self) -> GeneratorView {
        GeneratorView { value: self.value@, uri: text_of(self.uri), version: text_of(self.version) }
    }
}

/// What an optional generator holds.
pub open spec fn generator_of(generator: Option<Generator>) -> Option<GeneratorView> {
    match generator {
        Some(g) => Some(g@),
        None => None,
    }
}

impl Generator {
    /// A generator that holds what `self` holds.
    pub fn duplicate(&self) -> (copy: Generator)
        ensures
            copy@ == self@,
    {
        Generator {
            value: self.value.clone(),
            uri: copy_text(&self.uri),
            version: copy_text(&self.version),
        }
    }
}

/// What a sequence of links holds.
pub open spec fn links_of(links: Seq<Link>) -> Seq<LinkView> {
    links.map_values(|link: Link| link@)
}

/// The metadata of a feed: what stands in it beside its entries.
#[derive(Clone, Debug, PartialEq, Eq)]
pub struct Metadata {
    /// The title of the feed.
    pub title: Text,
    /// The unique and permanent URI of the feed.
    pub id: String,
    /// When the feed was last changed.
    pub updated: Timestamp,
    /// The program that wrote the feed.
    pub generator: Option<Generator>,
    /// A small image that identifies the feed.
    pub icon: Option<String>,
    /// The web pages related to the feed.
    pub links: Vec<Link>,
    /// A larger image that identifies the feed.
    pub logo: Option<String>,
    /// A description or subtitle of the feed.
    pub subtitle: Option<Text>,
}

/// What a [`Metadata`] holds.
pub struct MetadataView {
    pub title: TextView,
    pub id: Seq<char>,
    pub updated: Timestamp,
    pub generator: Option<GeneratorView>,
    pub icon: Option<Seq<char>>,
    pub links: Seq<LinkView>,
    pub logo: Option<Seq<char>>,
    pub subtitle: Option<TextView>,
}

impl View for Metadata {
    type V = MetadataView;

    open spec fn view(&self) -> MetadataView {
        MetadataView {
            title: self.title@,
            id: self.id@,
            updated: self.updated,
            generator: generator_of(self.generator),
            icon: text_of(self.icon),
            links: links_of(self.links@),
            logo: text_of(self.logo),
            subtitle: construct_of(self.subtitle),
        }
    }
}

/// The lines that show the links, one `link=` line for each, in the
/// bracket notation, without a line break after the last.
pub open spec fn link_lines(links: Seq<LinkView>) -> Seq<char>
    decreases links.len(),
{
    if links.len() == 0 {
        Seq::empty()
    } else if links.len() == 1 {
        "link="@ + encode(links[0])
    } else {
        link_lines(links.drop_last()) + "\n"@ + "link="@ + encode(links.last())
    }
}

/// The text that shows the links of a feed; a feed without links shows none.
pub open spec fn shown_links(links: Seq<LinkView>) -> Option<Seq<char>> {
    if links.len() == 0 {
        None
    } else {
        Some(link_lines(links))
    }
}

/// A line of its own for a value that may be absent: a line break, the
/// label and the value, or nothing.
pub open spec fn optional_line(label: Seq<char>, value: Option<Seq<char>>) -> Seq<char> {
    match value {
        Some(v) => "\n"@ + label + v,
        None => Seq::empty(),
    }
}

/// The text that shows a feed's metadata, given the text that shows when it
/// was last changed.
pub open spec fn shown(feed: MetadataView, updated_at: Seq<char>) -> Seq<char> {
    "title="@ + feed.title.value + optional_line("subtitle="@, value_of(feed.subtitle)) + "\nuri="@
        + feed.id + "\nupdated_at="@ + updated_at + optional_line("icon="@, feed.icon)
        + optional_line("logo="@, feed.logo) + optional_line(
        Seq::empty(),
        shown_links(feed.links),
    )
}

/// The text by which the date library shows an instant on the clock it was
/// read from, such as `2023-05-06 07:08:09 +02:00`; none for an instant or a
/// clock that the library does not take.
pub uninterp spec fn shown_instant(secs: i64, nanos: u32, offset: i32) -> Option<Seq<char>>;

/// Shows an instant by `chrono`: `DateTime::from_timestamp` makes the instant
/// from its seconds and nanoseconds, `FixedOffset::east_opt` the clock from
/// its offset, `DateTime::with_timezone` puts the instant on that clock, and
/// the `Display` of the result gives the text. The first two refuse what is
/// out of their range, and then there is no text. The text depends on the
/// three numbers alone.
#[verifier::external_body]
fn show_instant(secs: i64, nanos: u32, offset: i32) -> (text: Option<String>)
    ensures
        text_of(text) == shown_instant(secs, nanos, offset),
{
    let instant = chrono::DateTime::from_timestamp(secs, nanos)?;
    let clock = chrono::FixedOffset::east_opt(offset)?;
    Some(instant.with_timezone(&clock).to_string())
}

/// Appends a line of its own for a value, if there is one.
fn push_optional_line(text: &mut String, label: &str, value: &Option<String>)
    ensures
        final(text)@ == old(text)@ + optional_line(label@, text_of(*value)),
{
    match value {
        Some(v) => {
            text.append("\n");
            text.append(label);
            text.append(v.as_str());
            assert(final(text)@ =~= old(text)@ + optional_line(label@, text_of(*value)));
        },
        None => {
            assert(final(text)@ =~= old(text)@ + optional_line(label@, text_of(*value)));
        },
    }
}

/// A feed as the program shows it.
pub trait KaboomFeed {
    /// The text that shows the feed, if the date library can show when the
    /// feed was last changed.
    spec fn human_text(&self) -> Option<Seq<char>>;

    /// The text that shows the links of the feed, if it has any.
    spec fn links_human_text(&self) -> Option<Seq<char>>;

    /// Shows the feed; there is nothing to show where the date library does
    /// not take the instant or the clock of the feed's last change.
    fn as_human_text(&self) -> (text: Option<String>)
        ensures
            text_of(text) == self.human_text(),
    ;

    /// Shows the links of the feed, if it has any.
    fn links_as_human_text(&self) -> (text: Option<String>)
        ensures
            text_of(text) == self.links_human_text(),
    ;
}

impl Metadata {
    /// Shows the feed, given the text that shows when it was last changed:
    /// title, subtitle, URI, the date, icon, logo and links, each on a line
    /// of its own, and those that the feed does not have left out.
    pub fn human_text_with(&self, updated_at: &str) -> (text: String)
        ensures
            text@ == shown(self@, updated_at@),
    {
        let mut text = "title=".to_owned();
        text.append(self.title.value.as_str());
        match &self.subtitle {
            Some(subtitle) => {
                text.append("\n");
                text.append("subtitle=");
                text.append(subtitle.value.as_str());
            },
            None => {},
        }
        assert(text@ =~= "title="@ + self@.title.value + optional_line(
            "subtitle="@,
            value_of(self@.subtitle),
        ));
        text.append("\nuri=");
        text.append(self.id.as_str());
        text.append("\nupdated_at=");
        text.append(updated_at);
        push_optional_line(&mut text, "icon=", &self.icon);
        push_optional_line(&mut text, "logo=", &self.logo);
        let links = self.links_as_human_text();
        push_optional_line(&mut text, "", &links);
        proof {
            reveal_strlit("");
            assert(""@ =~= Seq::<char>::empty());
        }
        text
    }
}

impl KaboomFeed for Metadata {
    open spec fn human_text(&self) -> Option<Seq<char>> {
        match shown_instant(self.updated.secs, self.updated.nanos, self.updated.offset) {
            Some(updated_at) => Some(shown(self@, updated_at)),
            None => None,
        }
    }

    open spec fn links_human_text(&self) -> Option<Seq<char>> {
        shown_links(self@.links)
    }

    fn as_human_text(&self) -> (text: Option<String>) {
        match show_instant(self.updated.secs, self.updated.nanos, self.updated.offset) {
            Some(updated_at) => Some(self.human_text_with(updated_at.as_str())),
            None => None,
        }
    }

    fn links_as_human_text(&self) -> (text: Option<String>) {
        if self.links.len() == 0 {
            return None;
        }
        let ghost views = links_of(self.links@);
        let mut text = "link=".to_owned();
        text.append(link_to_string(&self.links[0]).as_str());
        assert(views.take(1) =~= seq![views[0]]);
        assert(text@ =~= link_lines(views.take(1)));
        let mut done: usize = 1;
        while done < self.links.len()
            invariant
                1 <= done <= self.links.len(),
                views == links_of(self.links@),
                text@ == link_lines(views.take(done as int)),
            decreases self.links.len() - done,
        {
            text.append("\n");
            text.append("link=");
            text.append(link_to_string(&self.links[done]).as_str());
            proof {
                let next = views.take(done + 1);
                assert(next.drop_last() =~= views.take(done as int));
                assert(next.last() == self.links@[done as int]@);
            }
            done = done + 1;
        }
        assert(views.take(done as int) =~= views);
        Some(text)
    }
}

} // verus!
