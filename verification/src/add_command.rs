//! Adding an entry to a feed.

use vstd::prelude::*;
use crate::kaboom_feed::{Text, TextView, construct_of, plain_text};
use crate::link::{copy_text, text_of};
use crate::timestamp::Timestamp;

verus! {

/// Someone who had a hand in an entry.
#[derive(Clone, Debug, PartialEq, Eq)]
pub struct Person {
    /// The person's name.
    pub name: String,
    /// The person's email address.
    pub email: Option<String>,
    /// A web page of the person.
    pub uri: Option<String>,
}

/// What a [`Person`] holds.
pub struct PersonView {
    pub name: Seq<char>,
    pub email: Option<Seq<char>>,
    pub uri: Option<Seq<char>>,
}

impl View for Person {
    type V = PersonView;

    open spec fn view(&self) -> PersonView {
        PersonView { name: self.name@, email: text_of(self.email), uri: text_of(self.uri) }
    }
}

/// The content of an entry, or where it is to be found.
#[derive(Clone, Debug, PartialEq, Eq)]
pub struct Content {
    /// The base URL for relative references in the content.
    pub base: Option<String>,
    /// What the content is written in: `text`, `html`, `xhtml` or a MIME type.
    pub content_type: Option<String>,
    /// The natural language of the content.
    pub lang: Option<String>,
    /// The content itself.
    pub value: Option<String>,
    /// Where the content is to be found.
    pub src: Option<String>,
}

/// What a [`Content`] holds.
pub struct ContentView {
    pub base: Option<Seq<char>>,
    pub content_type: Option<Seq<char>>,
    pub lang: Option<Seq<char>>,
    pub value: Option<Seq<char>>,
    pub src: Option<Seq<char>>,
}

impl View for Content {
    type V = ContentView;

    open spec fn view(&self) -> ContentView {
        ContentView {
            base: text_of(self.base),
            content_type: text_of(self.content_type),
            lang: text_of(self.lang),
            value: text_of(self.value),
            src: text_of(self.src),
        }
    }
}

/// What an optional content holds.
pub open spec fn content_of(content: Option<Content>) -> Option<ContentView> {
    match content {
        Some(c) => Some(c@),
        None => None,
    }
}

/// What a sequence of strings holds.
pub open spec fn texts_of(strings: Seq<String>) -> Seq<Seq<char>> {
    strings.map_values(|s: String| s@)
}

/// What a sequence of persons holds.
pub open spec fn persons_of(persons: Seq<Person>) -> Seq<PersonView> {
    persons.map_values(|p: Person| p@)
}

/// An entry that is about to join a feed.
#[derive(Clone, Debug, PartialEq, Eq)]
pub struct NewEntry {
    /// The URI of the entry.
    pub id: String,
    /// The title of the entry.
    pub title: Text,
    /// A short summary of the entry.
    pub summary: Option<Text>,
    /// When the entry was published.
    pub published: Option<Timestamp>,
    /// When the entry was last updated.
    pub updated: Timestamp,
    /// The content of the entry.
    pub content: Option<Content>,
    /// Those who had a hand in the entry.
    pub contributors: Vec<Person>,
}

/// What a [`NewEntry`] holds.
pub struct NewEntryView {
    pub id: Seq<char>,
    pub title: TextView,
    pub summary: Option<TextView>,
    pub published: Option<Timestamp>,
    pub updated: Timestamp,
    pub content: Option<ContentView>,
    pub contributors: Seq<PersonView>,
}

impl View for NewEntry {
    type V = NewEntryView;

    open spec fn view(&self) -> NewEntryView {
        NewEntryView {
            id: self.id@,
            title: self.title@,
            summary: construct_of(self.summary),
            published: self.published,
            updated: self.updated,
            content: content_of(self.content),
            contributors: persons_of(self.contributors@),
        }
    }
}

/// A request to add an entry to a feed.
#[derive(Clone, Debug, PartialEq, Eq)]
pub struct AddCommand {
    /// The URI of the entry.
    pub id: String,
    /// The title of the entry.
    pub title: String,
    /// A short summary of the entry.
    pub summary: Option<String>,
    /// The full content of the entry.
    pub content: Option<String>,
    /// What `content` is written in; ignored where there is no content.
    pub content_type: Option<String>,
    /// The language of `content`; ignored where there is no content.
    pub content_language: Option<String>,
    /// The names of the entry's authors.
    pub author_names: Vec<String>,
    /// The email addresses of the entry's authors, in the order of their
    /// names; either none, or one for each name.
    pub author_emails: Vec<String>,
    /// When the entry was published.
    pub published_at: Option<Timestamp>,
    /// When the entry was last updated.
    pub updated_at: Timestamp,
}

/// What an [`AddCommand`] holds.
pub struct AddCommandView {
    pub id: Seq<char>,
    pub title: Seq<char>,
    pub summary: Option<Seq<char>>,
    pub content: Option<Seq<char>>,
    pub content_type: Option<Seq<char>>,
    pub content_language: Option<Seq<char>>,
    pub author_names: Seq<Seq<char>>,
    pub author_emails: Seq<Seq<char>>,
    pub published_at: Option<Timestamp>,
    pub updated_at: Timestamp,
}

impl View for AddCommand {
    type V = AddCommandView;

    open spec fn view(&self) -> AddCommandView {
        AddCommandView {
            id: self.id@,
            title: self.title@,
            summary: text_of(self.summary),
            content: text_of(self.content),
            content_type: text_of(self.content_type),
            content_language: text_of(self.content_language),
            author_names: texts_of(self.author_names@),
            author_emails: texts_of(self.author_emails@),
            published_at: self.published_at,
            updated_at: self.updated_at,
        }
    }
}

/// The plain text construct of a value that may be absent.
pub open spec fn optional_plain_text(value: Option<Seq<char>>) -> Option<TextView> {
    match value {
        Some(v) => Some(plain_text(v)),
        None => None,
    }
}

/// The contributors that names and email addresses stand for. Without
/// addresses, each name is a contributor. With addresses, names and
/// addresses are paired in order, and what is left over of the longer list
/// is dropped.
pub open spec fn contributors(names: Seq<Seq<char>>, emails: Seq<Seq<char>>) -> Seq<PersonView> {
    if emails.len() == 0 {
        Seq::new(names.len(), |i: int| PersonView { name: names[i], email: None, uri: None })
    } else {
        Seq::new(
            if names.len() <= emails.len() {
                names.len()
            } else {
                emails.len()
            },
            |i: int| PersonView { name: names[i], email: Some(emails[i]), uri: None },
        )
    }
}

impl AddCommandView {
    /// Whether there are email addresses, but not one for each name.
    pub open spec fn authors_mismatched(self) -> bool {
        self.author_emails.len() != 0 && self.author_names.len() != self.author_emails.len()
    }

    /// The entry that the command describes. Its content, where it has one,
    /// names the entry's own URI as its source.
    pub open spec fn entry(self) -> NewEntryView {
        NewEntryView {
            id: self.id,
            title: plain_text(self.title),
            summary: optional_plain_text(self.summary),
            published: self.published_at,
            updated: self.updated_at,
            content: match self.content {
                Some(value) => Some(
                    ContentView {
                        base: None,
                        content_type: self.content_type,
                        lang: self.content_language,
                        value: Some(value),
                        src: Some(self.id),
                    },
                ),
                None => None,
            },
            contributors: contributors(self.author_names, self.author_emails),
        }
    }
}

impl AddCommand {
    /// Whether there are email addresses, but not one for each name.
    pub fn authors_mismatched(&self) -> (yes: bool)
        ensures
            yes == self@.authors_mismatched(),
    {
        self.author_emails.len() != 0 && self.author_names.len() != self.author_emails.len()
    }

    /// The contributors of the entry.
    fn contributors(&self) -> (persons: Vec<Person>)
        ensures
            persons_of(persons@) == contributors(self@.author_names, self@.author_emails),
    {
        let ghost names = self@.author_names;
        let ghost emails = self@.author_emails;
        let paired = self.author_emails.len() != 0;
        let count = if !paired || self.author_names.len() <= self.author_emails.len() {
            self.author_names.len()
        } else {
            self.author_emails.len()
        };
        let mut persons: Vec<Person> = Vec::new();
        let mut i: usize = 0;
        while i < count
            invariant
                i <= count,
                count <= self.author_names.len(),
                paired ==> count <= self.author_emails.len(),
                paired == (self.author_emails.len() != 0),
                names == texts_of(self.author_names@),
                emails == texts_of(self.author_emails@),
                persons.len() == i,
                forall|j: int|
                    0 <= j < i ==> (#[trigger] persons@[j])@ == (PersonView {
                        name: names[j],
                        email: if paired {
                            Some(emails[j])
                        } else {
                            None
                        },
                        uri: None,
                    }),
            decreases count - i,
        {
            let email = if paired {
                Some(self.author_emails[i].clone())
            } else {
                None
            };
            persons.push(Person { name: self.author_names[i].clone(), email, uri: None });
            i = i + 1;
        }
        assert(persons_of(persons@) =~= contributors(names, emails));
        persons
    }

    /// The entry that the command describes.
    pub fn run(&self) -> (entry: NewEntry)
        ensures
            entry@ == self@.entry(),
    {
        let summary = match &self.summary {
            Some(s) => Some(Text::plain(s.clone())),
            None => None,
        };
        let content = match &self.content {
            Some(value) => Some(
                Content {
                    base: None,
                    content_type: copy_text(&self.content_type),
                    lang: copy_text(&self.content_language),
                    value: Some(value.clone()),
                    src: Some(self.id.clone()),
                },
            ),
            None => None,
        };
        NewEntry {
            id: self.id.clone(),
            title: Text::plain(self.title.clone()),
            summary,
            published: self.published_at,
            updated: self.updated_at,
            content,
            contributors: self.contributors(),
        }
    }
}

} // verus!
