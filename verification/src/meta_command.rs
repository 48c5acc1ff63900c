//! Changing a feed's metadata: its title, its images, its links.

use vstd::prelude::*;
use crate::kaboom_feed::{
    Generator, GeneratorView, Metadata, MetadataView, Text, TextView, construct_of, links_of,
    plain_text,
};
use crate::link::{Link, LinkView, copy_text, same_text, text_of};
use crate::stringable_link::StringableLink;
use crate::timestamp::Timestamp;

verus! {

/// A request to change the metadata of a feed. What it does not name stays.
#[derive(Clone, Debug, PartialEq, Eq)]
pub struct MetaCommand {
    /// A new title for the feed.
    pub title: Option<String>,
    /// A new URI for the feed.
    pub uri: Option<String>,
    /// Links to add to the feed, or to bring up to date where the feed
    /// already has a link to the same place.
    pub rel_link: Vec<StringableLink>,
    /// Whether the links that the feed has are dropped first.
    pub remove_links: bool,
    /// A new icon for the feed.
    pub icon: Option<String>,
    /// Whether the feed loses its icon; ignored where `icon` is given.
    pub remove_icon: bool,
    /// A new logo for the feed.
    pub logo: Option<String>,
    /// Whether the feed loses its logo; ignored where `logo` is given.
    pub remove_logo: bool,
    /// A new subtitle for the feed.
    pub subtitle: Option<String>,
    /// Whether the feed loses its subtitle; ignored where `subtitle` is given.
    pub remove_subtitle: bool,
    /// Whether a changed feed is left without a word of what wrote it.
    pub no_generator: bool,
}

/// What a [`MetaCommand`] holds.
pub struct MetaCommandView {
    pub title: Option<Seq<char>>,
    pub uri: Option<Seq<char>>,
    pub rel_link: Seq<LinkView>,
    pub remove_links: bool,
    pub icon: Option<Seq<char>>,
    pub remove_icon: bool,
    pub logo: Option<Seq<char>>,
    pub remove_logo: bool,
    pub subtitle: Option<Seq<char>>,
    pub remove_subtitle: bool,
    pub no_generator: bool,
}

/// The structured forms of a sequence of links.
pub open spec fn link_forms(links: Seq<StringableLink>) -> Seq<LinkView> {
    links.map_values(|link: StringableLink| link.link_form@)
}

impl View for MetaCommand {
    type V = MetaCommandView;

    open spec fn view(&self) -> MetaCommandView {
        MetaCommandView {
            title: text_of(self.title),
            uri: text_of(self.uri),
            rel_link: link_forms(self.rel_link@),
            remove_links: self.remove_links,
            icon: text_of(self.icon),
            remove_icon: self.remove_icon,
            logo: text_of(self.logo),
            remove_logo: self.remove_logo,
            subtitle: text_of(self.subtitle),
            remove_subtitle: self.remove_subtitle,
            no_generator: self.no_generator,
        }
    }
}

/// Where the first link to `href` stands among `links`.
pub open spec fn first_to(links: Seq<LinkView>, href: Seq<char>) -> Option<int>
    decreases links.len(),
{
    if links.len() == 0 {
        None
    } else {
        match first_to(links.drop_last(), href) {
            Some(i) => Some(i),
            None => if links.last().href == href {
                Some(links.len() - 1)
            } else {
                None
            },
        }
    }
}

/// The first link to `href` is a link to `href`, and no link before it is one.
pub proof fn lemma_first_to(links: Seq<LinkView>, href: Seq<char>)
    ensures
        match first_to(links, href) {
            Some(i) => {
                &&& 0 <= i < links.len()
                &&& links[i].href == href
                &&& forall|j: int| 0 <= j < i ==> links[j].href != href
            },
            None => forall|j: int| 0 <= j < links.len() ==> links[j].href != href,
        },
    decreases links.len(),
{
    if links.len() > 0 {
        let front = links.drop_last();
        lemma_first_to(front, href);
        assert(forall|j: int| 0 <= j < front.len() ==> front[j] == links[j]);
    }
}

/// `existing` with the relation, language, media type and title of
/// `incoming`. Where it points and its length stay.
pub open spec fn revised(existing: LinkView, incoming: LinkView) -> LinkView {
    LinkView {
        rel: incoming.rel,
        hreflang: incoming.hreflang,
        mime_type: incoming.mime_type,
        title: incoming.title,
        ..existing
    }
}

/// The links after `incoming` has been brought in: the first link to the
/// same place is revised unless it is the same link already; where there is
/// none, `incoming` is added at the end.
pub open spec fn merged(links: Seq<LinkView>, incoming: LinkView) -> Seq<LinkView> {
    match first_to(links, incoming.href) {
        Some(i) => if links[i] == incoming {
            links
        } else {
            links.update(i, revised(links[i], incoming))
        },
        None => links.push(incoming),
    }
}

/// Whether bringing `incoming` in counts as a change: it does unless the
/// first link to the same place is the same link already.
pub open spec fn merge_changes(links: Seq<LinkView>, incoming: LinkView) -> bool {
    match first_to(links, incoming.href) {
        Some(i) => links[i] != incoming,
        None => true,
    }
}

/// The links after each of `incoming` has been brought in, in turn.
pub open spec fn merged_all(links: Seq<LinkView>, incoming: Seq<LinkView>) -> Seq<LinkView>
    decreases incoming.len(),
{
    if incoming.len() == 0 {
        links
    } else {
        merged(merged_all(links, incoming.drop_last()), incoming.last())
    }
}

/// Whether bringing in any one of `incoming`, in turn, counts as a change.
pub open spec fn any_merge_changes(links: Seq<LinkView>, incoming: Seq<LinkView>) -> bool
    decreases incoming.len(),
{
    if incoming.len() == 0 {
        false
    } else {
        any_merge_changes(links, incoming.drop_last()) || merge_changes(
            merged_all(links, incoming.drop_last()),
            incoming.last(),
        )
    }
}

/// A field after a command that may set it or remove it: set where a value
/// is given, else removed where that is asked, else as it was.
pub open spec fn set_or_removed<T>(given: Option<T>, remove: bool, before: Option<T>) -> Option<T> {
    match given {
        Some(v) => Some(v),
        None => if remove {
            None
        } else {
            before
        },
    }
}

impl MetaCommandView {
    /// The links that the incoming ones are brought into.
    pub open spec fn base_links(self, feed: MetadataView) -> Seq<LinkView> {
        if self.remove_links {
            Seq::empty()
        } else {
            feed.links
        }
    }

    /// Whether the command counts as having changed the feed.
    ///
    /// A new title or URI counts where it differs from the old one, a new
    /// icon or logo likewise. A subtitle counts whenever one is given, and so
    /// does each removal that is asked for and takes effect, whether or not
    /// there was anything to remove.
    pub open spec fn changes(self, feed: MetadataView) -> bool {
        ||| (self.title matches Some(t) && t != feed.title.value)
        ||| (self.uri matches Some(u) && u != feed.id)
        ||| (self.remove_subtitle && self.subtitle is None)
        ||| self.subtitle is Some
        ||| (self.remove_icon && self.icon is None)
        ||| (self.icon is Some && self.icon != feed.icon)
        ||| (self.remove_logo && self.logo is None)
        ||| (self.logo is Some && self.logo != feed.logo)
        ||| self.remove_links
        ||| any_merge_changes(self.base_links(feed), self.rel_link)
    }

    /// The metadata after the command. A feed that counts as changed is
    /// stamped with `now`, and with `generator` unless the command forbids it.
    pub open spec fn applied(
        self,
        feed: MetadataView,
        now: Timestamp,
        generator: GeneratorView,
    ) -> MetadataView {
        MetadataView {
            title: match self.title {
                Some(t) => if t != feed.title.value {
                    plain_text(t)
                } else {
                    feed.title
                },
                None => feed.title,
            },
            id: match self.uri {
                Some(u) => u,
                None => feed.id,
            },
            updated: if self.changes(feed) {
                now
            } else {
                feed.updated
            },
            generator: if self.changes(feed) && !self.no_generator {
                Some(generator)
            } else {
                feed.generator
            },
            icon: set_or_removed(self.icon, self.remove_icon, feed.icon),
            links: merged_all(self.base_links(feed), self.rel_link),
            logo: set_or_removed(self.logo, self.remove_logo, feed.logo),
            subtitle: match self.subtitle {
                Some(s) => Some(plain_text(s)),
                None => if self.remove_subtitle {
                    None
                } else {
                    feed.subtitle
                },
            },
        }
    }
}

/// Finds the first link to `href`.
fn find_link(links: &Vec<Link>, href: &String) -> (found: Option<usize>)
    ensures
        match found {
            Some(i) => first_to(links_of(links@), href@) == Some(i as int) && i < links.len(),
            None => first_to(links_of(links@), href@) is None,
        },
{
    let ghost views = links_of(links@);
    let mut i: usize = 0;
    while i < links.len()
        invariant
            i <= links.len(),
            views == links_of(links@),
            forall|j: int| 0 <= j < i ==> views[j].href != href@,
        decreases links.len() - i,
    {
        if links[i].href == *href {
            proof {
                lemma_first_to(views, href@);
                assert(views[i as int].href == href@);
            }
            return Some(i);
        }
        i = i + 1;
    }
    proof {
        lemma_first_to(views, href@);
    }
    None
}

/// Brings one link into the links of a feed, and says whether that counts
/// as a change.
pub fn merge_link(links: &mut Vec<Link>, incoming: &Link) -> (changed: bool)
    ensures
        links_of(final(links)@) == merged(links_of(old(links)@), incoming@),
        changed == merge_changes(links_of(old(links)@), incoming@),
{
    match find_link(links, &incoming.href) {
        Some(i) => {
            if links[i].same_as(incoming) {
                false
            } else {
                let fresh = Link {
                    href: links[i].href.clone(),
                    rel: incoming.rel.clone(),
                    hreflang: copy_text(&incoming.hreflang),
                    mime_type: copy_text(&incoming.mime_type),
                    title: copy_text(&incoming.title),
                    length: links[i].length,
                };
                links.set(i, fresh);
                assert(links_of(links@) =~= merged(links_of(old(links)@), incoming@));
                true
            }
        },
        None => {
            links.push(incoming.duplicate());
            assert(links_of(links@) =~= merged(links_of(old(links)@), incoming@));
            true
        },
    }
}

impl MetaCommand {
    /// Changes the metadata as the command asks, and says whether that counts
    /// as a change. A feed that counts as changed is stamped with `now` and,
    /// unless the command forbids it, with `generator`.
    pub fn run(&self, feed: &mut Metadata, now: Timestamp, generator: &Generator) -> (any_updates:
        bool)
        ensures
            final(feed)@ == self@.applied(old(feed)@, now, generator@),
            any_updates == self@.changes(old(feed)@),
    {
        let mut any_updates = false;
        match &self.title {
            Some(title) => {
                if *title != feed.title.value {
                    feed.title = Text::plain(title.clone());
                    any_updates = true;
                }
            },
            None => {},
        }
        match &self.uri {
            Some(uri) => {
                if *uri != feed.id {
                    feed.id = uri.clone();
                    any_updates = true;
                }
            },
            None => {},
        }
        if self.remove_subtitle && self.subtitle.is_none() {
            feed.subtitle = None;
            any_updates = true;
        }
        match &self.subtitle {
            Some(subtitle) => {
                feed.subtitle = Some(Text::plain(subtitle.clone()));
                any_updates = true;
            },
            None => {},
        }
        if self.remove_icon && self.icon.is_none() {
            feed.icon = None;
            any_updates = true;
        }
        if self.icon.is_some() && !same_text(&self.icon, &feed.icon) {
            feed.icon = copy_text(&self.icon);
            any_updates = true;
        }
        if self.remove_logo && self.logo.is_none() {
            feed.logo = None;
            any_updates = true;
        }
        if self.logo.is_some() && !same_text(&self.logo, &feed.logo) {
            feed.logo = copy_text(&self.logo);
            any_updates = true;
        }
        if self.remove_links {
            feed.links = Vec::new();
            any_updates = true;
        }
        let ghost before = old(feed)@;
        let ghost base = self@.base_links(before);
        let ghost incoming = self@.rel_link;
        let ghost others = any_updates;
        let ghost rest = *feed;
        assert(links_of(feed.links@) =~= base);
        let mut done: usize = 0;
        while done < self.rel_link.len()
            invariant
                done <= self.rel_link.len(),
                incoming == link_forms(self.rel_link@),
                links_of(feed.links@) == merged_all(base, incoming.take(done as int)),
                any_updates == (others || any_merge_changes(base, incoming.take(done as int))),
                feed.title == rest.title,
                feed.id == rest.id,
                feed.updated == rest.updated,
                feed.generator == rest.generator,
                feed.icon == rest.icon,
                feed.logo == rest.logo,
                feed.subtitle == rest.subtitle,
            decreases self.rel_link.len() - done,
        {
            proof {
                assert(incoming.take(done + 1).drop_last() =~= incoming.take(done as int));
                assert(incoming.take(done + 1).last() == self.rel_link@[done as int].link_form@);
            }
            if merge_link(&mut feed.links, &self.rel_link[done].link_form) {
                any_updates = true;
            }
            done = done + 1;
        }
        assert(incoming.take(done as int) =~= incoming);
        if any_updates {
            feed.updated = now;
            if !self.no_generator {
                feed.generator = Some(generator.duplicate());
            }
        }
        any_updates
    }
}

} // verus!
