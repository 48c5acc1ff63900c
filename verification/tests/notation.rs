use kaboom::link::Link;
use kaboom::stringable_link::{link_to_string, string_to_link, StringableLink};
use kaboom::text::{chars_of, same_str};

fn link(href: &str, rel: &str) -> Link {
    Link {
        href: href.into(),
        rel: rel.into(),
        hreflang: None,
        mime_type: None,
        title: None,
        length: None,
    }
}

#[test]
fn every_annotation_is_read() {
    assert_eq!(
        string_to_link(
            "https://x/feed.xml[rel=self][type=application/atom+xml][lang=en-us][title=An example feed]"
        ),
        Link {
            href: "https://x/feed.xml".into(),
            rel: "self".into(),
            hreflang: Some("en-us".into()),
            mime_type: Some("application/atom+xml".into()),
            title: Some("An example feed".into()),
            length: None,
        },
    );
}

#[test]
fn a_bare_url_gets_the_default_relation() {
    assert_eq!(string_to_link("https://x/feed.xml"), link("https://x/feed.xml", "related"));
}

#[test]
fn an_empty_bracket_stays_in_the_url() {
    assert_eq!(string_to_link("https://x/feed.xml[]"), link("https://x/feed.xml[]", "related"));
}

#[test]
fn an_unmatched_bracket_stays_in_the_url() {
    assert_eq!(string_to_link("https://x/feed.xml]"), link("https://x/feed.xml]", "related"));
}

#[test]
fn the_empty_text_is_a_link_to_nowhere() {
    assert_eq!(string_to_link(""), link("", "related"));
    assert_eq!(string_to_link("]"), link("]", "related"));
    assert_eq!(string_to_link("["), link("[", "related"));
    assert_eq!(string_to_link("="), link("=", "related"));
}

#[test]
fn annotations_may_come_in_any_order() {
    assert_eq!(
        string_to_link("u[title=T][lang=L][type=M][rel=R]"),
        Link {
            href: "u".into(),
            rel: "R".into(),
            hreflang: Some("L".into()),
            mime_type: Some("M".into()),
            title: Some("T".into()),
            length: None,
        },
    );
}

#[test]
fn an_unknown_key_ends_the_reading() {
    assert_eq!(
        string_to_link("u[rel=a][colour=red][lang=fr]"),
        Link { hreflang: Some("fr".into()), ..link("u[rel=a][colour=red]", "related") },
    );
}

#[test]
fn keys_are_matched_exactly() {
    assert_eq!(string_to_link("u[Rel=a]"), link("u[Rel=a]", "related"));
    assert_eq!(string_to_link("u[ rel=a]"), link("u[ rel=a]", "related"));
    assert_eq!(string_to_link("u[rel =a]"), link("u[rel =a]", "related"));
    assert_eq!(string_to_link("u[rel= a ]"), link("u", " a "));
}

#[test]
fn a_value_may_be_empty() {
    assert_eq!(string_to_link("u[rel=]"), link("u", ""));
    assert_eq!(
        string_to_link("u[title=]"),
        Link { title: Some("".into()), ..link("u", "related") },
    );
}

#[test]
fn the_occurrence_nearest_the_url_stays() {
    assert_eq!(string_to_link("u[rel=a][rel=b]"), link("u", "a"));
    assert_eq!(
        string_to_link("u[title=one][rel=x][title=two]"),
        Link { title: Some("one".into()), ..link("u", "x") },
    );
}

#[test]
fn only_the_last_opened_bracket_counts() {
    assert_eq!(string_to_link("u[rel=a[rel=b]"), link("u[rel=a", "b"));
    assert_eq!(string_to_link("u[[rel=b]"), link("u[", "b"));
}

#[test]
fn an_equals_sign_before_the_bracket_is_no_annotation() {
    assert_eq!(string_to_link("u?a=b[x]"), link("u?a=b[x]", "related"));
    assert_eq!(string_to_link("u[rel=a][x]"), link("u[rel=a][x]", "related"));
}

#[test]
fn an_equals_sign_in_the_value_spoils_the_annotation() {
    assert_eq!(string_to_link("u[title=a=b]"), link("u[title=a=b]", "related"));
}

#[test]
fn a_closing_bracket_may_stand_in_a_value() {
    assert_eq!(
        string_to_link("u[title=a]]"),
        Link { title: Some("a]".into()), ..link("u", "related") },
    );
}

#[test]
fn a_query_in_the_url_is_left_alone() {
    assert_eq!(
        string_to_link("https://example.com/?q=1&r=[2][rel=self]"),
        link("https://example.com/?q=1&r=[2]", "self"),
    );
}

#[test]
fn text_beyond_ascii_is_read_by_character() {
    assert_eq!(
        string_to_link(
            "https://www.meteo.gc.ca/rss/marine/06100_f.xml[rel=alternate][lang=fr-ca][type=application/atom+xml][title=Détroit de Haro - Météo maritime - Environnement Canada]"
        ),
        Link {
            href: "https://www.meteo.gc.ca/rss/marine/06100_f.xml".into(),
            rel: "alternate".into(),
            hreflang: Some("fr-ca".into()),
            mime_type: Some("application/atom+xml".into()),
            title: Some("Détroit de Haro - Météo maritime - Environnement Canada".into()),
            length: None,
        },
    );
    assert_eq!(
        string_to_link("https://例え.jp/é[title=日本語]"),
        Link { title: Some("日本語".into()), ..link("https://例え.jp/é", "related") },
    );
}

#[test]
fn the_length_is_not_written() {
    let with_length = Link { length: Some(1234), ..link("u", "self") };
    assert_eq!(link_to_string(&with_length), "u[rel=self]");
}

#[test]
fn values_are_written_as_they_are() {
    let odd = Link { title: Some("a[b]=c".into()), ..link("u", "x=y") };
    assert_eq!(link_to_string(&odd), "u[rel=x=y][title=a[b]=c]");
}

#[test]
fn a_link_without_a_relation_comes_back_with_the_default() {
    let written = link_to_string(&link("u", ""));
    assert_eq!(written, "u");
    assert_eq!(string_to_link(&written), link("u", "related"));
}

#[test]
fn writing_reading_and_writing_again_gives_the_first_text() {
    let links = [
        link("https://example.com/feed.xml", "self"),
        Link { title: Some("An example feed".into()), ..link("https://example.com/", "alternate") },
        Link {
            hreflang: Some("en-us".into()),
            mime_type: Some("application/atom+xml".into()),
            title: Some("closing ] is fine".into()),
            length: Some(7),
            ..link("https://example.com/feed.xml]", "self")
        },
        Link { hreflang: Some("y][title=z".into()), ..link("u", "r") },
    ];
    for l in &links {
        let once = link_to_string(l);
        let again = link_to_string(&string_to_link(&once));
        assert_eq!(again, once);
    }
}

#[test]
fn a_plain_link_is_read_back_but_for_its_length() {
    let plain = Link {
        hreflang: Some("en-us".into()),
        mime_type: Some("text/html".into()),
        title: Some("Home]".into()),
        length: Some(9),
        ..link("https://example.com/[x]/", "self")
    };
    assert_eq!(string_to_link(&link_to_string(&plain)), Link { length: None, ..plain });
}

#[test]
fn a_bracket_opened_in_a_value_is_not_read_back() {
    let odd = Link { title: Some("x[y".into()), ..link("u", "r") };
    let once = link_to_string(&odd);
    assert_eq!(once, "u[rel=r][title=x[y]");
    let read = string_to_link(&once);
    assert_eq!(read, link("u[rel=r][title=x[y]", "related"));
    assert_eq!(link_to_string(&read), "u[rel=r][title=x[y][rel=related]");
}

#[test]
fn what_was_read_is_read_again_from_its_text() {
    for text in ["u", "u[rel=a][rel=b]", "u[lang=fr][x]", "u[title=a]]", "[rel=self]", "u[type=]"] {
        let read = string_to_link(text);
        assert_eq!(string_to_link(&link_to_string(&read)), read);
    }
}

#[test]
fn both_forms_are_kept_side_by_side() {
    let from_text = StringableLink::from_text("u[lang=fr]");
    assert_eq!(from_text.string_form, "u[lang=fr]");
    assert_eq!(from_text.link_form, Link { hreflang: Some("fr".into()), ..link("u", "related") });
    assert_eq!(from_text.to_string(), "u[lang=fr]");
    assert_eq!(StringableLink::from_str("u[lang=fr]"), Ok(from_text.clone()));

    let from_link = StringableLink::from_link(&from_text.link_form);
    assert_eq!(from_link.string_form, "u[rel=related][lang=fr]");
    assert_eq!(from_link.link_form, from_text.link_form);
    assert_eq!(from_link.clone().into_link(), from_text.link_form);
    assert_eq!(from_link.into_string(), "u[rel=related][lang=fr]");
}

#[test]
fn links_compare_by_every_field() {
    let a = Link { length: Some(1), ..link("u", "self") };
    assert!(a.same_as(&a.duplicate()));
    assert!(!a.same_as(&Link { length: None, ..a.duplicate() }));
    assert!(!a.same_as(&Link { title: Some("".into()), ..a.duplicate() }));
    assert!(!a.same_as(&Link { rel: "Self".into(), ..a.duplicate() }));
}

#[test]
fn a_text_is_taken_apart_by_character() {
    assert_eq!(chars_of("aé日"), vec!['a', 'é', '日']);
    assert!(chars_of("").is_empty());
}

#[test]
fn strings_are_the_same_when_their_characters_are() {
    assert!(same_str("since-date", "since-date"));
    assert!(same_str("", ""));
    assert!(!same_str("a", "A"));
    assert!(!same_str("a", "ab"));
}
