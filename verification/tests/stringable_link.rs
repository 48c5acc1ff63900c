use kaboom::link::Link;
use kaboom::stringable_link::{link_to_string, string_to_link};

#[test]
fn link_to_string_behavior() {
    let link1 = Link {
        href: "https://example.com/feed.xml".into(),
        rel: "self".into(),
        hreflang: Some("en-us".into()),
        mime_type: Some("application/atom+xml".into()),
        title: Some("An example feed".into()),
        length: None,
    };

    assert_eq!(
        "https://example.com/feed.xml[rel=self][type=application/atom+xml][lang=en-us][title=An example feed]",
        link_to_string(&link1),
    );

    let link2 = Link {
        href: "https://example.com/feed.xml".into(),
        rel: "".into(),
        hreflang: Some("en-us".into()),
        mime_type: Some("application/atom+xml".into()),
        title: Some("An example feed".into()),
        length: None,
    };

    assert_eq!(
        "https://example.com/feed.xml[type=application/atom+xml][lang=en-us][title=An example feed]",
        link_to_string(&link2),
    );

    let link3 = Link {
        href: "https://example.com/feed.xml".into(),
        rel: "self".into(),
        hreflang: None,
        mime_type: Some("application/atom+xml".into()),
        title: Some("An example feed".into()),
        length: None,
    };

    assert_eq!(
        "https://example.com/feed.xml[rel=self][type=application/atom+xml][title=An example feed]",
        link_to_string(&link3),
    );

    let link4 = Link {
        href: "https://example.com/feed.xml".into(),
        rel: "self".into(),
        hreflang: None,
        mime_type: None,
        title: Some("An example feed".into()),
        length: None,
    };

    assert_eq!(
        "https://example.com/feed.xml[rel=self][title=An example feed]",
        link_to_string(&link4),
    );

    let link5 = Link {
        href: "https://example.com/feed.xml".into(),
        rel: "self".into(),
        hreflang: None,
        mime_type: None,
        title: None,
        length: None,
    };

    assert_eq!(
        "https://example.com/feed.xml[rel=self]",
        link_to_string(&link5),
    );
}

#[test]
fn string_to_link_behavior() {
    let link1 = Link {
        href: "https://example.com/feed.xml".into(),
        rel: "self".into(),
        hreflang: Some("en-us".into()),
        mime_type: Some("application/atom+xml".into()),
        title: Some("An example feed".into()),
        length: None,
    };

    assert_eq!(
        link1,
        string_to_link("https://example.com/feed.xml[rel=self][type=application/atom+xml][lang=en-us][title=An example feed]"),
    );

    let link2 = Link {
        href: "https://example.com/feed.xml".into(),
        rel: "related".into(),
        hreflang: Some("en-us".into()),
        mime_type: Some("application/atom+xml".into()),
        title: Some("An example feed".into()),
        length: None,
    };

    assert_eq!(
        link2,
        string_to_link("https://example.com/feed.xml[type=application/atom+xml][lang=en-us][title=An example feed]"),
    );

    let link3 = Link {
        href: "https://example.com/feed.xml".into(),
        rel: "self".into(),
        hreflang: None,
        mime_type: Some("application/atom+xml".into()),
        title: Some("An example feed".into()),
        length: None,
    };

    assert_eq!(
        link3,
        string_to_link("https://example.com/feed.xml[rel=self][type=application/atom+xml][title=An example feed]"),
    );

    let link4 = Link {
        href: "https://example.com/feed.xml".into(),
        rel: "self".into(),
        hreflang: None,
        mime_type: None,
        title: Some("An example feed".into()),
        length: None,
    };

    assert_eq!(
        link4,
        string_to_link("https://example.com/feed.xml[rel=self][title=An example feed]"),
    );

    let link5 = Link {
        href: "https://example.com/feed.xml".into(),
        rel: "self".into(),
        hreflang: None,
        mime_type: None,
        title: None,
        length: None,
    };

    assert_eq!(
        link5,
        string_to_link("https://example.com/feed.xml[rel=self]"),
    );

    let link6 = Link {
        href: "https://example.com/feed.xml[=]".into(),
        rel: "related".into(),
        hreflang: None,
        mime_type: None,
        title: None,
        length: None,
    };

    assert_eq!(link6, string_to_link("https://example.com/feed.xml[=]"),);

    let link7 = Link {
        href: "https://example.com/feed.xml]".into(),
        rel: "related".into(),
        hreflang: None,
        mime_type: None,
        title: None,
        length: None,
    };

    assert_eq!(link7, string_to_link("https://example.com/feed.xml]"),);

    let link8 = Link {
        href: "https://example.com/feed.xml[]".into(),
        rel: "related".into(),
        hreflang: None,
        mime_type: None,
        title: None,
        length: None,
    };

    assert_eq!(link8, string_to_link("https://example.com/feed.xml[]"),);
}
