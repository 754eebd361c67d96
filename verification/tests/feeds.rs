//! Subscription lists and the feeds in them.

use podbatch::feed::parse;
use podbatch::feed::FeedError;
use podbatch::opml::parse_str;
use podbatch::opml::OpmlError;
use podbatch::opml::Subscription;
use podbatch::util::Published;
use podbatch::xml::find_attribute;
use podbatch::xml::parse_document;

const SAMPLE: &str = r#"<?xml version="1.0" encoding="UTF-8"?>
<opml version="1.0">
  <head><title>Subscriptions</title></head>
  <body>
    <outline text="Tech">
      <outline type="rss" text="Show One" xmlUrl="https://one.test/feed.xml"/>
      <outline type="rss" title="Show Two" xmlurl="https://two.test/feed.xml"/>
    </outline>
    <outline type="rss" text="Show One Again" xmlUrl="https://ONE.test/feed.xml"/>
    <outline type="rss" text="Bad" xmlUrl="itpc://nope.test/feed"/>
    <outline text="Just A Folder"/>
  </body>
</opml>"#;

#[test]
fn extracts_nested_feeds_and_dedupes() {
    let subs = parse_str(SAMPLE).unwrap();
    assert_eq!(
        subs,
        vec![
            Subscription { title: "Show One".into(), url: "https://one.test/feed.xml".into() },
            Subscription { title: "Show Two".into(), url: "https://two.test/feed.xml".into() },
        ]
    );
}

#[test]
fn reports_empty_files() {
    let doc = r#"<opml><body><outline text="Folder"/></body></opml>"#;
    assert!(matches!(parse_str(doc), Err(OpmlError::Empty)));
}

#[test]
fn tolerates_a_bom() {
    let subs = parse_str(&format!("\u{feff}{SAMPLE}")).unwrap();
    assert_eq!(subs.len(), 2);
}

const RSS: &str = r#"<?xml version="1.0"?>
<rss version="2.0" xmlns:itunes="http://www.itunes.com/dtds/podcast-1.0.dtd">
  <channel>
    <title>My Show</title>
    <itunes:title>Wrong Title</itunes:title>
    <item>
      <title><![CDATA[Episode ]]><![CDATA[One]]></title>
      <description><![CDATA[<p>A blurb &amp; a half.</p>]]></description>
      <pubDate>Tue, 05 Aug 2025 10:00:00 GMT</pubDate>
      <guid isPermaLink="false">ep-1</guid>
      <enclosure url="https://cdn.test/1.mp3" length="1234" type="audio/mpeg"/>
    </item>
    <item>
      <title>Duplicate of one</title>
      <guid>ep-1</guid>
      <enclosure url="https://cdn.test/1.mp3" length="1234" type="audio/mpeg"/>
    </item>
    <item>
      <title>No media here</title>
    </item>
    <item>
      <title>Unknown size</title>
      <enclosure url="https://cdn.test/2.m4a" length="0" type="audio/mp4"/>
    </item>
  </channel>
</rss>"#;

#[test]
fn parses_rss_items() {
    let feed = parse(RSS).unwrap();
    assert_eq!(feed.episodes.len(), 2);

    let first = &feed.episodes[0];
    assert_eq!(first.title, "Episode One");
    assert_eq!(first.url, "https://cdn.test/1.mp3");
    assert_eq!(first.length, Some(1234));
    assert_eq!(
        first.published,
        Some(Published { year: 2025, month: 8, day: 5, hour: 10, minute: 0 })
    );
    assert_eq!(first.description.as_deref(), Some("A blurb & a half."));

    // length="0" means "we don't know", not "empty file".
    assert_eq!(feed.episodes[1].length, None);
}

#[test]
fn parses_atom_entries() {
    let atom = r#"<feed xmlns="http://www.w3.org/2005/Atom">
            <title>Atom Show</title>
            <entry>
              <title>Atom Ep</title>
              <updated>2025-08-05T10:00:00Z</updated>
              <link rel="alternate" href="https://x.test/page"/>
              <link rel="enclosure" href="https://cdn.test/a.mp3" length="99" type="audio/mpeg"/>
            </entry>
          </feed>"#;
    let feed = parse(atom).unwrap();
    assert_eq!(feed.episodes.len(), 1);
    assert_eq!(feed.episodes[0].url, "https://cdn.test/a.mp3");
    assert_eq!(
        feed.episodes[0].published.map(|p| p.stamp()).as_deref(),
        Some("050825-1000")
    );
}

/// An enclosure is a URL the downloader will fetch and write to disk, so it
/// is held to the same two schemes the subscription list is.
#[test]
fn ignores_enclosures_that_are_not_http() {
    let rss = r#"<rss version="2.0"><channel>
            <item><title>Local</title><enclosure url="file:///etc/passwd" type="audio/mpeg"/></item>
            <item><title>Data</title><enclosure url="data:audio/mpeg;base64,AAAA"/></item>
            <item><title>Real</title><enclosure url="https://cdn.test/ok.mp3" type="audio/mpeg"/></item>
          </channel></rss>"#;
    let feed = parse(rss).unwrap();
    assert_eq!(feed.episodes.len(), 1);
    assert_eq!(feed.episodes[0].url, "https://cdn.test/ok.mp3");
}

#[test]
fn ignores_non_enclosure_links() {
    let atom = r#"<feed xmlns="http://www.w3.org/2005/Atom">
            <entry><title>T</title><link rel="alternate" href="https://x.test/page"/></entry>
          </feed>"#;
    assert!(parse(atom).unwrap().episodes.is_empty());
}

#[test]
fn what_is_not_xml_is_an_error() {
    assert!(matches!(parse("not xml"), Err(FeedError::Xml(_))));
    let e = parse("<a><b></a>").unwrap_err();
    assert!(e.message().starts_with("feed is not valid XML: "), "{}", e.message());
    let words = roxmltree::Document::parse("<a><b></a>").unwrap_err().to_string();
    assert_eq!(e.message(), format!("feed is not valid XML: {words}"));
    let e = parse_str("<a>").unwrap_err();
    assert!(matches!(e, OpmlError::Xml(_)));
    let words = roxmltree::Document::parse("<a>").unwrap_err().to_string();
    assert_eq!(e.message(), format!("not valid XML: {words}"));
    assert_eq!(OpmlError::Empty.message(), "no feeds found in this OPML file");
    assert_eq!(
        OpmlError::Io("no such file".into()).message(),
        "could not read file: no such file"
    );
}

/// A document is its nodes in order, each knowing where it hangs.
#[test]
fn a_document_is_its_nodes_in_order() {
    let nodes = parse_document("<a X='1'>t<b y='2'/></a>").unwrap();
    let a = nodes.iter().find(|n| n.name == "a").expect("a");
    let b = nodes.iter().find(|n| n.name == "b").expect("b");
    assert_eq!(find_attribute(a, "x"), Some("1"));
    assert_eq!(find_attribute(b, "Y"), Some("2"));
    assert_eq!(find_attribute(b, "x"), None);
    assert!(parse_document("<a>").is_err());
}
