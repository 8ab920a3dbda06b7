use finalyst::rss::{
    check_entries, check_entry, collect_entries, entry_from_raw, may_hold_play_time, parse_entries,
    EntryDefect, FeedEntry, FeedError, RawEntry, SkippedEntry, Stamp,
};

fn stamp(text: &str, unix: i64) -> Stamp {
    Stamp { rfc3339: text.to_string(), unix, nanos: 0 }
}

fn raw(title: Option<&str>, body: Option<Option<&str>>, summary: Option<&str>) -> RawEntry {
    RawEntry {
        title: title.map(|t| t.to_string()),
        updated: None,
        published: Some(stamp("2024-01-02T03:04:05+00:00", 1704164645)),
        content: body.map(|b| b.map(|s| s.to_string())),
        summary: summary.map(|s| s.to_string()),
    }
}

const FEED: &str = "<?xml version=\"1.0\"?><rss version=\"2.0\"><channel><title>News</title><link>http://example.com</link><description>d</description>\
<item><title>Alpha</title><description>First text</description><pubDate>Tue, 10 Jun 2003 04:00:00 GMT</pubDate></item>\
<item><title>Gamma</title><description>Third</description><pubDate>Wed, 11 Jun 2003 04:00:00 GMT</pubDate></item>\
</channel></rss>";

#[test]
fn parse_entries_reads_rss_items_in_order() {
    let reading = parse_entries(FEED.as_bytes()).unwrap();
    assert!(reading.skipped.is_empty());
    assert_eq!(
        reading.entries,
        vec![
            FeedEntry {
                title: "Alpha".to_string(),
                content: "First text".to_string(),
                timestamp: "2003-06-10T04:00:00+00:00".to_string(),
                timestamp_unix: 1055217600,
            },
            FeedEntry {
                title: "Gamma".to_string(),
                content: "Third".to_string(),
                timestamp: "2003-06-11T04:00:00+00:00".to_string(),
                timestamp_unix: 1055304000,
            },
        ]
    );
}

#[test]
fn parse_entries_refuses_non_feed() {
    assert_eq!(parse_entries(b"hello world"), Err(FeedError::Unparsable));
}

#[test]
fn parse_entries_reports_missing_title() {
    let feed = "<rss version=\"2.0\"><channel><title>N</title>\
<item><description>x</description><pubDate>Tue, 10 Jun 2003 04:00:00 GMT</pubDate></item>\
</channel></rss>";
    assert_eq!(parse_entries(feed.as_bytes()), Err(FeedError::Incomplete(EntryDefect::NoTitle)));
}

#[test]
fn parse_entries_reports_missing_date() {
    let feed = "<rss version=\"2.0\"><channel><title>N</title>\
<item><title>A</title><description>x</description></item>\
</channel></rss>";
    assert_eq!(parse_entries(feed.as_bytes()), Err(FeedError::Incomplete(EntryDefect::NoPublished)));
}

#[test]
fn parse_entries_reports_missing_text() {
    let feed = "<rss version=\"2.0\"><channel><title>N</title>\
<item><title>A</title><pubDate>Tue, 10 Jun 2003 04:00:00 GMT</pubDate></item>\
</channel></rss>";
    assert_eq!(
        parse_entries(feed.as_bytes()),
        Err(FeedError::Incomplete(EntryDefect::NoContentOrSummary))
    );
}

#[test]
fn check_entry_orders_defects() {
    assert_eq!(check_entry(&raw(None, None, None)), Some(EntryDefect::NoTitle));
    let mut undated = raw(Some("t"), None, None);
    undated.published = None;
    assert_eq!(check_entry(&undated), Some(EntryDefect::NoPublished));
    assert_eq!(check_entry(&raw(Some("t"), Some(None), Some("s"))), Some(EntryDefect::NoContentBody));
    assert_eq!(check_entry(&raw(Some("t"), None, None)), Some(EntryDefect::NoContentOrSummary));
    assert_eq!(check_entry(&raw(Some("t"), Some(Some("b")), None)), None);
    assert_eq!(check_entry(&raw(Some("t"), None, Some("s"))), None);
}

#[test]
fn check_entries_gives_first_defect() {
    let entries = vec![
        raw(Some("a"), None, Some("s")),
        raw(Some("b"), None, None),
        raw(None, None, None),
    ];
    assert_eq!(check_entries(&entries), Some(EntryDefect::NoContentOrSummary));
    assert_eq!(check_entries(&vec![raw(Some("a"), None, Some("s"))]), None);
}

#[test]
fn entry_prefers_updated_time_and_content_body() {
    let mut r = raw(Some("Title"), Some(Some("Body")), Some("Summary"));
    r.updated = Some(stamp("2024-05-06T07:08:09+00:00", 1714979289));
    let e = entry_from_raw(&r);
    assert_eq!(e.title, "Title");
    assert_eq!(e.content, "Body");
    assert_eq!(e.timestamp, "2024-05-06T07:08:09+00:00");
    assert_eq!(e.timestamp_unix, 1714979289);
}

#[test]
fn entry_falls_back_to_published_and_summary() {
    let e = entry_from_raw(&raw(Some("Title"), None, Some("Summary")));
    assert_eq!(e.content, "Summary");
    assert_eq!(e.timestamp, "2024-01-02T03:04:05+00:00");
    assert_eq!(e.timestamp_unix, 1704164645);
}

#[test]
fn entry_time_before_epoch_wraps() {
    let mut r = raw(Some("Old"), None, Some("s"));
    r.published = Some(stamp("1969-12-31T23:59:59+00:00", -1));
    assert_eq!(entry_from_raw(&r).timestamp_unix, u64::MAX);
}

#[test]
fn collect_skips_empty_title_or_text() {
    let entries = vec![
        raw(Some("a"), None, Some("one")),
        raw(Some(""), None, Some("two")),
        raw(Some("c"), Some(Some("")), None),
        raw(Some("d"), Some(Some("four")), None),
    ];
    let out = collect_entries(&entries);
    let titles: Vec<&str> = out.entries.iter().map(|e| e.title.as_str()).collect();
    assert_eq!(titles, vec!["a", "d"]);
    assert_eq!(out.entries[1].content, "four");
    assert_eq!(
        out.skipped,
        vec![
            SkippedEntry { title: "".to_string(), content: "two".to_string() },
            SkippedEntry { title: "c".to_string(), content: "".to_string() },
        ]
    );
}

#[test]
fn duplicate_copies_every_field() {
    let e = entry_from_raw(&raw(Some("x"), None, Some("y")));
    assert_eq!(e.duplicate(), e);
}

fn podcast(duration: &str) -> String {
    format!(
        "<rss version=\"2.0\" xmlns:itunes=\"http://www.itunes.com/dtds/podcast-1.0.dtd\"><channel><title>N</title>\
<item><title>A</title><description>x</description><pubDate>Tue, 10 Jun 2003 04:00:00 GMT</pubDate>\
<itunes:duration>{duration}</itunes:duration></item></channel></rss>"
    )
}

#[test]
fn parse_entries_reads_plain_itunes_duration() {
    for d in ["3600", "01:02:03", "12:00:00.5", "999999999999999"] {
        let reading = parse_entries(podcast(d).as_bytes()).unwrap();
        assert_eq!(reading.entries.len(), 1);
        assert_eq!(reading.entries[0].title, "A");
    }
}

#[test]
fn parse_entries_refuses_long_itunes_duration() {
    assert_eq!(parse_entries(podcast("99999999999999999999").as_bytes()), Err(FeedError::PlayTime));
    assert_eq!(parse_entries(podcast("1234567890123456:00:00").as_bytes()), Err(FeedError::PlayTime));
}

#[test]
fn parse_entries_refuses_unplain_media_text_time() {
    let feed = "<rss version=\"2.0\" xmlns:media=\"http://search.yahoo.com/mrss/\"><channel><title>N</title>\
<item><title>A</title><description>x</description><pubDate>Tue, 10 Jun 2003 04:00:00 GMT</pubDate>\
<media:text type=\"plain\"start=\"99999999999999999999\">t</media:text></item></channel></rss>";
    assert_eq!(parse_entries(feed.as_bytes()), Err(FeedError::PlayTime));
}

#[test]
fn play_time_detection() {
    assert!(!may_hold_play_time(b"<media:thumbnail url=\"u\" time=\"12:00:00\"/>"));
    assert!(!may_hold_play_time(b"<media:text start = \"1\">t</media:text>"));
    assert!(may_hold_play_time(b"<media:text type=\"plain\"start=\"99999999999999999999\">t</media:text>"));
    assert!(may_hold_play_time(b"<media:thumbnail time='1&#50;'/>"));
    assert!(may_hold_play_time("<media:text end=\"\u{0661}\">t</media:text>".as_bytes()));
    assert!(may_hold_play_time(b"<x end=2/>"));
    assert!(may_hold_play_time(b"<x end=\"2/>"));
    assert!(!may_hold_play_time(b"<duration>123456789012345</duration>"));
    assert!(may_hold_play_time(b"<duration>1234567890123456</duration>"));
    assert!(may_hold_play_time(b"<d:duration><![CDATA[5]]></d:duration>"));
    assert!(may_hold_play_time(b"a\0b"));
    assert!(may_hold_play_time(b"a\x1bb"));
    assert!(!may_hold_play_time(b"<time datetime=\"x\">the end of time</time> duration: long"));
    assert!(!may_hold_play_time(FEED.as_bytes()));
    assert!(!may_hold_play_time(b""));
}

#[test]
fn parse_entries_sets_apart_empty_entries() {
    let feed = "<rss version=\"2.0\"><channel><title>N</title>\
<item><title>Kept</title><description>Body</description><pubDate>Tue, 10 Jun 2003 04:00:00 GMT</pubDate></item>\
<item><title>Empty</title><description> </description><pubDate>Tue, 10 Jun 2003 05:00:00 GMT</pubDate></item>\
</channel></rss>";
    let reading = parse_entries(feed.as_bytes()).unwrap();
    assert_eq!(reading.entries.len() + reading.skipped.len(), 2);
    assert_eq!(reading.entries[0].title, "Kept");
}
