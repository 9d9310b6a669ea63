use rss_scraper::ingest::plan_ingest;
use rss_scraper::model::{Link, MediaContent, MediaObject, MediaType, RawEntry, SkipReason, Timestamp};
use rss_scraper::normalize::{
    get_photo_from_entry, normalize_entry, normalize_label, normalize_labels, select_article_url,
    strip_html_tags,
};

fn link(href: &str, media_type: Option<&str>) -> Link {
    Link { href: href.to_string(), media_type: media_type.map(|t| t.to_string()) }
}

fn content(url: Option<&str>, top_level: Option<&str>) -> MediaContent {
    MediaContent {
        url: url.map(|u| u.to_string()),
        content_type: top_level
            .map(|t| MediaType { top_level: t.to_string(), sub_type: "jpeg".to_string() }),
    }
}

fn entry(links: Vec<Link>, title: Option<&str>) -> RawEntry {
    RawEntry {
        links,
        title: title.map(|t| t.to_string()),
        summary: None,
        published: None,
        categories: Vec::new(),
        media: Vec::new(),
    }
}

#[test]
fn label_structure_path_takes_second_segment() {
    assert_eq!(normalize_label("structure:news/politics"), Some("politics".to_string()));
}

#[test]
fn label_structure_without_slash_takes_path() {
    assert_eq!(normalize_label("structure:world"), Some("world".to_string()));
}

#[test]
fn label_plain_term_is_kept() {
    assert_eq!(normalize_label("tech"), Some("tech".to_string()));
}

#[test]
fn label_other_prefix_is_dropped() {
    assert_eq!(normalize_label("other:thing"), None);
}

#[test]
fn label_deep_path_takes_second_segment() {
    assert_eq!(normalize_label("structure:a/b/c"), Some("b".to_string()));
}

#[test]
fn label_empty_leaf_is_dropped() {
    assert_eq!(normalize_label("structure:"), None);
    assert_eq!(normalize_label("structure:news/"), None);
}

#[test]
fn labels_keep_term_order() {
    let terms = vec![
        "structure:news/politics".to_string(),
        "other:thing".to_string(),
        "tech".to_string(),
        "structure:world".to_string(),
    ];
    assert_eq!(
        normalize_labels(&terms),
        vec!["politics".to_string(), "tech".to_string(), "world".to_string()]
    );
}

#[test]
fn photo_link_wins_over_media() {
    let mut e = entry(vec![link("https://a/page", Some("text/html")), link("https://a/p.png", Some("image/png"))], Some("t"));
    e.media = vec![MediaObject { content: vec![content(Some("https://a/m.jpg"), Some("image"))] }];
    assert_eq!(get_photo_from_entry(&e), Some("https://a/p.png".to_string()));
}

#[test]
fn photo_from_media_when_no_photo_link() {
    let mut e = entry(vec![link("https://a/page", None)], Some("t"));
    e.media = vec![
        MediaObject { content: vec![content(Some("https://a/v.webm"), Some("video")), content(None, Some("image"))] },
        MediaObject { content: vec![content(Some("https://a/any"), None), content(Some("https://a/m.jpg"), Some("image"))] },
    ];
    assert_eq!(get_photo_from_entry(&e), Some("https://a/any".to_string()));
}

#[test]
fn photo_absent() {
    let mut e = entry(vec![link("https://a/x.gif", Some("image/gif"))], Some("t"));
    e.media = vec![MediaObject { content: vec![content(Some("https://a/v.webm"), Some("video"))] }];
    assert_eq!(get_photo_from_entry(&e), None);
}

#[test]
fn url_prefers_html_link() {
    let links = vec![link("https://a/feed", None), link("https://a/page", Some("text/html"))];
    assert_eq!(select_article_url(&links), Some("https://a/page".to_string()));
}

#[test]
fn url_first_link_when_none_typed() {
    let links = vec![link("https://a/1", None), link("https://a/2", None)];
    assert_eq!(select_article_url(&links), Some("https://a/1".to_string()));
}

#[test]
fn url_none_when_no_link_qualifies() {
    let links = vec![link("https://a/p.png", Some("image/png")), link("https://a/2", None)];
    assert_eq!(select_article_url(&links), None);
    assert_eq!(select_article_url(&Vec::new()), None);
}

#[test]
fn description_tags_are_stripped() {
    assert_eq!(strip_html_tags("<p>Hello <b>world</b></p>"), "Hello world");
    assert_eq!(strip_html_tags("a < b and c > d"), "a  d");
    assert_eq!(strip_html_tags("keep <a\nb> this"), "keep <a\nb> this");
    assert_eq!(strip_html_tags("plain"), "plain");
}

#[test]
fn entry_without_links_is_skipped() {
    let e = entry(Vec::new(), Some("t"));
    assert_eq!(normalize_entry(1, &e).err(), Some(SkipReason::MissingLink));
}

#[test]
fn entry_without_title_is_skipped() {
    let e = entry(vec![link("https://a/1", None)], None);
    assert_eq!(normalize_entry(1, &e).err(), Some(SkipReason::MissingTitle));
}

#[test]
fn entry_is_normalized() {
    let mut e = entry(vec![link("https://a/1", Some("text/html")), link("https://a/1.jpg", Some("image/jpeg"))], Some("Title"));
    e.summary = Some("<p>Sum</p>".to_string());
    e.published = Some(Timestamp { seconds: 1_700_000_000, nanos: 5 });
    e.categories = vec!["structure:news/politics".to_string(), "tech".to_string()];
    let n = normalize_entry(7, &e).ok().unwrap();
    assert_eq!(n.article.source_id, 7);
    assert_eq!(n.article.url, "https://a/1");
    assert_eq!(n.article.title, "Title");
    assert_eq!(n.article.description, Some("Sum".to_string()));
    assert_eq!(n.article.photo, Some("https://a/1.jpg".to_string()));
    let date = n.article.publication_date.unwrap();
    assert_eq!(date.utc, Timestamp { seconds: 1_700_000_000, nanos: 5 });
    assert_eq!(date.offset_seconds, 0);
    assert_eq!(n.labels, vec!["politics".to_string(), "tech".to_string()]);
}

#[test]
fn skipped_entry_does_not_stop_the_feed() {
    let mut first = entry(vec![link("https://a/1", None)], Some("One"));
    first.categories = vec!["tech".to_string(), "structure:world".to_string()];
    let broken = entry(Vec::new(), Some("No link"));
    let mut last = entry(vec![link("https://a/3", None)], Some("Three"));
    last.categories = vec!["tech".to_string()];
    let plan = plan_ingest(2, &vec![first, broken, last]);
    assert_eq!(plan.articles.len(), 2);
    assert_eq!(plan.articles[0].url, "https://a/1");
    assert_eq!(plan.articles[1].url, "https://a/3");
    assert_eq!(plan.skipped, vec![(1usize, SkipReason::MissingLink)]);
    assert_eq!(plan.labels, vec!["tech".to_string(), "world".to_string()]);
    assert_eq!(
        plan.article_labels,
        vec![
            ("tech".to_string(), "https://a/1".to_string()),
            ("world".to_string(), "https://a/1".to_string()),
            ("tech".to_string(), "https://a/3".to_string()),
        ]
    );
}
