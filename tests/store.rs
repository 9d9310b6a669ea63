use rss_scraper::cli::{CheckOutcome, CheckTally, Cli, CliCommands, CliScrapeArgs, Mode};
use rss_scraper::counter::Feed;
use rss_scraper::model::{Article, Link, RawEntry};
use rss_scraper::store::FeedStore;

fn article(url: &str, title: &str) -> Article {
    Article {
        source_id: 1,
        url: url.to_string(),
        title: title.to_string(),
        description: None,
        photo: None,
        publication_date: None,
    }
}

fn entry(url: &str, title: &str, categories: &[&str]) -> RawEntry {
    RawEntry {
        links: vec![Link { href: url.to_string(), media_type: None }],
        title: Some(title.to_string()),
        summary: Some("<i>new</i> text".to_string()),
        published: None,
        categories: categories.iter().map(|c| c.to_string()).collect(),
        media: Vec::new(),
    }
}

#[test]
fn get_flag_creates_unset_flag() {
    let mut s = FeedStore::new();
    assert_eq!(s.peek_flag("rss_feeds_modified"), None);
    assert!(!s.get_flag("rss_feeds_modified"));
    assert_eq!(s.peek_flag("rss_feeds_modified"), Some(false));
    assert!(!s.get_flag("rss_feeds_modified"));
}

#[test]
fn set_flag_overwrites() {
    let mut s = FeedStore::new();
    s.set_flag("articles_modified", true);
    assert!(s.get_flag("articles_modified"));
    s.set_flag("articles_modified", false);
    assert!(!s.get_flag("articles_modified"));
    assert_eq!(s.peek_flag("other"), None);
}

#[test]
fn upsert_keeps_existing_article() {
    let mut s = FeedStore::new();
    let id = s.upsert_article(article("https://a/1", "Old"));
    let again = s.upsert_article(article("https://a/1", "New"));
    assert_eq!(id, again);
    assert_eq!(s.article_count(), 1);
    assert_eq!(s.article(id).unwrap().title, "Old");
    assert_eq!(s.find_article_id_by_url("https://a/1"), Some(id));
    assert_eq!(s.find_article_id_by_url("https://a/2"), None);
}

#[test]
fn labels_and_associations_are_created_once() {
    let mut s = FeedStore::new();
    s.upsert_label("tech");
    s.upsert_label("tech");
    assert!(s.has_label("tech"));
    assert!(!s.has_label("world"));
    s.upsert_article_label(0, "tech");
    s.upsert_article_label(0, "tech");
    assert!(s.has_association(0, "tech"));
    assert!(!s.has_association(1, "tech"));
}

#[test]
fn ingest_writes_articles_labels_and_flag() {
    let mut s = FeedStore::new();
    let entries = vec![
        entry("https://a/1", "One", &["tech", "structure:news/politics"]),
        RawEntry { links: Vec::new(), ..entry("https://a/x", "Broken", &["tech"]) },
        entry("https://a/2", "Two", &["tech"]),
    ];
    assert_eq!(s.ingest(3, &entries), 2);
    assert_eq!(s.article_count(), 2);
    let first = s.article(0).unwrap();
    assert_eq!(first.url, "https://a/1");
    assert_eq!(first.source_id, 3);
    assert_eq!(first.description, Some("new text".to_string()));
    assert!(s.has_label("tech"));
    assert!(s.has_label("politics"));
    assert!(s.has_association(0, "tech"));
    assert!(s.has_association(0, "politics"));
    assert!(s.has_association(1, "tech"));
    assert!(!s.has_association(1, "politics"));
    assert_eq!(s.peek_flag("articles_modified"), Some(true));
}

#[test]
fn ingest_never_clobbers_stored_article() {
    let mut s = FeedStore::new();
    s.upsert_article(article("https://a/1", "Old"));
    assert_eq!(s.ingest(1, &vec![entry("https://a/1", "New", &[])]), 1);
    assert_eq!(s.article_count(), 1);
    let stored = s.article(0).unwrap();
    assert_eq!(stored.title, "Old");
    assert_eq!(stored.description, None);
}

#[test]
fn ingest_of_nothing_leaves_flag() {
    let mut s = FeedStore::new();
    assert_eq!(s.ingest(1, &Vec::new()), 0);
    assert_eq!(s.peek_flag("articles_modified"), None);
}

#[test]
fn set_feeds_marks_feed_list_modified() {
    let mut s = FeedStore::new();
    s.set_feeds(vec![Feed { id: 4, feed: "https://f".to_string(), source_id: 2, interval: 15 }]);
    let feeds = s.list_feeds();
    assert_eq!(feeds.len(), 1);
    assert_eq!(feeds[0].id, 4);
    assert!(s.get_flag("rss_feeds_modified"));
}

#[test]
fn cli_modes() {
    let check = Cli { command: CliCommands::Check { input: "input.txt".to_string(), output: "working.txt".to_string() } };
    assert_eq!(check.mode(), Mode::CheckFeeds);
    let once = Cli { command: CliCommands::Run { args: CliScrapeArgs { once: true } } };
    assert_eq!(once.mode(), Mode::RunOnce);
    let run = Cli { command: CliCommands::Run { args: CliScrapeArgs { once: false } } };
    assert_eq!(run.mode(), Mode::RunContinuously);
}

#[test]
fn check_tally_counts_outcomes() {
    let mut t = CheckTally::new();
    t.record(CheckOutcome::Successful);
    t.record(CheckOutcome::Failed);
    t.record(CheckOutcome::Unreachable);
    t.record(CheckOutcome::Successful);
    assert_eq!(t, CheckTally { successful: 2, failed: 1, unreachable: 1, total: 4 });
}
