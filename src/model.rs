//! Plain-value model of feed entries and the article records made from them.

use vstd::prelude::*;

verus! {

/// A link of an entry, with the media type it declares, if any.
#[derive(Clone, Debug)]
pub struct Link {
    pub href: String,
    pub media_type: Option<String>,
}

/// A media type, as its top-level type and subtype names (lower case, as MIME parsing yields them).
#[derive(Clone, Debug)]
pub struct MediaType {
    pub top_level: String,
    pub sub_type: String,
}

/// One content item of an embedded media object.
#[derive(Clone, Debug)]
pub struct MediaContent {
    pub url: Option<String>,
    pub content_type: Option<MediaType>,
}

/// An embedded media object with its content items.
#[derive(Clone, Debug)]
pub struct MediaObject {
    pub content: Vec<MediaContent>,
}

/// An instant in UTC: whole seconds since the Unix epoch and the nanoseconds past them.
#[derive(Clone, Copy, Debug, PartialEq, Eq, Structural)]
pub struct Timestamp {
    pub seconds: i64,
    pub nanos: u32,
}

/// An instant together with the fixed UTC offset, in seconds, it is to be shown in.
#[derive(Clone, Copy, Debug, PartialEq, Eq, Structural)]
pub struct FixedTimestamp {
    pub utc: Timestamp,
    pub offset_seconds: i32,
}

/// One item of a polled feed document, as the feed parser produced it.
#[derive(Clone, Debug)]
pub struct RawEntry {
    pub links: Vec<Link>,
    pub title: Option<String>,
    pub summary: Option<String>,
    pub published: Option<Timestamp>,
    /// The category terms, in document order.
    pub categories: Vec<String>,
    pub media: Vec<MediaObject>,
}

/// The normalized, persisted unit; `url` is its natural key.
#[derive(Clone, Debug)]
pub struct Article {
    pub source_id: i32,
    pub url: String,
    pub title: String,
    pub description: Option<String>,
    pub photo: Option<String>,
    pub publication_date: Option<FixedTimestamp>,
}

impl Article {
    /// A field-by-field copy.
    pub fn clone_article(&self) -> (r: Article)
        ensures
            r == *self,
    {
        Article {
            source_id: self.source_id,
            url: self.url.clone(),
            title: self.title.clone(),
            description: match &self.description {
                Some(d) => Some(d.clone()),
                None => None,
            },
            photo: match &self.photo {
                Some(p) => Some(p.clone()),
                None => None,
            },
            publication_date: self.publication_date,
        }
    }
}

/// An article made from an entry, with the labels derived from its categories.
#[derive(Clone, Debug)]
pub struct NormalizedEntry {
    pub article: Article,
    pub labels: Vec<String>,
}

/// Why an entry yields no article.
#[derive(Clone, Copy, Debug, PartialEq, Eq, Structural)]
pub enum SkipReason {
    MissingLink,
    MissingTitle,
}

/// The character views of a sequence of strings.
pub open spec fn views(v: Seq<String>) -> Seq<Seq<char>> {
    v.map_values(|s: String| s@)
}

/// The character view of an optional string.
pub open spec fn opt_view(o: Option<String>) -> Option<Seq<char>> {
    match o {
        Some(s) => Some(s@),
        None => None,
    }
}

} // verus!
