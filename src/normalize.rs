//! The entry normalizer: from one raw feed entry to an article record and its labels.

use crate::model::{
    opt_view, views, Article, FixedTimestamp, Link, MediaContent, MediaObject, NormalizedEntry,
    RawEntry, SkipReason, Timestamp,
};
use crate::text::{find_char_from, lemma_next_index, next_index, slice_owned, str_eq};
use vstd::prelude::*;
use vstd::string::*;

verus! {

/// The label that a category term yields. A term without `:` is a label as it
/// stands. A term `structure:<path>` yields the second `/`-separated segment of
/// the path, or the path itself when it has no `/`; an empty result yields
/// nothing. A term with any other prefix before `:` yields nothing.
pub open spec fn label_of(term: Seq<char>) -> Option<Seq<char>> {
    let colon = next_index(term, ':', 0);
    if colon == term.len() {
        Some(term)
    } else if term.subrange(0, colon) != "structure"@ {
        None
    } else {
        let slash = next_index(term, '/', colon + 1);
        let leaf = if slash == term.len() {
            term.subrange(colon + 1, term.len() as int)
        } else {
            term.subrange(slash + 1, next_index(term, '/', slash + 1))
        };
        if leaf.len() == 0 {
            None
        } else {
            Some(leaf)
        }
    }
}

/// The labels of a sequence of category terms, in order, one for each term that yields one.
pub open spec fn labels_of(terms: Seq<String>) -> Seq<Seq<char>>
    decreases terms.len(),
{
    if terms.len() == 0 {
        Seq::empty()
    } else {
        let earlier = labels_of(terms.drop_last());
        match label_of(terms.last()@) {
            Some(l) => earlier.push(l),
            None => earlier,
        }
    }
}

/// The label of one category term, if it yields one.
pub fn normalize_label(term: &str) -> (r: Option<String>)
    ensures
        opt_view(r) == label_of(term@),
{
    let n = term.unicode_len();
    let colon = find_char_from(term, ':', 0);
    if colon == n {
        return Some(String::from_str(term));
    }
    proof {
        lemma_next_index(term@, ':', 0);
    }
    let prefix = term.substring_char(0, colon);
    if !str_eq(prefix, "structure") {
        return None;
    }
    let slash = find_char_from(term, '/', colon + 1);
    proof {
        lemma_next_index(term@, '/', colon + 1);
    }
    let leaf = if slash == n {
        slice_owned(term, colon + 1, n)
    } else {
        let end = find_char_from(term, '/', slash + 1);
        proof {
            lemma_next_index(term@, '/', slash + 1);
        }
        slice_owned(term, slash + 1, end)
    };
    if leaf.unicode_len() == 0 {
        None
    } else {
        Some(leaf)
    }
}

/// The labels of all category terms, in order.
pub fn normalize_labels(terms: &Vec<String>) -> (r: Vec<String>)
    ensures
        views(r@) == labels_of(terms@),
{
    let mut out: Vec<String> = Vec::new();
    let mut i: usize = 0;
    while i < terms.len()
        invariant
            i <= terms@.len(),
            views(out@) == labels_of(terms@.subrange(0, i as int)),
        decreases terms.len() - i,
    {
        let label = normalize_label(terms[i].as_str());
        proof {
            assert(terms@.subrange(0, i + 1).drop_last() =~= terms@.subrange(0, i as int));
        }
        match label {
            Some(l) => {
                out.push(l);
                proof {
                    assert(views(out@) =~= labels_of(terms@.subrange(0, i + 1)));
                }
            }
            None => {}
        }
        i = i + 1;
    }
    assert(terms@.subrange(0, terms@.len() as int) =~= terms@);
    out
}

/// A link that declares the media type `text/html`.
pub open spec fn is_html_link(l: Link) -> bool {
    match l.media_type {
        Some(t) => t@ == "text/html"@,
        None => false,
    }
}

/// The href of the first `text/html` link at or after position `i`.
pub open spec fn first_html_link(links: Seq<Link>, i: int) -> Option<Seq<char>>
    decreases links.len() - i,
{
    if i < 0 || i >= links.len() {
        None
    } else if is_html_link(links[i]) {
        Some(links[i].href@)
    } else {
        first_html_link(links, i + 1)
    }
}

/// No link declares a media type.
pub open spec fn all_untyped(links: Seq<Link>) -> bool {
    forall|k: int| 0 <= k < links.len() ==> links[k].media_type is None
}

/// The article URL of an entry: its first `text/html` link; failing that, when
/// no link declares a media type, its first link.
pub open spec fn entry_url(links: Seq<Link>) -> Option<Seq<char>> {
    match first_html_link(links, 0) {
        Some(u) => Some(u),
        None => if links.len() > 0 && all_untyped(links) {
            Some(links[0].href@)
        } else {
            None
        },
    }
}

/// A link that declares an image type taken as a photo.
pub open spec fn is_photo_link(l: Link) -> bool {
    match l.media_type {
        Some(t) => t@ == "image/jpeg"@ || t@ == "image/png"@,
        None => false,
    }
}

/// The href of the first photo link at or after position `i`.
pub open spec fn first_photo_link(links: Seq<Link>, i: int) -> Option<Seq<char>>
    decreases links.len() - i,
{
    if i < 0 || i >= links.len() {
        None
    } else if is_photo_link(links[i]) {
        Some(links[i].href@)
    } else {
        first_photo_link(links, i + 1)
    }
}

/// A media content item with a URL whose type is an image, or which declares no type.
pub open spec fn is_photo_content(c: MediaContent) -> bool {
    &&& c.url is Some
    &&& match c.content_type {
        Some(m) => m.top_level@ == "image"@,
        None => true,
    }
}

/// The URL of the first photo content item at or after item `j` of object `i`,
/// taking objects in order and the items of each in order.
pub open spec fn first_media_photo(media: Seq<MediaObject>, i: int, j: int) -> Option<Seq<char>>
    decreases media.len() - i, media[i].content@.len() - j,
{
    if i < 0 || i >= media.len() {
        None
    } else if j < 0 || j >= media[i].content@.len() {
        first_media_photo(media, i + 1, 0)
    } else if is_photo_content(media[i].content@[j]) {
        opt_view(media[i].content@[j].url)
    } else {
        first_media_photo(media, i, j + 1)
    }
}

/// The photo of an entry: its first photo link, failing that its first photo media item.
pub open spec fn entry_photo(e: RawEntry) -> Option<Seq<char>> {
    match first_photo_link(e.links@, 0) {
        Some(p) => Some(p),
        None => first_media_photo(e.media@, 0, 0),
    }
}

/// The pattern whose matches are HTML tags.
pub open spec fn tag_pattern() -> Seq<char> {
    seq!['<', '.', '*', '?', '>']
}

/// First position at or after `from` that holds `>` or a line feed, or the length.
pub open spec fn tag_stop(s: Seq<char>, from: int) -> int
    decreases s.len() - from,
{
    if from < 0 || from >= s.len() {
        s.len() as int
    } else if s[from] == '>' || s[from] == '\n' {
        from
    } else {
        tag_stop(s, from + 1)
    }
}

/// `s` without its HTML tags: scanning left to right, each `<` that a `>` follows
/// with no line feed in between is removed together with everything up to the
/// first such `>`; all other characters stay.
pub open spec fn strip_tags(s: Seq<char>) -> Seq<char>
    decreases s.len(),
{
    if s.len() == 0 {
        s
    } else {
        let stop = tag_stop(s, 1);
        if s[0] == '<' && 0 < stop < s.len() && s[stop] == '>' {
            strip_tags(s.subrange(stop + 1, s.len() as int))
        } else {
            seq![s[0]] + strip_tags(s.subrange(1, s.len() as int))
        }
    }
}

/// Relies on `regex::Regex::new` and `regex::Regex::replace_all` with an empty
/// replacement: for the pattern `<.*?>` the matches are found leftmost first,
/// each the shortest run from a `<` to a `>` (`.` takes any character but a
/// line feed), and removed.
#[verifier::external_body]
fn regex_remove_all(pattern: &str, s: &str) -> (r: String)
    requires
        pattern@ == tag_pattern(),
    ensures
        r@ == strip_tags(s@),
{
    match regex::Regex::new(pattern) {
        Ok(re) => re.replace_all(s, "").into_owned(),
        Err(_) => s.to_string(),
    }
}

/// A description with its HTML tags removed.
pub fn strip_html_tags(s: &str) -> (r: String)
    ensures
        r@ == strip_tags(s@),
{
    let pattern = "<.*?>";
    proof {
        reveal_strlit("<.*?>");
        assert(pattern@ =~= tag_pattern());
    }
    regex_remove_all(pattern, s)
}

/// The article URL of an entry's links, if one qualifies.
pub fn select_article_url(links: &Vec<Link>) -> (r: Option<String>)
    ensures
        opt_view(r) == entry_url(links@),
{
    let mut untyped = true;
    let mut i: usize = 0;
    while i < links.len()
        invariant
            i <= links@.len(),
            first_html_link(links@, 0) == first_html_link(links@, i as int),
            untyped == (forall|k: int| 0 <= k < i ==> links@[k].media_type is None),
        decreases links.len() - i,
    {
        let link = &links[i];
        match &link.media_type {
            Some(t) => {
                if str_eq(t.as_str(), "text/html") {
                    return Some(link.href.clone());
                }
                untyped = false;
            }
            None => {}
        }
        i = i + 1;
    }
    if links.len() > 0 && untyped {
        Some(links[0].href.clone())
    } else {
        None
    }
}

/// The photo of an entry, if it has one.
pub fn get_photo_from_entry(entry: &RawEntry) -> (r: Option<String>)
    ensures
        opt_view(r) == entry_photo(*entry),
{
    let links = &entry.links;
    let mut i: usize = 0;
    while i < links.len()
        invariant
            i <= links@.len(),
            links@ == entry.links@,
            first_photo_link(links@, 0) == first_photo_link(links@, i as int),
        decreases links.len() - i,
    {
        let link = &links[i];
        match &link.media_type {
            Some(t) => {
                let jpeg = str_eq(t.as_str(), "image/jpeg");
                let png = str_eq(t.as_str(), "image/png");
                if jpeg || png {
                    assert(is_photo_link(links@[i as int]));
                    assert(first_photo_link(links@, i as int) == Some(link.href@));
                    return Some(link.href.clone());
                }
            }
            None => {}
        }
        i = i + 1;
    }
    let media = &entry.media;
    let mut m: usize = 0;
    while m < media.len()
        invariant
            m <= media@.len(),
            media@ == entry.media@,
            first_photo_link(entry.links@, 0) is None,
            first_media_photo(media@, 0, 0) == first_media_photo(media@, m as int, 0),
        decreases media.len() - m,
    {
        let content = &media[m].content;
        let mut j: usize = 0;
        while j < content.len()
            invariant
                m < media@.len(),
                media@ == entry.media@,
                first_photo_link(entry.links@, 0) is None,
                content@ == media@[m as int].content@,
                j <= content@.len(),
                first_media_photo(media@, 0, 0) == first_media_photo(media@, m as int, j as int),
            decreases content.len() - j,
        {
            let item = &content[j];
            let typed_image = match &item.content_type {
                Some(t) => str_eq(t.top_level.as_str(), "image"),
                None => true,
            };
            if typed_image {
                match &item.url {
                    Some(u) => {
                        assert(is_photo_content(media@[m as int].content@[j as int]));
                        return Some(u.clone());
                    }
                    None => {}
                }
            }
            j = j + 1;
        }
        m = m + 1;
    }
    None
}

/// Why an entry yields no article, if it yields none: no qualifying link comes
/// before a missing title.
pub open spec fn skip_reason(e: RawEntry) -> Option<SkipReason> {
    if entry_url(e.links@) is None {
        Some(SkipReason::MissingLink)
    } else if e.title is None {
        Some(SkipReason::MissingTitle)
    } else {
        None
    }
}

/// An instant shown at UTC itself.
pub open spec fn at_utc(t: Timestamp) -> FixedTimestamp {
    FixedTimestamp { utc: t, offset_seconds: 0 }
}

/// `a` is the article that entry `e` of a feed owned by news source `source_id` yields.
pub open spec fn is_article_of(a: Article, source_id: i32, e: RawEntry) -> bool {
    &&& a.source_id == source_id
    &&& entry_url(e.links@) == Some(a.url@)
    &&& opt_view(e.title) == Some(a.title@)
    &&& opt_view(a.description) == match e.summary {
        Some(s) => Some(strip_tags(s@)),
        None => None,
    }
    &&& opt_view(a.photo) == entry_photo(e)
    &&& a.publication_date == match e.published {
        Some(t) => Some(at_utc(t)),
        None => None,
    }
}

/// The article and labels of one entry, or why it is skipped.
pub fn normalize_entry(source_id: i32, entry: &RawEntry) -> (r: Result<NormalizedEntry, SkipReason>)
    ensures
        match r {
            Ok(n) => {
                &&& skip_reason(*entry) is None
                &&& is_article_of(n.article, source_id, *entry)
                &&& views(n.labels@) == labels_of(entry.categories@)
            },
            Err(k) => skip_reason(*entry) == Some(k),
        },
{
    let url = match select_article_url(&entry.links) {
        Some(u) => u,
        None => {
            return Err(SkipReason::MissingLink);
        }
    };
    let title = match &entry.title {
        Some(t) => t.clone(),
        None => {
            return Err(SkipReason::MissingTitle);
        }
    };
    let description = match &entry.summary {
        Some(s) => Some(strip_html_tags(s.as_str())),
        None => None,
    };
    let photo = get_photo_from_entry(entry);
    let publication_date = match entry.published {
        Some(t) => Some(FixedTimestamp { utc: t, offset_seconds: 0 }),
        None => None,
    };
    let labels = normalize_labels(&entry.categories);
    let article = Article { source_id, url, title, description, photo, publication_date };
    Ok(NormalizedEntry { article, labels })
}

} // verus!
