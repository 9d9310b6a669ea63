//! The ingestion pipeline's computing part: from the entries of one polled feed
//! to the batch of label, article and association writes.

use crate::model::{views, Article, RawEntry, SkipReason};
use crate::normalize::{entry_url, is_article_of, labels_of, normalize_entry, skip_reason};
use crate::text::str_eq;
use vstd::prelude::*;

verus! {

/// The writes one feed's entries call for.
pub struct IngestPlan {
    /// Every label name used by some article, each once.
    pub labels: Vec<String>,
    /// One article for each entry that is not skipped, in entry order.
    pub articles: Vec<Article>,
    /// A (label name, article URL) pair for each label of each article.
    pub article_labels: Vec<(String, String)>,
    /// The position and reason of each skipped entry.
    pub skipped: Vec<(usize, SkipReason)>,
}

/// The entries that yield an article, in order.
pub open spec fn kept_entries(entries: Seq<RawEntry>) -> Seq<RawEntry>
    decreases entries.len(),
{
    if entries.len() == 0 {
        Seq::empty()
    } else {
        let earlier = kept_entries(entries.drop_last());
        if skip_reason(entries.last()) is None {
            earlier.push(entries.last())
        } else {
            earlier
        }
    }
}

/// The position and reason of each entry that yields no article, in order.
pub open spec fn skipped_entries(entries: Seq<RawEntry>) -> Seq<(usize, SkipReason)>
    decreases entries.len(),
{
    if entries.len() == 0 {
        Seq::empty()
    } else {
        let earlier = skipped_entries(entries.drop_last());
        match skip_reason(entries.last()) {
            Some(k) => earlier.push(((entries.len() - 1) as usize, k)),
            None => earlier,
        }
    }
}

/// The (label, article URL) pairs of one entry that yields an article.
pub open spec fn entry_label_pairs(e: RawEntry) -> Seq<(Seq<char>, Seq<char>)> {
    labels_of(e.categories@).map_values(|l: Seq<char>| (l, entry_url(e.links@)->0))
}

/// The (label, article URL) pairs of all entries that yield an article, in order.
pub open spec fn label_pairs(entries: Seq<RawEntry>) -> Seq<(Seq<char>, Seq<char>)>
    decreases entries.len(),
{
    if entries.len() == 0 {
        Seq::empty()
    } else {
        let earlier = label_pairs(entries.drop_last());
        if skip_reason(entries.last()) is None {
            earlier + entry_label_pairs(entries.last())
        } else {
            earlier
        }
    }
}

/// The character views of a sequence of string pairs.
pub open spec fn pair_views(v: Seq<(String, String)>) -> Seq<(Seq<char>, Seq<char>)> {
    v.map_values(|p: (String, String)| (p.0@, p.1@))
}

/// `l` is the label of some pair.
pub open spec fn labels_a_pair(pairs: Seq<(Seq<char>, Seq<char>)>, l: Seq<char>) -> bool {
    exists|k: int| 0 <= k < pairs.len() && (#[trigger] pairs[k]).0 == l
}

/// The plan for a feed owned by `source_id` with the given entries.
pub open spec fn is_plan_of(p: IngestPlan, source_id: i32, entries: Seq<RawEntry>) -> bool {
    let kept = kept_entries(entries);
    let pairs = label_pairs(entries);
    &&& p.articles@.len() == kept.len()
    &&& forall|k: int|
        0 <= k < kept.len() ==> is_article_of(#[trigger] p.articles@[k], source_id, kept[k])
    &&& pair_views(p.article_labels@) == pairs
    &&& views(p.labels@).no_duplicates()
    &&& forall|l: Seq<char>| views(p.labels@).contains(l) <==> labels_a_pair(pairs, l)
    &&& p.skipped@ == skipped_entries(entries)
}

/// No more entries are kept than there are.
pub proof fn lemma_kept_len(entries: Seq<RawEntry>)
    ensures
        kept_entries(entries).len() <= entries.len(),
    decreases entries.len(),
{
    if entries.len() > 0 {
        lemma_kept_len(entries.drop_last());
    }
}

/// An entry without links is skipped as missing its link, and the other
/// entries, before and after it, yield the same articles and label pairs as if
/// it were not there.
pub proof fn law_linkless_entry_is_skipped_alone(entries: Seq<RawEntry>, k: int)
    requires
        0 <= k < entries.len(),
        entries[k].links@.len() == 0,
    ensures
        skip_reason(entries[k]) == Some(SkipReason::MissingLink),
        kept_entries(entries) == kept_entries(entries.remove(k)),
        label_pairs(entries) == label_pairs(entries.remove(k)),
    decreases entries.len(),
{
    assert(entry_url(entries[k].links@) is None);
    if k == entries.len() - 1 {
        assert(entries.remove(k) =~= entries.drop_last());
    } else {
        let rest = entries.drop_last();
        assert(rest[k] == entries[k]);
        law_linkless_entry_is_skipped_alone(rest, k);
        assert(entries.remove(k).drop_last() =~= rest.remove(k));
        assert(entries.remove(k).last() == entries.last());
    }
}

/// Whether `v` holds a string equal to `s`.
pub fn contains_str(v: &Vec<String>, s: &str) -> (r: bool)
    ensures
        r == views(v@).contains(s@),
{
    let mut i: usize = 0;
    while i < v.len()
        invariant
            i <= v@.len(),
            forall|k: int| 0 <= k < i ==> v@[k]@ != s@,
        decreases v.len() - i,
    {
        if str_eq(v[i].as_str(), s) {
            assert(views(v@)[i as int] == s@);
            return true;
        }
        i = i + 1;
    }
    assert forall|k: int| 0 <= k < views(v@).len() implies views(v@)[k] != s@ by {
        assert(views(v@)[k] == v@[k]@);
    }
    false
}

/// The writes that the entries of a feed owned by `source_id` call for. An entry
/// that is skipped leaves the others as they are.
pub fn plan_ingest(source_id: i32, entries: &Vec<RawEntry>) -> (p: IngestPlan)
    ensures
        is_plan_of(p, source_id, entries@),
{
    let mut labels: Vec<String> = Vec::new();
    let mut articles: Vec<Article> = Vec::new();
    let mut article_labels: Vec<(String, String)> = Vec::new();
    let mut skipped: Vec<(usize, SkipReason)> = Vec::new();
    let mut i: usize = 0;
    assert(entries@.subrange(0, 0) =~= Seq::<RawEntry>::empty());
    assert(views(labels@) =~= Seq::<Seq<char>>::empty());
    assert(pair_views(article_labels@) =~= Seq::<(Seq<char>, Seq<char>)>::empty());
    while i < entries.len()
        invariant
            i <= entries@.len(),
            is_plan_of(
                IngestPlan { labels, articles, article_labels, skipped },
                source_id,
                entries@.subrange(0, i as int),
            ),
        decreases entries.len() - i,
    {
        let ghost done = entries@.subrange(0, i as int);
        let ghost next = entries@.subrange(0, i + 1);
        proof {
            assert(next.drop_last() =~= done);
            assert(next.last() == entries@[i as int]);
        }
        match normalize_entry(source_id, &entries[i]) {
            Ok(n) => {
                let url = n.article.url.clone();
                let ghost pairs0 = pair_views(article_labels@);
                let mut j: usize = 0;
                while j < n.labels.len()
                    invariant
                        i < entries@.len(),
                        j <= n.labels@.len(),
                        url@ == n.article.url@,
                        pair_views(article_labels@) == pairs0 + entry_label_pairs(
                            entries@[i as int],
                        ).subrange(0, j as int),
                        views(n.labels@) == labels_of(entries@[i as int].categories@),
                        entry_url(entries@[i as int].links@) == Some(n.article.url@),
                        views(labels@).no_duplicates(),
                        forall|l: Seq<char>|
                            views(labels@).contains(l) <==> labels_a_pair(
                                pair_views(article_labels@),
                                l,
                            ),
                    decreases n.labels.len() - j,
                {
                    let label = n.labels[j].clone();
                    let ghost before = pair_views(article_labels@);
                    let ghost labels_before = views(labels@);
                    assert(forall|l: Seq<char>|
                        labels_before.contains(l) <==> labels_a_pair(before, l));
                    article_labels.push((label.clone(), url.clone()));
                    proof {
                        assert(views(n.labels@)[j as int] == label@);
                        assert(pair_views(article_labels@) =~= before.push((label@, url@)));
                        assert(entry_label_pairs(entries@[i as int]).subrange(0, j + 1)
                            =~= entry_label_pairs(entries@[i as int]).subrange(0, j as int).push(
                            (label@, url@),
                        ));
                        assert(pair_views(article_labels@)[before.len() as int].0 == label@);
                    }
                    let present = contains_str(&labels, label.as_str());
                    if !present {
                        labels.push(label);
                    }
                    proof {
                        let now = pair_views(article_labels@);
                        if present {
                            assert(views(labels@) =~= labels_before);
                        } else {
                            assert(views(labels@) =~= labels_before.push(label@));
                            assert(views(labels@)[labels_before.len() as int] == label@);
                        }
                        assert forall|l: Seq<char>|
                            views(labels@).contains(l) <==> labels_a_pair(now, l) by {
                            if labels_a_pair(before, l) {
                                let k = choose|k: int|
                                    0 <= k < before.len() && (#[trigger] before[k]).0 == l;
                                assert(now[k] == before[k]);
                            }
                            if l == label@ {
                                assert(now[before.len() as int].0 == l);
                            }
                            if labels_a_pair(now, l) {
                                let k = choose|k: int|
                                    0 <= k < now.len() && (#[trigger] now[k]).0 == l;
                                if k < before.len() {
                                    assert(before[k] == now[k]);
                                    assert(labels_a_pair(before, l));
                                }
                            }
                            if views(labels@).contains(l) {
                                let k = choose|k: int|
                                    0 <= k < views(labels@).len() && views(labels@)[k] == l;
                                if k < labels_before.len() {
                                    assert(labels_before[k] == l);
                                    assert(labels_before.contains(l));
                                }
                            }
                            if labels_before.contains(l) {
                                let k = choose|k: int|
                                    0 <= k < labels_before.len() && labels_before[k] == l;
                                assert(views(labels@)[k] == l);
                            }
                        }
                    }
                    j = j + 1;
                }
                proof {
                    assert(entry_label_pairs(entries@[i as int]).subrange(0, j as int)
                        =~= entry_label_pairs(entries@[i as int]));
                }
                articles.push(n.article);
            },
            Err(k) => {
                skipped.push((i, k));
            },
        }
        proof {
            assert(kept_entries(next) =~= if skip_reason(entries@[i as int]) is None {
                kept_entries(done).push(entries@[i as int])
            } else {
                kept_entries(done)
            });
        }
        i = i + 1;
    }
    assert(entries@.subrange(0, entries@.len() as int) =~= entries@);
    IngestPlan { labels, articles, article_labels, skipped }
}

} // verus!
