//! The feed store: feed configurations, articles, labels, article-label
//! associations and dirty flags, all written with create-if-absent semantics.

use crate::counter::Feed;
use crate::ingest::{is_plan_of, lemma_kept_len, pair_views, plan_ingest, IngestPlan};
use crate::model::RawEntry;
use crate::model::{views, Article};
use crate::ingest::contains_str;
use crate::text::str_eq;
use vstd::prelude::*;

verus! {

/// Some article in `s` has the URL `url`.
pub open spec fn has_url(s: Seq<Article>, url: Seq<char>) -> bool {
    exists|i: int| 0 <= i < s.len() && (#[trigger] s[i]).url@ == url
}

/// `s` after a create-if-absent write of `a`: unchanged when an article with
/// its URL is stored, else with `a` added.
pub open spec fn upsert_one(s: Seq<Article>, a: Article) -> Seq<Article> {
    if has_url(s, a.url@) {
        s
    } else {
        s.push(a)
    }
}

/// `s` after create-if-absent writes of each article of `batch`, in order.
pub open spec fn upsert_all(s: Seq<Article>, batch: Seq<Article>) -> Seq<Article>
    decreases batch.len(),
{
    if batch.len() == 0 {
        s
    } else {
        upsert_one(upsert_all(s, batch.drop_last()), batch.last())
    }
}

/// No two articles of `s` share a URL.
pub open spec fn urls_unique(s: Seq<Article>) -> bool {
    forall|i: int, j: int| 0 <= i < j < s.len() ==> (#[trigger] s[i]).url@ != (#[trigger] s[j]).url@
}

/// The map from flag names to values that a list of distinct named flags holds.
pub open spec fn flag_map(s: Seq<(String, bool)>) -> Map<Seq<char>, bool> {
    Map::new(
        |n: Seq<char>| exists|i: int| 0 <= i < s.len() && (#[trigger] s[i]).0@ == n,
        |n: Seq<char>| s[choose|i: int| 0 <= i < s.len() && (#[trigger] s[i]).0@ == n].1,
    )
}

/// The flag set by whoever changes the feed list.
pub open spec fn feeds_modified_flag() -> Seq<char> {
    "rss_feeds_modified"@
}

/// The flag set when an ingestion may have produced new articles.
pub open spec fn articles_modified_flag() -> Seq<char> {
    "articles_modified"@
}

/// Article `id` of `stored` carries label `l` by one of the (label, URL) pairs.
pub open spec fn is_association_of(
    stored: Seq<Article>,
    pairs: Seq<(Seq<char>, Seq<char>)>,
    id: u64,
    l: Seq<char>,
) -> bool {
    &&& id < stored.len()
    &&& exists|k: int|
        0 <= k < pairs.len() && (#[trigger] pairs[k]).0 == l && stored[id as int].url@ == pairs[k].1
}

/// One more pair adds the association it names, if any, to those of the others.
proof fn lemma_association_push(
    stored: Seq<Article>,
    pairs: Seq<(Seq<char>, Seq<char>)>,
    p: (Seq<char>, Seq<char>),
    id: u64,
    l: Seq<char>,
)
    ensures
        is_association_of(stored, pairs.push(p), id, l) <==> (is_association_of(
            stored,
            pairs,
            id,
            l,
        ) || (id < stored.len() && p.0 == l && stored[id as int].url@ == p.1)),
{
    let s = pairs.push(p);
    if is_association_of(stored, pairs, id, l) {
        let k = choose|k: int|
            0 <= k < pairs.len() && (#[trigger] pairs[k]).0 == l && stored[id as int].url@ == pairs[k].1;
        assert(s[k] == pairs[k]);
    }
    if id < stored.len() && p.0 == l && stored[id as int].url@ == p.1 {
        assert(s[pairs.len() as int] == p);
    }
    if is_association_of(stored, s, id, l) {
        let k = choose|k: int|
            0 <= k < s.len() && (#[trigger] s[k]).0 == l && stored[id as int].url@ == s[k].1;
        if k < pairs.len() {
            assert(s[k] == pairs[k]);
        }
    }
}

/// Create-if-absent writes never change a stored article: after any batch, every
/// article stored before is still stored, unchanged, under the same id; in
/// particular a write whose URL is stored changes nothing.
pub proof fn law_upsert_never_clobbers(stored: Seq<Article>, batch: Seq<Article>, k: int)
    requires
        0 <= k < stored.len(),
    ensures
        upsert_all(stored, batch).len() >= stored.len(),
        upsert_all(stored, batch)[k] == stored[k],
        batch.len() == 1 && has_url(stored, batch[0].url@) ==> upsert_all(stored, batch) == stored,
    decreases batch.len(),
{
    if batch.len() > 0 {
        law_upsert_never_clobbers(stored, batch.drop_last(), k);
        if batch.len() == 1 {
            assert(batch.drop_last() =~= Seq::<Article>::empty());
            assert(batch.last() == batch[0]);
        }
    }
}

/// An in-memory feed store. An article's id is its position.
pub struct FeedStore {
    feeds: Vec<Feed>,
    articles: Vec<Article>,
    labels: Vec<String>,
    article_labels: Vec<(u64, String)>,
    flags: Vec<(String, bool)>,
}

/// `after` is `before` with the writes of `plan` committed: every label, every
/// article by create-if-absent, every association whose article URL is stored,
/// and the articles-modified flag set when the plan holds an article.
pub open spec fn committed(before: FeedStore, after: FeedStore, plan: IngestPlan) -> bool {
    &&& after.articles() == upsert_all(before.articles(), plan.articles@)
    &&& forall|l: Seq<char>|
        #![trigger after.labels().contains(l)]
        after.labels().contains(l) <==> (before.labels().contains(l) || views(
            plan.labels@,
        ).contains(l))
    &&& forall|id: u64, l: Seq<char>|
        #![trigger after.associations().contains((id, l))]
        after.associations().contains((id, l)) <==> (before.associations().contains((id, l))
            || is_association_of(after.articles(), pair_views(plan.article_labels@), id, l))
    &&& after.flags() == if plan.articles@.len() > 0 {
        before.flags().insert(articles_modified_flag(), true)
    } else {
        before.flags()
    }
    &&& after.feeds() == before.feeds()
}

impl FeedStore {
    /// The configured feeds.
    pub closed spec fn feeds(&self) -> Seq<Feed> {
        self.feeds@
    }

    /// The stored articles; an article's id is its position.
    pub closed spec fn articles(&self) -> Seq<Article> {
        self.articles@
    }

    /// The stored label names.
    pub closed spec fn labels(&self) -> Seq<Seq<char>> {
        views(self.labels@)
    }

    /// The stored (article id, label name) associations.
    pub closed spec fn associations(&self) -> Seq<(u64, Seq<char>)> {
        self.article_labels@.map_values(|p: (u64, String)| (p.0, p.1@))
    }

    /// The dirty flags, by name.
    pub closed spec fn flags(&self) -> Map<Seq<char>, bool> {
        flag_map(self.flags@)
    }

    /// URLs, label names, associations and flag names are each stored once.
    pub closed spec fn wf(&self) -> bool {
        &&& urls_unique(self.articles@)
        &&& self.articles@.len() < u64::MAX
        &&& self.labels().no_duplicates()
        &&& self.associations().no_duplicates()
        &&& forall|i: int, j: int|
            0 <= i < j < self.flags@.len() ==> (#[trigger] self.flags@[i]).0@ != (
            #[trigger] self.flags@[j]).0@
    }

    /// An empty store.
    pub fn new() -> (s: FeedStore)
        ensures
            s.wf(),
            s.feeds() == Seq::<Feed>::empty(),
            s.articles() == Seq::<Article>::empty(),
            s.labels() == Seq::<Seq<char>>::empty(),
            s.associations() == Seq::<(u64, Seq<char>)>::empty(),
            s.flags() == Map::<Seq<char>, bool>::empty(),
    {
        let s = FeedStore {
            feeds: Vec::new(),
            articles: Vec::new(),
            labels: Vec::new(),
            article_labels: Vec::new(),
            flags: Vec::new(),
        };
        assert(s.labels() =~= Seq::<Seq<char>>::empty());
        assert(s.associations() =~= Seq::<(u64, Seq<char>)>::empty());
        assert(s.flags() =~= Map::<Seq<char>, bool>::empty());
        s
    }

    /// Position of the flag named `name`, if it is stored.
    fn flag_position(&self, name: &str) -> (r: Option<usize>)
        requires
            self.wf(),
        ensures
            match r {
                Some(i) => i < self.flags@.len() && self.flags@[i as int].0@ == name@
                    && self.flags().contains_key(name@) && self.flags()[name@]
                    == self.flags@[i as int].1,
                None => !self.flags().contains_key(name@),
            },
    {
        let mut i: usize = 0;
        while i < self.flags.len()
            invariant
                self.wf(),
                i <= self.flags@.len(),
                forall|k: int| 0 <= k < i ==> self.flags@[k].0@ != name@,
            decreases self.flags.len() - i,
        {
            if str_eq(self.flags[i].0.as_str(), name) {
                proof {
                    let s = self.flags@;
                    assert(flag_map(s).contains_key(name@));
                    let j = choose|j: int| 0 <= j < s.len() && (#[trigger] s[j]).0@ == name@;
                    assert(j == i);
                }
                return Some(i);
            }
            i = i + 1;
        }
        None
    }

    /// The value of the flag `name`; a flag never set is created with value `false`.
    pub fn get_flag(&mut self, name: &str) -> (r: bool)
        requires
            old(self).wf(),
        ensures
            final(self).wf(),
            old(self).flags().contains_key(name@) ==> r == old(self).flags()[name@]
                && final(self).flags() == old(self).flags(),
            !old(self).flags().contains_key(name@) ==> !r && final(self).flags() == old(
                self,
            ).flags().insert(name@, false),
            final(self).feeds() == old(self).feeds(),
            final(self).articles() == old(self).articles(),
            final(self).labels() == old(self).labels(),
            final(self).associations() == old(self).associations(),
    {
        match self.flag_position(name) {
            Some(i) => self.flags[i].1,
            None => {
                self.push_flag(name, false);
                false
            },
        }
    }

    /// Adds a flag whose name is not stored yet.
    fn push_flag(&mut self, name: &str, value: bool)
        requires
            old(self).wf(),
            !old(self).flags().contains_key(name@),
        ensures
            final(self).wf(),
            final(self).flags() == old(self).flags().insert(name@, value),
            final(self).feeds() == old(self).feeds(),
            final(self).articles() == old(self).articles(),
            final(self).labels() == old(self).labels(),
            final(self).associations() == old(self).associations(),
    {
        let ghost s0 = self.flags@;
        self.flags.push((String::from_str(name), value));
        proof {
            let s = self.flags@;
            assert forall|i: int, j: int| 0 <= i < j < s.len() implies (#[trigger] s[i]).0@ != (
            #[trigger] s[j]).0@ by {
                if j == s.len() - 1 {
                    assert(s[i] == s0[i]);
                    if s0[i].0@ == name@ {
                        assert(flag_map(s0).contains_key(name@));
                    }
                } else {
                    assert(s[i] == s0[i] && s[j] == s0[j]);
                }
            }
            assert forall|n: Seq<char>| #[trigger]
                flag_map(s).contains_key(n) <==> flag_map(s0).insert(name@, value).contains_key(n) by {
                if flag_map(s0).contains_key(n) {
                    let k = choose|k: int| 0 <= k < s0.len() && (#[trigger] s0[k]).0@ == n;
                    assert(s[k] == s0[k]);
                }
                if n == name@ {
                    assert(s[s.len() - 1].0@ == n);
                }
                if flag_map(s).contains_key(n) {
                    let k = choose|k: int| 0 <= k < s.len() && (#[trigger] s[k]).0@ == n;
                    if k < s0.len() {
                        assert(s0[k] == s[k]);
                    }
                }
            }
            assert forall|n: Seq<char>| #[trigger]
                flag_map(s).contains_key(n) implies flag_map(s)[n] == flag_map(s0).insert(
                name@,
                value,
            )[n] by {
                let k = choose|k: int| 0 <= k < s.len() && (#[trigger] s[k]).0@ == n;
                if n == name@ {
                    if k < s0.len() {
                        assert(s0[k] == s[k]);
                        assert(flag_map(s0).contains_key(name@));
                    }
                } else {
                    assert(k < s0.len());
                    assert(s0[k] == s[k]);
                    let k0 = choose|k0: int| 0 <= k0 < s0.len() && (#[trigger] s0[k0]).0@ == n;
                    assert(s[k0] == s0[k0]);
                }
            }
            assert(flag_map(s) =~= flag_map(s0).insert(name@, value));
        }
    }

    /// Sets the flag `name` to `value`, creating it if absent.
    pub fn set_flag(&mut self, name: &str, value: bool)
        requires
            old(self).wf(),
        ensures
            final(self).wf(),
            final(self).flags() == old(self).flags().insert(name@, value),
            final(self).feeds() == old(self).feeds(),
            final(self).articles() == old(self).articles(),
            final(self).labels() == old(self).labels(),
            final(self).associations() == old(self).associations(),
    {
        match self.flag_position(name) {
            Some(i) => {
                let ghost s0 = self.flags@;
                let entry = (String::from_str(name), value);
                self.flags.set(i, entry);
                proof {
                    let s = self.flags@;
                    assert forall|a: int, b: int| 0 <= a < b < s.len() implies (#[trigger] s[a]).0@
                        != (#[trigger] s[b]).0@ by {
                        assert(s[a].0@ == s0[a].0@);
                        assert(s[b].0@ == s0[b].0@);
                    }
                    assert forall|n: Seq<char>| #[trigger]
                        flag_map(s).contains_key(n) <==> flag_map(s0).contains_key(n) by {
                        if flag_map(s0).contains_key(n) {
                            let k = choose|k: int| 0 <= k < s0.len() && (#[trigger] s0[k]).0@ == n;
                            assert(s[k].0@ == s0[k].0@);
                        }
                        if flag_map(s).contains_key(n) {
                            let k = choose|k: int| 0 <= k < s.len() && (#[trigger] s[k]).0@ == n;
                            assert(s[k].0@ == s0[k].0@);
                        }
                    }
                    assert forall|n: Seq<char>| #[trigger]
                        flag_map(s).contains_key(n) implies flag_map(s)[n] == flag_map(s0).insert(
                        name@,
                        value,
                    )[n] by {
                        let k = choose|k: int| 0 <= k < s.len() && (#[trigger] s[k]).0@ == n;
                        assert(s[k].0@ == s0[k].0@);
                        if n == name@ {
                            assert(k == i);
                        } else {
                            assert(s[k] == s0[k]);
                            let k0 = choose|k0: int| 0 <= k0 < s0.len() && (#[trigger] s0[k0]).0@ == n;
                            assert(k0 == k);
                        }
                    }
                    assert(flag_map(s) =~= flag_map(s0).insert(name@, value));
                }
            },
            None => self.push_flag(name, value),
        }
    }

    /// The value of the flag `name`, if it is stored; nothing is created.
    pub fn peek_flag(&self, name: &str) -> (r: Option<bool>)
        requires
            self.wf(),
        ensures
            match r {
                Some(v) => self.flags().contains_key(name@) && v == self.flags()[name@],
                None => !self.flags().contains_key(name@),
            },
    {
        match self.flag_position(name) {
            Some(i) => Some(self.flags[i].1),
            None => None,
        }
    }

    /// The number of stored articles.
    pub fn article_count(&self) -> (r: usize)
        ensures
            r == self.articles().len(),
    {
        self.articles.len()
    }

    /// A copy of the article with id `id`, if there is one.
    pub fn article(&self, id: u64) -> (r: Option<Article>)
        ensures
            match r {
                Some(a) => id < self.articles().len() && a == self.articles()[id as int],
                None => id >= self.articles().len(),
            },
    {
        if id < self.articles.len() as u64 {
            Some(self.articles[id as usize].clone_article())
        } else {
            None
        }
    }

    /// Whether the label `name` is stored.
    pub fn has_label(&self, name: &str) -> (r: bool)
        ensures
            r == self.labels().contains(name@),
    {
        contains_str(&self.labels, name)
    }

    /// Whether article `id` is associated with label `name`.
    pub fn has_association(&self, id: u64, name: &str) -> (r: bool)
        ensures
            r == self.associations().contains((id, name@)),
    {
        let mut i: usize = 0;
        while i < self.article_labels.len()
            invariant
                i <= self.article_labels@.len(),
                forall|k: int| 0 <= k < i ==> self.associations()[k] != (id, name@),
            decreases self.article_labels.len() - i,
        {
            if self.article_labels[i].0 == id && str_eq(self.article_labels[i].1.as_str(), name) {
                assert(self.associations()[i as int] == (id, name@));
                return true;
            }
            i = i + 1;
        }
        false
    }

    /// The configured feeds.
    pub fn list_feeds(&self) -> (r: Vec<Feed>)
        ensures
            r@ == self.feeds(),
    {
        let mut out: Vec<Feed> = Vec::new();
        let mut i: usize = 0;
        while i < self.feeds.len()
            invariant
                i <= self.feeds@.len(),
                out@ == self.feeds@.subrange(0, i as int),
            decreases self.feeds.len() - i,
        {
            out.push(self.feeds[i].copied());
            proof {
                assert(out@ =~= self.feeds@.subrange(0, i + 1));
            }
            i = i + 1;
        }
        assert(self.feeds@.subrange(0, self.feeds@.len() as int) =~= self.feeds@);
        out
    }

    /// Replaces the feed list and marks it modified.
    pub fn set_feeds(&mut self, feeds: Vec<Feed>)
        requires
            old(self).wf(),
        ensures
            final(self).wf(),
            final(self).feeds() == feeds@,
            final(self).flags() == old(self).flags().insert(feeds_modified_flag(), true),
            final(self).articles() == old(self).articles(),
            final(self).labels() == old(self).labels(),
            final(self).associations() == old(self).associations(),
    {
        self.feeds = feeds;
        self.set_flag("rss_feeds_modified", true);
    }

    /// The id of the article stored under `url`, if any.
    pub fn find_article_id_by_url(&self, url: &str) -> (r: Option<u64>)
        requires
            self.wf(),
        ensures
            match r {
                Some(id) => id < self.articles().len() && self.articles()[id as int].url@ == url@,
                None => !has_url(self.articles(), url@),
            },
    {
        let mut i: usize = 0;
        while i < self.articles.len()
            invariant
                self.wf(),
                i <= self.articles@.len(),
                forall|k: int| 0 <= k < i ==> self.articles@[k].url@ != url@,
            decreases self.articles.len() - i,
        {
            if str_eq(self.articles[i].url.as_str(), url) {
                return Some(i as u64);
            }
            i = i + 1;
        }
        None
    }

    /// Stores `a` unless an article with its URL is stored, and returns the id
    /// of the article stored under that URL.
    pub fn upsert_article(&mut self, a: Article) -> (id: u64)
        requires
            old(self).wf(),
            old(self).articles().len() + 1 < u64::MAX,
        ensures
            final(self).wf(),
            final(self).articles() == upsert_one(old(self).articles(), a),
            id < final(self).articles().len(),
            final(self).articles()[id as int].url@ == a.url@,
            final(self).feeds() == old(self).feeds(),
            final(self).flags() == old(self).flags(),
            final(self).labels() == old(self).labels(),
            final(self).associations() == old(self).associations(),
    {
        match self.find_article_id_by_url(a.url.as_str()) {
            Some(id) => id,
            None => {
                let id = self.articles.len() as u64;
                let ghost s0 = self.articles@;
                self.articles.push(a);
                proof {
                    let s = self.articles@;
                    assert forall|i: int, j: int| 0 <= i < j < s.len() implies (#[trigger] s[i]).url@
                        != (#[trigger] s[j]).url@ by {
                        assert(s[i] == s0[i]);
                        if j < s0.len() {
                            assert(s[j] == s0[j]);
                        }
                    }
                }
                id
            },
        }
    }

    /// Stores the label `name` unless it is stored.
    pub fn upsert_label(&mut self, name: &str)
        requires
            old(self).wf(),
        ensures
            final(self).wf(),
            final(self).labels() == if old(self).labels().contains(name@) {
                old(self).labels()
            } else {
                old(self).labels().push(name@)
            },
            final(self).feeds() == old(self).feeds(),
            final(self).flags() == old(self).flags(),
            final(self).articles() == old(self).articles(),
            final(self).associations() == old(self).associations(),
    {
        if !contains_str(&self.labels, name) {
            let ghost s0 = views(self.labels@);
            self.labels.push(String::from_str(name));
            proof {
                assert(views(self.labels@) =~= s0.push(name@));
            }
        }
    }

    /// Stores the association of article `id` with label `name` unless it is stored.
    pub fn upsert_article_label(&mut self, id: u64, name: &str)
        requires
            old(self).wf(),
        ensures
            final(self).wf(),
            final(self).associations() == if old(self).associations().contains((id, name@)) {
                old(self).associations()
            } else {
                old(self).associations().push((id, name@))
            },
            final(self).feeds() == old(self).feeds(),
            final(self).flags() == old(self).flags(),
            final(self).articles() == old(self).articles(),
            final(self).labels() == old(self).labels(),
    {
        let mut i: usize = 0;
        while i < self.article_labels.len()
            invariant
                self.wf(),
                i <= self.article_labels@.len(),
                forall|k: int| 0 <= k < i ==> self.associations()[k] != (id, name@),
            decreases self.article_labels.len() - i,
        {
            if self.article_labels[i].0 == id && str_eq(self.article_labels[i].1.as_str(), name) {
                assert(self.associations()[i as int] == (id, name@));
                return;
            }
            i = i + 1;
        }
        let ghost s0 = self.associations();
        self.article_labels.push((id, String::from_str(name)));
        proof {
            assert(self.associations() =~= s0.push((id, name@)));
        }
    }

    /// Ingests the entries of one fetched feed owned by `source_id`: normalizes
    /// them, skipping the entries that yield no article, and commits the
    /// resulting writes. Returns the number of articles written.
    pub fn ingest(&mut self, source_id: i32, entries: &Vec<RawEntry>) -> (n: usize)
        requires
            old(self).wf(),
            old(self).articles().len() + entries@.len() + 1 < u64::MAX,
        ensures
            final(self).wf(),
            exists|plan: IngestPlan|
                is_plan_of(plan, source_id, entries@) && n == plan.articles@.len() && #[trigger] committed(
                    *old(self),
                    *final(self),
                    plan,
                ),
    {
        let plan = plan_ingest(source_id, entries);
        proof {
            lemma_kept_len(entries@);
        }
        self.commit_plan(&plan)
    }

    /// Commits the writes of a plan in three batches: every label, then every
    /// article, then every association whose article URL is stored; marks the
    /// articles modified when the plan holds an article. Returns the number of
    /// articles of the plan.
    pub fn commit_plan(&mut self, plan: &IngestPlan) -> (n: usize)
        requires
            old(self).wf(),
            old(self).articles().len() + plan.articles@.len() + 1 < u64::MAX,
        ensures
            final(self).wf(),
            n == plan.articles@.len(),
            committed(*old(self), *final(self), *plan),
    {
        let mut i: usize = 0;
        while i < plan.labels.len()
            invariant
                self.wf(),
                i <= plan.labels@.len(),
                self.articles() == old(self).articles(),
                self.associations() == old(self).associations(),
                self.flags() == old(self).flags(),
                self.feeds() == old(self).feeds(),
                forall|l: Seq<char>|
                    #![trigger self.labels().contains(l)]
                    #![trigger views(plan.labels@).subrange(0, i as int).contains(l)]
                    self.labels().contains(l) <==> (old(self).labels().contains(l) || views(
                        plan.labels@,
                    ).subrange(0, i as int).contains(l)),
            decreases plan.labels.len() - i,
        {
            let ghost before = self.labels();
            let ghost done = views(plan.labels@).subrange(0, i as int);
            assert(forall|l: Seq<char>|
                #![trigger before.contains(l)]
                #![trigger done.contains(l)]
                before.contains(l) <==> (old(self).labels().contains(l) || done.contains(l)));
            self.upsert_label(plan.labels[i].as_str());
            proof {
                let next = views(plan.labels@).subrange(0, i + 1);
                assert(next =~= done.push(plan.labels@[i as int]@));
                assert forall|l: Seq<char>|
                    #![trigger self.labels().contains(l)]
                    #![trigger next.contains(l)]
                    self.labels().contains(l) <==> (old(self).labels().contains(l) || next.contains(
                        l,
                    )) by {
                    if next.contains(l) {
                        let k = choose|k: int| 0 <= k < next.len() && next[k] == l;
                        if k < done.len() {
                            assert(done[k] == l);
                        }
                    }
                    if done.contains(l) {
                        let k = choose|k: int| 0 <= k < done.len() && done[k] == l;
                        assert(next[k] == l);
                    }
                    if self.labels().contains(l) && !before.contains(l) {
                        let k = choose|k: int|
                            0 <= k < self.labels().len() && self.labels()[k] == l;
                        if k < before.len() {
                            assert(before[k] == l);
                        }
                    }
                    if before.contains(l) {
                        let k = choose|k: int| 0 <= k < before.len() && before[k] == l;
                        assert(self.labels()[k] == l);
                    }
                    if l == plan.labels@[i as int]@ && !before.contains(l) {
                        assert(self.labels()[before.len() as int] == l);
                    }
                    if l == plan.labels@[i as int]@ {
                        assert(next[i as int] == l);
                    }
                }
            }
            i = i + 1;
        }
        assert(views(plan.labels@).subrange(0, plan.labels@.len() as int) =~= views(plan.labels@));
        let mut j: usize = 0;
        assert(plan.articles@.subrange(0, 0) =~= Seq::<Article>::empty());
        while j < plan.articles.len()
            invariant
                self.wf(),
                j <= plan.articles@.len(),
                old(self).articles().len() + plan.articles@.len() + 1 < u64::MAX,
                self.articles() == upsert_all(
                    old(self).articles(),
                    plan.articles@.subrange(0, j as int),
                ),
                self.articles().len() <= old(self).articles().len() + j,
                self.associations() == old(self).associations(),
                self.flags() == old(self).flags(),
                self.feeds() == old(self).feeds(),
                forall|l: Seq<char>|
                    self.labels().contains(l) <==> (old(self).labels().contains(l) || views(
                        plan.labels@,
                    ).contains(l)),
            decreases plan.articles.len() - j,
        {
            let ghost labels_before = self.labels();
            self.upsert_article(plan.articles[j].clone_article());
            proof {
                let next = plan.articles@.subrange(0, j + 1);
                assert(next.drop_last() =~= plan.articles@.subrange(0, j as int));
                assert(next.last() == plan.articles@[j as int]);
            }
            j = j + 1;
        }
        assert(plan.articles@.subrange(0, plan.articles@.len() as int) =~= plan.articles@);
        let ghost pairs = pair_views(plan.article_labels@);
        let mut k: usize = 0;
        while k < plan.article_labels.len()
            invariant
                self.wf(),
                k <= plan.article_labels@.len(),
                pairs == pair_views(plan.article_labels@),
                self.articles() == upsert_all(old(self).articles(), plan.articles@),
                self.flags() == old(self).flags(),
                self.feeds() == old(self).feeds(),
                forall|l: Seq<char>|
                    self.labels().contains(l) <==> (old(self).labels().contains(l) || views(
                        plan.labels@,
                    ).contains(l)),
                forall|id: u64, l: Seq<char>|
                    #![trigger self.associations().contains((id, l))]
                    #![trigger is_association_of(self.articles(), pairs.subrange(0, k as int), id, l)]
                    self.associations().contains((id, l)) <==> (old(
                        self,
                    ).associations().contains((id, l)) || is_association_of(
                        self.articles(),
                        pairs.subrange(0, k as int),
                        id,
                        l,
                    )),
            decreases plan.article_labels.len() - k,
        {
            let pair = &plan.article_labels[k];
            let found = self.find_article_id_by_url(pair.1.as_str());
            let ghost before = self.associations();
            let ghost done = pairs.subrange(0, k as int);
            let ghost next = pairs.subrange(0, k + 1);
            assert(forall|x: u64, l: Seq<char>|
                #![trigger before.contains((x, l))]
                #![trigger is_association_of(self.articles(), done, x, l)]
                before.contains((x, l)) <==> (old(self).associations().contains((x, l))
                    || is_association_of(self.articles(), done, x, l)));
            proof {
                assert(next =~= done.push(pairs[k as int]));
                assert(pairs[k as int] == (pair.0@, pair.1@));
            }
            match found {
                Some(id) => {
                    self.upsert_article_label(id, pair.0.as_str());
                    proof {
                        assert forall|x: u64, l: Seq<char>|
                            #![trigger self.associations().contains((x, l))]
                            #![trigger is_association_of(self.articles(), next, x, l)]
                            self.associations().contains((x, l)) <==> (old(
                                self,
                            ).associations().contains((x, l)) || is_association_of(
                                self.articles(),
                                next,
                                x,
                                l,
                            )) by {
                            lemma_association_push(self.articles(), done, pairs[k as int], x, l);
                            if before.contains((x, l)) {
                                let q = choose|q: int| 0 <= q < before.len() && before[q] == (x, l);
                                assert(self.associations()[q] == (x, l));
                            }
                            if self.associations().contains((x, l)) && (x, l) != (id, pair.0@) {
                                let q = choose|q: int|
                                    0 <= q < self.associations().len() && self.associations()[q]
                                        == (x, l);
                                if q < before.len() {
                                    assert(before[q] == (x, l));
                                }
                            }
                            if (x, l) == (id, pair.0@) && !before.contains((x, l)) {
                                assert(self.associations()[before.len() as int] == (x, l));
                            }
                            if x != id && l == pair.0@ && 0 <= x < self.articles().len()
                                && self.articles()[x as int].url@ == pair.1@ {
                                assert(self.articles()[x as int].url@ == self.articles()[id as int].url@);
                            }
                        }
                    }
                },
                None => {
                    proof {
                        assert forall|x: u64, l: Seq<char>|
                            #![trigger self.associations().contains((x, l))]
                            #![trigger is_association_of(self.articles(), next, x, l)]
                            self.associations().contains((x, l)) <==> (old(
                                self,
                            ).associations().contains((x, l)) || is_association_of(
                                self.articles(),
                                next,
                                x,
                                l,
                            )) by {
                            lemma_association_push(self.articles(), done, pairs[k as int], x, l);
                            if 0 <= x < self.articles().len() && self.articles()[x as int].url@
                                == pair.1@ {
                                assert(has_url(self.articles(), pair.1@));
                            }
                        }
                    }
                },
            }
            k = k + 1;
        }
        assert(pairs.subrange(0, pairs.len() as int) =~= pairs);
        if plan.articles.len() > 0 {
            self.set_flag("articles_modified", true);
        }
        plan.articles.len()
    }
}

} // verus!
