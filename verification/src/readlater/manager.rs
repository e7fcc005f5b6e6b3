//! Read-later accounts and articles: what is kept of them, and which are asked for.

use vstd::prelude::*;
use vstd::string::*;

use crate::clock::Timestamp;
use crate::readlater::order::sort_articles;
use crate::readlater::{
    available, Article, ArticleQuery, ArticleSortBy, ProviderAccount, ProviderConfig,
    ReadLaterError, ReadLaterProvider, ReadStatus, SortOrder, SyncSettings, TagFilter,
};
use crate::table::Table;
use crate::text::{contains, same, to_chars, to_lower};

verus! {

/// Read-later accounts and articles. Each is stored under its id, and there is one article for each
/// item of a provider.
pub struct ReadLaterManager {
    pub accounts: Table<ProviderAccount>,
    pub articles: Table<Article>,
}

/// Articles by id, with their texts as characters.
pub type Articles = Map<Seq<char>, crate::readlater::ArticleView>;

/// Whether two articles are one item of one provider.
pub open spec fn same_item(
    a: crate::readlater::ArticleView,
    provider: ReadLaterProvider,
    provider_id: Seq<char>,
) -> bool {
    a.provider == provider && a.provider_id == provider_id
}

/// Whether `id` is where an item of a provider is stored.
pub open spec fn stored_at(
    m: Articles,
    id: Seq<char>,
    provider: ReadLaterProvider,
    provider_id: Seq<char>,
) -> bool {
    m.contains_key(id) && same_item(m[id], provider, provider_id)
}

/// Whether each article is stored under its id, and no item of a provider twice.
pub open spec fn consistent(m: Articles) -> bool {
    &&& forall|id: Seq<char>| #[trigger] m.contains_key(id) ==> m[id].id == id
    &&& forall|i: Seq<char>, j: Seq<char>|
        #![trigger m.contains_key(i), m.contains_key(j)]
        m.contains_key(i) && m.contains_key(j) && same_item(m[j], m[i].provider, m[i].provider_id)
            ==> i == j
}

/// An article as it is stored where `existing` is where its item is stored already. Under another id
/// (a provider's answer that minted a fresh one) the existing id is kept, as is the device-side
/// state, which the provider can't know about.
pub open spec fn merged(
    m: Articles,
    a: crate::readlater::ArticleView,
    existing: Option<Seq<char>>,
) -> crate::readlater::ArticleView {
    match existing {
        Some(id) => if id != a.id {
            crate::readlater::ArticleView {
                id,
                document_id: if a.document_id is None {
                    m[id].document_id
                } else {
                    a.document_id
                },
                synced_to_device: a.synced_to_device || m[id].synced_to_device,
                last_sync: if a.last_sync is None {
                    m[id].last_sync
                } else {
                    a.last_sync
                },
                ..a
            }
        } else {
            a
        },
        None => a,
    }
}

/// Whether `existing` is where an article's item is stored already, if it is.
pub open spec fn is_existing(
    m: Articles,
    a: crate::readlater::ArticleView,
    existing: Option<Seq<char>>,
) -> bool {
    match existing {
        Some(id) => stored_at(m, id, a.provider, a.provider_id),
        None => forall|id: Seq<char>| !#[trigger] stored_at(m, id, a.provider, a.provider_id),
    }
}

/// Storing an article keeps articles consistent.
pub proof fn law_storing_keeps_one_entry_per_item(
    m: Articles,
    a: crate::readlater::ArticleView,
    existing: Option<Seq<char>>,
)
    requires
        consistent(m),
        is_existing(m, a, existing),
    ensures
        consistent(m.insert(merged(m, a, existing).id, merged(m, a, existing))),
{
    let s = merged(m, a, existing);
    let n = m.insert(s.id, s);
    assert forall|i: Seq<char>, j: Seq<char>|
        #![trigger n.contains_key(i), n.contains_key(j)]
        n.contains_key(i) && n.contains_key(j) && same_item(
            n[j],
            n[i].provider,
            n[i].provider_id,
        ) implies i == j by {
        if i != s.id && j != s.id {
            assert(m.contains_key(i) && m.contains_key(j));
        } else if i != j {
            let k = if i == s.id {
                j
            } else {
                i
            };
            assert(m.contains_key(k));
            assert(stored_at(m, k, a.provider, a.provider_id));
            if let Some(id) = existing {
                assert(m.contains_key(id));
            }
        }
    }
}

/// A provider's answer about an item that is stored never takes it off the device: where it is
/// stored, that it is on the device and as which document stay.
pub proof fn law_a_new_answer_keeps_the_device_state(
    m: Articles,
    a: crate::readlater::ArticleView,
    id: Seq<char>,
)
    requires
        consistent(m),
        is_existing(m, a, Some(id)),
        a.id != id,
        !a.synced_to_device,
        a.document_id is None,
        a.last_sync is None,
    ensures
        ({
            let s = merged(m, a, Some(id));
            &&& s.id == id
            &&& s.synced_to_device == m[id].synced_to_device
            &&& s.document_id == m[id].document_id
            &&& s.last_sync == m[id].last_sync
            &&& s.title == a.title
            &&& s.status == a.status
        }),
{
}

/// The articles of a table.
pub open spec fn articles_of(t: Table<Article>) -> Articles {
    t@.map_values(|a: Article| a@)
}

/// The articles of a table, in order.
pub open spec fn in_table(t: Table<Article>) -> Seq<crate::readlater::ArticleView> {
    t.entries@.map_values(|e: (String, Article)| e.1@)
}

/// What the database says of an account whose id is taken.
pub const ID_TAKEN: &'static str = "UNIQUE constraint failed: readlater_accounts.id";

impl ReadLaterManager {
    pub open spec fn wf(&self) -> bool {
        &&& self.accounts.wf()
        &&& self.articles.wf()
        &&& consistent(articles_of(self.articles))
    }

    /// A manager of nothing yet.
    pub fn new() -> (r: Self)
        ensures
            r.wf(),
            r.accounts@ == Map::<Seq<char>, ProviderAccount>::empty(),
            r.articles@ == Map::<Seq<char>, Article>::empty(),
    {
        ReadLaterManager { accounts: Table::new(), articles: Table::new() }
    }

    /// Whether an account may be added: not one of the discontinued provider.
    pub fn may_add(account: &ProviderAccount) -> (r: Result<(), ReadLaterError>)
        ensures
            if account.provider == ReadLaterProvider::Omnivore {
                r matches Err(e) && e@ == crate::readlater::ReadLaterErrorView::Discontinued(
                    crate::readlater::OMNIVORE_DISCONTINUED@,
                )
            } else {
                r is Ok
            },
    {
        available(account.provider)
    }

    /// Add an account. One of the discontinued provider is refused, and so is one under an id that an
    /// account has already, which stays.
    pub fn add_account(&mut self, account: ProviderAccount) -> (r: Result<(), ReadLaterError>)
        requires
            old(self).wf(),
        ensures
            final(self).wf(),
            final(self).articles == old(self).articles,
            if account.provider == ReadLaterProvider::Omnivore {
                &&& r matches Err(e) && e@ == crate::readlater::ReadLaterErrorView::Discontinued(
                    crate::readlater::OMNIVORE_DISCONTINUED@,
                )
                &&& *final(self) == *old(self)
            } else if old(self).accounts@.contains_key(account.id@) {
                &&& r matches Err(e) && e@ == crate::readlater::ReadLaterErrorView::Database(
                    ID_TAKEN@,
                )
                &&& *final(self) == *old(self)
            } else {
                &&& r is Ok
                &&& final(self).accounts@ == old(self).accounts@.insert(account.id@, account)
            },
    {
        match ReadLaterManager::may_add(&account) {
            Ok(_) => {
                if self.accounts.contains(account.id.as_str()) {
                    return Err(ReadLaterError::Database(ID_TAKEN.to_owned()));
                }
                self.update_account(account);
                Ok(())
            },
            Err(e) => Err(e),
        }
    }

    /// Store an account in place of the one of its id.
    pub fn update_account(&mut self, account: ProviderAccount)
        requires
            old(self).wf(),
        ensures
            final(self).wf(),
            final(self).articles == old(self).articles,
            final(self).accounts@ == old(self).accounts@.insert(account.id@, account),
    {
        self.accounts.insert(account.id.clone(), account);
    }

    /// Store a new provider config (e.g. refreshed tokens) for an account, touching only that so
    /// concurrent edits to name/settings are not overwritten.
    pub fn update_account_config(&mut self, id: &str, config: &ProviderConfig) -> (r: Result<
        (),
        ReadLaterError,
    >)
        requires
            old(self).wf(),
        ensures
            final(self).wf(),
            final(self).articles == old(self).articles,
            if old(self).accounts@.contains_key(id@) {
                &&& r is Ok
                &&& final(self).accounts@ == old(self).accounts@.insert(
                    id@,
                    ProviderAccount { config: *config, ..old(self).accounts@[id@] },
                )
            } else {
                &&& r matches Err(e) && e@
                    == crate::readlater::ReadLaterErrorView::ProviderNotFound(id@)
                &&& *final(self) == *old(self)
            },
    {
        match self.accounts.get_mut(id) {
            Some(account) => {
                account.config = config.clone();
                Ok(())
            },
            None => Err(ReadLaterError::ProviderNotFound(id.to_owned())),
        }
    }

    /// Record the start of the last fully synced window, touching only that so concurrent edits to
    /// name/settings are not overwritten.
    pub fn set_last_sync(&mut self, id: &str, at: Timestamp) -> (r: Result<(), ReadLaterError>)
        requires
            old(self).wf(),
        ensures
            final(self).wf(),
            final(self).articles == old(self).articles,
            if old(self).accounts@.contains_key(id@) {
                &&& r is Ok
                &&& final(self).accounts@ == old(self).accounts@.insert(
                    id@,
                    ProviderAccount { last_sync: Some(at), ..old(self).accounts@[id@] },
                )
            } else {
                &&& r matches Err(e) && e@
                    == crate::readlater::ReadLaterErrorView::ProviderNotFound(id@)
                &&& *final(self) == *old(self)
            },
    {
        match self.accounts.get_mut(id) {
            Some(account) => {
                account.last_sync = Some(at);
                Ok(())
            },
            None => Err(ReadLaterError::ProviderNotFound(id.to_owned())),
        }
    }

    pub fn delete_account(&mut self, id: &str)
        requires
            old(self).wf(),
        ensures
            final(self).wf(),
            final(self).articles == old(self).articles,
            final(self).accounts@ == old(self).accounts@.remove(id@),
    {
        let ghost was = self.accounts@;
        let _ = self.accounts.remove(id);
        assert(!was.contains_key(id@) ==> was.remove(id@) =~= was);
    }

    pub fn get_account(&self, id: &str) -> (r: Option<&ProviderAccount>)
        requires
            self.wf(),
        ensures
            match r {
                Some(a) => self.accounts@.contains_key(id@) && self.accounts@[id@] == *a,
                None => !self.accounts@.contains_key(id@),
            },
    {
        self.accounts.get(id)
    }

    /// Where an item of a provider is stored.
    fn existing(&self, provider: ReadLaterProvider, provider_id: &str) -> (r: Option<String>)
        requires
            self.wf(),
        ensures
            match r {
                Some(id) => stored_at(
                    articles_of(self.articles),
                    id@,
                    provider,
                    provider_id@,
                ),
                None => forall|id: Seq<char>|
                    !#[trigger] stored_at(
                        articles_of(self.articles),
                        id,
                        provider,
                        provider_id@,
                    ),
            },
    {
        let ghost m = articles_of(self.articles);
        proof {
            crate::table::lemma_map_of(self.articles.entries@);
        }
        let mut i: usize = 0;
        while i < self.articles.entries.len()
            invariant
                i <= self.articles.entries@.len(),
                m == articles_of(self.articles),
                forall|k: int|
                    0 <= k < self.articles.entries@.len() ==> self.articles@.contains_key(
                        (#[trigger] self.articles.entries@[k]).0@,
                    ) && self.articles@[self.articles.entries@[k].0@]
                        == self.articles.entries@[k].1,
                forall|k: int|
                    0 <= k < i ==> !same_item(
                        (#[trigger] self.articles.entries@[k]).1@,
                        provider,
                        provider_id@,
                    ),
            decreases self.articles.entries@.len() - i,
        {
            let entry = &self.articles.entries[i];
            if entry.1.provider == provider && same(entry.1.provider_id.as_str(), provider_id) {
                assert(m.contains_key(entry.0@));
                return Some(entry.0.clone());
            }
            i += 1;
        }
        assert forall|id: Seq<char>| !#[trigger] stored_at(m, id, provider, provider_id@) by {
            if m.contains_key(id) {
                assert(self.articles@.contains_key(id));
                let k = choose|k: int|
                    0 <= k < self.articles.entries@.len() && (#[trigger] self.articles.entries@[k]).0@
                        == id;
                assert(self.articles@[id] == self.articles.entries@[k].1);
            }
        }
        None
    }

    /// Insert or update an article keyed by its natural key: its provider and the provider's id of
    /// it. If it is stored under a different id already (e.g. a provider re-fetch that minted a
    /// fresh uuid) the existing id is kept, as is the device-side state the provider can't know
    /// about, so there stays one entry per article. Returns the article as stored.
    pub fn upsert_article(&mut self, article: &Article) -> (r: Article)
        requires
            old(self).wf(),
        ensures
            final(self).wf(),
            final(self).accounts == old(self).accounts,
            ({
                let m = articles_of(old(self).articles);
                exists|existing: Option<Seq<char>>| #[trigger]
                    is_existing(m, article@, existing) && r@ == merged(m, article@, existing)
                        && articles_of(final(self).articles) == m.insert(r@.id, r@)
            }),
    {
        let ghost m = articles_of(self.articles);
        let mut stored = article.clone();
        let found = self.existing(article.provider, article.provider_id.as_str());
        let ghost existing = crate::text::text_of(found);
        assert(is_existing(m, article@, existing));
        if let Some(id) = found {
            if !same(id.as_str(), article.id.as_str()) {
                if let Some(prev) = self.articles.get(id.as_str()) {
                    assert(m[id@] == prev@);
                    if stored.document_id.is_none() {
                        stored.document_id = prev.document_id.clone();
                    }
                    stored.synced_to_device = stored.synced_to_device || prev.synced_to_device;
                    if stored.last_sync.is_none() {
                        stored.last_sync = prev.last_sync;
                    }
                }
                stored.id = id;
            }
        }
        assert(stored@ =~= merged(m, article@, existing));
        let copy = stored.clone();
        let ghost view = stored@;
        self.articles.insert(stored.id.clone(), stored);
        assert(articles_of(self.articles) =~= m.insert(view.id, view));
        proof {
            law_storing_keeps_one_entry_per_item(m, article@, existing);
        }
        copy
    }

    /// Store an article as it is: see [`ReadLaterManager::upsert_article`].
    pub fn save_article(&mut self, article: &Article)
        requires
            old(self).wf(),
        ensures
            final(self).wf(),
            final(self).accounts == old(self).accounts,
            ({
                let m = articles_of(old(self).articles);
                exists|existing: Option<Seq<char>>| #[trigger]
                    is_existing(m, article@, existing) && articles_of(final(self).articles)
                        == m.insert(
                        merged(m, article@, existing).id,
                        merged(m, article@, existing),
                    )
            }),
    {
        let _ = self.upsert_article(article);
    }

    pub fn get_article(&self, id: &str) -> (r: Option<Article>)
        requires
            self.wf(),
        ensures
            match r {
                Some(a) => articles_of(self.articles).contains_key(id@) && a@ == articles_of(
                    self.articles,
                )[id@],
                None => !articles_of(self.articles).contains_key(id@),
            },
    {
        match self.articles.get(id) {
            Some(a) => Some(a.clone()),
            None => None,
        }
    }

    /// Record that `article_id` is on the device as document `document_id`, so later syncs never add
    /// it again.
    pub fn mark_delivered(&mut self, article_id: &str, document_id: &str, at: Timestamp) -> (r:
        Result<Article, ReadLaterError>)
        requires
            old(self).wf(),
        ensures
            final(self).wf(),
            final(self).accounts == old(self).accounts,
            ({
                let m = articles_of(old(self).articles);
                if m.contains_key(article_id@) {
                    &&& r matches Ok(a) && a@ == (crate::readlater::ArticleView {
                        synced_to_device: true,
                        document_id: Some(document_id@),
                        last_sync: Some(at),
                        ..m[article_id@]
                    })
                    &&& articles_of(final(self).articles) == m.insert(article_id@, r->Ok_0@)
                } else {
                    &&& r matches Err(e) && e@
                        == crate::readlater::ReadLaterErrorView::ArticleNotFound(article_id@)
                    &&& *final(self) == *old(self)
                }
            }),
    {
        let ghost m = articles_of(self.articles);
        match self.get_article(article_id) {
            None => Err(ReadLaterError::ArticleNotFound(article_id.to_owned())),
            Some(found) => {
                let mut article = found;
                article.synced_to_device = true;
                article.document_id = Some(document_id.to_owned());
                article.last_sync = Some(at);
                assert(stored_at(m, article_id@, article.provider, article.provider_id@));
                let r = self.upsert_article(&article);
                proof {
                    let existing = choose|existing: Option<Seq<char>>| #[trigger]
                        is_existing(m, article@, existing) && r@ == merged(m, article@, existing)
                            && articles_of(self.articles) == m.insert(r@.id, r@);
                    if let Some(id) = existing {
                        assert(m.contains_key(id) && m.contains_key(article_id@));
                        assert(id == article_id@);
                    }
                }
                Ok(r)
            },
        }
    }

    /// Articles of `provider` on the device whose read/archived status goes back to the provider when
    /// an account has `sync_read_status`.
    pub fn read_status_candidates(&self, provider: ReadLaterProvider) -> (r: Vec<Article>)
        ensures
            crate::readlater::article_views(r@) == those(
                in_table(self.articles),
                |a: crate::readlater::ArticleView| goes_back(a, provider),
            ),
    {
        let ghost all = in_table(self.articles);
        let ghost f = |a: crate::readlater::ArticleView| goes_back(a, provider);
        let mut out: Vec<Article> = Vec::new();
        let mut i: usize = 0;
        assert(all.take(0) =~= Seq::empty());
        assert(crate::readlater::article_views(out@) =~= Seq::empty());
        while i < self.articles.entries.len()
            invariant
                i <= self.articles.entries@.len(),
                all == in_table(self.articles),
                f == (|a: crate::readlater::ArticleView| goes_back(a, provider)),
                crate::readlater::article_views(out@) == those(all.take(i as int), f),
            decreases self.articles.entries@.len() - i,
        {
            let a = &self.articles.entries[i].1;
            let ghost was = crate::readlater::article_views(out@);
            assert(all.take(i as int + 1).drop_last() =~= all.take(i as int));
            assert(all.take(i as int + 1).last() == a@);
            if a.provider == provider && a.synced_to_device && (a.status == ReadStatus::Read
                || a.status == ReadStatus::Archived) {
                out.push(a.clone());
                assert(crate::readlater::article_views(out@) =~= was.push(a@));
            }
            i += 1;
        }
        assert(all.take(i as int) =~= all);
        out
    }

    /// The articles that a query asks for, in its order, and the page of them that it asks for.
    pub fn query_articles(&self, query: &ArticleQuery) -> (r: Vec<Article>)
        ensures
            crate::readlater::article_views(r@) == answer(*query, in_table(self.articles)),
    {
        let ghost all = in_table(self.articles);
        let ghost f = |a: crate::readlater::ArticleView| asked_for(*query, a);
        let mut found: Vec<Article> = Vec::new();
        let mut i: usize = 0;
        assert(all.take(0) =~= Seq::empty());
        assert(crate::readlater::article_views(found@) =~= Seq::empty());
        while i < self.articles.entries.len()
            invariant
                i <= self.articles.entries@.len(),
                all == in_table(self.articles),
                f == (|a: crate::readlater::ArticleView| asked_for(*query, a)),
                crate::readlater::article_views(found@) == those(all.take(i as int), f),
            decreases self.articles.entries@.len() - i,
        {
            let a = &self.articles.entries[i].1;
            let ghost was = crate::readlater::article_views(found@);
            assert(all.take(i as int + 1).drop_last() =~= all.take(i as int));
            assert(all.take(i as int + 1).last() == a@);
            if is_asked_for(query, a) {
                found.push(a.clone());
                assert(crate::readlater::article_views(found@) =~= was.push(a@));
            }
            i += 1;
        }
        assert(all.take(i as int) =~= all);
        let by = match query.sort_by {
            Some(b) => b,
            None => ArticleSortBy::AddedAt,
        };
        let sorted = sort_articles(&found, by);
        let ascending = match query.sort_order {
            Some(o) => o == SortOrder::Asc,
            None => false,
        };
        let offset: usize = match query.offset {
            Some(o) => o,
            None => 0,
        };
        let limit: usize = match query.limit {
            Some(l) => l,
            None => 50,
        };
        page(&sorted, ascending, offset, limit)
    }

    pub fn delete_article(&mut self, id: &str)
        requires
            old(self).wf(),
        ensures
            final(self).wf(),
            final(self).accounts == old(self).accounts,
            articles_of(final(self).articles) == articles_of(old(self).articles).remove(id@),
    {
        let ghost was = self.articles@;
        let ghost m = articles_of(self.articles);
        let _ = self.articles.remove(id);
        assert(articles_of(self.articles) =~= m.remove(id@));
    }
}

/// Whether the status of an article goes back to its provider.
pub open spec fn goes_back(a: crate::readlater::ArticleView, provider: ReadLaterProvider) -> bool {
    a.provider == provider && a.synced_to_device && (a.status == ReadStatus::Read || a.status
        == ReadStatus::Archived)
}

/// Those of `s` that satisfy `f`, in order.
pub open spec fn those(
    s: Seq<crate::readlater::ArticleView>,
    f: spec_fn(crate::readlater::ArticleView) -> bool,
) -> Seq<crate::readlater::ArticleView>
    decreases s.len(),
{
    if s.len() == 0 {
        Seq::empty()
    } else {
        let before = those(s.drop_last(), f);
        if f(s.last()) {
            before.push(s.last())
        } else {
            before
        }
    }
}

/// Whether a query asks for an article.
pub open spec fn asked_for(q: ArticleQuery, a: crate::readlater::ArticleView) -> bool {
    &&& q.provider matches Some(p) ==> a.provider == p
    &&& q.status matches Some(s) ==> a.status == s
    &&& q.favorite matches Some(f) ==> a.favorite == f
    &&& q.synced matches Some(s) ==> a.synced_to_device == s
    &&& q.tags matches Some(tags) ==> exists|i: int|
        0 <= i < tags@.len() && a.tags.contains((#[trigger] tags@[i])@)
    &&& q.search matches Some(s) ==> mentions(a, crate::text::lowercase(s@))
}

/// Whether an article's title or excerpt mentions something, in whatever case.
pub open spec fn mentions(a: crate::readlater::ArticleView, what: Seq<char>) -> bool {
    crate::text::holds(crate::text::lowercase(a.title), what) || (a.excerpt matches Some(e)
        && crate::text::holds(crate::text::lowercase(e), what))
}

/// What a query is answered: what it asks for, in order, from the offset on and up to the limit.
pub open spec fn answer(
    q: ArticleQuery,
    all: Seq<crate::readlater::ArticleView>,
) -> Seq<crate::readlater::ArticleView> {
    let by = match q.sort_by {
        Some(b) => b,
        None => ArticleSortBy::AddedAt,
    };
    let sorted = crate::readlater::order::sorted_by(
        those(all, |a: crate::readlater::ArticleView| asked_for(q, a)),
        crate::readlater::order::article_order(by),
    );
    let ascending = q.sort_order == Some(SortOrder::Asc);
    part(
        if ascending {
            sorted.reverse()
        } else {
            sorted
        },
        match q.offset {
            Some(o) => o as int,
            None => 0,
        },
        match q.limit {
            Some(l) => l as int,
            None => 50,
        },
    )
}

/// The part of `s` from `offset` on, of `limit` items at most.
pub open spec fn part<A>(s: Seq<A>, offset: int, limit: int) -> Seq<A> {
    if offset >= s.len() {
        Seq::empty()
    } else if limit < s.len() - offset {
        s.subrange(offset, offset + limit)
    } else {
        s.skip(offset)
    }
}

fn any_tag(wanted: &Vec<String>, tags: &Vec<String>) -> (r: bool)
    ensures
        r == exists|i: int|
            0 <= i < wanted@.len() && crate::text::texts(tags@).contains((#[trigger] wanted@[i])@),
{
    let mut i: usize = 0;
    while i < wanted.len()
        invariant
            i <= wanted@.len(),
            forall|k: int|
                0 <= k < i ==> !crate::text::texts(tags@).contains((#[trigger] wanted@[k])@),
        decreases wanted@.len() - i,
    {
        if crate::integrations::walk::member(tags, wanted[i].as_str()) {
            return true;
        }
        i += 1;
    }
    false
}

fn is_asked_for(q: &ArticleQuery, a: &Article) -> (r: bool)
    ensures
        r == asked_for(*q, a@),
{
    if let Some(p) = q.provider {
        if a.provider != p {
            return false;
        }
    }
    if let Some(s) = q.status {
        if a.status != s {
            return false;
        }
    }
    if let Some(f) = q.favorite {
        if a.favorite != f {
            return false;
        }
    }
    if let Some(s) = q.synced {
        if a.synced_to_device != s {
            return false;
        }
    }
    if let Some(tags) = &q.tags {
        if !any_tag(tags, &a.tags) {
            return false;
        }
    }
    if let Some(search) = &q.search {
        let what = to_lower(search.as_str());
        let in_title = contains(to_lower(a.title.as_str()).as_str(), what.as_str());
        let in_excerpt = match &a.excerpt {
            Some(e) => contains(to_lower(e.as_str()).as_str(), what.as_str()),
            None => false,
        };
        if !in_title && !in_excerpt {
            return false;
        }
    }
    true
}

fn page(sorted: &Vec<Article>, ascending: bool, offset: usize, limit: usize) -> (r: Vec<Article>)
    ensures
        ({
            let s = crate::readlater::article_views(sorted@);
            crate::readlater::article_views(r@) == part(
                if ascending {
                    s.reverse()
                } else {
                    s
                },
                offset as int,
                limit as int,
            )
        }),
{
    let ghost s = crate::readlater::article_views(sorted@);
    let ghost t = if ascending {
        s.reverse()
    } else {
        s
    };
    let n: usize = sorted.len();
    let mut out: Vec<Article> = Vec::new();
    if offset >= n {
        assert(crate::readlater::article_views(out@) =~= part(t, offset as int, limit as int));
        return out;
    }
    let end: usize = if limit < n - offset {
        offset + limit
    } else {
        n
    };
    let mut i: usize = offset;
    assert(crate::readlater::article_views(out@) =~= t.subrange(offset as int, i as int));
    while i < end
        invariant
            offset <= i <= end <= n,
            n == sorted@.len(),
            n == sorted.len(),
            s == crate::readlater::article_views(sorted@),
            t == (if ascending {
                s.reverse()
            } else {
                s
            }),
            crate::readlater::article_views(out@) == t.subrange(offset as int, i as int),
        decreases end - i,
    {
        let a = if ascending {
            &sorted[n - 1 - i]
        } else {
            &sorted[i]
        };
        assert(a@ == t[i as int]);
        let ghost was = crate::readlater::article_views(out@);
        out.push(a.clone());
        assert(crate::readlater::article_views(out@) =~= was.push(a@));
        assert(t.subrange(offset as int, i as int + 1) =~= was.push(t[i as int]));
        i += 1;
    }
    assert(t.subrange(offset as int, end as int) =~= part(t, offset as int, limit as int));
    out
}

/// Whether two texts are the same but for the case of ASCII letters.
pub open spec fn same_but_case(a: Seq<char>, b: Seq<char>) -> bool {
    a.map_values(|c: char| crate::text::ascii_lower(c)) == b.map_values(
        |c: char| crate::text::ascii_lower(c),
    )
}

/// Whether an article carries a tag, in whatever case.
pub open spec fn carries(a: crate::readlater::ArticleView, tag: Seq<char>) -> bool {
    exists|i: int| 0 <= i < a.tags.len() && same_but_case(#[trigger] a.tags[i], tag)
}

/// Whether an article is selected: it carries none of the tags that are ruled out and, where some are
/// asked for, one of them; and it is a favorite, or not archived, where that is asked.
pub open spec fn selected(
    filters: Seq<TagFilter>,
    favorites_only: bool,
    archived: bool,
    a: crate::readlater::ArticleView,
) -> bool {
    &&& forall|i: int|
        0 <= i < filters.len() && !(#[trigger] filters[i]).included ==> !carries(a, filters[i].tag@)
    &&& (exists|i: int| 0 <= i < filters.len() && (#[trigger] filters[i]).included) ==> exists|
        i: int,
    |
        0 <= i < filters.len() && (#[trigger] filters[i]).included && carries(a, filters[i].tag@)
    &&& favorites_only ==> a.favorite
    &&& !archived ==> a.status != ReadStatus::Archived
}

/// The articles that a sync takes: those selected, the latest added first, and `max` of them at most
/// (0 is no limit).
pub open spec fn selection(
    articles: Seq<crate::readlater::ArticleView>,
    filters: Seq<TagFilter>,
    favorites_only: bool,
    archived: bool,
    max: u32,
) -> Seq<crate::readlater::ArticleView> {
    let sorted = crate::readlater::order::sorted_by(
        those(
            articles,
            |a: crate::readlater::ArticleView| selected(filters, favorites_only, archived, a),
        ),
        crate::readlater::order::article_order(ArticleSortBy::AddedAt),
    );
    if 0 < max < sorted.len() {
        sorted.take(max as int)
    } else {
        sorted
    }
}

fn lower(c: char) -> (r: char)
    ensures
        r == crate::text::ascii_lower(c),
{
    if 'A' <= c && c <= 'Z' {
        ((c as u8) + 32) as char
    } else {
        c
    }
}

fn equal_but_case(a: &str, b: &str) -> (r: bool)
    ensures
        r == same_but_case(a@, b@),
{
    let x = to_chars(a);
    let y = to_chars(b);
    let ghost p = a@.map_values(|c: char| crate::text::ascii_lower(c));
    let ghost q = b@.map_values(|c: char| crate::text::ascii_lower(c));
    if x.len() != y.len() {
        assert(p.len() != q.len());
        return false;
    }
    let mut i: usize = 0;
    while i < x.len()
        invariant
            i <= x@.len(),
            x@.len() == y@.len(),
            x@ == a@,
            y@ == b@,
            p == a@.map_values(|c: char| crate::text::ascii_lower(c)),
            q == b@.map_values(|c: char| crate::text::ascii_lower(c)),
            forall|k: int| 0 <= k < i ==> p[k] == q[k],
        decreases x@.len() - i,
    {
        assert(p[i as int] == crate::text::ascii_lower(x@[i as int]));
        assert(q[i as int] == crate::text::ascii_lower(y@[i as int]));
        if lower(x[i]) != lower(y[i]) {
            return false;
        }
        i += 1;
    }
    assert(p =~= q);
    true
}

fn has_tag(a: &Article, tag: &str) -> (r: bool)
    ensures
        r == carries(a@, tag@),
{
    let ghost tags = a@.tags;
    let mut i: usize = 0;
    while i < a.tags.len()
        invariant
            i <= a.tags@.len(),
            tags == a@.tags,
            forall|k: int| 0 <= k < i ==> !same_but_case(#[trigger] tags[k], tag@),
        decreases a.tags@.len() - i,
    {
        assert(tags[i as int] == a.tags@[i as int]@);
        if equal_but_case(a.tags[i].as_str(), tag) {
            return true;
        }
        i += 1;
    }
    false
}

fn is_selected(a: &Article, settings: &SyncSettings) -> (r: bool)
    ensures
        r == selected(
            settings.tag_filters@,
            settings.include_favorites_only,
            settings.include_archived,
            a@,
        ),
{
    let ghost filters = settings.tag_filters@;
    let mut some_included = false;
    let mut carries_included = false;
    let mut i: usize = 0;
    while i < settings.tag_filters.len()
        invariant
            i <= settings.tag_filters@.len(),
            filters == settings.tag_filters@,
            forall|k: int|
                0 <= k < i && !(#[trigger] filters[k]).included ==> !carries(a@, filters[k].tag@),
            some_included == exists|k: int| 0 <= k < i && (#[trigger] filters[k]).included,
            carries_included == exists|k: int|
                0 <= k < i && (#[trigger] filters[k]).included && carries(a@, filters[k].tag@),
        decreases settings.tag_filters@.len() - i,
    {
        let filter = &settings.tag_filters[i];
        let has = has_tag(a, filter.tag.as_str());
        if filter.included {
            some_included = true;
            assert(filters[i as int].included);
            if has {
                carries_included = true;
                assert(carries(a@, filters[i as int].tag@));
            }
        } else if has {
            assert(!filters[i as int].included && carries(a@, filters[i as int].tag@));
            return false;
        }
        i += 1;
    }
    if some_included && !carries_included {
        return false;
    }
    if settings.include_favorites_only && !a.favorite {
        return false;
    }
    if !settings.include_archived && a.status == ReadStatus::Archived {
        return false;
    }
    true
}

/// Apply the account's sync filters (tags, favorites, archived) and cap the result at `max_articles`
/// (0 = unlimited), keeping the most recently added articles. The cap is per sync: articles it drops
/// are older than everything kept and are not revisited later. Tag filters: an article must carry
/// none of the exclude tags and, when any include filters exist, at least one include tag.
pub fn select_articles_for_sync(articles: &Vec<Article>, settings: &SyncSettings) -> (r: Vec<
    Article,
>)
    ensures
        crate::readlater::article_views(r@) == selection(
            crate::readlater::article_views(articles@),
            settings.tag_filters@,
            settings.include_favorites_only,
            settings.include_archived,
            settings.max_articles,
        ),
{
    let ghost all = crate::readlater::article_views(articles@);
    let ghost f = |a: crate::readlater::ArticleView|
        selected(
            settings.tag_filters@,
            settings.include_favorites_only,
            settings.include_archived,
            a,
        );
    let mut found: Vec<Article> = Vec::new();
    let mut i: usize = 0;
    assert(all.take(0) =~= Seq::empty());
    assert(crate::readlater::article_views(found@) =~= Seq::empty());
    while i < articles.len()
        invariant
            i <= articles@.len(),
            all == crate::readlater::article_views(articles@),
            f == (|a: crate::readlater::ArticleView|
                selected(
                    settings.tag_filters@,
                    settings.include_favorites_only,
                    settings.include_archived,
                    a,
                )),
            crate::readlater::article_views(found@) == those(all.take(i as int), f),
        decreases articles@.len() - i,
    {
        let a = &articles[i];
        let ghost was = crate::readlater::article_views(found@);
        assert(all.take(i as int + 1).drop_last() =~= all.take(i as int));
        assert(all.take(i as int + 1).last() == a@);
        if is_selected(a, settings) {
            found.push(a.clone());
            assert(crate::readlater::article_views(found@) =~= was.push(a@));
        }
        i += 1;
    }
    assert(all.take(i as int) =~= all);
    let mut sorted = sort_articles(&found, ArticleSortBy::AddedAt);
    let ghost s = crate::readlater::article_views(sorted@);
    if settings.max_articles > 0 && sorted.len() > settings.max_articles as usize {
        sorted.truncate(settings.max_articles as usize);
        assert(crate::readlater::article_views(sorted@) =~= s.take(settings.max_articles as int));
    }
    sorted
}

/// The cap keeps the most recently added articles: of all that are selected, none that is dropped
/// was added later than one that is kept.
pub proof fn law_the_cap_keeps_the_newest(
    articles: Seq<crate::readlater::ArticleView>,
    filters: Seq<TagFilter>,
    favorites_only: bool,
    archived: bool,
    max: u32,
    kept: int,
    dropped: int,
)
    requires
        0 <= kept < selection(articles, filters, favorites_only, archived, max).len(),
        selection(articles, filters, favorites_only, archived, max).len() <= dropped < selection(
            articles,
            filters,
            favorites_only,
            archived,
            0,
        ).len(),
    ensures
        !selection(articles, filters, favorites_only, archived, 0)[dropped].added_at.later(
            selection(articles, filters, favorites_only, archived, max)[kept].added_at,
        ),
{
    let order = crate::readlater::order::article_order(ArticleSortBy::AddedAt);
    let s = those(
        articles,
        |a: crate::readlater::ArticleView| selected(filters, favorites_only, archived, a),
    );
    crate::readlater::order::law_articles_are_ordered(ArticleSortBy::AddedAt);
    crate::readlater::order::law_sorting(s, order);
    let all = crate::readlater::order::sorted_by(s, order);
    assert(!order(all[dropped], all[kept]));
}

/// A sync takes no more articles than the cap, and none but those that are selected.
pub proof fn law_selection_is_bounded(
    articles: Seq<crate::readlater::ArticleView>,
    filters: Seq<TagFilter>,
    favorites_only: bool,
    archived: bool,
    max: u32,
)
    ensures
        max > 0 ==> selection(articles, filters, favorites_only, archived, max).len() <= max,
        forall|i: int|
            0 <= i < selection(articles, filters, favorites_only, archived, max).len() ==> selected(
                filters,
                favorites_only,
                archived,
                #[trigger] selection(articles, filters, favorites_only, archived, max)[i],
            ),
{
    broadcast use vstd::seq_lib::group_to_multiset_ensures;

    let order = crate::readlater::order::article_order(ArticleSortBy::AddedAt);
    let f = |a: crate::readlater::ArticleView| selected(filters, favorites_only, archived, a);
    let s = those(articles, f);
    crate::readlater::order::law_articles_are_ordered(ArticleSortBy::AddedAt);
    crate::readlater::order::law_sorting(s, order);
    let all = crate::readlater::order::sorted_by(s, order);
    let sel = selection(articles, filters, favorites_only, archived, max);
    assert forall|i: int| 0 <= i < sel.len() implies selected(
        filters,
        favorites_only,
        archived,
        #[trigger] sel[i],
    ) by {
        let x = all[i];
        assert(sel[i] == x);
        assert(all.contains(x));
        all.to_multiset_ensures();
        s.to_multiset_ensures();
        assert(all.to_multiset().count(x) > 0);
        assert(s.contains(x));
        lemma_those_satisfy(articles, f, x);
    }
}

proof fn lemma_those_satisfy(
    s: Seq<crate::readlater::ArticleView>,
    f: spec_fn(crate::readlater::ArticleView) -> bool,
    x: crate::readlater::ArticleView,
)
    requires
        those(s, f).contains(x),
    ensures
        f(x),
    decreases s.len(),
{
    if s.len() > 0 {
        let before = those(s.drop_last(), f);
        let i = choose|i: int| 0 <= i < those(s, f).len() && those(s, f)[i] == x;
        if f(s.last()) && i == before.len() {
        } else {
            assert(before[i] == x);
            assert(before.contains(x));
            lemma_those_satisfy(s.drop_last(), f, x);
        }
    }
}

/// Picking keeps what satisfies the test, in order, and nothing else.
pub proof fn law_picking(
    s: Seq<crate::readlater::ArticleView>,
    f: spec_fn(crate::readlater::ArticleView) -> bool,
    a: crate::readlater::ArticleView,
)
    ensures
        those(Seq::empty(), f).len() == 0,
        f(a) ==> those(s.push(a), f) == those(s, f).push(a),
        !f(a) ==> those(s.push(a), f) == those(s, f),
        those(s, f).contains(a) <==> s.contains(a) && f(a),
{
    assert(s.push(a).drop_last() =~= s);
    lemma_those_are(s, f, a);
}

proof fn lemma_those_are(
    s: Seq<crate::readlater::ArticleView>,
    f: spec_fn(crate::readlater::ArticleView) -> bool,
    x: crate::readlater::ArticleView,
)
    ensures
        those(s, f).contains(x) <==> s.contains(x) && f(x),
    decreases s.len(),
{
    if s.len() > 0 {
        let rest = s.drop_last();
        lemma_those_are(rest, f, x);
        let before = those(rest, f);
        let now = those(s, f);
        assert(s[s.len() - 1] == s.last());
        if before.contains(x) {
            let i = choose|i: int| 0 <= i < before.len() && before[i] == x;
            assert(now[i] == x);
            let j = choose|j: int| 0 <= j < rest.len() && rest[j] == x;
            assert(s[j] == x);
        }
        if f(s.last()) {
            assert(now[now.len() - 1] == s.last());
        }
        if now.contains(x) {
            let i = choose|i: int| 0 <= i < now.len() && now[i] == x;
            if i < before.len() {
                assert(before[i] == x);
                assert(before.contains(x));
            }
        }
        if s.contains(x) && x != s.last() {
            let i = choose|i: int| 0 <= i < s.len() && s[i] == x;
            assert(rest[i] == x);
        }
    }
}

/// A page of a list starts at its offset and is as long as its limit, or shorter where the list
/// ends.
pub proof fn law_a_page_starts_at_its_offset<A>(s: Seq<A>, offset: int, limit: int)
    requires
        0 <= offset,
        0 <= limit,
    ensures
        offset >= s.len() ==> part(s, offset, limit).len() == 0,
        offset < s.len() && limit <= s.len() - offset ==> part(s, offset, limit).len() == limit,
        offset < s.len() && limit > s.len() - offset ==> part(s, offset, limit).len() == s.len()
            - offset,
        forall|i: int|
            0 <= i < part(s, offset, limit).len() ==> #[trigger] part(s, offset, limit)[i] == s[offset
                + i],
{
}

/// The answer to a query is a page of all that was asked for, newest first unless another order
/// was asked for: nothing else is in it, fifty at most unless another limit was given, and where
/// all fit, all are in it.
pub proof fn law_an_answer_is_a_page_of_what_was_asked_for(
    q: ArticleQuery,
    all: Seq<crate::readlater::ArticleView>,
    a: crate::readlater::ArticleView,
)
    ensures
        answer(q, all).contains(a) ==> all.contains(a) && asked_for(q, a),
        q.limit matches Some(l) ==> answer(q, all).len() <= l,
        q.limit is None ==> answer(q, all).len() <= 50,
        q.offset is None && (match q.limit {
            Some(l) => all.len() <= l,
            None => all.len() <= 50,
        }) ==> (all.contains(a) && asked_for(q, a) ==> answer(q, all).contains(a)),
        q.sort_by is None && q.sort_order != Some(SortOrder::Asc) ==> forall|i: int, j: int|
            0 <= i < j < answer(q, all).len() ==> !(#[trigger] answer(q, all)[j]).added_at.later(
                (#[trigger] answer(q, all)[i]).added_at,
            ),
        q.sort_by is None && q.sort_order == Some(SortOrder::Asc) ==> forall|i: int, j: int|
            0 <= i < j < answer(q, all).len() ==> !(#[trigger] answer(q, all)[i]).added_at.later(
                (#[trigger] answer(q, all)[j]).added_at,
            ),
{
    let by = match q.sort_by {
        Some(b) => b,
        None => ArticleSortBy::AddedAt,
    };
    let f = |a: crate::readlater::ArticleView| asked_for(q, a);
    let picked = those(all, f);
    let order = crate::readlater::order::article_order(by);
    crate::readlater::order::law_articles_are_ordered(by);
    crate::readlater::order::law_sorting(picked, order);
    let sorted = crate::readlater::order::sorted_by(picked, order);
    let turned = if q.sort_order == Some(SortOrder::Asc) {
        sorted.reverse()
    } else {
        sorted
    };
    let offset = match q.offset {
        Some(o) => o as int,
        None => 0,
    };
    let limit = match q.limit {
        Some(l) => l as int,
        None => 50,
    };
    let r = answer(q, all);
    assert(r == part(turned, offset, limit));
    law_a_page_starts_at_its_offset(turned, offset, limit);
    lemma_those_are(all, f, a);
    lemma_those_len(all, f);
    lemma_same_members(picked, sorted, a);
    lemma_same_members_reversed(sorted, a);
    if r.contains(a) {
        let i = choose|i: int| 0 <= i < r.len() && r[i] == a;
        assert(turned[offset + i] == a);
        assert(turned.contains(a));
    }
    if offset == 0 && limit >= all.len() && turned.contains(a) {
        let i = choose|i: int| 0 <= i < turned.len() && turned[i] == a;
        assert(r[i] == a);
    }
    if q.sort_by is None && q.sort_order != Some(SortOrder::Asc) {
        assert forall|i: int, j: int| 0 <= i < j < r.len() implies !(
        #[trigger] r[j]).added_at.later((#[trigger] r[i]).added_at) by {
            assert(!order(sorted[offset + j], sorted[offset + i]));
        }
    }
    if q.sort_by is None && q.sort_order == Some(SortOrder::Asc) {
        assert forall|i: int, j: int| 0 <= i < j < r.len() implies !(
        #[trigger] r[i]).added_at.later((#[trigger] r[j]).added_at) by {
            let n = sorted.len();
            assert(turned[offset + i] == sorted[n - 1 - (offset + i)]);
            assert(turned[offset + j] == sorted[n - 1 - (offset + j)]);
            assert(!order(sorted[n - 1 - (offset + i)], sorted[n - 1 - (offset + j)]));
        }
    }
}

proof fn lemma_those_len(
    s: Seq<crate::readlater::ArticleView>,
    f: spec_fn(crate::readlater::ArticleView) -> bool,
)
    ensures
        those(s, f).len() <= s.len(),
    decreases s.len(),
{
    if s.len() > 0 {
        lemma_those_len(s.drop_last(), f);
    }
}

proof fn lemma_same_members(
    a: Seq<crate::readlater::ArticleView>,
    b: Seq<crate::readlater::ArticleView>,
    x: crate::readlater::ArticleView,
)
    requires
        a.to_multiset() == b.to_multiset(),
    ensures
        a.contains(x) <==> b.contains(x),
{
    broadcast use vstd::seq_lib::group_to_multiset_ensures;

    a.to_multiset_ensures();
    b.to_multiset_ensures();
    assert(a.contains(x) <==> a.to_multiset().count(x) > 0);
    assert(b.contains(x) <==> b.to_multiset().count(x) > 0);
}

proof fn lemma_same_members_reversed(
    s: Seq<crate::readlater::ArticleView>,
    x: crate::readlater::ArticleView,
)
    ensures
        s.reverse().contains(x) <==> s.contains(x),
{
    let r = s.reverse();
    if s.contains(x) {
        let i = choose|i: int| 0 <= i < s.len() && s[i] == x;
        assert(r[s.len() - 1 - i] == x);
    }
    if r.contains(x) {
        let i = choose|i: int| 0 <= i < r.len() && r[i] == x;
        assert(s[s.len() - 1 - i] == x);
    }
}

/// What is asked for has to be as the query says in every respect that it names, and in no other.
pub proof fn law_what_is_asked_for(q: ArticleQuery, a: crate::readlater::ArticleView)
    ensures
        asked_for(q, a) <==> {
            &&& q.provider is None || q.provider == Some(a.provider)
            &&& q.status is None || q.status == Some(a.status)
            &&& q.favorite is None || q.favorite == Some(a.favorite)
            &&& q.synced is None || q.synced == Some(a.synced_to_device)
            &&& q.tags is None || exists|i: int|
                0 <= i < q.tags->0@.len() && a.tags.contains((#[trigger] q.tags->0@[i])@)
            &&& q.search is None || crate::text::holds(
                crate::text::lowercase(a.title),
                crate::text::lowercase(q.search->0@),
            ) || (a.excerpt is Some && crate::text::holds(
                crate::text::lowercase(a.excerpt->0),
                crate::text::lowercase(q.search->0@),
            ))
        },
{
}

/// A sync takes all that is selected where there is no cap or it is not reached, newest first.
pub proof fn law_all_that_is_selected_is_taken(
    articles: Seq<crate::readlater::ArticleView>,
    filters: Seq<TagFilter>,
    favorites_only: bool,
    archived: bool,
    max: u32,
    a: crate::readlater::ArticleView,
)
    requires
        max == 0 || articles.len() <= max,
        articles.contains(a),
        selected(filters, favorites_only, archived, a),
    ensures
        selection(articles, filters, favorites_only, archived, max).contains(a),
{
    let order = crate::readlater::order::article_order(ArticleSortBy::AddedAt);
    let f = |a: crate::readlater::ArticleView| selected(filters, favorites_only, archived, a);
    let s = those(articles, f);
    crate::readlater::order::law_articles_are_ordered(ArticleSortBy::AddedAt);
    crate::readlater::order::law_sorting(s, order);
    lemma_those_are(articles, f, a);
    lemma_those_len(articles, f);
    lemma_same_members(s, crate::readlater::order::sorted_by(s, order), a);
}

/// An article is selected where it carries no tag that is ruled out, carries one of those that are
/// asked for if any are, is a favorite if only those are wanted, and is not archived unless those
/// are wanted too.
pub proof fn law_what_is_selected(
    tag: TagFilter,
    favorites_only: bool,
    archived: bool,
    a: crate::readlater::ArticleView,
)
    ensures
        selected(Seq::empty(), favorites_only, archived, a) <==> (favorites_only ==> a.favorite) && (
        archived || a.status != ReadStatus::Archived),
        selected(seq![tag], false, true, a) <==> (tag.included <==> exists|i: int|
            0 <= i < a.tags.len() && same_but_case(#[trigger] a.tags[i], tag.tag@)),
{
    let one = seq![tag];
    assert(one[0] == tag);
    assert(carries(a, tag.tag@) == exists|i: int|
        0 <= i < a.tags.len() && same_but_case(#[trigger] a.tags[i], tag.tag@));
    if selected(one, false, true, a) {
        if !tag.included {
            assert(!carries(a, one[0].tag@));
        } else {
            assert(one[0].included);
            let i = choose|i: int|
                0 <= i < one.len() && (#[trigger] one[i]).included && carries(a, one[i].tag@);
            assert(one[i] == tag);
        }
    }
    if tag.included == carries(a, tag.tag@) {
        assert forall|i: int| 0 <= i < one.len() && !(#[trigger] one[i]).included implies !carries(
            a,
            one[i].tag@,
        ) by {}
        if tag.included {
            assert(one[0].included && carries(a, one[0].tag@));
        }
        assert(selected(one, false, true, a));
    }
}

/// Tags are the same where they differ in nothing but the case of plain letters.
pub proof fn law_tags_are_the_same_in_any_case(a: Seq<char>, b: Seq<char>)
    ensures
        same_but_case(a, a),
        same_but_case(a, b) ==> a.len() == b.len() && same_but_case(b, a),
        same_but_case(a, b) <==> a.len() == b.len() && forall|i: int|
            0 <= i < a.len() ==> crate::text::ascii_lower(#[trigger] a[i])
                == crate::text::ascii_lower(b[i]),
{
    let x = a.map_values(|c: char| crate::text::ascii_lower(c));
    let y = b.map_values(|c: char| crate::text::ascii_lower(c));
    if same_but_case(a, b) {
        assert(x == y);
        assert forall|i: int| 0 <= i < a.len() implies crate::text::ascii_lower(#[trigger] a[i])
            == crate::text::ascii_lower(b[i]) by {
            assert(x[i] == y[i]);
        }
    }
    if a.len() == b.len() && forall|i: int|
        0 <= i < a.len() ==> crate::text::ascii_lower(#[trigger] a[i]) == crate::text::ascii_lower(
            b[i],
        ) {
        assert(x =~= y);
    }
}

/// What a provider tells of an article replaces what was stored of it, but that it keeps the id it
/// was stored under and what the device has of it.
pub proof fn law_an_answer_replaces_what_was_stored(
    m: Articles,
    a: crate::readlater::ArticleView,
    id: Seq<char>,
)
    ensures
        merged(m, a, None) == a,
        merged(m, a, Some(a.id)) == a,
        merged(m, a, Some(id)).id == id,
        merged(m, a, Some(id)).title == a.title,
        merged(m, a, Some(id)).url == a.url,
        merged(m, a, Some(id)).status == a.status,
        merged(m, a, Some(id)).favorite == a.favorite,
        merged(m, a, Some(id)).tags == a.tags,
        merged(m, a, Some(id)).updated_at == a.updated_at,
        merged(m, a, Some(id)).provider == a.provider,
        merged(m, a, Some(id)).provider_id == a.provider_id,
        a.document_id is Some ==> merged(m, a, Some(id)).document_id == a.document_id,
        a.id != id ==> {
            &&& a.document_id is None ==> merged(m, a, Some(id)).document_id == m[id].document_id
            &&& merged(m, a, Some(id)).synced_to_device <==> a.synced_to_device
                || m[id].synced_to_device
        },
{
}

/// What goes back to a provider is that one of its own articles on the device was read.
pub proof fn law_what_goes_back(
    a: crate::readlater::ArticleView,
    provider: ReadLaterProvider,
)
    ensures
        goes_back(a, provider) <==> a.provider == provider && a.synced_to_device && (a.status
            is Read || a.status is Archived),
{
}

} // verus!
