//! Articles and the in-memory article index: the fetched article maps, the
//! derived searchable index sorted by title, filtering by search criteria,
//! and pagination.

use crate::criteria::{CriteriaModel, SearchCriteria};
use crate::site::Site;
use crate::text::{
    chars_le, contains_chars, is_substr, lex_le, lower_of, lowercase_str, to_chars,
};
use vstd::prelude::*;
use vstd::string::*;

verus! {

/// An article's metadata as fetched from its `meta.json`.
#[derive(Debug)]
pub struct Article {
    pub title: String,
    pub description: String,
    pub category: Option<String>,
    pub tags: Vec<String>,
    pub date: Option<String>,
}

/// The mathematical model of an [`Article`]: every field as plain sequences.
pub struct ArticleModel {
    pub title: Seq<char>,
    pub description: Seq<char>,
    pub category: Option<Seq<char>>,
    pub tags: Seq<Seq<char>>,
    pub date: Option<Seq<char>>,
}

impl View for Article {
    type V = ArticleModel;

    open spec fn view(&self) -> ArticleModel {
        ArticleModel {
            title: self.title@,
            description: self.description@,
            category: self.category.deep_view(),
            tags: self.tags.deep_view(),
            date: self.date.deep_view(),
        }
    }
}

/// Copies an optional string.
fn clone_opt_string(o: &Option<String>) -> (r: Option<String>)
    ensures
        r == *o,
{
    match o {
        Some(s) => Some(s.clone()),
        None => None,
    }
}

impl Clone for Article {
    /// An article clones to an article with the same model.
    fn clone(&self) -> (r: Self)
        ensures
            r@ == self@,
    {
        let r = Article {
            title: self.title.clone(),
            description: self.description.clone(),
            category: clone_opt_string(&self.category),
            tags: self.tags.clone(),
            date: clone_opt_string(&self.date),
        };
        proof {
            assert(r.tags@ =~= self.tags@);
            assert(r.tags.deep_view() =~= self.tags.deep_view());
        }
        r
    }
}

/// An article bound to its id, the unit the search index works on.
#[derive(Debug)]
pub struct SearchableArticle {
    pub id: String,
    pub article: Article,
}

/// The mathematical model of a [`SearchableArticle`].
pub struct SearchableArticleModel {
    pub id: Seq<char>,
    pub article: ArticleModel,
}

impl View for SearchableArticle {
    type V = SearchableArticleModel;

    open spec fn view(&self) -> SearchableArticleModel {
        SearchableArticleModel { id: self.id@, article: self.article@ }
    }
}

impl Clone for SearchableArticle {
    /// A searchable article clones to one with the same model.
    fn clone(&self) -> (r: Self)
        ensures
            r@ == self@,
    {
        SearchableArticle { id: self.id.clone(), article: self.article.clone() }
    }
}

impl PartialEq for SearchableArticle {
    /// Equality is id-based only: two instances with the same id stand for
    /// the same article whatever their content.
    fn eq(&self, other: &Self) -> (r: bool) {
        self.id == other.id
    }
}

impl vstd::std_specs::cmp::PartialEqSpecImpl for SearchableArticle {
    open spec fn obeys_eq_spec() -> bool {
        true
    }

    open spec fn eq_spec(&self, other: &Self) -> bool {
        self.id@ == other.id@
    }
}

/// The model sequence of a sequence of searchable articles.
pub open spec fn entries_view(s: Seq<SearchableArticle>) -> Seq<SearchableArticleModel> {
    s.map_values(|a: SearchableArticle| a@)
}

/// All ids in the sequence are distinct, the invariant of a map keyed by id.
pub open spec fn unique_ids(s: Seq<SearchableArticle>) -> bool {
    forall|i: int, j: int| 0 <= i < j < s.len() ==> s[i].id@ != s[j].id@
}

/// The full set of known articles: the listable (searchable) ones and the
/// lookup-only special ones, each keyed by distinct ids.
#[derive(Debug)]
pub struct ArticleIndex {
    pub common: Vec<SearchableArticle>,
    pub special: Vec<SearchableArticle>,
}

impl ArticleIndex {
    /// Ids are unique within each group.
    pub open spec fn well_formed(&self) -> bool {
        unique_ids(self.common@) && unique_ids(self.special@)
    }

    /// Builds an index from the two entry lists.
    pub fn new(common: Vec<SearchableArticle>, special: Vec<SearchableArticle>) -> (idx:
        ArticleIndex)
        requires
            unique_ids(common@),
            unique_ids(special@),
        ensures
            idx.common == common,
            idx.special == special,
            idx.well_formed(),
    {
        ArticleIndex { common, special }
    }
}

/// Declares `web_time::Instant` for use in fields; its values stay opaque.
#[verifier::external_type_specification]
#[verifier::external_body]
pub struct ExInstant(web_time::Instant);

/// Relies on `web_time::Instant::now`: yields an opaque creation timestamp.
/// Nothing is assumed about the value.
#[verifier::external_body]
fn instant_now() -> web_time::Instant {
    web_time::Instant::now()
}

/// The read-only searchable view derived from the listable articles: the
/// title-sorted article list, the distinct categories and tags, and a
/// creation timestamp used only for instance identity.
#[derive(Debug)]
pub struct ArticleSearchIndex {
    pub articles: Vec<SearchableArticle>,
    pub categories: Vec<String>,
    pub tags: Vec<String>,
    pub create_time: web_time::Instant,
}

impl PartialEq for ArticleSearchIndex {
    /// Relies on `Instant` equality, a derived comparison of its inner
    /// duration: two index snapshots compare equal exactly when they share a
    /// creation instant; content is never compared.
    #[verifier::external_body]
    fn eq(&self, other: &Self) -> (r: bool)
        ensures
            r == (self.create_time == other.create_time),
    {
        self.create_time == other.create_time
    }
}

/// Order of two articles in the index: by title, lexicographically.
pub open spec fn title_le(a: SearchableArticleModel, b: SearchableArticleModel) -> bool {
    lex_le(a.article.title, b.article.title)
}

/// The articles stand in ascending title order.
pub open spec fn sorted_by_title(s: Seq<SearchableArticleModel>) -> bool {
    forall|i: int, j: int| 0 <= i < j < s.len() ==> title_le(s[i], s[j])
}

/// `c` is the category of some entry.
pub open spec fn is_category_of(entries: Seq<SearchableArticleModel>, c: Seq<char>) -> bool {
    exists|i: int| 0 <= i < entries.len() && entries[i].article.category == Some(c)
}

/// `c` is a tag of some entry.
pub open spec fn is_tag_of(entries: Seq<SearchableArticleModel>, c: Seq<char>) -> bool {
    exists|i: int, j: int|
        0 <= i < entries.len() && 0 <= j < entries[i].article.tags.len()
            && entries[i].article.tags[j] == c
}

/// `c` is spelled by some string of the sequence.
pub open spec fn str_in(v: Seq<String>, c: Seq<char>) -> bool {
    exists|k: int| 0 <= k < v.len() && v[k]@ == c
}

/// No two strings of the sequence are spelled alike.
pub open spec fn distinct_strs(v: Seq<String>) -> bool {
    forall|i: int, j: int| 0 <= i < j < v.len() ==> v[i]@ != v[j]@
}

/// Selects the articles bearing one given title.
pub open spec fn with_title(t: Seq<char>) -> spec_fn(SearchableArticleModel) -> bool {
    |m: SearchableArticleModel| m.article.title == t
}

/// A sequence filtered by a predicate that holds nowhere is empty.
proof fn lemma_filter_none<A>(s: Seq<A>, pred: spec_fn(A) -> bool)
    requires
        forall|i: int| 0 <= i < s.len() ==> !pred(#[trigger] s[i]),
    ensures
        s.filter(pred) == Seq::<A>::empty(),
    decreases s.len(),
{
    reveal(Seq::filter);
    if s.len() == 0 {
        assert(s.filter(pred) =~= Seq::<A>::empty());
    } else {
        lemma_filter_none(s.drop_last(), pred);
        assert(!pred(s.last()));
    }
}

/// Inserting into a sequence adds the element to its multiset.
proof fn lemma_insert_to_multiset<A>(s: Seq<A>, i: int, x: A)
    requires
        0 <= i <= s.len(),
    ensures
        s.insert(i, x).to_multiset() == s.to_multiset().insert(x),
{
    broadcast use vstd::seq_lib::group_to_multiset_ensures;

    let l = s.take(i);
    let r = s.skip(i);
    assert(s =~= l + r);
    assert(s.insert(i, x) =~= l.push(x) + r);
    vstd::seq_lib::lemma_multiset_commutative(l.push(x), r);
    vstd::seq_lib::lemma_multiset_commutative(l, r);
    assert(l.push(x).to_multiset() =~= l.to_multiset().insert(x));
    assert(l.to_multiset().insert(x).add(r.to_multiset()) =~= l.to_multiset().add(
        r.to_multiset(),
    ).insert(x));
}

/// Appends the string unless an equally-spelled one is already present.
fn push_if_absent(v: &mut Vec<String>, s: &String)
    ensures
        forall|c: Seq<char>|
            #[trigger] str_in(final (v)@, c) == (str_in(old(v)@, c) || c == s@),
        distinct_strs(old(v)@) ==> distinct_strs(final (v)@),
{
    let n = v.len();
    let mut k: usize = 0;
    while k < n
        invariant
            k <= n,
            n == v@.len(),
            forall|t: int| 0 <= t < k ==> v@[t]@ != s@,
        decreases n - k,
    {
        if v[k] == *s {
            proof {
                assert forall|c: Seq<char>| #[trigger]
                    str_in(v@, c) == (str_in(v@, c) || c == s@) by {
                    if c == s@ {
                        assert(v@[k as int]@ == c);
                        assert(str_in(v@, c));
                    }
                }
            }
            return ;
        }
        k = k + 1;
    }
    let ghost oldv = v@;
    v.push(s.clone());
    proof {
        assert(v@.drop_last() =~= oldv);
        assert forall|c: Seq<char>| #[trigger]
            str_in(v@, c) == (str_in(oldv, c) || c == s@) by {
            if str_in(v@, c) {
                let t = choose|t: int| 0 <= t < v@.len() && v@[t]@ == c;
                if t < oldv.len() {
                    assert(str_in(oldv, c));
                } else {
                    assert(v@[t]@ == s@);
                }
            }
            if str_in(oldv, c) {
                let t = choose|t: int| 0 <= t < oldv.len() && oldv[t]@ == c;
                assert(v@[t]@ == c);
                assert(str_in(v@, c));
            }
            if c == s@ {
                assert(v@[v@.len() - 1]@ == c);
                assert(str_in(v@, c));
            }
        }
        if distinct_strs(oldv) {
            assert forall|i: int, j: int| 0 <= i < j < v@.len() implies v@[i]@ != v@[j]@ by {
                if j < v@.len() - 1 {
                    assert(oldv[i]@ != oldv[j]@);
                }
            }
        }
    }
}

/// Position before the first entry whose title exceeds `title`, inside a
/// title-sorted vector.
fn lower_insert_pos(v: &Vec<SearchableArticle>, title: &Vec<char>) -> (pos: usize)
    ensures
        pos <= v@.len(),
        forall|k: int| 0 <= k < pos ==> lex_le(v@[k]@.article.title, title@),
        pos < v@.len() ==> !lex_le(v@[pos as int]@.article.title, title@),
{
    let n = v.len();
    let mut pos: usize = 0;
    while pos < n
        invariant
            pos <= n,
            n == v@.len(),
            forall|k: int| 0 <= k < pos ==> lex_le(v@[k]@.article.title, title@),
        decreases n - pos,
    {
        let t = to_chars(v[pos].article.title.as_str());
        if !chars_le(&t, title) {
            return pos;
        }
        pos = pos + 1;
    }
    pos
}

/// Inserts an article into a title-sorted vector, keeping it sorted.
fn insert_by_title(v: &mut Vec<SearchableArticle>, a: SearchableArticle)
    requires
        sorted_by_title(entries_view(old(v)@)),
    ensures
        sorted_by_title(entries_view(final (v)@)),
        entries_view(final (v)@).to_multiset() == entries_view(old(v)@).to_multiset().insert(a@),
        forall|t: Seq<char>|
            #[trigger] entries_view(final (v)@).filter(with_title(t)) == entries_view(
                old(v)@,
            ).filter(with_title(t)) + (if a@.article.title == t {
                seq![a@]
            } else {
                Seq::<SearchableArticleModel>::empty()
            }),
{
    let title = to_chars(a.article.title.as_str());
    let pos = lower_insert_pos(v, &title);
    let ghost oldm = entries_view(v@);
    v.insert(pos, a);
    proof {
        assert(entries_view(v@) =~= oldm.insert(pos as int, a@));
        lemma_insert_to_multiset(oldm, pos as int, a@);
        let m = entries_view(v@);
        assert forall|i: int, j: int| 0 <= i < j < m.len() implies title_le(m[i], m[j]) by {
            if j < pos {
                assert(title_le(oldm[i], oldm[j]));
            } else if i < pos && j == pos {
                assert(lex_le(oldm[i].article.title, a@.article.title));
            } else if i < pos && j > pos {
                assert(title_le(oldm[i], oldm[j - 1]));
            } else if i == pos && j > pos {
                if pos < oldm.len() {
                    crate::text::lemma_lex_le_total(a@.article.title, oldm[pos as int].article.title);
                    assert(lex_le(a@.article.title, oldm[pos as int].article.title));
                    if j - 1 > pos {
                        assert(title_le(oldm[pos as int], oldm[j - 1]));
                        crate::text::lemma_lex_le_trans(
                            a@.article.title,
                            oldm[pos as int].article.title,
                            oldm[j - 1].article.title,
                        );
                    }
                }
            } else {
                assert(title_le(oldm[i - 1], oldm[j - 1]));
            }
        }
        broadcast use vstd::seq_lib::group_seq_lib_default;

        let at = a@.article.title;
        assert forall|k: int| pos <= k < oldm.len() implies !lex_le(
            #[trigger] oldm[k].article.title,
            at,
        ) by {
            if lex_le(oldm[k].article.title, at) {
                if k > pos {
                    assert(title_le(oldm[pos as int], oldm[k]));
                    crate::text::lemma_lex_le_trans(
                        oldm[pos as int].article.title,
                        oldm[k].article.title,
                        at,
                    );
                }
                assert(lex_le(oldm[pos as int].article.title, at));
            }
        }
        let l = oldm.take(pos as int);
        let r = oldm.skip(pos as int);
        assert(oldm =~= l + r);
        assert(m =~= l + (seq![a@] + r));
        assert forall|t: Seq<char>| #[trigger] m.filter(with_title(t)) == oldm.filter(
            with_title(t),
        ) + (if at == t {
            seq![a@]
        } else {
            Seq::<SearchableArticleModel>::empty()
        }) by {
            let p = with_title(t);
            assert(seq![a@].filter(p) == if p(a@) {
                Seq::<SearchableArticleModel>::empty().push(a@)
            } else {
                Seq::<SearchableArticleModel>::empty()
            }) by {
                reveal_with_fuel(Seq::filter, 2);
                assert(seq![a@].drop_last() =~= Seq::<SearchableArticleModel>::empty());
            }
            assert(m.filter(p) == l.filter(p) + (seq![a@].filter(p) + r.filter(p)));
            assert(oldm.filter(p) == l.filter(p) + r.filter(p));
            if at == t {
                assert(p(a@));
                assert forall|k: int| 0 <= k < r.len() implies !p(#[trigger] r[k]) by {
                    assert(r[k] == oldm[pos + k]);
                    if r[k].article.title == t {
                        crate::text::lemma_lex_le_refl(at);
                        assert(lex_le(oldm[pos + k].article.title, at));
                    }
                }
                lemma_filter_none(r, p);
                assert(m.filter(p) =~= oldm.filter(p) + seq![a@]);
            } else {
                assert(!p(a@));
                assert(m.filter(p) =~= oldm.filter(p));
                assert(oldm.filter(p) + Seq::<SearchableArticleModel>::empty() =~= oldm.filter(p));
            }
        }
    }
}

impl ArticleIndex {
    /// Derives the searchable index: only the listable articles take part;
    /// the list comes out sorted by title with the sort stable (articles
    /// sharing a title keep their entry order, stated per title through
    /// `filter`), and the category and tag pools hold each occurring value
    /// exactly once.
    pub fn to_search_index(&self) -> (idx: ArticleSearchIndex)
        ensures
            entries_view(idx.articles@).to_multiset() == entries_view(self.common@).to_multiset(),
            sorted_by_title(entries_view(idx.articles@)),
            forall|t: Seq<char>|
                #[trigger] entries_view(idx.articles@).filter(with_title(t)) == entries_view(
                    self.common@,
                ).filter(with_title(t)),
            distinct_strs(idx.categories@),
            distinct_strs(idx.tags@),
            forall|k: int|
                0 <= k < idx.categories@.len() ==> is_category_of(
                    entries_view(self.common@),
                    idx.categories@[k]@,
                ),
            forall|i: int|
                0 <= i < self.common@.len() ==> ((#[trigger] self.common@[i]@.article.category)
                    matches Some(c) ==> str_in(idx.categories@, c)),
            forall|k: int|
                0 <= k < idx.tags@.len() ==> is_tag_of(entries_view(self.common@), idx.tags@[k]@),
            forall|i: int, j: int|
                0 <= i < self.common@.len() && 0 <= j < self.common@[i]@.article.tags.len()
                    ==> str_in(idx.tags@, #[trigger] self.common@[i]@.article.tags[j]),
    {
        let mut articles: Vec<SearchableArticle> = Vec::new();
        let mut categories: Vec<String> = Vec::new();
        let mut tags: Vec<String> = Vec::new();
        let n = self.common.len();
        let mut i: usize = 0;
        proof {
            assert(entries_view(articles@) =~= entries_view(self.common@.subrange(0, 0)));
        }
        while i < n
            invariant
                i <= n,
                n == self.common@.len(),
                entries_view(articles@).to_multiset() == entries_view(
                    self.common@.subrange(0, i as int),
                ).to_multiset(),
                sorted_by_title(entries_view(articles@)),
                forall|t: Seq<char>|
                    #[trigger] entries_view(articles@).filter(with_title(t)) == entries_view(
                        self.common@.subrange(0, i as int),
                    ).filter(with_title(t)),
                distinct_strs(categories@),
                distinct_strs(tags@),
                forall|k: int|
                    0 <= k < categories@.len() ==> is_category_of(
                        entries_view(self.common@.subrange(0, i as int)),
                        categories@[k]@,
                    ),
                forall|t: int|
                    0 <= t < i ==> ((#[trigger] self.common@[t]@.article.category) matches Some(c)
                        ==> str_in(categories@, c)),
                forall|k: int|
                    0 <= k < tags@.len() ==> is_tag_of(
                        entries_view(self.common@.subrange(0, i as int)),
                        tags@[k]@,
                    ),
                forall|t: int, u: int|
                    0 <= t < i && 0 <= u < self.common@[t]@.article.tags.len() ==> str_in(
                        tags@,
                        #[trigger] self.common@[t]@.article.tags[u],
                    ),
            decreases n - i,
        {
            let entry = &self.common[i];
            let ghost em = self.common@[i as int]@;
            let ghost prefix = entries_view(self.common@.subrange(0, i as int));
            let ghost prefix1 = entries_view(self.common@.subrange(0, i + 1));
            proof {
                assert(self.common@.subrange(0, i + 1) =~= self.common@.subrange(
                    0,
                    i as int,
                ).push(self.common@[i as int]));
                assert(prefix1 =~= prefix.push(em));
                assert(entry@ == em);
            }
            match &entry.article.category {
                Some(cat) => {
                    let ghost oldc = categories@;
                    push_if_absent(&mut categories, cat);
                    proof {
                        assert(em.article.category == Some(cat@));
                        assert forall|k: int|
                            0 <= k < categories@.len() implies is_category_of(
                            prefix1,
                            categories@[k]@,
                        ) by {
                            let c = categories@[k]@;
                            assert(str_in(categories@, c));
                            if str_in(oldc, c) {
                                let w = choose|w: int| 0 <= w < oldc.len() && oldc[w]@ == c;
                                assert(is_category_of(prefix, c));
                                let w2 = choose|w2: int|
                                    0 <= w2 < prefix.len() && prefix[w2].article.category == Some(
                                        c,
                                    );
                                assert(prefix1[w2].article.category == Some(c));
                            } else {
                                assert(c == cat@);
                                assert(prefix1[prefix1.len() - 1].article.category == Some(c));
                            }
                        }
                        assert(str_in(categories@, cat@));
                    }
                },
                None => {
                    proof {
                        assert(em.article.category is None);
                        assert forall|k: int|
                            0 <= k < categories@.len() implies is_category_of(
                            prefix1,
                            categories@[k]@,
                        ) by {
                            let c = categories@[k]@;
                            assert(is_category_of(prefix, c));
                            let w2 = choose|w2: int|
                                0 <= w2 < prefix.len() && prefix[w2].article.category == Some(c);
                            assert(prefix1[w2].article.category == Some(c));
                        }
                    }
                },
            }
            let m = entry.article.tags.len();
            let mut j: usize = 0;
            while j < m
                invariant
                    j <= m,
                    m == entry.article.tags@.len(),
                    em == self.common@[i as int]@,
                    em.article.tags == entry.article.tags.deep_view(),
                    0 <= i < self.common@.len(),
                    prefix == entries_view(self.common@.subrange(0, i as int)),
                    distinct_strs(tags@),
                    forall|k: int|
                        0 <= k < tags@.len() ==> (is_tag_of(prefix, tags@[k]@) || (exists|u: int|
                            0 <= u < j && em.article.tags[u] == tags@[k]@)),
                    forall|t: int, u: int|
                        0 <= t < i && 0 <= u < self.common@[t]@.article.tags.len() ==> str_in(
                            tags@,
                            #[trigger] self.common@[t]@.article.tags[u],
                        ),
                    forall|u: int| 0 <= u < j ==> str_in(tags@, em.article.tags[u]),
                decreases m - j,
            {
                let ghost oldt = tags@;
                push_if_absent(&mut tags, &entry.article.tags[j]);
                proof {
                    let s = em.article.tags[j as int];
                    assert(entry.article.tags@[j as int]@ == s);
                    assert forall|k: int|
                        0 <= k < tags@.len() implies (is_tag_of(prefix, tags@[k]@) || (exists|
                        u: int,
                    |
                        0 <= u < j + 1 && em.article.tags[u] == tags@[k]@)) by {
                        let c = tags@[k]@;
                        assert(str_in(tags@, c));
                        if str_in(oldt, c) {
                            let w = choose|w: int| 0 <= w < oldt.len() && oldt[w]@ == c;
                            assert(is_tag_of(prefix, c) || (exists|u: int|
                                0 <= u < j && em.article.tags[u] == c));
                        } else {
                            assert(c == s);
                            assert(em.article.tags[j as int] == c);
                        }
                    }
                    assert forall|t: int, u: int|
                        0 <= t < i && 0 <= u < self.common@[t]@.article.tags.len() implies str_in(
                        tags@,
                        #[trigger] self.common@[t]@.article.tags[u],
                    ) by {
                        assert(str_in(oldt, self.common@[t]@.article.tags[u]));
                    }
                    assert forall|u: int| 0 <= u < j + 1 implies str_in(
                        tags@,
                        em.article.tags[u],
                    ) by {
                        if u < j {
                            assert(str_in(oldt, em.article.tags[u]));
                        } else {
                            assert(em.article.tags[u] == s);
                        }
                    }
                }
                j = j + 1;
            }
            let ghost before = entries_view(articles@);
            insert_by_title(&mut articles, entry.clone());
            proof {
                broadcast use vstd::seq_lib::group_to_multiset_ensures;

                assert(entries_view(articles@).to_multiset() == prefix1.to_multiset());
                assert forall|t: Seq<char>| #[trigger] entries_view(articles@).filter(
                    with_title(t),
                ) == prefix1.filter(with_title(t)) by {
                    reveal(Seq::filter);
                    let p = with_title(t);
                    assert(prefix1.drop_last() =~= prefix);
                    assert(prefix1.last() == em);
                    if p(em) {
                        assert(prefix1.filter(p) == prefix.filter(p).push(em));
                        assert(em.article.title == t);
                        assert(before.filter(p) + seq![em] =~= prefix.filter(p).push(em));
                    } else {
                        assert(prefix1.filter(p) == prefix.filter(p));
                        assert(em.article.title != t);
                        assert(before.filter(p) + Seq::<SearchableArticleModel>::empty()
                            =~= prefix.filter(p));
                    }
                }
                assert forall|k: int| 0 <= k < tags@.len() implies is_tag_of(
                    prefix1,
                    tags@[k]@,
                ) by {
                    if is_tag_of(prefix, tags@[k]@) {
                        let (w, u) = choose|w: int, u: int|
                            0 <= w < prefix.len() && 0 <= u < prefix[w].article.tags.len()
                                && prefix[w].article.tags[u] == tags@[k]@;
                        assert(prefix1[w].article.tags[u] == tags@[k]@);
                    } else {
                        let u = choose|u: int|
                            0 <= u < j && em.article.tags[u] == tags@[k]@;
                        assert(prefix1[prefix1.len() - 1].article.tags[u] == tags@[k]@);
                    }
                }
                assert(em.article.tags.len() == m);
            }
            i = i + 1;
        }
        proof {
            assert(self.common@.subrange(0, n as int) =~= self.common@);
        }
        ArticleSearchIndex { articles, categories, tags, create_time: instant_now() }
    }
}

/// Root of all article bundles under the configured assets path.
pub open spec fn articles_root(site: Site) -> Seq<char> {
    "/"@ + site.assets.directory@ + "/"@ + site.assets.articles@
}

/// Root of one article's bundle.
pub open spec fn article_base_url(site: Site, id: Seq<char>) -> Seq<char> {
    articles_root(site) + "/"@ + id
}

/// Builds `/<dir>/<articles>/<id>` into a fresh string.
fn append_article_base(site: &Site, id: &str) -> (r: String)
    ensures
        r@ == article_base_url(*site, id@),
{
    let mut s = String::new();
    s.append("/");
    s.append(site.assets.directory.as_str());
    s.append("/");
    s.append(site.assets.articles.as_str());
    s.append("/");
    s.append(id);
    proof {
        assert(s@ =~= article_base_url(*site, id@));
    }
    s
}

impl Article {
    /// The URL of an article's metadata document.
    pub fn metadata_url(id: &str, site: &Site) -> (r: String)
        ensures
            r@ == article_base_url(*site, id@) + "/meta.json"@,
    {
        let mut s = append_article_base(site, id);
        s.append("/meta.json");
        s
    }

    /// The URL of an article's raw Markdown body.
    pub fn markdown_url(id: &str, site: &Site) -> (r: String)
        ensures
            r@ == article_base_url(*site, id@) + "/index.md"@,
    {
        let mut s = append_article_base(site, id);
        s.append("/index.md");
        s
    }
}

impl ArticleIndex {
    /// The URL of the listable articles' index document.
    pub fn common_index_url(site: &Site) -> (r: String)
        ensures
            r@ == articles_root(*site) + "/index.json"@,
    {
        let mut s = String::new();
        s.append("/");
        s.append(site.assets.directory.as_str());
        s.append("/");
        s.append(site.assets.articles.as_str());
        s.append("/index.json");
        proof {
            assert(s@ =~= articles_root(*site) + "/index.json"@);
        }
        s
    }

    /// The URL of the special articles' index document.
    pub fn special_index_url(site: &Site) -> (r: String)
        ensures
            r@ == articles_root(*site) + "/special.json"@,
    {
        let mut s = String::new();
        s.append("/");
        s.append(site.assets.directory.as_str());
        s.append("/");
        s.append(site.assets.articles.as_str());
        s.append("/special.json");
        proof {
            assert(s@ =~= articles_root(*site) + "/special.json"@);
        }
        s
    }
}


/// The category filter passes when no category was requested, or when the
/// article has a category that exactly matches a requested one.
pub open spec fn matches_categories(a: SearchableArticleModel, cats: Seq<Seq<char>>) -> bool {
    cats.len() == 0 || (a.article.category matches Some(c) && cats.contains(c))
}

/// The tag filter passes when no tag was requested, or when some article tag
/// exactly matches some requested tag.
pub open spec fn matches_tags(a: SearchableArticleModel, ts: Seq<Seq<char>>) -> bool {
    ts.len() == 0 || (exists|i: int, j: int|
        #![trigger ts[i], a.article.tags[j]]
        0 <= i < ts.len() && 0 <= j < a.article.tags.len() && ts[i] == a.article.tags[j])
}

/// One keyword part matches when its lower-casing occurs in the lower-cased
/// title or description.
pub open spec fn part_matches(a: SearchableArticleModel, part: Seq<char>) -> bool {
    is_substr(lower_of(part), lower_of(a.article.title)) || is_substr(
        lower_of(part),
        lower_of(a.article.description),
    )
}

/// The keyword filter passes when every requested part matches somewhere.
pub open spec fn matches_parts(a: SearchableArticleModel, parts: Seq<Seq<char>>) -> bool {
    forall|i: int| 0 <= i < parts.len() ==> part_matches(a, #[trigger] parts[i])
}

/// An article passes the search when it passes all three filter kinds;
/// filters of different kinds combine with AND.
pub open spec fn article_matches(a: SearchableArticleModel, c: CriteriaModel) -> bool {
    matches_categories(a, c.categories) && matches_tags(a, c.tags) && matches_parts(
        a,
        c.title_parts,
    )
}

/// Linear search for an equally-spelled string.
fn contains_string(v: &Vec<String>, s: &String) -> (r: bool)
    ensures
        r == v.deep_view().contains(s@),
{
    let n = v.len();
    let mut k: usize = 0;
    while k < n
        invariant
            k <= n,
            n == v@.len(),
            forall|t: int| 0 <= t < k ==> v@[t]@ != s@,
        decreases n - k,
    {
        if v[k] == *s {
            proof {
                assert(v.deep_view()[k as int] == s@);
                assert(v.deep_view().contains(s@));
            }
            return true;
        }
        k = k + 1;
    }
    proof {
        assert forall|t: int| 0 <= t < v.deep_view().len() implies v.deep_view()[t] != s@ by {
            assert(v.deep_view()[t] == v@[t]@);
        }
    }
    false
}

/// Some article tag is spelled like some wanted tag.
fn any_tag_matches(article_tags: &Vec<String>, wanted: &Vec<String>) -> (r: bool)
    ensures
        r == (exists|i: int, j: int|
            #![trigger wanted@[i], article_tags@[j]]
            0 <= i < wanted@.len() && 0 <= j < article_tags@.len() && wanted@[i]@
                == article_tags@[j]@),
{
    let n = article_tags.len();
    let mut j: usize = 0;
    while j < n
        invariant
            j <= n,
            n == article_tags@.len(),
            forall|i: int, t: int|
                #![trigger wanted@[i], article_tags@[t]]
                0 <= i < wanted@.len() && 0 <= t < j ==> wanted@[i]@ != article_tags@[t]@,
        decreases n - j,
    {
        if contains_string(wanted, &article_tags[j]) {
            proof {
                let c = article_tags@[j as int]@;
                let w = choose|w: int|
                    0 <= w < wanted.deep_view().len() && wanted.deep_view()[w] == c;
                assert(wanted@[w]@ == c);
            }
            return true;
        }
        proof {
            assert forall|i: int|
                0 <= i < wanted@.len() implies wanted@[i]@ != article_tags@[j as int]@ by {
                assert(wanted.deep_view()[i] == wanted@[i]@);
            }
        }
        j = j + 1;
    }
    false
}

/// Decides whether one article passes the given criteria.
fn article_matches_exec(a: &SearchableArticle, criteria: &SearchCriteria) -> (r: bool)
    ensures
        r == article_matches(a@, criteria@),
{
    if criteria.categories.len() > 0 {
        let ok = match &a.article.category {
            Some(c) => contains_string(&criteria.categories, c),
            None => false,
        };
        if !ok {
            proof {
                assert(!matches_categories(a@, criteria@.categories));
            }
            return false;
        }
    }
    if criteria.tags.len() > 0 {
        let ok = any_tag_matches(&a.article.tags, &criteria.tags);
        if !ok {
            proof {
                assert forall|i: int, j: int|
                    #![trigger criteria@.tags[i], a@.article.tags[j]]
                    0 <= i < criteria@.tags.len() && 0 <= j < a@.article.tags.len() implies criteria@.tags[i]
                    != a@.article.tags[j] by {
                    assert(criteria@.tags[i] == criteria.tags@[i]@);
                    assert(a@.article.tags[j] == a.article.tags@[j]@);
                }
                assert(!matches_tags(a@, criteria@.tags));
            }
            return false;
        }
        proof {
            let (wi, wj) = choose|wi: int, wj: int|
                #![trigger criteria.tags@[wi], a.article.tags@[wj]]
                0 <= wi < criteria.tags@.len() && 0 <= wj < a.article.tags@.len()
                    && criteria.tags@[wi]@ == a.article.tags@[wj]@;
            assert(criteria@.tags[wi] == criteria.tags@[wi]@);
            assert(a@.article.tags[wj] == a.article.tags@[wj]@);
            assert(matches_tags(a@, criteria@.tags));
        }
    }
    let title_low = lowercase_str(a.article.title.as_str());
    let tl = to_chars(title_low.as_str());
    let desc_low = lowercase_str(a.article.description.as_str());
    let dl = to_chars(desc_low.as_str());
    let n = criteria.title_parts.len();
    let mut i: usize = 0;
    while i < n
        invariant
            i <= n,
            n == criteria@.title_parts.len(),
            tl@ == lower_of(a@.article.title),
            dl@ == lower_of(a@.article.description),
            criteria@.title_parts == criteria.title_parts.deep_view(),
            forall|t: int| 0 <= t < i ==> part_matches(a@, #[trigger] criteria@.title_parts[t]),
        decreases n - i,
    {
        let part_low = lowercase_str(criteria.title_parts[i].as_str());
        let pl = to_chars(part_low.as_str());
        let in_title = contains_chars(&tl, &pl);
        let in_desc = if in_title {
            true
        } else {
            contains_chars(&dl, &pl)
        };
        if !in_title && !in_desc {
            proof {
                assert(criteria@.title_parts[i as int] == criteria.title_parts@[i as int]@);
                assert(!part_matches(a@, criteria@.title_parts[i as int]));
            }
            return false;
        }
        proof {
            assert(criteria@.title_parts[i as int] == criteria.title_parts@[i as int]@);
        }
        i = i + 1;
    }
    proof {
        assert(matches_categories(a@, criteria@.categories));
        assert(matches_tags(a@, criteria@.tags));
    }
    true
}

/// A sequence filtered by a predicate that holds everywhere is unchanged.
proof fn lemma_filter_true<A>(s: Seq<A>, pred: spec_fn(A) -> bool)
    requires
        forall|i: int| 0 <= i < s.len() ==> pred(#[trigger] s[i]),
    ensures
        s.filter(pred) == s,
    decreases s.len(),
{
    reveal(Seq::filter);
    if s.len() == 0 {
        assert(s.filter(pred) =~= s);
    } else {
        lemma_filter_true(s.drop_last(), pred);
        assert(pred(s.last()));
        assert(s.filter(pred) == s.drop_last().filter(pred).push(s.last()));
        assert(s.drop_last().push(s.last()) =~= s);
    }
}

/// `sub` occurs inside `sup` in order: `sub` can be obtained by deleting
/// elements of `sup` without reordering.
pub open spec fn is_subseq_of<A>(sub: Seq<A>, sup: Seq<A>) -> bool
    decreases sup.len(),
{
    if sub.len() == 0 {
        true
    } else if sup.len() == 0 {
        false
    } else {
        (sub.last() == sup.last() && is_subseq_of(sub.drop_last(), sup.drop_last())) || is_subseq_of(
            sub,
            sup.drop_last(),
        )
    }
}

/// Filtering yields a subsequence of the filtered sequence.
proof fn lemma_filter_is_subseq<A>(s: Seq<A>, pred: spec_fn(A) -> bool)
    ensures
        is_subseq_of(s.filter(pred), s),
    decreases s.len(),
{
    reveal(Seq::filter);
    if s.len() == 0 {
    } else {
        lemma_filter_is_subseq(s.drop_last(), pred);
        let sub = s.drop_last().filter(pred);
        if pred(s.last()) {
            assert(s.filter(pred) == sub.push(s.last()));
            assert(sub.push(s.last()).drop_last() =~= sub);
            assert(sub.push(s.last()).last() == s.last());
            assert(is_subseq_of(s.filter(pred), s));
        } else {
            assert(s.filter(pred) == sub);
            assert(is_subseq_of(s.filter(pred), s));
        }
    }
}

/// Every search result is an order-preserving subsequence of the index's
/// full sorted listing: order kept, no duplicates introduced. This holds for
/// every article set and every criteria.
pub proof fn lemma_search_is_subsequence(index: ArticleSearchIndex, c: CriteriaModel)
    ensures
        is_subseq_of(
            entries_view(index.articles@).filter(
                |m: SearchableArticleModel| article_matches(m, c),
            ),
            entries_view(index.articles@),
        ),
{
    lemma_filter_is_subseq(
        entries_view(index.articles@),
        |m: SearchableArticleModel| article_matches(m, c),
    );
}

/// The slice of one zero-indexed page: `[page*per_page, page*per_page +
/// per_page)` clipped to the sequence, empty when the start lies past the
/// end.
pub open spec fn page_slice(
    s: Seq<SearchableArticleModel>,
    page: int,
    per_page: int,
) -> Seq<SearchableArticleModel> {
    let start = page * per_page;
    let end = if start + per_page <= s.len() {
        start + per_page
    } else {
        s.len() as int
    };
    if start >= s.len() {
        Seq::empty()
    } else {
        s.subrange(start, end)
    }
}

impl ArticleSearchIndex {
    /// Filters the sorted article list by the criteria, keeping index order.
    /// Empty criteria return every article.
    pub fn search_with_criteria(&self, criteria: &SearchCriteria) -> (r: Vec<SearchableArticle>)
        ensures
            entries_view(r@) == entries_view(self.articles@).filter(
                |m: SearchableArticleModel| article_matches(m, criteria@),
            ),
            (criteria@.categories.len() == 0 && criteria@.tags.len() == 0
                && criteria@.title_parts.len() == 0) ==> entries_view(r@) == entries_view(
                self.articles@,
            ),
    {
        let ghost pred = |m: SearchableArticleModel| article_matches(m, criteria@);
        let mut out: Vec<SearchableArticle> = Vec::new();
        let n = self.articles.len();
        let mut i: usize = 0;
        proof {
            reveal(Seq::filter);
            assert(entries_view(self.articles@.subrange(0, 0)) =~= Seq::<
                SearchableArticleModel,
            >::empty());
            assert(entries_view(out@) =~= entries_view(self.articles@.subrange(0, 0)).filter(pred));
        }
        while i < n
            invariant
                i <= n,
                n == self.articles@.len(),
                pred == (|m: SearchableArticleModel| article_matches(m, criteria@)),
                entries_view(out@) == entries_view(self.articles@.subrange(0, i as int)).filter(
                    pred,
                ),
            decreases n - i,
        {
            let a = &self.articles[i];
            let ghost sub = entries_view(self.articles@.subrange(0, i as int));
            let ghost sub1 = entries_view(self.articles@.subrange(0, i + 1));
            proof {
                assert(self.articles@.subrange(0, i + 1) =~= self.articles@.subrange(
                    0,
                    i as int,
                ).push(self.articles@[i as int]));
                assert(sub1 =~= sub.push(a@));
                assert(sub1.drop_last() =~= sub);
                assert(sub1.last() == a@);
            }
            if article_matches_exec(a, criteria) {
                out.push(a.clone());
                proof {
                    reveal(Seq::filter);
                    assert(entries_view(out@) =~= sub.filter(pred).push(a@));
                    assert(sub1.filter(pred) == sub.filter(pred).push(a@));
                }
            } else {
                proof {
                    reveal(Seq::filter);
                    assert(sub1.filter(pred) == sub.filter(pred));
                }
            }
            i = i + 1;
        }
        proof {
            assert(self.articles@.subrange(0, n as int) =~= self.articles@);
            if criteria@.categories.len() == 0 && criteria@.tags.len() == 0
                && criteria@.title_parts.len() == 0 {
                assert forall|t: int|
                    0 <= t < entries_view(self.articles@).len() implies pred(
                    #[trigger] entries_view(self.articles@)[t],
                ) by {
                    let m = entries_view(self.articles@)[t];
                    assert(matches_categories(m, criteria@.categories));
                    assert(matches_tags(m, criteria@.tags));
                }
                lemma_filter_true(entries_view(self.articles@), pred);
            }
        }
        out
    }

    /// The slice of articles for one zero-indexed page. Out-of-range pages
    /// degrade to an empty result, never an error.
    pub fn paginate(articles: &Vec<SearchableArticle>, page: usize, per_page: usize) -> (r: Vec<
        SearchableArticle,
    >)
        ensures
            entries_view(r@) == page_slice(
                entries_view(articles@),
                page as int,
                per_page as int,
            ),
    {
        let len = articles.len();
        if per_page != 0 && page > usize::MAX / per_page {
            proof {
                assert((page as int) * (per_page as int) > usize::MAX) by (nonlinear_arith)
                    requires
                        per_page > 0,
                        page > usize::MAX / per_page,
                        usize::MAX / per_page == ((usize::MAX as int) / (per_page as int)),
                ;
                assert(entries_view(Seq::<SearchableArticle>::empty()) =~= Seq::<
                    SearchableArticleModel,
                >::empty());
            }
            return Vec::new();
        }
        proof {
            if per_page != 0 {
                assert((page as int) * (per_page as int) <= usize::MAX as int)
                    by (nonlinear_arith)
                    requires
                        per_page > 0,
                        (page as int) <= ((usize::MAX as int) / (per_page as int)),
                ;
            }
        }
        let start = page * per_page;
        if start >= len {
            proof {
                assert(entries_view(Seq::<SearchableArticle>::empty()) =~= Seq::<
                    SearchableArticleModel,
                >::empty());
            }
            return Vec::new();
        }
        let end = if per_page < len - start {
            start + per_page
        } else {
            len
        };
        let mut out: Vec<SearchableArticle> = Vec::new();
        let mut j = start;
        proof {
            assert(entries_view(out@) =~= entries_view(articles@).subrange(
                start as int,
                start as int,
            ));
        }
        while j < end
            invariant
                start <= j <= end <= articles@.len(),
                entries_view(out@) == entries_view(articles@).subrange(start as int, j as int),
            decreases end - j,
        {
            let a = articles[j].clone();
            let ghost oldout = out@;
            out.push(a);
            proof {
                assert(entries_view(out@) =~= entries_view(oldout).push(
                    articles@[j as int]@,
                ));
                assert(entries_view(articles@).subrange(start as int, j as int).push(
                    articles@[j as int]@,
                ) =~= entries_view(articles@).subrange(start as int, j + 1));
            }
            j = j + 1;
        }
        proof {
            assert(entries_view(out@) =~= page_slice(
                entries_view(articles@),
                page as int,
                per_page as int,
            ));
        }
        out
    }

    /// Ceiling division of the article count by the page size: the number of
    /// pages needed, 0 when there is nothing to page.
    pub fn total_pages(total_articles: usize, per_page: usize) -> (r: usize)
        requires
            per_page > 0,
            total_articles + per_page <= usize::MAX,
        ensures
            r == ((total_articles + per_page - 1) as int) / (per_page as int),
            total_articles == 0 ==> r == 0,
    {
        let r = (total_articles + per_page - 1) / per_page;
        proof {
            if total_articles == 0 {
                assert(((per_page - 1) as int) / (per_page as int) == 0) by (nonlinear_arith)
                    requires
                        per_page > 0,
                ;
            }
        }
        r
    }
}

} // verus!
