use blog_core::criteria::SearchCriteria;
use blog_core::index::{Article, ArticleIndex, ArticleSearchIndex, SearchableArticle};
use blog_core::site::{ArticlesOptions, AssetsOptions, AuthorOptions, HomeOptions, Site};

fn article(title: &str, description: &str, category: Option<&str>, tags: &[&str]) -> Article {
    Article {
        title: title.to_string(),
        description: description.to_string(),
        category: category.map(|c| c.to_string()),
        tags: tags.iter().map(|t| t.to_string()).collect(),
        date: None,
    }
}

fn entry(id: &str, title: &str, description: &str, category: Option<&str>, tags: &[&str]) -> SearchableArticle {
    SearchableArticle { id: id.to_string(), article: article(title, description, category, tags) }
}

fn sample_index() -> ArticleIndex {
    ArticleIndex::new(
        vec![
            entry("c-post", "Charlie", "about charlie", Some("Tech"), &["rust", "blog"]),
            entry("a-post", "Alpha", "About Rust and Verus", Some("Science"), &["blog"]),
            entry("b-post", "Bravo", "nothing here", None, &["tutorial", "blog"]),
        ],
        vec![entry("about", "About", "the about page", None, &[])],
    )
}

fn test_site() -> Site {
    Site {
        name: "My Cool Blog".to_string(),
        copyright_year: 2024,
        assets: AssetsOptions { directory: "assets".to_string(), articles: "articles".to_string() },
        author: AuthorOptions {
            name: "Jo".to_string(),
            email: "jo@example.com".to_string(),
            github: "jo".to_string(),
        },
        home: HomeOptions { welcome_title: "Welcome".to_string(), welcome_text: vec![] },
        articles: ArticlesOptions { maximum_number_per_page: 10, pagination_size: 5 },
    }
}

#[test]
fn search_index_is_sorted_and_deduplicated() {
    let idx = sample_index().to_search_index();
    let titles: Vec<&str> = idx.articles.iter().map(|a| a.article.title.as_str()).collect();
    assert_eq!(titles, vec!["Alpha", "Bravo", "Charlie"]);

    let mut cats = idx.categories.clone();
    cats.sort();
    assert_eq!(cats, vec!["Science", "Tech"]);

    let mut tags = idx.tags.clone();
    tags.sort();
    assert_eq!(tags, vec!["blog", "rust", "tutorial"]);
}

#[test]
fn empty_criteria_returns_all_articles_in_order() {
    let idx = sample_index().to_search_index();
    let all = idx.search_with_criteria(&SearchCriteria::new());
    let ids: Vec<&str> = all.iter().map(|a| a.id.as_str()).collect();
    assert_eq!(ids, vec!["a-post", "b-post", "c-post"]);
}

#[test]
fn category_filter_is_exact_and_excludes_uncategorized() {
    let idx = sample_index().to_search_index();
    let hits = idx.search_with_criteria(&SearchCriteria::parse("category:Tech"));
    let ids: Vec<&str> = hits.iter().map(|a| a.id.as_str()).collect();
    assert_eq!(ids, vec!["c-post"]);

    // Case-sensitive, exact match only.
    let hits = idx.search_with_criteria(&SearchCriteria::parse("category:tech"));
    assert!(hits.is_empty());
}

#[test]
fn tag_filter_matches_any_requested_tag() {
    let idx = sample_index().to_search_index();
    let hits = idx.search_with_criteria(&SearchCriteria::parse("tag:rust tag:tutorial"));
    let ids: Vec<&str> = hits.iter().map(|a| a.id.as_str()).collect();
    assert_eq!(ids, vec!["b-post", "c-post"]);
}

#[test]
fn keyword_parts_all_match_case_insensitively() {
    let idx = sample_index().to_search_index();
    // Both parts must match; they match title or description, ignoring case.
    let hits = idx.search_with_criteria(&SearchCriteria::parse("rust VERUS"));
    let ids: Vec<&str> = hits.iter().map(|a| a.id.as_str()).collect();
    assert_eq!(ids, vec!["a-post"]);

    // One part failing rejects the article.
    let hits = idx.search_with_criteria(&SearchCriteria::parse("rust missingword"));
    assert!(hits.is_empty());
}

#[test]
fn combined_filters_intersect() {
    let idx = sample_index().to_search_index();
    let hits = idx.search_with_criteria(&SearchCriteria::parse("category:Tech tag:blog charlie"));
    let ids: Vec<&str> = hits.iter().map(|a| a.id.as_str()).collect();
    assert_eq!(ids, vec!["c-post"]);

    let hits = idx.search_with_criteria(&SearchCriteria::parse("category:Science tag:rust"));
    assert!(hits.is_empty());
}

#[test]
fn search_results_are_a_subsequence_of_the_listing() {
    let idx = sample_index().to_search_index();
    let all = idx.search_with_criteria(&SearchCriteria::new());
    let hits = idx.search_with_criteria(&SearchCriteria::parse("tag:blog"));
    // Every hit appears in the full listing, in the same relative order.
    let mut cursor = 0;
    for hit in &hits {
        let pos = all[cursor..].iter().position(|a| a.id == hit.id);
        assert!(pos.is_some(), "hit {} out of order or duplicated", hit.id);
        cursor += pos.unwrap() + 1;
    }
}

#[test]
fn paginate_slices_and_degrades_to_empty() {
    let idx = sample_index().to_search_index();
    let all = idx.search_with_criteria(&SearchCriteria::new());

    let page0 = ArticleSearchIndex::paginate(&all, 0, 2);
    let ids: Vec<&str> = page0.iter().map(|a| a.id.as_str()).collect();
    assert_eq!(ids, vec!["a-post", "b-post"]);

    let page1 = ArticleSearchIndex::paginate(&all, 1, 2);
    let ids: Vec<&str> = page1.iter().map(|a| a.id.as_str()).collect();
    assert_eq!(ids, vec!["c-post"]);

    // page * per_page >= len yields an empty page, never an error.
    assert!(ArticleSearchIndex::paginate(&all, 2, 2).is_empty());
    assert!(ArticleSearchIndex::paginate(&all, 100, 2).is_empty());
    assert!(ArticleSearchIndex::paginate(&all, 1, 3).is_empty());
    assert!(ArticleSearchIndex::paginate(&all, 0, 0).len() == 0);
}

#[test]
fn total_pages_is_ceiling_division() {
    assert_eq!(ArticleSearchIndex::total_pages(0, 10), 0);
    assert_eq!(ArticleSearchIndex::total_pages(0, 1), 0);
    assert_eq!(ArticleSearchIndex::total_pages(25, 10), 3);
    assert_eq!(ArticleSearchIndex::total_pages(20, 10), 2);
    assert_eq!(ArticleSearchIndex::total_pages(1, 10), 1);
}

#[test]
fn searchable_article_equality_is_id_based() {
    let a = entry("same-id", "One Title", "d1", None, &[]);
    let b = entry("same-id", "Another Title", "d2", Some("Tech"), &["x"]);
    let c = entry("other-id", "One Title", "d1", None, &[]);
    assert!(a == b);
    assert!(a != c);
}

#[test]
fn index_snapshots_compare_by_creation_instant() {
    let index = sample_index();
    let first = index.to_search_index();
    let second = index.to_search_index();
    // Identical content, different creation instants: not equal.
    assert!(first != second);
    assert!(first == first);
}

#[test]
fn fetch_urls_follow_the_assets_layout() {
    let site = test_site();
    assert_eq!(
        Article::metadata_url("my-post", &site),
        "/assets/articles/my-post/meta.json"
    );
    assert_eq!(
        Article::markdown_url("my-post", &site),
        "/assets/articles/my-post/index.md"
    );
    assert_eq!(ArticleIndex::common_index_url(&site), "/assets/articles/index.json");
    assert_eq!(ArticleIndex::special_index_url(&site), "/assets/articles/special.json");
}

#[test]
fn site_display_names() {
    let site = test_site();
    assert_eq!(site.long(), "My Cool Blog");
    assert_eq!(site.short(), "MCB");

    let mut lower = test_site();
    lower.name = "a  lower case\nname".to_string();
    assert_eq!(lower.short(), "ALCN");
}

#[test]
fn title_sort_is_stable() {
    // Three entries share a title; the index keeps their entry order.
    let index = ArticleIndex::new(
        vec![
            entry("z-first", "Same Title", "first", None, &[]),
            entry("m-aaa", "Aardvark", "other", None, &[]),
            entry("a-second", "Same Title", "second", None, &[]),
            entry("k-third", "Same Title", "third", None, &[]),
        ],
        vec![],
    );
    let idx = index.to_search_index();
    let ids: Vec<&str> = idx.articles.iter().map(|a| a.id.as_str()).collect();
    assert_eq!(ids, vec!["m-aaa", "z-first", "a-second", "k-third"]);
}
