use blog_core::criteria::SearchCriteria;

#[test]
fn test_search_criteria_parsing() {
    // Test empty string
    let criteria = SearchCriteria::parse("");
    assert!(criteria.is_empty());

    // Test simple keyword
    let criteria = SearchCriteria::parse("hello");
    assert_eq!(criteria.title_parts, vec!["hello"]);
    assert!(criteria.categories.is_empty());
    assert!(criteria.tags.is_empty());

    // Test category filter
    let criteria = SearchCriteria::parse("category:Technology");
    assert_eq!(criteria.categories, vec!["Technology"]);
    assert!(criteria.title_parts.is_empty());
    assert!(criteria.tags.is_empty());

    // Test tag filter
    let criteria = SearchCriteria::parse("tag:blog");
    assert_eq!(criteria.tags, vec!["blog"]);
    assert!(criteria.title_parts.is_empty());
    assert!(criteria.categories.is_empty());

    // Test quoted strings
    let criteria = SearchCriteria::parse("category:\"Web Development\"");
    assert_eq!(criteria.categories, vec!["Web Development"]);

    // Test complex query
    let criteria = SearchCriteria::parse("category:Technology tag:blog Hello World");
    assert_eq!(criteria.categories, vec!["Technology"]);
    assert_eq!(criteria.tags, vec!["blog"]);
    assert_eq!(criteria.title_parts, vec!["Hello", "World"]);

    // Test quoted keywords
    let criteria = SearchCriteria::parse("\"Hello World\" category:Tech");
    assert_eq!(criteria.title_parts, vec!["Hello World"]);
    assert_eq!(criteria.categories, vec!["Tech"]);

    // Test multiple categories and tags
    let criteria = SearchCriteria::parse("category:Tech category:Science tag:blog tag:tutorial");
    assert_eq!(criteria.categories, vec!["Tech", "Science"]);
    assert_eq!(criteria.tags, vec!["blog", "tutorial"]);

    // Test escaped quotes
    let criteria = SearchCriteria::parse("\"test \\\"quoted\\\" content\"");
    assert_eq!(criteria.title_parts, vec!["test \"quoted\" content"]);
}

#[test]
fn dangling_prefix_is_dropped() {
    let criteria = SearchCriteria::parse("category:");
    assert!(criteria.categories.is_empty());
    assert!(criteria.is_empty());

    let criteria = SearchCriteria::parse("tag:");
    assert!(criteria.tags.is_empty());
    assert!(criteria.is_empty());

    let criteria = SearchCriteria::parse("category: Tech");
    assert!(criteria.categories.is_empty());
    assert_eq!(criteria.title_parts, vec!["Tech"]);
}

#[test]
fn whitespace_and_quotes_edge_cases() {
    // Surrounding whitespace is trimmed before scanning.
    let criteria = SearchCriteria::parse("   \t\n  ");
    assert!(criteria.is_empty());

    let criteria = SearchCriteria::parse("  hello \t world\n");
    assert_eq!(criteria.title_parts, vec!["hello", "world"]);

    // An unterminated quote is tolerated; the accumulated token is flushed.
    let criteria = SearchCriteria::parse("\"unterminated value");
    assert_eq!(criteria.title_parts, vec!["unterminated value"]);

    // An escaped backslash is kept literally.
    let criteria = SearchCriteria::parse("a\\\\b");
    assert_eq!(criteria.title_parts, vec!["a\\b"]);

    // A trailing backslash arms an escape that never lands; the token stays.
    let criteria = SearchCriteria::parse("abc\\");
    assert_eq!(criteria.title_parts, vec!["abc"]);

    let criteria = SearchCriteria::new();
    assert!(criteria.is_empty());
}

#[test]
fn quotes_join_fragments_into_one_token() {
    let criteria = SearchCriteria::parse("ab\"cd ef\"gh");
    assert_eq!(criteria.title_parts, vec!["abcd efgh"]);

    let criteria = SearchCriteria::parse("category:\"A B\" tag:\"c d\"");
    assert_eq!(criteria.categories, vec!["A B"]);
    assert_eq!(criteria.tags, vec!["c d"]);
}
