//! Search criteria and the free-text query parser.
//!
//! A query such as `category:Tech tag:blog "Hello World"` is tokenized by a
//! single scan that honours quoting and backslash escapes, and each token is
//! classified as a category filter, a tag filter or a title/description
//! keyword part.

use crate::text::{
    chars_to_string, has_prefix, has_prefix_chars, tail_chars, to_chars, trim_chars, trimmed,
};
use vstd::prelude::*;

verus! {

/// Structured filters extracted from a free-text query.
#[derive(Debug, Clone, PartialEq)]
pub struct SearchCriteria {
    pub categories: Vec<String>,
    pub tags: Vec<String>,
    pub title_parts: Vec<String>,
}

/// The mathematical model of [`SearchCriteria`]: the three filter sequences
/// as sequences of character sequences.
pub struct CriteriaModel {
    pub categories: Seq<Seq<char>>,
    pub tags: Seq<Seq<char>>,
    pub title_parts: Seq<Seq<char>>,
}

impl View for SearchCriteria {
    type V = CriteriaModel;

    open spec fn view(&self) -> CriteriaModel {
        CriteriaModel {
            categories: self.categories.deep_view(),
            tags: self.tags.deep_view(),
            title_parts: self.title_parts.deep_view(),
        }
    }
}

/// Criteria with no filter at all, the identity filter.
pub open spec fn empty_criteria() -> CriteriaModel {
    CriteriaModel { categories: Seq::empty(), tags: Seq::empty(), title_parts: Seq::empty() }
}

/// The token prefix that marks a category filter.
pub open spec fn category_prefix() -> Seq<char> {
    seq!['c', 'a', 't', 'e', 'g', 'o', 'r', 'y', ':']
}

/// The token prefix that marks a tag filter.
pub open spec fn tag_prefix() -> Seq<char> {
    seq!['t', 'a', 'g', ':']
}

/// Classification of one finished token: `category:` and `tag:` prefixes
/// contribute their remainder (dropped entirely when the remainder is empty),
/// every other non-empty token is a keyword part.
pub open spec fn classify_token(c: CriteriaModel, token: Seq<char>) -> CriteriaModel {
    if has_prefix(token, category_prefix()) {
        if token.len() > category_prefix().len() {
            CriteriaModel {
                categories: c.categories.push(token.skip(category_prefix().len() as int)),
                tags: c.tags,
                title_parts: c.title_parts,
            }
        } else {
            c
        }
    } else if has_prefix(token, tag_prefix()) {
        if token.len() > tag_prefix().len() {
            CriteriaModel {
                categories: c.categories,
                tags: c.tags.push(token.skip(tag_prefix().len() as int)),
                title_parts: c.title_parts,
            }
        } else {
            c
        }
    } else if token.len() > 0 {
        CriteriaModel {
            categories: c.categories,
            tags: c.tags,
            title_parts: c.title_parts.push(token),
        }
    } else {
        c
    }
}

/// State of the tokenizing scan: criteria gathered so far, the token being
/// accumulated, and the quote and escape flags.
pub struct ScanState {
    pub crit: CriteriaModel,
    pub token: Seq<char>,
    pub in_quotes: bool,
    pub escape: bool,
}

pub open spec fn initial_scan_state() -> ScanState {
    ScanState { crit: empty_criteria(), token: Seq::empty(), in_quotes: false, escape: false }
}

/// The token delimiters recognised outside of quotes.
pub open spec fn is_delimiter(c: char) -> bool {
    c == ' ' || c == '\t' || c == '\n'
}

/// One step of the scan. An escaped character is always taken literally; a
/// backslash arms the escape; an unescaped double quote toggles the quote
/// flag without joining the token; unquoted whitespace finishes the current
/// token; everything else joins the token.
pub open spec fn scan_step(st: ScanState, c: char) -> ScanState {
    if st.escape {
        ScanState { crit: st.crit, token: st.token.push(c), in_quotes: st.in_quotes, escape: false }
    } else if c == '\\' {
        ScanState { crit: st.crit, token: st.token, in_quotes: st.in_quotes, escape: true }
    } else if c == '"' {
        ScanState { crit: st.crit, token: st.token, in_quotes: !st.in_quotes, escape: false }
    } else if is_delimiter(c) && !st.in_quotes {
        if st.token.len() > 0 {
            ScanState {
                crit: classify_token(st.crit, st.token),
                token: Seq::empty(),
                in_quotes: st.in_quotes,
                escape: false,
            }
        } else {
            st
        }
    } else {
        ScanState { crit: st.crit, token: st.token.push(c), in_quotes: st.in_quotes, escape: false }
    }
}

/// The scan state after consuming the first `i` characters of `s`.
pub open spec fn scan_upto(s: Seq<char>, i: int) -> ScanState
    decreases i,
{
    if i <= 0 {
        initial_scan_state()
    } else {
        scan_step(scan_upto(s, i - 1), s[i - 1])
    }
}

/// End of input: the token accumulated so far, if any, is still classified.
pub open spec fn flush(st: ScanState) -> CriteriaModel {
    if st.token.len() > 0 {
        classify_token(st.crit, st.token)
    } else {
        st.crit
    }
}

/// The meaning of a whole query: trim it, scan every character, flush.
pub open spec fn parse_pattern(s: Seq<char>) -> CriteriaModel {
    flush(scan_upto(trimmed(s), trimmed(s).len() as int))
}

impl SearchCriteria {
    /// Criteria with no filters.
    pub fn new() -> (c: SearchCriteria)
        ensures
            c@ == empty_criteria(),
    {
        let c = SearchCriteria { categories: Vec::new(), tags: Vec::new(), title_parts: Vec::new() };
        proof {
            assert(c@.categories =~= empty_criteria().categories);
            assert(c@.tags =~= empty_criteria().tags);
            assert(c@.title_parts =~= empty_criteria().title_parts);
        }
        c
    }

    /// Parses a free-text query into structured criteria. Total: malformed
    /// input (dangling prefixes, unterminated quotes) degrades to best-effort
    /// tokenization rather than failing.
    pub fn parse(pattern: &str) -> (c: SearchCriteria)
        ensures
            c@ == parse_pattern(pattern@),
    {
        let chars = to_chars(pattern);
        let t = trim_chars(&chars);
        let mut criteria = Self::new();
        let tlen = t.len();
        if tlen == 0 {
            return criteria;
        }
        let mut token: Vec<char> = Vec::new();
        let mut in_quotes = false;
        let mut escape = false;
        let mut i: usize = 0;
        while i < tlen
            invariant
                i <= tlen,
                tlen == t@.len(),
                t@ == trimmed(pattern@),
                scan_upto(t@, i as int) == (ScanState {
                    crit: criteria@,
                    token: token@,
                    in_quotes,
                    escape,
                }),
            decreases tlen - i,
        {
            let c = t[i];
            proof {
                assert(scan_upto(t@, i + 1) == scan_step(scan_upto(t@, i as int), t@[i as int]));
            }
            if escape {
                token.push(c);
                escape = false;
            } else if c == '\\' {
                escape = true;
            } else if c == '"' {
                in_quotes = !in_quotes;
            } else if (c == ' ' || c == '\t' || c == '\n') && !in_quotes {
                if token.len() > 0 {
                    let tk = token;
                    token = Vec::new();
                    Self::process_token(&mut criteria, tk);
                }
            } else {
                token.push(c);
            }
            i = i + 1;
        }
        if token.len() > 0 {
            let tk = token;
            Self::process_token(&mut criteria, tk);
        }
        criteria
    }

    /// True when no filter of any kind was requested.
    pub fn is_empty(&self) -> (r: bool)
        ensures
            r == (self@.categories.len() == 0 && self@.tags.len() == 0 && self@.title_parts.len()
                == 0),
    {
        self.categories.len() == 0 && self.tags.len() == 0 && self.title_parts.len() == 0
    }

    /// Files one finished token into the criteria it belongs to.
    fn process_token(criteria: &mut SearchCriteria, token: Vec<char>)
        ensures
            final (criteria)@ == classify_token(old(criteria)@, token@),
    {
        let cat = category_prefix_chars();
        let tagp = tag_prefix_chars();
        if has_prefix_chars(&token, &cat) {
            if token.len() > cat.len() {
                let rest = tail_chars(&token, cat.len());
                let s = chars_to_string(&rest);
                criteria.categories.push(s);
                proof {
                    assert(criteria@.categories =~= old(criteria)@.categories.push(
                        token@.skip(category_prefix().len() as int),
                    ));
                    assert(criteria@.tags =~= old(criteria)@.tags);
                    assert(criteria@.title_parts =~= old(criteria)@.title_parts);
                }
            }
        } else if has_prefix_chars(&token, &tagp) {
            if token.len() > tagp.len() {
                let rest = tail_chars(&token, tagp.len());
                let s = chars_to_string(&rest);
                criteria.tags.push(s);
                proof {
                    assert(criteria@.tags =~= old(criteria)@.tags.push(
                        token@.skip(tag_prefix().len() as int),
                    ));
                    assert(criteria@.categories =~= old(criteria)@.categories);
                    assert(criteria@.title_parts =~= old(criteria)@.title_parts);
                }
            }
        } else if token.len() > 0 {
            let s = chars_to_string(&token);
            criteria.title_parts.push(s);
            proof {
                assert(criteria@.title_parts =~= old(criteria)@.title_parts.push(token@));
                assert(criteria@.categories =~= old(criteria)@.categories);
                assert(criteria@.tags =~= old(criteria)@.tags);
            }
        }
    }
}

/// Builds the character vector spelling `category:`.
fn category_prefix_chars() -> (v: Vec<char>)
    ensures
        v@ == category_prefix(),
{
    let v: Vec<char> = vec!['c', 'a', 't', 'e', 'g', 'o', 'r', 'y', ':'];
    proof {
        assert(v@ =~= category_prefix());
    }
    v
}

/// Builds the character vector spelling `tag:`.
fn tag_prefix_chars() -> (v: Vec<char>)
    ensures
        v@ == tag_prefix(),
{
    let v: Vec<char> = vec!['t', 'a', 'g', ':'];
    proof {
        assert(v@ =~= tag_prefix());
    }
    v
}

} // verus!
