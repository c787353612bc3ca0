//! Site configuration: the values read from the site's JSON descriptor and
//! the derived display names. The configuration is loaded once by the host
//! application and passed explicitly to every component that needs it.

use crate::text::{ascii_upper_char, chars_to_string, is_ws_char, is_whitespace_char, to_ascii_upper_char, to_chars};
use vstd::prelude::*;
use vstd::string::*;

verus! {

/// Where article bundles live: the assets directory and the articles segment
/// inside it.
#[derive(Clone, Debug)]
pub struct AssetsOptions {
    pub directory: String,
    pub articles: String,
}

/// The site author's contact details.
#[derive(Clone, Debug)]
pub struct AuthorOptions {
    pub name: String,
    pub email: String,
    pub github: String,
}

/// The home page's welcome copy.
#[derive(Clone, Debug)]
pub struct HomeOptions {
    pub welcome_title: String,
    pub welcome_text: Vec<String>,
}

/// Pagination sizing for article listings.
#[derive(Clone, Debug)]
pub struct ArticlesOptions {
    pub maximum_number_per_page: usize,
    pub pagination_size: usize,
}

/// The whole site configuration.
#[derive(Clone, Debug)]
pub struct Site {
    pub name: String,
    pub copyright_year: u16,
    pub assets: AssetsOptions,
    pub author: AuthorOptions,
    pub home: HomeOptions,
    pub articles: ArticlesOptions,
}

/// The initials of `s`: the first character of each whitespace-separated
/// word, mapped to ASCII upper case, in order. Computed over the first `i`
/// characters.
pub open spec fn initials_upto(s: Seq<char>, i: int) -> Seq<char>
    decreases i,
{
    if i <= 0 {
        Seq::empty()
    } else {
        let prev = initials_upto(s, i - 1);
        if !is_ws_char(s[i - 1]) && (i - 1 == 0 || is_ws_char(s[i - 2])) {
            prev.push(ascii_upper_char(s[i - 1]))
        } else {
            prev
        }
    }
}

/// The initials of the whole sequence.
pub open spec fn initials(s: Seq<char>) -> Seq<char> {
    initials_upto(s, s.len() as int)
}

impl Site {
    /// The site's full display name.
    pub fn long(&self) -> (r: String)
        ensures
            r@ == self.name@,
    {
        self.name.clone()
    }

    /// The site's abbreviated display name: the upper-cased initial of each
    /// word of the full name.
    pub fn short(&self) -> (r: String)
        ensures
            r@ == initials(self.name@),
    {
        let chars = to_chars(self.name.as_str());
        let n = chars.len();
        let mut out: Vec<char> = Vec::new();
        let mut i: usize = 0;
        while i < n
            invariant
                i <= n,
                n == chars@.len(),
                chars@ == self.name@,
                out@ == initials_upto(self.name@, i as int),
            decreases n - i,
        {
            let c = chars[i];
            let at_word_start = if i == 0 {
                true
            } else {
                is_whitespace_char(chars[i - 1])
            };
            if !is_whitespace_char(c) && at_word_start {
                out.push(to_ascii_upper_char(c));
            }
            i = i + 1;
        }
        chars_to_string(&out)
    }
}

} // verus!
