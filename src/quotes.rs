//! Stripping one pair of surrounding double quotes.

use vstd::prelude::*;
use vstd::string::*;

verus! {

/// `s` starts and ends with a double quote, and those are two distinct characters.
pub open spec fn is_quoted(s: Seq<char>) -> bool {
    s.len() >= 2 && s[0] == '"' && s[s.len() - 1] == '"'
}

/// The text with its surrounding quotes removed, when it has them.
pub open spec fn unquoted(s: Seq<char>) -> Seq<char> {
    if is_quoted(s) {
        s.subrange(1, s.len() - 1)
    } else {
        s
    }
}

/// Removes one leading and one trailing `"` when both are present;
/// otherwise returns the text unchanged.
pub fn remove_quotes(s: &str) -> (r: String)
    ensures
        r@ == unquoted(s@),
{
    let n = s.unicode_len();
    if n < 2 || s.get_char(0) != '"' || s.get_char(n - 1) != '"' {
        return s.to_owned();
    }
    s.substring_char(1, n - 1).to_owned()
}

} // verus!
