//! Regular-expression search and replacement, done by the regex crate.

use regex::Regex;
use vstd::prelude::*;
use crate::text::string_views;

verus! {

/// A regular expression of the library did not compile.
#[derive(Debug, Clone, Copy, PartialEq, Eq, Structural)]
pub struct InvalidPattern;

/// What `Regex::new(pattern)` followed by `Regex::replace_all(text, rep)`
/// gives: `None` when the pattern does not compile, else `text` with every
/// leftmost non-overlapping match replaced by `rep` (with `$` references
/// expanded).
pub uninterp spec fn regex_replace_all(pattern: Seq<char>, text: Seq<char>, rep: Seq<char>) -> Option<Seq<char>>;

/// What `Regex::new(pattern)` followed by `Regex::captures_iter(text)` gives:
/// `None` when the pattern does not compile, else, for each successive
/// non-overlapping match, the text of capture group 1 (empty where that
/// group took no part in the match).
pub uninterp spec fn regex_group_one(pattern: Seq<char>, text: Seq<char>) -> Option<Seq<Seq<char>>>;

/// `s` with each run of two or more `-` shortened to one `-`: what
/// replacing every match of `(-{2,})` by `-` gives, since each leftmost
/// greedy match is a whole run.
pub open spec fn collapse_dashes(s: Seq<char>) -> Seq<char>
    decreases s.len(),
{
    if s.len() < 2 {
        s
    } else if s.last() == '-' && s[s.len() - 2] == '-' {
        collapse_dashes(s.drop_last())
    } else {
        collapse_dashes(s.drop_last()).push(s.last())
    }
}

/// The part of `s` after its first `c`, or nothing if `c` does not occur.
pub open spec fn after_first(s: Seq<char>, c: char) -> Seq<char>
    decreases s.len(),
{
    if s.len() == 0 {
        s
    } else if s[0] == c {
        s.drop_first()
    } else {
        after_first(s.drop_first(), c)
    }
}

/// What follows the first `c` is no longer than the whole.
pub proof fn lemma_after_first_shorter(s: Seq<char>, c: char)
    ensures
        after_first(s, c).len() <= s.len(),
    decreases s.len(),
{
    if s.len() > 0 && s[0] != c {
        lemma_after_first_shorter(s.drop_first(), c);
    }
}

/// `s` with each tag removed: from a `<` up to the first `>` after it, both
/// included, where there is such a `>`. This is what replacing every match
/// of `<[^>]*>` by nothing gives: a match starts at the leftmost `<` that
/// has a `>` somewhere after it and runs to the first such `>`.
pub open spec fn strip_tags(s: Seq<char>) -> Seq<char>
    decreases s.len(),
{
    if s.len() == 0 {
        s
    } else if s[0] == '<' && s.drop_first().contains('>') {
        proof {
            lemma_after_first_shorter(s.drop_first(), '>');
        }
        strip_tags(after_first(s.drop_first(), '>'))
    } else {
        seq![s[0]] + strip_tags(s.drop_first())
    }
}

/// `s` starts with `p`.
pub open spec fn starts_with(s: Seq<char>, p: Seq<char>) -> bool {
    s.len() >= p.len() && s.take(p.len() as int) == p
}

/// The opening tag of a list item.
pub open spec fn li_open() -> Seq<char> {
    seq!['<', 'l', 'i', '>']
}

/// The closing tag of a list item.
pub open spec fn li_close() -> Seq<char> {
    seq!['<', '/', 'l', 'i', '>']
}

/// Where the first `</li>` of `t` starts, if no line break comes before it.
pub open spec fn li_content_end(t: Seq<char>) -> Option<int>
    decreases t.len(),
{
    if starts_with(t, li_close()) {
        Some(0)
    } else if t.len() == 0 || t[0] == '\n' {
        None
    } else {
        match li_content_end(t.drop_first()) {
            Some(q) => Some(q + 1),
            None => None,
        }
    }
}

/// A found end of list item content lies inside the text, before its `</li>`.
pub proof fn lemma_li_content_end_bounds(t: Seq<char>)
    ensures
        li_content_end(t) matches Some(q) ==> 0 <= q && q + 5 <= t.len(),
    decreases t.len(),
{
    if !starts_with(t, li_close()) && t.len() > 0 && t[0] != '\n' {
        lemma_li_content_end_bounds(t.drop_first());
    }
}

/// The contents of the list items of `s`: what capture group 1 of the
/// successive matches of `<li>(.*?)</li>` holds. A match starts at the
/// leftmost `<li>` that a `</li>` follows with no line break between (`.`
/// does not match `\n`), and the lazy group ends at the first such `</li>`.
pub open spec fn li_groups(s: Seq<char>) -> Seq<Seq<char>>
    decreases s.len(),
{
    if s.len() == 0 {
        Seq::empty()
    } else if starts_with(s, li_open()) && li_content_end(s.skip(4)) is Some {
        let q = li_content_end(s.skip(4))->0;
        proof {
            lemma_li_content_end_bounds(s.skip(4));
        }
        seq![s.skip(4).take(q)] + li_groups(s.skip(4).skip(q + 5))
    } else {
        li_groups(s.drop_first())
    }
}

/// The pattern of a list item.
pub open spec fn li_pattern() -> Seq<char> {
    "<li>(.*?)</li>"@
}

/// The pattern of runs of two or more `-`.
pub open spec fn dash_run_pattern() -> Seq<char> {
    "(-{2,})"@
}

/// The pattern of an HTML tag.
pub open spec fn tag_pattern() -> Seq<char> {
    "<[^>]*>"@
}

/// Calls `Regex::new` and `Regex::replace_all`. The result is named by
/// [`regex_replace_all`]; each of its characters comes from `text` or from
/// `rep`, since it is made of the text between matches and of expansions
/// of `rep`, whose references name parts of `text`. For the two patterns
/// `(-{2,})` (with `-`) and `<[^>]*>` (with nothing), which compile, the
/// result is stated in full.
#[verifier::external_body]
pub(crate) fn regex_replace(pattern: &str, text: &str, rep: &str) -> (r: Option<String>)
    ensures
        match r {
            Some(s) => regex_replace_all(pattern@, text@, rep@) == Some(s@),
            None => regex_replace_all(pattern@, text@, rep@) is None,
        },
        r matches Some(s) ==> forall|i: int|
            0 <= i < s@.len() ==> text@.contains(#[trigger] s@[i]) || rep@.contains(s@[i]),
        r is Some && r->0@ == collapse_dashes(text@) <== pattern@ == dash_run_pattern() && rep@ == "-"@,
        r is Some && r->0@ == strip_tags(text@) <== pattern@ == tag_pattern() && rep@ == ""@,
{
    match Regex::new(pattern) {
        Ok(re) => Some(re.replace_all(text, rep).into_owned()),
        Err(_) => None,
    }
}

/// Calls `Regex::new` and `Regex::captures_iter`, taking capture group 1 of
/// each match. The result is named by [`regex_group_one`]; for the pattern
/// `<li>(.*?)</li>` it is stated in full by [`li_groups`].
#[verifier::external_body]
pub(crate) fn regex_first_groups(pattern: &str, text: &str) -> (r: Option<Vec<String>>)
    ensures
        match r {
            Some(v) => regex_group_one(pattern@, text@) == Some(string_views(v@)),
            None => regex_group_one(pattern@, text@) is None,
        },
        r is Some && string_views(r->0@) == li_groups(text@) <== pattern@ == li_pattern(),
{
    let re = match Regex::new(pattern) {
        Ok(re) => re,
        Err(_) => return None,
    };
    let mut groups = Vec::new();
    for caps in re.captures_iter(text) {
        match caps.get(1) {
            Some(m) => groups.push(m.as_str().to_string()),
            None => groups.push(String::new()),
        }
    }
    Some(groups)
}

} // verus!
