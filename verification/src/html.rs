//! Pieces of the HTML that job descriptions are written in.

use crate::patterns::{li_groups, regex_first_groups, regex_replace, strip_tags, InvalidPattern};
use crate::text::{is_trimmed, lemma_trim_is_trimmed, str_trim, string_views, trim};
use vstd::prelude::*;

verus! {

/// Each string trimmed.
pub open spec fn trim_each(s: Seq<Seq<char>>) -> Seq<Seq<char>> {
    s.map_values(|g: Seq<char>| trim(g))
}

/// The texts of the list items of `html`, trimmed: capture group 1 of each
/// match of `<li>(.*?)</li>`.
pub open spec fn spec_li_items(html: Seq<char>) -> Option<Seq<Seq<char>>> {
    Some(trim_each(li_groups(html)))
}

/// `html` with every tag `<...>` removed (the matches of `<[^>]*>`).
pub open spec fn spec_filter_out_tags(html: Seq<char>) -> Option<Seq<char>> {
    Some(strip_tags(html))
}

/// `items` holds, for each match of `<li>(.*?)</li>` in `html` in order, the
/// text its group captured, trimmed and with its tags removed.
pub open spec fn cleaned_item_texts(items: Seq<Seq<char>>, html: Seq<char>) -> bool {
    &&& items.len() == li_groups(html).len()
    &&& forall|i: int| 0 <= i < items.len() ==> #[trigger] items[i] == strip_tags(trim(li_groups(html)[i]))
}

/// `items` holds, for each match of `<li>(.*?)</li>` in `html` in order, the
/// text its group captured, trimmed.
pub open spec fn trimmed_item_texts(items: Seq<Seq<char>>, html: Seq<char>) -> bool {
    &&& items.len() == li_groups(html).len()
    &&& forall|i: int| 0 <= i < items.len() ==> #[trigger] items[i] == trim(li_groups(html)[i])
}

/// The trimmed contents of the `<li>...</li>` elements of `html`, in order.
pub fn get_li_items(html_string: &str) -> (r: Result<Vec<String>, InvalidPattern>)
    ensures
        match spec_li_items(html_string@) {
            Some(items) => r is Ok && string_views(r->Ok_0@) == items,
            None => r is Err,
        },
        r matches Ok(items) ==> forall|i: int| 0 <= i < items@.len() ==> is_trimmed(#[trigger] items@[i]@),
        r matches Ok(items) ==> items@.len() == li_groups(html_string@).len()
            && forall|i: int| 0 <= i < items@.len() ==> #[trigger] items@[i]@ == trim(li_groups(html_string@)[i]),
        r is Ok,
{
    let groups = match regex_first_groups("<li>(.*?)</li>", html_string) {
        Some(g) => g,
        None => return Err(InvalidPattern),
    };
    let ghost gv = string_views(groups@);
    let mut items: Vec<String> = Vec::new();
    let mut i: usize = 0;
    while i < groups.len()
        invariant
            i <= groups.len(),
            gv == string_views(groups@),
            string_views(items@) == trim_each(gv.take(i as int)),
            forall|j: int| 0 <= j < items@.len() ==> is_trimmed(#[trigger] items@[j]@),
        decreases groups.len() - i,
    {
        let item = str_trim(groups[i].as_str());
        let ghost before = items@;
        proof {
            lemma_trim_is_trimmed(groups@[i as int]@);
        }
        items.push(item);
        proof {
            assert(gv[i as int] == groups@[i as int]@);
            assert(string_views(items@) =~= string_views(before).push(trim(gv[i as int])));
            assert(trim_each(gv.take(i + 1)) =~= trim_each(gv.take(i as int)).push(trim(gv[i as int])));
        }
        i = i + 1;
    }
    assert(gv.take(i as int) =~= gv);
    assert(string_views(items@).len() == items@.len());
    assert forall|k: int| 0 <= k < items@.len() implies #[trigger] items@[k]@ == trim(li_groups(html_string@)[k]) by {
        assert(string_views(items@)[k] == items@[k]@);
    }
    Ok(items)
}

/// `html` with its tags removed.
pub fn filter_out_tags(html: &str) -> (r: Result<String, InvalidPattern>)
    ensures
        match spec_filter_out_tags(html@) {
            Some(s) => r is Ok && r->Ok_0@ == s,
            None => r is Err,
        },
        r matches Ok(s) ==> s@ == strip_tags(html@),
        r is Ok,
{
    match regex_replace("<[^>]*>", html, "") {
        Some(s) => Ok(s),
        None => Err(InvalidPattern),
    }
}

/// Reading the list items gives one item per match of `<li>(.*?)</li>`, in
/// order: the text its group captured, trimmed.
pub proof fn lemma_li_items_one_per_match(html: Seq<char>)
    ensures
        spec_li_items(html) is Some,
        spec_li_items(html)->0.len() == li_groups(html).len(),
        forall|i: int| 0 <= i < li_groups(html).len() ==> #[trigger] spec_li_items(html)->0[i] == trim(li_groups(html)[i]),
{
}

/// Filtering out tags gives the text with exactly its tags removed.
pub proof fn lemma_filter_out_tags_strips(html: Seq<char>)
    ensures
        spec_filter_out_tags(html) == Some(strip_tags(html)),
{
}

/// Text without a `<` holds no tag and is kept whole.
pub proof fn lemma_strip_tags_keeps_plain(s: Seq<char>)
    requires
        !s.contains('<'),
    ensures
        strip_tags(s) == s,
    decreases s.len(),
{
    if s.len() > 0 {
        assert(s[0] != '<');
        assert(!s.drop_first().contains('<')) by {
            if s.drop_first().contains('<') {
                let j = choose|j: int| 0 <= j < s.drop_first().len() && s.drop_first()[j] == '<';
                assert(s[j + 1] == '<');
            }
        }
        lemma_strip_tags_keeps_plain(s.drop_first());
        assert(seq![s[0]] + s.drop_first() =~= s);
    }
}

/// Text without a `<` in front of the rest is kept whole, in front of the
/// rest with its tags removed.
pub proof fn lemma_strip_tags_plain_prefix(a: Seq<char>, b: Seq<char>)
    requires
        !a.contains('<'),
    ensures
        strip_tags(a + b) == a + strip_tags(b),
    decreases a.len(),
{
    if a.len() == 0 {
        assert(a + b =~= b);
        assert(a + strip_tags(b) =~= strip_tags(b));
    } else {
        assert(a[0] != '<');
        assert((a + b)[0] == a[0]);
        assert((a + b).drop_first() =~= a.drop_first() + b);
        assert(!a.drop_first().contains('<')) by {
            if a.drop_first().contains('<') {
                let j = choose|j: int| 0 <= j < a.drop_first().len() && a.drop_first()[j] == '<';
                assert(a[j + 1] == '<');
            }
        }
        lemma_strip_tags_plain_prefix(a.drop_first(), b);
        assert(seq![a[0]] + (a.drop_first() + strip_tags(b)) =~= a + strip_tags(b));
    }
}

proof fn lemma_after_first_past(x: Seq<char>, c: char, b: Seq<char>)
    requires
        !x.contains(c),
    ensures
        crate::patterns::after_first(x + seq![c] + b, c) == b,
    decreases x.len(),
{
    let s = x + seq![c] + b;
    if x.len() == 0 {
        assert(s[0] == c);
        assert(s.drop_first() =~= b);
    } else {
        assert(x[0] != c);
        assert(s[0] == x[0]);
        assert(s.drop_first() =~= x.drop_first() + seq![c] + b);
        assert(!x.drop_first().contains(c)) by {
            if x.drop_first().contains(c) {
                let j = choose|j: int| 0 <= j < x.drop_first().len() && x.drop_first()[j] == c;
                assert(x[j + 1] == c);
            }
        }
        lemma_after_first_past(x.drop_first(), c, b);
    }
}

/// A tag `<...>` at the front is removed whole, and nothing else with it.
pub proof fn lemma_strip_tags_drops_tag(x: Seq<char>, b: Seq<char>)
    requires
        !x.contains('>'),
    ensures
        strip_tags(seq!['<'] + x + seq!['>'] + b) == strip_tags(b),
{
    let s = seq!['<'] + x + seq!['>'] + b;
    assert(s[0] == '<');
    assert(s.drop_first() =~= x + seq!['>'] + b);
    assert(s.drop_first()[x.len() as int] == '>');
    lemma_after_first_past(x, '>', b);
}

} // verus!
