//! URL slugs made from job titles.

use crate::patterns::{collapse_dashes, regex_replace, InvalidPattern};
use crate::text::{
    chars_of, has_plain_case, is_ascii_upper, is_plain_case_text, is_umlaut_capital, is_umlaut_small,
    is_white_space, lower_char, lowercase, replace_char, str_to_lowercase, str_trim, string_of, trim,
    trim_end, trim_start,
};
use vstd::prelude::*;

verus! {

/// A character that a slug does not keep: `ä`, `ö`, `ü`, `(`, `)`, `/`, a
/// space, or the `|` that marks dropped characters.
pub open spec fn dropped_from_slug(c: char) -> bool {
    ||| c == '\u{e4}'
    ||| c == '\u{f6}'
    ||| c == '\u{fc}'
    ||| c == '('
    ||| c == ')'
    ||| c == '/'
    ||| c == ' '
    ||| c == '|'
}

/// `s` without the characters that a slug drops.
pub open spec fn without_dropped(s: Seq<char>) -> Seq<char>
    decreases s.len(),
{
    if s.len() == 0 {
        s
    } else if dropped_from_slug(s.last()) {
        without_dropped(s.drop_last())
    } else {
        without_dropped(s.drop_last()).push(s.last())
    }
}

/// The title lowercased, trimmed, with spaces turned into `-` and the
/// dropped characters removed: the slug before runs of `-` are collapsed.
pub open spec fn slug_base(input: Seq<char>) -> Seq<char> {
    without_dropped(replace_char(trim(lowercase(input)), ' ', '-'))
}

/// The slug of a title: [`slug_base`] with each run of two or more `-`
/// replaced by one.
pub open spec fn slug_of(input: Seq<char>) -> Seq<char> {
    collapse_dashes(slug_base(input))
}

/// The slug of a title, as the optional result of its formatting.
pub open spec fn spec_format_slug(input: Seq<char>) -> Option<Seq<char>> {
    Some(slug_of(input))
}

proof fn lemma_without_dropped_keeps_none(s: Seq<char>)
    ensures
        forall|i: int| 0 <= i < without_dropped(s).len() ==> !dropped_from_slug(#[trigger] without_dropped(s)[i]),
    decreases s.len(),
{
    if s.len() > 0 {
        let prev = without_dropped(s.drop_last());
        lemma_without_dropped_keeps_none(s.drop_last());
        assert forall|i: int| 0 <= i < without_dropped(s).len() implies !dropped_from_slug(#[trigger] without_dropped(s)[i]) by {
            if i < prev.len() {
                assert(without_dropped(s)[i] == prev[i]);
            }
        }
    }
}

/// The slug drops exactly `\u{e4}`, `\u{f6}`, `\u{fc}`, `(`, `)`, `/`,
/// the space and `|`: every other character is kept, in order.
pub proof fn lemma_slug_base_filters(input: Seq<char>)
    ensures
        slug_base(input) == replace_char(trim(lowercase(input)), ' ', '-').filter(
            |c: char| !(c == '\u{e4}' || c == '\u{f6}' || c == '\u{fc}' || c == '(' || c == ')' || c == '/' || c == ' ' || c == '|'),
        ),
{
    lemma_without_dropped_filters(replace_char(trim(lowercase(input)), ' ', '-'));
}

proof fn lemma_without_dropped_filters(s: Seq<char>)
    ensures
        without_dropped(s) == s.filter(
            |c: char| !(c == '\u{e4}' || c == '\u{f6}' || c == '\u{fc}' || c == '(' || c == ')' || c == '/' || c == ' ' || c == '|'),
        ),
    decreases s.len(),
{
    reveal(Seq::filter);
    if s.len() > 0 {
        lemma_without_dropped_filters(s.drop_last());
    }
}

fn is_dropped(c: char) -> (b: bool)
    ensures
        b == dropped_from_slug(c),
{
    c == '\u{e4}' || c == '\u{f6}' || c == '\u{fc}' || c == '(' || c == ')' || c == '/' || c == ' ' || c == '|'
}

/// Formats a job title as a slug: lowercased, trimmed, spaces as `-`,
/// without `ä`, `ö`, `ü`, `(`, `)`, `/` or `|`, and with runs of `-`
/// collapsed into one.
pub fn format_slug(input: &str) -> (r: Result<String, InvalidPattern>)
    ensures
        match spec_format_slug(input@) {
            Some(s) => r is Ok && r->Ok_0@ == s,
            None => r is Err,
        },
        r matches Ok(s) ==> forall|i: int| 0 <= i < s@.len() ==> !dropped_from_slug(#[trigger] s@[i]),
        r matches Ok(s) ==> s@ == collapse_dashes(replace_char(trim(lowercase(input@)), ' ', '-').filter(
            |c: char| !(c == '\u{e4}' || c == '\u{f6}' || c == '\u{fc}' || c == '(' || c == ')' || c == '/' || c == ' ' || c == '|'),
        )),
        r is Ok,
{
    proof {
        lemma_slug_base_filters(input@);
    }
    let lowercased = str_to_lowercase(input);
    let trimmed = str_trim(lowercased.as_str());
    let chars = chars_of(trimmed.as_str());
    let ghost dashed = replace_char(trimmed@, ' ', '-');
    let mut kept: Vec<char> = Vec::new();
    let mut i: usize = 0;
    while i < chars.len()
        invariant
            i <= chars.len(),
            chars@ == trimmed@,
            dashed == replace_char(trimmed@, ' ', '-'),
            kept@ == without_dropped(dashed.take(i as int)),
        decreases chars.len() - i,
    {
        let c = if chars[i] == ' ' { '-' } else { chars[i] };
        assert(dashed.take(i + 1).drop_last() =~= dashed.take(i as int));
        assert(dashed.take(i + 1).last() == c);
        if !is_dropped(c) {
            kept.push(c);
        }
        i = i + 1;
    }
    assert(dashed.take(i as int) =~= dashed);
    let base = string_of(kept.as_slice());
    proof {
        lemma_without_dropped_keeps_none(dashed);
        reveal_strlit("-");
    }
    match regex_replace("(-{2,})", base.as_str(), "-") {
        Some(s) => {
            assert forall|i: int| 0 <= i < s@.len() implies !dropped_from_slug(#[trigger] s@[i]) by {
                if base@.contains(s@[i]) {
                    let j = choose|j: int| 0 <= j < base@.len() && base@[j] == s@[i];
                    assert(!dropped_from_slug(without_dropped(dashed)[j]));
                }
            }
            Ok(s)
        },
        None => Err(InvalidPattern),
    }
}

/// A printable ASCII character, from the space to `~`.
pub open spec fn is_printable(c: char) -> bool {
    ' ' <= c && c <= '~'
}

/// A character of a job title as the laws below take it: printable ASCII or
/// a German umlaut.
pub open spec fn is_title_char(c: char) -> bool {
    is_printable(c) || is_umlaut_capital(c) || is_umlaut_small(c)
}

/// Every character of `s` is printable ASCII or a German umlaut.
pub open spec fn is_title_text(s: Seq<char>) -> bool {
    forall|i: int| 0 <= i < s.len() ==> is_title_char(#[trigger] s[i])
}

/// A title character after lowercasing: printable ASCII that is no capital
/// letter, or a small umlaut.
pub open spec fn is_lowered_title_char(c: char) -> bool {
    (is_printable(c) && !is_ascii_upper(c)) || is_umlaut_small(c)
}

/// A character a slug of a title can hold.
pub open spec fn is_slug_char(c: char) -> bool {
    is_printable(c) && !is_ascii_upper(c) && c != ' ' && !dropped_from_slug(c)
}

/// Every character of `a` occurs in `b`.
pub open spec fn within(a: Seq<char>, b: Seq<char>) -> bool {
    forall|i: int| 0 <= i < a.len() ==> b.contains(#[trigger] a[i])
}

/// No two neighbouring characters of `s` are both `-`.
pub open spec fn no_double_dash(s: Seq<char>) -> bool {
    forall|i: int| 0 <= i < s.len() - 1 ==> !(#[trigger] s[i] == '-' && s[i + 1] == '-')
}

proof fn lemma_title_lower(c: char)
    requires
        is_title_char(c),
    ensures
        has_plain_case(c),
        is_lowered_title_char(lower_char(c)),
        (lower_char(c) == ' ') == (c == ' '),
        is_lowered_title_char(c) ==> lower_char(c) == c,
        lower_char(c) != ' ' ==> !is_white_space(lower_char(c)),
{
    if 'A' <= c && c <= 'Z' {
        assert(('a' as u32) <= (c as u32) + 32 <= ('z' as u32));
    } else if c == '\u{c4}' {
        assert(lower_char(c) == '\u{e4}');
    } else if c == '\u{d6}' {
        assert(lower_char(c) == '\u{f6}');
    } else if c == '\u{dc}' {
        assert(lower_char(c) == '\u{fc}');
    }
}

proof fn lemma_trim_start_within(s: Seq<char>)
    ensures
        within(trim_start(s), s),
    decreases s.len(),
{
    if s.len() > 0 && is_white_space(s[0]) {
        lemma_trim_start_within(s.drop_first());
        assert forall|i: int| 0 <= i < trim_start(s).len() implies s.contains(#[trigger] trim_start(s)[i]) by {
            let j = choose|j: int| 0 <= j < s.drop_first().len() && s.drop_first()[j] == trim_start(s)[i];
            assert(s[j + 1] == trim_start(s)[i]);
        }
    } else {
        assert forall|i: int| 0 <= i < trim_start(s).len() implies s.contains(#[trigger] trim_start(s)[i]) by {
            assert(s[i] == trim_start(s)[i]);
        }
    }
}

proof fn lemma_trim_end_within(s: Seq<char>)
    ensures
        within(trim_end(s), s),
    decreases s.len(),
{
    if s.len() > 0 && is_white_space(s.last()) {
        lemma_trim_end_within(s.drop_last());
        assert forall|i: int| 0 <= i < trim_end(s).len() implies s.contains(#[trigger] trim_end(s)[i]) by {
            let j = choose|j: int| 0 <= j < s.drop_last().len() && s.drop_last()[j] == trim_end(s)[i];
            assert(s[j] == trim_end(s)[i]);
        }
    } else {
        assert forall|i: int| 0 <= i < trim_end(s).len() implies s.contains(#[trigger] trim_end(s)[i]) by {
            assert(s[i] == trim_end(s)[i]);
        }
    }
}

proof fn lemma_without_dropped_within(s: Seq<char>)
    ensures
        within(without_dropped(s), s),
    decreases s.len(),
{
    if s.len() > 0 {
        let prev = without_dropped(s.drop_last());
        lemma_without_dropped_within(s.drop_last());
        assert forall|i: int| 0 <= i < without_dropped(s).len() implies s.contains(#[trigger] without_dropped(s)[i]) by {
            if i < prev.len() {
                assert(without_dropped(s)[i] == prev[i]);
                let j = choose|j: int| 0 <= j < s.drop_last().len() && s.drop_last()[j] == prev[i];
                assert(s[j] == prev[i]);
            } else {
                assert(without_dropped(s)[i] == s.last());
                assert(s[s.len() - 1] == s.last());
            }
        }
    }
}

proof fn lemma_collapse_shape(s: Seq<char>)
    ensures
        within(collapse_dashes(s), s),
        no_double_dash(collapse_dashes(s)),
        s.len() > 0 ==> collapse_dashes(s).len() > 0 && collapse_dashes(s).last() == s.last(),
    decreases s.len(),
{
    if s.len() >= 2 {
        let prev = collapse_dashes(s.drop_last());
        lemma_collapse_shape(s.drop_last());
        assert(s.drop_last().last() == s[s.len() - 2]);
        let c = collapse_dashes(s);
        assert forall|i: int| 0 <= i < c.len() implies s.contains(#[trigger] c[i]) by {
            if i < prev.len() {
                assert(c[i] == prev[i]);
                let j = choose|j: int| 0 <= j < s.drop_last().len() && s.drop_last()[j] == prev[i];
                assert(s[j] == prev[i]);
            } else {
                assert(c[i] == s.last());
                assert(s[s.len() - 1] == s.last());
            }
        }
        if !(s.last() == '-' && s[s.len() - 2] == '-') {
            assert forall|i: int| 0 <= i < c.len() - 1 implies !(#[trigger] c[i] == '-' && c[i + 1] == '-') by {
                if i < prev.len() - 1 {
                    assert(c[i] == prev[i] && c[i + 1] == prev[i + 1]);
                } else {
                    assert(c[i] == prev.last());
                    assert(c[i + 1] == s.last());
                }
            }
        }
    } else {
        assert forall|i: int| 0 <= i < s.len() implies s.contains(#[trigger] s[i]) by {}
    }
}

proof fn lemma_collapse_keeps(s: Seq<char>)
    requires
        no_double_dash(s),
    ensures
        collapse_dashes(s) == s,
    decreases s.len(),
{
    if s.len() >= 2 {
        assert(no_double_dash(s.drop_last())) by {
            assert forall|i: int| 0 <= i < s.drop_last().len() - 1 implies !(#[trigger] s.drop_last()[i] == '-' && s.drop_last()[i + 1] == '-') by {
                assert(s.drop_last()[i] == s[i] && s.drop_last()[i + 1] == s[i + 1]);
            }
        }
        lemma_collapse_keeps(s.drop_last());
        assert(!(s[s.len() - 2] == '-' && s[s.len() - 1] == '-'));
        assert(s.drop_last().push(s.last()) =~= s);
    }
}

proof fn lemma_without_dropped_keeps(s: Seq<char>)
    requires
        forall|i: int| 0 <= i < s.len() ==> !dropped_from_slug(#[trigger] s[i]),
    ensures
        without_dropped(s) == s,
    decreases s.len(),
{
    if s.len() > 0 {
        assert(!dropped_from_slug(s[s.len() - 1]));
        lemma_without_dropped_keeps(s.drop_last());
        assert(s.drop_last().push(s.last()) =~= s);
    }
}

/// Every character of the slug of a title can stand in a slug, and no two
/// `-` stand side by side.
proof fn lemma_slug_chars(input: Seq<char>)
    requires
        is_title_text(input),
    ensures
        forall|i: int| 0 <= i < slug_of(input).len() ==> is_slug_char(#[trigger] slug_of(input)[i]),
        no_double_dash(slug_of(input)),
{
    assert(is_plain_case_text(input)) by {
        assert forall|i: int| 0 <= i < input.len() implies has_plain_case(#[trigger] input[i]) by {
            lemma_title_lower(input[i]);
        }
    }
    let l = lowercase(input);
    assert(l == input.map_values(|c: char| lower_char(c)));
    assert forall|i: int| 0 <= i < l.len() implies is_lowered_title_char(#[trigger] l[i]) by {
        lemma_title_lower(input[i]);
    }
    let t = trim(l);
    lemma_trim_start_within(l);
    lemma_trim_end_within(trim_start(l));
    assert forall|i: int| 0 <= i < t.len() implies is_lowered_title_char(#[trigger] t[i]) by {
        let j = choose|j: int| 0 <= j < trim_start(l).len() && trim_start(l)[j] == t[i];
        let k = choose|k: int| 0 <= k < l.len() && l[k] == trim_start(l)[j];
    }
    let d = replace_char(t, ' ', '-');
    assert forall|i: int| 0 <= i < d.len() implies is_lowered_title_char(#[trigger] d[i]) && d[i] != ' ' by {
        assert(is_lowered_title_char(t[i]));
    }
    let w = without_dropped(d);
    lemma_without_dropped_within(d);
    lemma_without_dropped_keeps_none(d);
    assert forall|i: int| 0 <= i < w.len() implies is_slug_char(#[trigger] w[i]) by {
        let j = choose|j: int| 0 <= j < d.len() && d[j] == w[i];
    }
    lemma_collapse_shape(w);
    assert forall|i: int| 0 <= i < slug_of(input).len() implies is_slug_char(#[trigger] slug_of(input)[i]) by {
        let j = choose|j: int| 0 <= j < w.len() && w[j] == slug_of(input)[i];
    }
}

/// The slug of a title of printable ASCII and German umlauts is its own
/// slug: formatting it again changes nothing.
pub proof fn lemma_slug_idempotent(input: Seq<char>)
    requires
        is_title_text(input),
    ensures
        slug_of(slug_of(input)) == slug_of(input),
{
    let y = slug_of(input);
    lemma_slug_chars(input);
    assert(is_plain_case_text(y)) by {
        assert forall|i: int| 0 <= i < y.len() implies has_plain_case(#[trigger] y[i]) by {
            assert(is_slug_char(y[i]));
        }
    }
    assert(lowercase(y) =~= y) by {
        assert forall|i: int| 0 <= i < y.len() implies lowercase(y)[i] == y[i] by {
            assert(is_slug_char(y[i]));
            lemma_title_lower(y[i]);
        }
    }
    if y.len() > 0 {
        assert(is_slug_char(y[0]));
        assert(is_slug_char(y[y.len() - 1]));
        lemma_title_lower(y[0]);
        lemma_title_lower(y.last());
    }
    assert(trim_start(y) == y);
    assert(trim(y) == y);
    assert(replace_char(y, ' ', '-') =~= y) by {
        assert forall|i: int| 0 <= i < y.len() implies replace_char(y, ' ', '-')[i] == y[i] by {
            assert(is_slug_char(y[i]));
        }
    }
    assert forall|i: int| 0 <= i < y.len() implies !dropped_from_slug(#[trigger] y[i]) by {
        assert(is_slug_char(y[i]));
    }
    lemma_without_dropped_keeps(y);
    lemma_collapse_keeps(y);
}

/// `k` spaces.
pub open spec fn spaces(k: nat) -> Seq<char> {
    Seq::new(k, |i: int| ' ')
}

/// `k` dashes.
pub open spec fn dashes(k: nat) -> Seq<char> {
    Seq::new(k, |i: int| '-')
}

proof fn lemma_trim_start_concat(a: Seq<char>, b: Seq<char>)
    requires
        exists|i: int| 0 <= i < a.len() && !is_white_space(#[trigger] a[i]),
    ensures
        trim_start(a + b) == trim_start(a) + b,
    decreases a.len(),
{
    if is_white_space(a[0]) {
        let i = choose|i: int| 0 <= i < a.len() && !is_white_space(#[trigger] a[i]);
        assert(a.drop_first()[i - 1] == a[i]);
        assert((a + b).drop_first() =~= a.drop_first() + b);
        lemma_trim_start_concat(a.drop_first(), b);
    } else {
        assert((a + b)[0] == a[0]);
    }
}

proof fn lemma_trim_end_concat(a: Seq<char>, b: Seq<char>)
    requires
        exists|i: int| 0 <= i < b.len() && !is_white_space(#[trigger] b[i]),
    ensures
        trim_end(a + b) == a + trim_end(b),
    decreases b.len(),
{
    if is_white_space(b.last()) {
        let i = choose|i: int| 0 <= i < b.len() && !is_white_space(#[trigger] b[i]);
        assert(i < b.len() - 1);
        assert(b.drop_last()[i] == b[i]);
        assert((a + b).drop_last() =~= a + b.drop_last());
        assert((a + b).last() == b.last());
        lemma_trim_end_concat(a, b.drop_last());
    } else {
        assert((a + b).last() == b.last());
    }
}

proof fn lemma_without_dropped_concat(a: Seq<char>, b: Seq<char>)
    ensures
        without_dropped(a + b) == without_dropped(a) + without_dropped(b),
    decreases b.len(),
{
    if b.len() == 0 {
        assert(a + b =~= a);
        assert(without_dropped(a) + without_dropped(b) =~= without_dropped(a));
    } else {
        assert((a + b).drop_last() =~= a + b.drop_last());
        assert((a + b).last() == b.last());
        lemma_without_dropped_concat(a, b.drop_last());
        if !dropped_from_slug(b.last()) {
            assert(without_dropped(a) + without_dropped(b.drop_last()).push(b.last())
                =~= (without_dropped(a) + without_dropped(b.drop_last())).push(b.last()));
        }
    }
}

proof fn lemma_collapse_double_dash(p: Seq<char>, q: Seq<char>)
    ensures
        collapse_dashes(p + seq!['-', '-'] + q) == collapse_dashes(p + seq!['-'] + q),
    decreases q.len(),
{
    let two = p + seq!['-', '-'] + q;
    let one = p + seq!['-'] + q;
    if q.len() == 0 {
        assert(two.drop_last() =~= p + seq!['-']);
        assert(one =~= p + seq!['-']);
        assert(two[two.len() - 2] == '-');
    } else {
        assert(two.drop_last() =~= p + seq!['-', '-'] + q.drop_last());
        assert(one.drop_last() =~= p + seq!['-'] + q.drop_last());
        lemma_collapse_double_dash(p, q.drop_last());
        assert(two.last() == q.last() && one.last() == q.last());
        assert(two[two.len() - 2] == one[one.len() - 2]) by {
            if q.len() >= 2 {
                assert(two[two.len() - 2] == q[q.len() - 2]);
                assert(one[one.len() - 2] == q[q.len() - 2]);
            } else {
                assert(two[two.len() - 2] == '-');
                assert(one[one.len() - 2] == '-');
            }
        }
    }
}

proof fn lemma_collapse_dash_run(p: Seq<char>, q: Seq<char>, k: nat)
    requires
        k >= 1,
    ensures
        collapse_dashes(p + dashes(k) + q) == collapse_dashes(p + dashes(1) + q),
    decreases k,
{
    if k > 1 {
        let shorter = (k - 1) as nat;
        assert(p + dashes(k) + q =~= (p + dashes((k - 2) as nat)) + seq!['-', '-'] + q);
        assert(p + dashes(shorter) + q =~= (p + dashes((k - 2) as nat)) + seq!['-'] + q);
        lemma_collapse_double_dash(p + dashes((k - 2) as nat), q);
        lemma_collapse_dash_run(p, q, shorter);
    }
}

/// For words `x` and `y` of printable ASCII and German umlauts (`x` not
/// ending and `y` not starting with a space), a run of `k >= 1` spaces
/// between them gives the same slug as one space.
pub proof fn lemma_slug_space_runs(x: Seq<char>, y: Seq<char>, k: nat)
    requires
        is_title_text(x),
        is_title_text(y),
        x.len() > 0 && x.last() != ' ',
        y.len() > 0 && y[0] != ' ',
        k >= 1,
    ensures
        slug_of(x + spaces(k) + y) == slug_of(x + spaces(1) + y),
{
    let lx = x.map_values(|c: char| lower_char(c));
    let ly = y.map_values(|c: char| lower_char(c));
    assert forall|n: nat| #[trigger] is_title_text(x + spaces(n) + y) && lowercase(x + spaces(n) + y) == lx + spaces(n) + ly by {
        let s = x + spaces(n) + y;
        assert forall|i: int| 0 <= i < s.len() implies is_title_char(#[trigger] s[i]) by {
            if i < x.len() {
                assert(s[i] == x[i]);
            } else if i < x.len() + n {
                assert(s[i] == ' ');
            } else {
                assert(s[i] == y[i - x.len() - n]);
            }
        }
        assert(is_plain_case_text(s)) by {
            assert forall|i: int| 0 <= i < s.len() implies has_plain_case(#[trigger] s[i]) by {
                lemma_title_lower(s[i]);
            }
        }
        assert(lowercase(s) =~= lx + spaces(n) + ly) by {
            assert forall|i: int| 0 <= i < s.len() implies lowercase(s)[i] == (lx + spaces(n) + ly)[i] by {
                if i < x.len() {
                    assert(s[i] == x[i]);
                } else if i < x.len() + n {
                    assert(s[i] == ' ');
                } else {
                    assert(s[i] == y[i - x.len() - n]);
                }
            }
        }
    }
    assert(is_title_text(x + spaces(k) + y));
    assert(is_title_text(x + spaces(1) + y));
    lemma_title_lower(x.last());
    lemma_title_lower(y[0]);
    assert(lx[lx.len() - 1] == lower_char(x.last()));
    assert(ly[0] == lower_char(y[0]));
    assert forall|n: nat| n >= 1 implies #[trigger] trim(lx + spaces(n) + ly) == trim_start(lx) + spaces(n) + trim_end(ly) by {
        assert(!is_white_space(lx[lx.len() - 1]));
        lemma_trim_start_concat(lx, spaces(n) + ly);
        assert(lx + spaces(n) + ly =~= lx + (spaces(n) + ly));
        assert(!is_white_space(ly[0]));
        lemma_trim_end_concat(trim_start(lx) + spaces(n), ly);
        assert(trim_start(lx) + (spaces(n) + ly) =~= (trim_start(lx) + spaces(n)) + ly);
    }
    let a = trim_start(lx);
    let b = trim_end(ly);
    let ra = replace_char(a, ' ', '-');
    let rb = replace_char(b, ' ', '-');
    assert forall|n: nat| n >= 1 implies #[trigger] replace_char(a + spaces(n) + b, ' ', '-') == ra + dashes(n) + rb by {
        assert(replace_char(a + spaces(n) + b, ' ', '-') =~= ra + dashes(n) + rb);
    }
    assert forall|n: nat| n >= 1 implies #[trigger] without_dropped(ra + dashes(n) + rb) == without_dropped(ra) + dashes(n) + without_dropped(rb) by {
        lemma_without_dropped_concat(ra + dashes(n), rb);
        lemma_without_dropped_concat(ra, dashes(n));
        assert forall|i: int| 0 <= i < dashes(n).len() implies !dropped_from_slug(#[trigger] dashes(n)[i]) by {}
        lemma_without_dropped_keeps(dashes(n));
    }
    lemma_collapse_dash_run(without_dropped(ra), without_dropped(rb), k);
}

} // verus!
