//! Character-sequence helpers: the std string operations the library relies
//! on, with the meaning they have in its contracts.

use vstd::prelude::*;
use vstd::utf8::*;

verus! {

/// The Unicode `White_Space` property: the characters that `char::is_whitespace`
/// accepts and that `str::trim` strips.
pub open spec fn is_white_space(c: char) -> bool {
    let u = c as u32;
    ||| 0x09 <= u <= 0x0d
    ||| u == 0x20
    ||| u == 0x85
    ||| u == 0xa0
    ||| u == 0x1680
    ||| 0x2000 <= u <= 0x200a
    ||| u == 0x2028
    ||| u == 0x2029
    ||| u == 0x202f
    ||| u == 0x205f
    ||| u == 0x3000
}

/// `s` without its leading white space.
pub open spec fn trim_start(s: Seq<char>) -> Seq<char>
    decreases s.len(),
{
    if s.len() > 0 && is_white_space(s[0]) {
        trim_start(s.drop_first())
    } else {
        s
    }
}

/// `s` without its trailing white space.
pub open spec fn trim_end(s: Seq<char>) -> Seq<char>
    decreases s.len(),
{
    if s.len() > 0 && is_white_space(s.last()) {
        trim_end(s.drop_last())
    } else {
        s
    }
}

/// `s` without leading and trailing white space, as `str::trim` returns it.
pub open spec fn trim(s: Seq<char>) -> Seq<char> {
    trim_end(trim_start(s))
}

/// Neither the first nor the last character of `s` is white space.
pub open spec fn is_trimmed(s: Seq<char>) -> bool {
    s.len() > 0 ==> !is_white_space(s[0]) && !is_white_space(s.last())
}

proof fn lemma_trim_start_shape(s: Seq<char>)
    ensures
        trim_start(s).len() > 0 ==> !is_white_space(trim_start(s)[0]),
    decreases s.len(),
{
    if s.len() > 0 && is_white_space(s[0]) {
        lemma_trim_start_shape(s.drop_first());
    }
}

proof fn lemma_trim_end_keeps_first(s: Seq<char>)
    ensures
        trim_end(s).len() <= s.len(),
        trim_end(s).len() > 0 ==> trim_end(s)[0] == s[0] && !is_white_space(trim_end(s).last()),
    decreases s.len(),
{
    if s.len() > 0 && is_white_space(s.last()) {
        lemma_trim_end_keeps_first(s.drop_last());
    }
}

/// What `str::trim` returns has no white space at either end.
pub proof fn lemma_trim_is_trimmed(s: Seq<char>)
    ensures
        is_trimmed(trim(s)),
{
    lemma_trim_start_shape(s);
    lemma_trim_end_keeps_first(trim_start(s));
}

/// What `str::to_lowercase` gives for a text that holds a character other
/// than ASCII and the German umlauts: the lowercase mapping of each character
/// as Unicode defines it (with its context rule for the final sigma).
pub uninterp spec fn unicode_lowercase(s: Seq<char>) -> Seq<char>;

/// An ASCII uppercase letter.
pub open spec fn is_ascii_upper(c: char) -> bool {
    'A' <= c && c <= 'Z'
}

/// One of the capital umlauts, U+00C4, U+00D6 and U+00DC.
pub open spec fn is_umlaut_capital(c: char) -> bool {
    c == '\u{c4}' || c == '\u{d6}' || c == '\u{dc}'
}

/// One of the small umlauts, U+00E4, U+00F6 and U+00FC.
pub open spec fn is_umlaut_small(c: char) -> bool {
    c == '\u{e4}' || c == '\u{f6}' || c == '\u{fc}'
}

/// A character whose lowercase form this library states: an ASCII character
/// or a German umlaut.
pub open spec fn has_plain_case(c: char) -> bool {
    (c as u32) < 128 || is_umlaut_capital(c) || is_umlaut_small(c)
}

/// Every character of `s` is ASCII or a German umlaut.
pub open spec fn is_plain_case_text(s: Seq<char>) -> bool {
    forall|i: int| 0 <= i < s.len() ==> has_plain_case(#[trigger] s[i])
}

/// The lowercase form of a character of plain case: `A`..`Z` and the
/// capital umlauts each lie 32 code points below their small letter; every
/// other such character is its own lowercase form.
pub open spec fn lower_char(c: char) -> char {
    if is_ascii_upper(c) || is_umlaut_capital(c) { ((c as u32) + 32) as char } else { c }
}

/// The text `str::to_lowercase` gives: on text of ASCII characters and German
/// umlauts, each character replaced by [`lower_char`]; on any other text the
/// Unicode mapping.
pub open spec fn lowercase(s: Seq<char>) -> Seq<char> {
    if is_plain_case_text(s) {
        s.map_values(|c: char| lower_char(c))
    } else {
        unicode_lowercase(s)
    }
}

/// The views of a list of strings.
pub open spec fn string_views(v: Seq<String>) -> Seq<Seq<char>> {
    v.map_values(|p: String| p@)
}

/// `parts` joined with `sep` between neighbours, as `[String]::join` does.
pub open spec fn join(parts: Seq<Seq<char>>, sep: Seq<char>) -> Seq<char>
    decreases parts.len(),
{
    if parts.len() == 0 {
        Seq::empty()
    } else if parts.len() == 1 {
        parts[0]
    } else {
        join(parts.drop_last(), sep) + sep + parts.last()
    }
}

/// Every occurrence of `from` in `s` replaced by `to`.
pub open spec fn replace_char(s: Seq<char>, from: char, to: char) -> Seq<char> {
    s.map_values(|c: char| if c == from { to } else { c })
}

/// The decimal digit for `d < 10`.
pub open spec fn digit_char(d: nat) -> char {
    if d == 0 { '0' }
    else if d == 1 { '1' }
    else if d == 2 { '2' }
    else if d == 3 { '3' }
    else if d == 4 { '4' }
    else if d == 5 { '5' }
    else if d == 6 { '6' }
    else if d == 7 { '7' }
    else if d == 8 { '8' }
    else { '9' }
}

/// The decimal notation of `n`, without leading zeros, as `Display` writes it.
pub open spec fn decimal(n: nat) -> Seq<char>
    decreases n,
{
    if n < 10 {
        seq![digit_char(n)]
    } else {
        decimal(n / 10).push(digit_char(n % 10))
    }
}

/// Calls `str::trim`: the slice without leading and trailing characters of
/// the Unicode `White_Space` property, copied into a new `String`.
#[verifier::external_body]
pub(crate) fn str_trim(s: &str) -> (r: String)
    ensures
        r@ == trim(s@),
{
    s.trim().to_string()
}

/// Calls `str::to_lowercase`; the result is [`lowercase`]. On text of ASCII
/// characters and German umlauts each character maps on its own (`A`..`Z`
/// and the capital umlauts to their small letters, the rest unchanged); on
/// other text the Unicode mapping is named, not stated. Either way no ASCII
/// uppercase letter is left, since each maps to its small letter.
#[verifier::external_body]
pub(crate) fn str_to_lowercase(s: &str) -> (r: String)
    ensures
        r@ == lowercase(s@),
        r@ == unicode_lowercase(s@) <== !is_plain_case_text(s@),
        forall|i: int| 0 <= i < r@.len() ==> !is_ascii_upper(#[trigger] r@[i]),
{
    s.to_lowercase()
}

/// Calls `str::chars`, collected: the characters of `s` in order.
#[verifier::external_body]
pub(crate) fn chars_of(s: &str) -> (v: Vec<char>)
    ensures
        v@ == s@,
{
    s.chars().collect()
}

/// Calls `String::from_iter` on characters: the string of exactly those characters.
#[verifier::external_body]
pub(crate) fn string_of(v: &[char]) -> (s: String)
    ensures
        s@ == v@,
{
    v.iter().collect()
}

/// Calls `String::from_utf8`: succeeds exactly on valid UTF-8 and then holds
/// the decoded characters.
#[verifier::external_body]
pub(crate) fn utf8_to_string(bytes: Vec<u8>) -> (r: Option<String>)
    ensures
        r is Some <==> valid_utf8(bytes@),
        r matches Some(s) ==> s@ == decode_utf8(bytes@),
{
    String::from_utf8(bytes).ok()
}

/// The decimal digit for `d < 10`.
pub fn digit(d: usize) -> (c: char)
    requires
        d < 10,
    ensures
        c == digit_char(d as nat),
{
    if d == 0 { '0' }
    else if d == 1 { '1' }
    else if d == 2 { '2' }
    else if d == 3 { '3' }
    else if d == 4 { '4' }
    else if d == 5 { '5' }
    else if d == 6 { '6' }
    else if d == 7 { '7' }
    else if d == 8 { '8' }
    else { '9' }
}

/// The characters of the decimal notation of `n`.
pub fn decimal_chars(n: usize) -> (v: Vec<char>)
    ensures
        v@ == decimal(n as nat),
    decreases n,
{
    if n < 10 {
        let mut v: Vec<char> = Vec::new();
        v.push(digit(n));
        v
    } else {
        let mut v = decimal_chars(n / 10);
        v.push(digit(n % 10));
        v
    }
}

/// `parts` joined with `sep` between neighbours.
pub fn join_strings(parts: &Vec<String>, sep: &str) -> (r: String)
    ensures
        r@ == join(string_views(parts@), sep@),
{
    let ghost views = string_views(parts@);
    let mut out: Vec<char> = Vec::new();
    let sep_chars = chars_of(sep);
    let mut i: usize = 0;
    while i < parts.len()
        invariant
            i <= parts.len(),
            views == string_views(parts@),
            sep_chars@ == sep@,
            out@ == join(views.take(i as int), sep@),
        decreases parts.len() - i,
    {
        assert(views.take(i + 1).drop_last() =~= views.take(i as int));
        if i > 0 {
            let mut k: usize = 0;
            let ghost before = out@;
            while k < sep_chars.len()
                invariant
                    k <= sep_chars.len(),
                    out@ == before + sep_chars@.take(k as int),
                decreases sep_chars.len() - k,
            {
                out.push(sep_chars[k]);
                assert(sep_chars@.take(k + 1) =~= sep_chars@.take(k as int).push(sep_chars@[k as int]));
                k = k + 1;
            }
            assert(sep_chars@.take(k as int) =~= sep_chars@);
        }
        let part = chars_of(parts[i].as_str());
        let ghost before = out@;
        let mut k: usize = 0;
        while k < part.len()
            invariant
                k <= part.len(),
                out@ == before + part@.take(k as int),
            decreases part.len() - k,
        {
            out.push(part[k]);
            assert(part@.take(k + 1) =~= part@.take(k as int).push(part@[k as int]));
            k = k + 1;
        }
        assert(part@.take(k as int) =~= part@);
        assert(views[i as int] == parts@[i as int]@);
        i = i + 1;
        assert(out@ =~= join(views.take(i as int), sep@));
    }
    assert(views.take(i as int) =~= views);
    string_of(out.as_slice())
}

/// `s` with every space turned into `-`, as `str::replace(" ", "-")` returns it.
pub fn replace_spaces(s: &str) -> (r: String)
    ensures
        r@ == replace_char(s@, ' ', '-'),
{
    let chars = chars_of(s);
    let mut out: Vec<char> = Vec::new();
    let mut i: usize = 0;
    while i < chars.len()
        invariant
            i <= chars.len(),
            chars@ == s@,
            out@ == replace_char(s@.take(i as int), ' ', '-'),
        decreases chars.len() - i,
    {
        let c = if chars[i] == ' ' { '-' } else { chars[i] };
        out.push(c);
        assert(replace_char(s@.take(i + 1), ' ', '-') =~= replace_char(s@.take(i as int), ' ', '-').push(c));
        i = i + 1;
    }
    assert(s@.take(i as int) =~= s@);
    string_of(out.as_slice())
}

} // verus!
