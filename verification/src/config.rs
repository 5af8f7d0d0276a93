//! The importer's configuration, taken from environment variables named
//! `APP__<SECTION>_<FIELD>` (case does not matter): `APP__ATS_ENDPOINT` and
//! `APP__DB_URI`.

use crate::text::{chars_of, lowercase, str_to_lowercase};
use std::collections::HashMap;
use vstd::prelude::*;

verus! {

#[verifier::external_type_specification]
#[verifier::external_body]
pub struct ExConfigError(::config::ConfigError);

/// Where the applicant-tracking system publishes its feed.
#[derive(Debug, Clone)]
pub struct ATS {
    pub endpoint: String,
}

/// Where the job documents are stored.
#[derive(Debug, Clone)]
pub struct Database {
    pub uri: String,
}

/// The importer's configuration.
#[derive(Debug, Clone)]
pub struct Configuration {
    pub ats: ATS,
    pub db: Database,
}

/// A configuration value that could not be read, by its key.
#[derive(Debug, Clone)]
pub struct ConfigurationError {
    pub key: String,
}

/// `s` with every occurrence of the non-empty `pat`, taken left to right
/// without overlap, replaced by `rep`.
pub open spec fn replace_all_str(s: Seq<char>, pat: Seq<char>, rep: Seq<char>) -> Seq<char>
    decreases s.len(),
{
    if pat.len() == 0 || s.len() == 0 {
        s
    } else if s.len() >= pat.len() && s.take(pat.len() as int) == pat {
        rep + replace_all_str(s.skip(pat.len() as int), pat, rep)
    } else {
        seq![s[0]] + replace_all_str(s.drop_first(), pat, rep)
    }
}

/// The configuration key that the environment variable `name` sets, for a
/// source with the given prefix and separators: the lowercased name must
/// start with the lowercased prefix and prefix separator, which are cut
/// off, and each separator in the rest becomes a `.`.
pub open spec fn env_config_key(name: Seq<char>, prefix: Seq<char>, prefix_sep: Seq<char>, sep: Seq<char>) -> Option<Seq<char>> {
    let key = lowercase(name);
    let pattern = lowercase(prefix + prefix_sep);
    if key.len() >= pattern.len() && key.take(pattern.len() as int) == pattern {
        let rest = key.skip(pattern.len() as int);
        Some(if sep.len() > 0 { replace_all_str(rest, sep, seq!['.']) } else { rest })
    } else {
        None
    }
}

/// Some variable of `vars` sets `key`, with the given prefix and separators.
pub open spec fn env_sets(vars: Seq<(String, String)>, prefix: Seq<char>, prefix_sep: Seq<char>, sep: Seq<char>, key: Seq<char>) -> bool {
    exists|i: int| 0 <= i < vars.len() && env_config_key(#[trigger] vars[i].0@, prefix, prefix_sep, sep) == Some(key)
}

/// Some variable of `vars` sets `key` to `value`.
pub open spec fn env_sets_to(vars: Seq<(String, String)>, prefix: Seq<char>, prefix_sep: Seq<char>, sep: Seq<char>, key: Seq<char>, value: Seq<char>) -> bool {
    exists|i: int| 0 <= i < vars.len() && env_config_key(#[trigger] vars[i].0@, prefix, prefix_sep, sep) == Some(key) && vars[i].1@ == value
}


/// `p` names a table on the way to `k`: `k` goes on after `p` with a `.`.
pub open spec fn is_parent_path(p: Seq<char>, k: Seq<char>) -> bool {
    p.len() < k.len() && k.take(p.len() as int) == p && k[p.len() as int] == '.'
}

/// Setting `other` can replace or hide what is stored under `key`: it is
/// `key` itself, a key below it, or a key that names a table on the way to
/// it (so that a text would stand where a table must).
pub open spec fn keys_conflict(other: Seq<char>, key: Seq<char>) -> bool {
    other == key || is_parent_path(key, other) || is_parent_path(other, key)
}

/// A character of a plain configuration key.
pub open spec fn is_plain_key_char(c: char) -> bool {
    ('a' <= c && c <= 'z') || ('0' <= c && c <= '9') || c == '_' || c == '-' || c == '.'
}

/// A key of non-empty lowercase names joined by `.`, such as `ats.endpoint`.
pub open spec fn is_plain_key(k: Seq<char>) -> bool {
    &&& k.len() > 0
    &&& forall|i: int| 0 <= i < k.len() ==> is_plain_key_char(#[trigger] k[i])
    &&& k[0] != '.'
    &&& k.last() != '.'
    &&& forall|i: int| 0 <= i < k.len() - 1 ==> !(#[trigger] k[i] == '.' && k[i + 1] == '.')
}

/// Variable `i` sets `key`, and no other variable sets a key that conflicts
/// with it.
pub open spec fn env_sole_setter(vars: Seq<(String, String)>, prefix: Seq<char>, prefix_sep: Seq<char>, sep: Seq<char>, key: Seq<char>, i: int) -> bool {
    &&& 0 <= i < vars.len()
    &&& env_config_key(vars[i].0@, prefix, prefix_sep, sep) == Some(key)
    &&& forall|j: int| 0 <= j < vars.len() && j != i ==> match #[trigger] env_config_key(vars[j].0@, prefix, prefix_sep, sep) {
        Some(other) => !keys_conflict(other, key),
        None => true,
    }
}

/// No variable of `vars` sets a key with an array index (`[`): the config
/// crate sizes the array to the index, so it panics on a negative index
/// and exhausts memory on a large one.
pub open spec fn env_free_of_subscripts(vars: Seq<(String, String)>, prefix: Seq<char>, prefix_sep: Seq<char>, sep: Seq<char>) -> bool {
    forall|i: int| 0 <= i < vars.len() ==> match #[trigger] env_config_key(vars[i].0@, prefix, prefix_sep, sep) {
        Some(k) => !k.contains('['),
        None => true,
    }
}

/// Builds a `config::Config` from one `config::Environment` source that
/// reads `vars` in place of the process environment, with the given prefix
/// and separators, and calls `Config::get_string(key)`, which looks up the
/// lowercased `key`.
/// - A string found there was set by a variable that maps to exactly that
///   key, and with no such variable nothing is found.
/// - For a plain key, where one variable sets it and no other variable
///   sets a conflicting key, that variable's value is found.
/// - Which value is found where variables set conflicting keys is not
///   stated: the source walks a hash map.
#[verifier::external_body]
fn env_config_string(vars: &Vec<(String, String)>, prefix: &str, prefix_sep: &str, sep: &str, key: &str) -> (r: Result<String, ::config::ConfigError>)
    requires
        env_free_of_subscripts(vars@, prefix@, prefix_sep@, sep@),
    ensures
        r matches Ok(v) ==> env_sets_to(vars@, prefix@, prefix_sep@, sep@, lowercase(key@), v@),
        !env_sets(vars@, prefix@, prefix_sep@, sep@, lowercase(key@)) ==> r is Err,
        forall|i: int| is_plain_key(lowercase(key@)) && env_sole_setter(vars@, prefix@, prefix_sep@, sep@, lowercase(key@), i)
            ==> (r is Ok && r->Ok_0@ == vars@[i].1@),
{
    let source: HashMap<String, String> = vars.iter().cloned().collect();
    let env = ::config::Environment::with_prefix(prefix).prefix_separator(prefix_sep).separator(sep).source(Some(source));
    ::config::Config::builder().add_source(env).build()?.get_string(key)
}

/// Some variable of `vars` sets the key `key` of the importer.
pub open spec fn app_sets(vars: Seq<(String, String)>, key: Seq<char>) -> bool {
    env_sets(vars, "APP"@, "__"@, "_"@, key)
}

/// Some variable of `vars` sets the key `key` of the importer to `value`.
pub open spec fn app_sets_to(vars: Seq<(String, String)>, key: Seq<char>, value: Seq<char>) -> bool {
    env_sets_to(vars, "APP"@, "__"@, "_"@, key, value)
}

/// Variable `i` sets the key `key` of the importer, and no other variable
/// sets a conflicting key.
pub open spec fn app_sole_setter(vars: Seq<(String, String)>, key: Seq<char>, i: int) -> bool {
    env_sole_setter(vars, "APP"@, "__"@, "_"@, key, i)
}

/// No variable sets a key of the importer with an array index.
pub open spec fn app_free_of_subscripts(vars: Seq<(String, String)>) -> bool {
    env_free_of_subscripts(vars, "APP"@, "__"@, "_"@)
}

/// The two keys of the importer are plain and already lowercase.
pub proof fn lemma_importer_keys_plain()
    ensures
        lowercase("ats.endpoint"@) == "ats.endpoint"@,
        is_plain_key("ats.endpoint"@),
        lowercase("db.uri"@) == "db.uri"@,
        is_plain_key("db.uri"@),
{
    reveal_strlit("ats.endpoint");
    reveal_strlit("db.uri");
    let a = "ats.endpoint"@;
    let d = "db.uri"@;
    assert(a.len() == 12 && d.len() == 6);
    assert forall|i: int| 0 <= i < a.len() implies is_plain_key_char(#[trigger] a[i]) && (a[i] as u32) < 128 && !('A' <= a[i] && a[i] <= 'Z') by {}
    assert forall|i: int| 0 <= i < d.len() implies is_plain_key_char(#[trigger] d[i]) && (d[i] as u32) < 128 && !('A' <= d[i] && d[i] <= 'Z') by {}
    assert(lowercase(a) =~= a);
    assert(lowercase(d) =~= d);
}

/// A configuration by its two values, or the key of the value that could
/// not be read.
pub open spec fn config_view(r: Result<Configuration, ConfigurationError>) -> Result<(Seq<char>, Seq<char>), Seq<char>> {
    match r {
        Ok(c) => Ok((c.ats.endpoint@, c.db.uri@)),
        Err(e) => Err(e.key@),
    }
}

/// The value of the sole setter of `key`, if `key` has one.
pub open spec fn sole_value(vars: Seq<(String, String)>, key: Seq<char>) -> Option<Seq<char>> {
    if exists|i: int| app_sole_setter(vars, key, i) {
        Some(vars[choose|i: int| app_sole_setter(vars, key, i)].1@)
    } else {
        None
    }
}

/// What reading the configuration gives whatever order the variables are
/// taken in, or `None` where that order decides (variables set conflicting
/// keys): without a setter of `ats.endpoint` the error names it; with a sole
/// setter of it and no setter of `db.uri` the error names `db.uri`; with sole
/// setters of both, their values.
pub open spec fn settled_configuration(vars: Seq<(String, String)>) -> Option<Result<(Seq<char>, Seq<char>), Seq<char>>> {
    if !app_sets(vars, "ats.endpoint"@) {
        Some(Err("ats.endpoint"@))
    } else if let Some(endpoint) = sole_value(vars, "ats.endpoint"@) {
        if !app_sets(vars, "db.uri"@) {
            Some(Err("db.uri"@))
        } else if let Some(uri) = sole_value(vars, "db.uri"@) {
            Some(Ok((endpoint, uri)))
        } else {
            None
        }
    } else {
        None
    }
}

/// A key has at most one sole setter.
proof fn lemma_sole_setter_unique(vars: Seq<(String, String)>, key: Seq<char>, i: int, j: int)
    requires
        app_sole_setter(vars, key, i),
        app_sole_setter(vars, key, j),
    ensures
        i == j,
{
    if i != j {
        assert(env_config_key(vars[j].0@, "APP"@, "__"@, "_"@) == Some(key));
        assert(keys_conflict(key, key));
    }
}

fn app_value(vars: &Vec<(String, String)>, key: &str) -> (r: Result<String, ConfigurationError>)
    requires
        app_free_of_subscripts(vars@),
        lowercase(key@) == key@,
        is_plain_key(key@),
    ensures
        r matches Ok(v) ==> app_sets_to(vars@, key@, v@),
        r matches Err(e) ==> e.key@ == key@,
        !app_sets(vars@, key@) ==> r is Err,
        forall|i: int| app_sole_setter(vars@, key@, i) ==> (r is Ok && r->Ok_0@ == vars@[i].1@),
{
    match env_config_string(vars, "APP", "__", "_", key) {
        Ok(v) => Ok(v),
        Err(_) => Err(ConfigurationError { key: key.to_owned() }),
    }
}

/// Reads the configuration from the environment variables `vars` (name,
/// value): `ats.endpoint` and `db.uri`, set by `APP__ATS_ENDPOINT` and
/// `APP__DB_URI` in any case.
pub fn get_configuration(vars: &Vec<(String, String)>) -> (r: Result<Configuration, ConfigurationError>)
    requires
        app_free_of_subscripts(vars@),
    ensures
        r matches Ok(c) ==> app_sets_to(vars@, "ats.endpoint"@, c.ats.endpoint@) && app_sets_to(vars@, "db.uri"@, c.db.uri@),
        !app_sets(vars@, "ats.endpoint"@) ==> (r matches Err(e) && e.key@ == "ats.endpoint"@),
        !app_sets(vars@, "db.uri"@) ==> r is Err,
        r matches Err(e) ==> e.key@ == "ats.endpoint"@ || e.key@ == "db.uri"@,
        forall|i: int| app_sole_setter(vars@, "ats.endpoint"@, i) ==> (r is Ok || (r matches Err(e) && e.key@ == "db.uri"@)),
        forall|i: int, j: int| app_sole_setter(vars@, "ats.endpoint"@, i) && app_sole_setter(vars@, "db.uri"@, j) ==> {
            &&& r is Ok
            &&& r->Ok_0.ats.endpoint@ == vars@[i].1@
            &&& r->Ok_0.db.uri@ == vars@[j].1@
        },
        settled_configuration(vars@) matches Some(o) ==> config_view(r) == o,
{
    proof {
        lemma_importer_keys_plain();
    }
    let endpoint = app_value(vars, "ats.endpoint")?;
    let uri = app_value(vars, "db.uri")?;
    Ok(Configuration { ats: ATS { endpoint }, db: Database { uri } })
}

/// Whether `s` starts with `p`.
fn starts_with(s: &Vec<char>, p: &Vec<char>) -> (b: bool)
    ensures
        b == (s@.len() >= p@.len() && s@.take(p@.len() as int) == p@),
{
    if s.len() < p.len() {
        return false;
    }
    let mut i: usize = 0;
    while i < p.len()
        invariant
            i <= p.len(),
            p.len() <= s.len(),
            forall|t: int| 0 <= t < i ==> s@[t] == p@[t],
        decreases p.len() - i,
    {
        if s[i] != p[i] {
            assert(s@.take(p@.len() as int)[i as int] != p@[i as int]);
            return false;
        }
        i = i + 1;
    }
    assert(s@.take(p@.len() as int) =~= p@);
    true
}

/// Whether `pat` occurs in `s` at position `i`.
fn occurs_at(s: &Vec<char>, i: usize, pat: &Vec<char>) -> (b: bool)
    requires
        i <= s.len(),
    ensures
        b == (s@.skip(i as int).len() >= pat@.len() && s@.skip(i as int).take(pat@.len() as int) == pat@),
{
    if s.len() - i < pat.len() {
        return false;
    }
    let mut t: usize = 0;
    while t < pat.len()
        invariant
            t <= pat.len(),
            i + pat.len() <= s.len(),
            forall|u: int| 0 <= u < t ==> s@[i + u] == pat@[u],
        decreases pat.len() - t,
    {
        if s[i + t] != pat[t] {
            assert(s@.skip(i as int).take(pat@.len() as int)[t as int] != pat@[t as int]);
            return false;
        }
        t = t + 1;
    }
    assert(s@.skip(i as int).take(pat@.len() as int) =~= pat@);
    true
}

/// `s` with every occurrence of the non-empty `pat` replaced by `rep`.
fn replace_occurrences(s: &Vec<char>, pat: &Vec<char>, rep: &Vec<char>) -> (r: Vec<char>)
    requires
        pat@.len() > 0,
    ensures
        r@ == replace_all_str(s@, pat@, rep@),
{
    let mut out: Vec<char> = Vec::new();
    let mut i: usize = 0;
    assert(s@.skip(0) =~= s@);
    while i < s.len()
        invariant
            i <= s.len(),
            pat@.len() > 0,
            out@ + replace_all_str(s@.skip(i as int), pat@, rep@) == replace_all_str(s@, pat@, rep@),
        decreases s.len() - i,
    {
        let ghost rest = s@.skip(i as int);
        if occurs_at(s, i, pat) {
            let mut t: usize = 0;
            let ghost before = out@;
            while t < rep.len()
                invariant
                    t <= rep.len(),
                    out@ == before + rep@.take(t as int),
                decreases rep.len() - t,
            {
                out.push(rep[t]);
                assert(rep@.take(t + 1) =~= rep@.take(t as int).push(rep@[t as int]));
                t = t + 1;
            }
            assert(rep@.take(t as int) =~= rep@);
            assert(rest.skip(pat@.len() as int) =~= s@.skip(i + pat@.len()));
            assert(out@ + replace_all_str(s@.skip(i + pat@.len()), pat@, rep@) =~= before + (rep@ + replace_all_str(rest.skip(pat@.len() as int), pat@, rep@)));
            i = i + pat.len();
        } else {
            let ghost before = out@;
            out.push(s[i]);
            assert(rest[0] == s@[i as int]);
            assert(rest.drop_first() =~= s@.skip(i + 1));
            assert(out@ + replace_all_str(s@.skip(i + 1), pat@, rep@) =~= before + (seq![rest[0]] + replace_all_str(rest.drop_first(), pat@, rep@)));
            i = i + 1;
        }
    }
    assert(out@ + replace_all_str(s@.skip(i as int), pat@, rep@) =~= out@);
    out
}

/// The configuration key that the variable `name` sets.
pub fn env_key(name: &str, prefix: &str, prefix_sep: &str, sep: &str) -> (r: Option<Vec<char>>)
    ensures
        match env_config_key(name@, prefix@, prefix_sep@, sep@) {
            Some(k) => r is Some && r->0@ == k,
            None => r is None,
        },
{
    let key = chars_of(str_to_lowercase(name).as_str());
    let mut both = prefix.to_owned();
    both.append(prefix_sep);
    let pattern = chars_of(str_to_lowercase(both.as_str()).as_str());
    if !starts_with(&key, &pattern) {
        return None;
    }
    let mut rest: Vec<char> = Vec::new();
    let mut i: usize = pattern.len();
    while i < key.len()
        invariant
            pattern.len() <= i <= key.len(),
            rest@ == key@.subrange(pattern@.len() as int, i as int),
        decreases key.len() - i,
    {
        rest.push(key[i]);
        assert(key@.subrange(pattern@.len() as int, i + 1) =~= key@.subrange(pattern@.len() as int, i as int).push(key@[i as int]));
        i = i + 1;
    }
    assert(rest@ =~= key@.skip(pattern@.len() as int));
    let sep_chars = chars_of(sep);
    if sep_chars.len() > 0 {
        let mut dot: Vec<char> = Vec::new();
        dot.push('.');
        assert(dot@ =~= seq!['.']);
        Some(replace_occurrences(&rest, &sep_chars, &dot))
    } else {
        Some(rest)
    }
}

/// Whether `k` holds an array index.
pub fn key_has_subscript(k: &Vec<char>) -> (b: bool)
    ensures
        b == k@.contains('['),
{
    let mut i: usize = 0;
    while i < k.len()
        invariant
            i <= k.len(),
            forall|t: int| 0 <= t < i ==> k@[t] != '[',
        decreases k.len() - i,
    {
        if k[i] == '[' {
            return true;
        }
        i = i + 1;
    }
    false
}

/// Whether no variable sets a key of the importer with an array index.
pub fn free_of_subscripts(vars: &Vec<(String, String)>) -> (b: bool)
    ensures
        b == app_free_of_subscripts(vars@),
{
    let mut i: usize = 0;
    while i < vars.len()
        invariant
            i <= vars.len(),
            forall|t: int| 0 <= t < i ==> match #[trigger] env_config_key(vars@[t].0@, "APP"@, "__"@, "_"@) {
                Some(k) => !k.contains('['),
                None => true,
            },
        decreases vars.len() - i,
    {
        match env_key(vars[i].0.as_str(), "APP", "__", "_") {
            Some(k) => {
                if key_has_subscript(&k) {
                    return false;
                }
            },
            None => {},
        }
        i = i + 1;
    }
    true
}

/// Reads the configuration as [`get_configuration`] does, or gives `None`
/// where a variable sets a key of the importer with an array index.
pub fn checked_get_configuration(vars: &Vec<(String, String)>) -> (r: Option<Result<Configuration, ConfigurationError>>)
    ensures
        r is None <==> !app_free_of_subscripts(vars@),
        r matches Some(res) ==> {
            &&& res matches Ok(c) ==> app_sets_to(vars@, "ats.endpoint"@, c.ats.endpoint@) && app_sets_to(vars@, "db.uri"@, c.db.uri@)
            &&& !app_sets(vars@, "ats.endpoint"@) ==> (res matches Err(e) && e.key@ == "ats.endpoint"@)
            &&& !app_sets(vars@, "db.uri"@) ==> res is Err
            &&& res matches Err(e) ==> e.key@ == "ats.endpoint"@ || e.key@ == "db.uri"@
            &&& forall|i: int| app_sole_setter(vars@, "ats.endpoint"@, i) ==> (res is Ok || (res matches Err(e) && e.key@ == "db.uri"@))
            &&& forall|i: int, j: int| app_sole_setter(vars@, "ats.endpoint"@, i) && app_sole_setter(vars@, "db.uri"@, j) ==> {
                &&& res is Ok
                &&& res->Ok_0.ats.endpoint@ == vars@[i].1@
                &&& res->Ok_0.db.uri@ == vars@[j].1@
            }
            &&& settled_configuration(vars@) matches Some(o) ==> config_view(res) == o
        },
{
    if free_of_subscripts(vars) {
        Some(get_configuration(vars))
    } else {
        None
    }
}

/// Variables whose names do not carry the importer's prefix change nothing:
/// with them added, the same keys are set, to the same values, the same
/// variable is the sole setter of a key, and the same keys carry indices.
pub proof fn lemma_unprefixed_variables_ignored(vars: Seq<(String, String)>, extra: Seq<(String, String)>, key: Seq<char>, value: Seq<char>, i: int)
    requires
        forall|t: int| 0 <= t < extra.len() ==> #[trigger] env_config_key(extra[t].0@, "APP"@, "__"@, "_"@) is None,
    ensures
        app_sets(vars + extra, key) == app_sets(vars, key),
        app_sets_to(vars + extra, key, value) == app_sets_to(vars, key, value),
        app_sole_setter(vars + extra, key, i) == app_sole_setter(vars, key, i),
        app_free_of_subscripts(vars + extra) == app_free_of_subscripts(vars),
{
    let all = vars + extra;
    assert forall|t: int| vars.len() <= t < all.len() implies #[trigger] env_config_key(all[t].0@, "APP"@, "__"@, "_"@) is None by {
        assert(all[t] == extra[t - vars.len()]);
    }
    assert forall|t: int| 0 <= t < vars.len() implies #[trigger] all[t] == vars[t] by {}
    if app_sets(all, key) {
        let t = choose|t: int| 0 <= t < all.len() && env_config_key(#[trigger] all[t].0@, "APP"@, "__"@, "_"@) == Some(key);
        assert(t < vars.len());
        assert(all[t] == vars[t]);
    }
    if app_sets(vars, key) {
        let t = choose|t: int| 0 <= t < vars.len() && env_config_key(#[trigger] vars[t].0@, "APP"@, "__"@, "_"@) == Some(key);
        assert(all[t] == vars[t]);
    }
    if app_sets_to(all, key, value) {
        let t = choose|t: int| 0 <= t < all.len() && env_config_key(#[trigger] all[t].0@, "APP"@, "__"@, "_"@) == Some(key) && all[t].1@ == value;
        assert(t < vars.len());
        assert(all[t] == vars[t]);
    }
    if app_sets_to(vars, key, value) {
        let t = choose|t: int| 0 <= t < vars.len() && env_config_key(#[trigger] vars[t].0@, "APP"@, "__"@, "_"@) == Some(key) && vars[t].1@ == value;
        assert(all[t] == vars[t]);
    }
    if app_sole_setter(vars, key, i) {
        assert forall|j: int| 0 <= j < all.len() && j != i implies match #[trigger] env_config_key(all[j].0@, "APP"@, "__"@, "_"@) {
            Some(other) => !keys_conflict(other, key),
            None => true,
        } by {
            if j < vars.len() {
                assert(all[j] == vars[j]);
            }
        }
    }
    if app_sole_setter(all, key, i) {
        assert(i < vars.len());
        assert forall|j: int| 0 <= j < vars.len() && j != i implies match #[trigger] env_config_key(vars[j].0@, "APP"@, "__"@, "_"@) {
            Some(other) => !keys_conflict(other, key),
            None => true,
        } by {
            assert(all[j] == vars[j]);
        }
    }
    if app_free_of_subscripts(vars) {
        assert forall|t: int| 0 <= t < all.len() implies match #[trigger] env_config_key(all[t].0@, "APP"@, "__"@, "_"@) {
            Some(k) => !k.contains('['),
            None => true,
        } by {
            if t < vars.len() {
                assert(all[t] == vars[t]);
            }
        }
    }
    if app_free_of_subscripts(all) {
        assert forall|t: int| 0 <= t < vars.len() implies match #[trigger] env_config_key(vars[t].0@, "APP"@, "__"@, "_"@) {
            Some(k) => !k.contains('['),
            None => true,
        } by {
            assert(all[t] == vars[t]);
        }
    }
}

proof fn lemma_sole_value_unprefixed(vars: Seq<(String, String)>, extra: Seq<(String, String)>, key: Seq<char>)
    requires
        forall|t: int| 0 <= t < extra.len() ==> #[trigger] env_config_key(extra[t].0@, "APP"@, "__"@, "_"@) is None,
    ensures
        sole_value(vars + extra, key) == sole_value(vars, key),
{
    let all = vars + extra;
    if exists|i: int| app_sole_setter(all, key, i) {
        let i = choose|i: int| app_sole_setter(all, key, i);
        lemma_unprefixed_variables_ignored(vars, extra, key, Seq::empty(), i);
        assert(app_sole_setter(vars, key, i));
        let k = choose|k: int| app_sole_setter(vars, key, k);
        lemma_sole_setter_unique(vars, key, i, k);
        assert(all[i] == vars[i]);
    } else if exists|k: int| app_sole_setter(vars, key, k) {
        let k = choose|k: int| app_sole_setter(vars, key, k);
        lemma_unprefixed_variables_ignored(vars, extra, key, Seq::empty(), k);
        assert(app_sole_setter(all, key, k));
    }
}

/// Variables whose names do not carry the importer's prefix do not change
/// what reading the configuration gives: where it is settled without them it
/// is settled with them, to the same outcome, and the other way round.
pub proof fn lemma_configuration_ignores_unprefixed(vars: Seq<(String, String)>, extra: Seq<(String, String)>)
    requires
        forall|t: int| 0 <= t < extra.len() ==> #[trigger] env_config_key(extra[t].0@, "APP"@, "__"@, "_"@) is None,
    ensures
        settled_configuration(vars + extra) == settled_configuration(vars),
        app_free_of_subscripts(vars + extra) == app_free_of_subscripts(vars),
{
    lemma_unprefixed_variables_ignored(vars, extra, "ats.endpoint"@, Seq::empty(), 0);
    lemma_unprefixed_variables_ignored(vars, extra, "db.uri"@, Seq::empty(), 0);
    lemma_sole_value_unprefixed(vars, extra, "ats.endpoint"@);
    lemma_sole_value_unprefixed(vars, extra, "db.uri"@);
}

} // verus!
