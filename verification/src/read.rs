//! The simple feed reader: it keeps element paths across
//! postings and numbers no repeated siblings, so a later sibling's text
//! replaces an earlier one's under the same key.

use crate::strmap::{FieldMap, StrMap};
use crate::text::{str_trim, string_views, trim, utf8_to_string};
use crate::xml::events::{payload_is_utf8, token_views, tokenize, xml_token_stream, TokenView, XmlToken};
use crate::xml::read::{
    bytes_equal, free_of_errors, key_of_path, map_views, no_fields, path_key,
    position_tag, position_tag_bytes, root_tag, root_tag_bytes, tokens_free_of_errors,
    with_current, FeedRead, ReadError, context_key, initial_stream_state, seen_before, spec_read_stream,
    stream_run, stream_step, StreamState,
};
use vstd::prelude::*;
use vstd::utf8::*;

verus! {

/// The state of the simple reader between two tokens.
pub struct SteamState {
    pub path: Seq<Seq<char>>,
    pub map: Map<Seq<char>, Seq<char>>,
    pub jobs: Seq<Map<Seq<char>, Seq<char>>>,
    pub positions: nat,
}

pub open spec fn initial_steam_state() -> SteamState {
    SteamState { path: Seq::empty(), map: no_fields(), jobs: Seq::empty(), positions: 0 }
}

/// A decoded text stored under the current path when non-empty.
pub open spec fn steam_store(st: SteamState, text: Seq<char>) -> SteamState {
    if text.len() > 0 && st.path.len() > 0 {
        SteamState { map: st.map.insert(path_key(st.path), text), ..st }
    } else {
        st
    }
}

/// The effect of one token on the state: CDATA is trimmed, text is stored
/// as the reader hands it over.
pub open spec fn steam_step(st: SteamState, t: TokenView) -> Result<SteamState, ReadError> {
    match t {
        TokenView::Start(name) => {
            if name == root_tag() {
                Ok(st)
            } else if name == position_tag() {
                Ok(SteamState {
                    map: no_fields(),
                    jobs: with_current(st.jobs, st.map),
                    positions: st.positions + 1,
                    ..st
                })
            } else if !valid_utf8(name) {
                Err(ReadError::InvalidUtf8)
            } else {
                Ok(SteamState { path: st.path.push(decode_utf8(name)), ..st })
            }
        },
        TokenView::CData(b) => if valid_utf8(b) {
            Ok(steam_store(st, trim(decode_utf8(b))))
        } else {
            Err(ReadError::InvalidUtf8)
        },
        TokenView::Text(b) => if valid_utf8(b) {
            Ok(steam_store(st, decode_utf8(b)))
        } else {
            Err(ReadError::InvalidUtf8)
        },
        TokenView::End => Ok(SteamState {
            path: if st.path.len() > 0 { st.path.drop_last() } else { st.path },
            ..st
        }),
        _ => Ok(st),
    }
}

/// The state after the tokens up to the end of the document.
pub open spec fn steam_run(st: SteamState, toks: Seq<TokenView>) -> Result<SteamState, ReadError>
    decreases toks.len(),
{
    if toks.len() == 0 || toks[0] is Eof {
        Ok(st)
    } else {
        match steam_step(st, toks[0]) {
            Ok(next) => steam_run(next, toks.drop_first()),
            Err(e) => Err(e),
        }
    }
}

/// The postings of a token stream and its number of `position` elements.
pub open spec fn spec_read_steam(toks: Seq<TokenView>) -> Result<(Seq<Map<Seq<char>, Seq<char>>>, nat), ReadError> {
    match steam_run(initial_steam_state(), toks) {
        Ok(st) => Ok((with_current(st.jobs, st.map), st.positions)),
        Err(e) => Err(e),
    }
}

struct SteamMachine {
    path: Vec<String>,
    map: FieldMap,
    jobs: Vec<FieldMap>,
    positions: usize,
}

impl View for SteamMachine {
    type V = SteamState;

    closed spec fn view(&self) -> SteamState {
        SteamState {
            path: string_views(self.path@),
            map: self.map@,
            jobs: map_views(self.jobs@),
            positions: self.positions as nat,
        }
    }
}

impl SteamMachine {
    fn store(&mut self, text: String)
        ensures
            final(self)@ == steam_store(old(self)@, text@),
    {
        if !text.as_str().is_empty() && self.path.len() > 0 {
            let key = key_of_path(&self.path);
            self.map.insert(key, text);
        }
    }

    fn step(&mut self, t: &XmlToken) -> (r: Result<(), ReadError>)
        requires
            old(self).positions < usize::MAX,
        ensures
            match steam_step(old(self)@, t@) {
                Ok(s) => r is Ok && final(self)@ == s,
                Err(e) => r == Err::<(), ReadError>(e),
            },
    {
        match t {
            XmlToken::Start(name) => {
                if bytes_equal(name, &root_tag_bytes()) {
                    return Ok(());
                }
                if bytes_equal(name, &position_tag_bytes()) {
                    self.positions = self.positions + 1;
                    if !self.map.is_empty() {
                        let mut current = StrMap::new();
                        std::mem::swap(&mut current, &mut self.map);
                        self.jobs.push(current);
                        assert(map_views(self.jobs@) =~= map_views(old(self).jobs@).push(old(self).map@));
                    } else {
                        self.map = StrMap::new();
                    }
                    return Ok(());
                }
                match utf8_to_string(name.clone()) {
                    Some(elem) => {
                        self.path.push(elem);
                        assert(self@.path =~= old(self)@.path.push(decode_utf8(name@)));
                        Ok(())
                    },
                    None => Err(ReadError::InvalidUtf8),
                }
            },
            XmlToken::CData(b) => match utf8_to_string(b.clone()) {
                Some(s) => {
                    self.store(str_trim(s.as_str()));
                    Ok(())
                },
                None => Err(ReadError::InvalidUtf8),
            },
            XmlToken::Text(b) => match utf8_to_string(b.clone()) {
                Some(s) => {
                    self.store(s);
                    Ok(())
                },
                None => Err(ReadError::InvalidUtf8),
            },
            XmlToken::End => {
                if self.path.len() > 0 {
                    self.path.pop();
                    assert(self@.path =~= old(self)@.path.drop_last());
                }
                Ok(())
            },
            _ => Ok(()),
        }
    }
}

/// Reads postings from a list of tokens the way [`read_steam`] does.
pub fn read_steam_tokens(tokens: &Vec<XmlToken>) -> (r: Result<FeedRead, ReadError>)
    requires
        free_of_errors(token_views(tokens@)),
    ensures
        match r {
            Ok(f) => spec_read_steam(token_views(tokens@)) == Ok::<(Seq<Map<Seq<char>, Seq<char>>>, nat), ReadError>((map_views(f.jobs@), f.positions as nat)),
            Err(e) => spec_read_steam(token_views(tokens@)) == Err::<(Seq<Map<Seq<char>, Seq<char>>>, nat), ReadError>(e),
        },
{
    let ghost all = token_views(tokens@);
    let mut m = SteamMachine { path: Vec::new(), map: StrMap::new(), jobs: Vec::new(), positions: 0 };
    assert(m@.path =~= Seq::<Seq<char>>::empty());
    assert(m@.jobs =~= Seq::<Map<Seq<char>, Seq<char>>>::empty());
    assert(all.skip(0) =~= all);
    let mut i: usize = 0;
    while i < tokens.len()
        invariant_except_break
            steam_run(initial_steam_state(), all) == steam_run(m@, all.skip(i as int)),
        invariant
            i <= tokens.len(),
            all == token_views(tokens@),
            m.positions <= i,
        ensures
            steam_run(initial_steam_state(), all) == Ok::<SteamState, ReadError>(m@),
        decreases tokens.len() - i,
    {
        let ghost rest = all.skip(i as int);
        assert(rest[0] == tokens@[i as int]@);
        assert(rest.drop_first() =~= all.skip(i + 1));
        if let XmlToken::Eof = &tokens[i] {
            break;
        }
        match m.step(&tokens[i]) {
            Ok(()) => {},
            Err(e) => {
                return Err(e);
            },
        }
        i = i + 1;
    }
    let mut jobs = m.jobs;
    if !m.map.is_empty() {
        let ghost before = jobs@;
        jobs.push(m.map);
        assert(map_views(jobs@) =~= map_views(before).push(m@.map));
    }
    Ok(FeedRead { jobs, positions: m.positions })
}

/// Reading tokens whose bytes are all valid UTF-8 does not fail.
pub proof fn lemma_utf8_steam_reads(st: SteamState, toks: Seq<TokenView>)
    requires
        forall|i: int| 0 <= i < toks.len() ==> payload_is_utf8(#[trigger] toks[i]),
    ensures
        steam_run(st, toks) is Ok,
    decreases toks.len(),
{
    if toks.len() > 0 && !(toks[0] is Eof) {
        assert(payload_is_utf8(toks[0]));
        assert forall|i: int| 0 <= i < toks.drop_first().len() implies payload_is_utf8(#[trigger] toks.drop_first()[i]) by {
            assert(toks.drop_first()[i] == toks[i + 1]);
        }
        lemma_utf8_steam_reads(steam_step(st, toks[0])->Ok_0, toks.drop_first());
    }
}

/// The postings of an XML feed as the simple reader yields them.
pub open spec fn spec_steam_feed(xml: Seq<char>) -> Result<(Seq<Map<Seq<char>, Seq<char>>>, nat), ReadError> {
    spec_read_steam(xml_token_stream(xml, true))
}

/// Reads the job postings of an XML feed: one map per `position` element
/// that holds a field, from each text under the dot-joined path of its
/// enclosing elements.
pub fn read_steam(xml_feed: &str) -> (r: Result<Vec<FieldMap>, ReadError>)
    requires
        free_of_errors(xml_token_stream(xml_feed@, true)),
    ensures
        match spec_steam_feed(xml_feed@) {
            Ok((jobs, _)) => r is Ok && map_views(r->Ok_0@) == jobs,
            Err(e) => r == Err::<Vec<FieldMap>, ReadError>(e),
        },
        r is Ok,
{
    let tokens = tokenize(xml_feed, true);
    proof {
        lemma_utf8_steam_reads(initial_steam_state(), token_views(tokens@));
    }
    match read_steam_tokens(&tokens) {
        Ok(feed) => Ok(feed.jobs),
        Err(e) => Err(e),
    }
}

/// Reads as [`read_steam`] does, or gives `None` where the feed has a
/// parse error before its end.
pub fn checked_read_steam(xml_feed: &str) -> (r: Option<Result<Vec<FieldMap>, ReadError>>)
    ensures
        r is None <==> !free_of_errors(xml_token_stream(xml_feed@, true)),
        r matches Some(res) ==> match spec_steam_feed(xml_feed@) {
            Ok((jobs, _)) => res is Ok && map_views(res->Ok_0@) == jobs,
            Err(e) => res == Err::<Vec<FieldMap>, ReadError>(e),
        },
        r matches Some(res) ==> res is Ok,
{
    let tokens = tokenize(xml_feed, true);
    if tokens_free_of_errors(&tokens) {
        Some(read_steam(xml_feed))
    } else {
        None
    }
}

/// Every field value is non-empty.
pub open spec fn filled_fields(m: Map<Seq<char>, Seq<char>>) -> bool {
    forall|k: Seq<char>| #[trigger] m.contains_key(k) ==> m[k].len() > 0
}

/// What holds of every state the simple reader passes through.
pub open spec fn steam_invariant(st: SteamState) -> bool {
    &&& st.jobs.len() <= st.positions
    &&& filled_fields(st.map)
    &&& forall|j: int| 0 <= j < st.jobs.len() ==> #[trigger] st.jobs[j] != no_fields() && filled_fields(st.jobs[j])
}

proof fn lemma_steam_run_keeps_invariant(st: SteamState, toks: Seq<TokenView>)
    requires
        steam_invariant(st),
    ensures
        steam_run(st, toks) matches Ok(last) ==> steam_invariant(last),
    decreases toks.len(),
{
    if toks.len() > 0 && !(toks[0] is Eof) {
        if let Ok(next) = steam_step(st, toks[0]) {
            assert forall|j: int| 0 <= j < next.jobs.len() implies #[trigger] next.jobs[j] != no_fields()
                && filled_fields(next.jobs[j]) by {
                if j < st.jobs.len() {
                    assert(next.jobs[j] == st.jobs[j]);
                }
            }
            assert(steam_invariant(next));
            lemma_steam_run_keeps_invariant(next, toks.drop_first());
        }
    }
}

/// The simple reader yields at most one posting more than the feed has
/// `position` elements, every posting holds at least one field, and every
/// field value is non-empty.
pub proof fn lemma_read_steam_postings(toks: Seq<TokenView>)
    ensures
        spec_read_steam(toks) matches Ok((jobs, positions)) ==> {
            &&& jobs.len() <= positions + 1
            &&& forall|j: int| 0 <= j < jobs.len() ==> #[trigger] jobs[j] != no_fields() && filled_fields(jobs[j])
        },
{
    let init = initial_steam_state();
    lemma_steam_run_keeps_invariant(init, toks);
    if let Ok(st) = steam_run(init, toks) {
        let jobs = with_current(st.jobs, st.map);
        assert forall|j: int| 0 <= j < jobs.len() implies #[trigger] jobs[j] != no_fields() && filled_fields(jobs[j]) by {
            if j < st.jobs.len() {
                assert(jobs[j] == st.jobs[j]);
            }
        }
    }
}

/// The simple reader's state that matches a state of the numbering reader.
pub open spec fn steam_matches(a: SteamState, b: StreamState) -> bool {
    a.path == b.path && a.map == b.map && a.jobs == b.jobs && a.positions == b.positions
}

/// What the numbering reader meets at a token leaves the two readers in
/// step: a `position` starts where no element is open, no element repeats
/// the name of an earlier sibling, and no text has white space at its ends.
pub open spec fn in_step_at(st: StreamState, t: TokenView) -> bool {
    match t {
        TokenView::Start(name) => {
            &&& name == position_tag() ==> st.path.len() == 0
            &&& (name != root_tag() && name != position_tag() && valid_utf8(name))
                ==> seen_before(st.counts, context_key(st.path, decode_utf8(name))) == 0
        },
        TokenView::Text(b) => valid_utf8(b) ==> trim(decode_utf8(b)) == decode_utf8(b),
        _ => true,
    }
}

/// The two readers stay in step over all tokens up to the end of the document.
pub open spec fn in_step(st: StreamState, toks: Seq<TokenView>) -> bool
    decreases toks.len(),
{
    if toks.len() == 0 || toks[0] is Eof {
        true
    } else {
        &&& in_step_at(st, toks[0])
        &&& match stream_step(st, toks[0]) {
            Ok(next) => in_step(next, toks.drop_first()),
            Err(_) => true,
        }
    }
}

proof fn lemma_runs_agree(a: SteamState, b: StreamState, toks: Seq<TokenView>)
    requires
        steam_matches(a, b),
        in_step(b, toks),
    ensures
        match (steam_run(a, toks), stream_run(b, toks)) {
            (Ok(x), Ok(y)) => steam_matches(x, y),
            (Err(e), Err(f)) => e == f,
            _ => false,
        },
    decreases toks.len(),
{
    if toks.len() > 0 && !(toks[0] is Eof) {
        let t = toks[0];
        match (steam_step(a, t), stream_step(b, t)) {
            (Ok(x), Ok(y)) => {
                assert(x.path =~= y.path);
                assert(x.map == y.map);
                assert(x.jobs == y.jobs);
                assert(x.positions == y.positions);
                lemma_runs_agree(x, y, toks.drop_first());
            },
            _ => {},
        }
    }
}

/// Where no `position` starts inside an open element, no element repeats
/// the name of an earlier sibling, and no text has white space at its ends,
/// the simple reader and the numbering reader read the same postings.
pub proof fn lemma_readers_agree(toks: Seq<TokenView>)
    requires
        in_step(initial_stream_state(), toks),
    ensures
        spec_read_steam(toks) == spec_read_stream(toks),
{
    lemma_runs_agree(initial_steam_state(), initial_stream_state(), toks);
}

} // verus!
