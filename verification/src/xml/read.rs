//! Flattening the feed into one key/value map per job posting.
//!
//! Each `position` element starts a new posting. Inside it, every text or
//! CDATA section is stored under the dot-joined names of the elements that
//! enclose it; the second, third, ... sibling of the same name gets the
//! suffix `.1`, `.2`, ... so that repeated elements keep their own keys.

use crate::strmap::{FieldMap, StrMap};
use crate::text::{string_views, decimal, decimal_chars, join, join_strings, str_trim, string_of, trim, utf8_to_string};
use crate::xml::events::{payload_is_utf8, token_views, tokenize, xml_token_stream, TokenView, XmlToken};
use crate::text::{is_trimmed, lemma_trim_is_trimmed};
use vstd::prelude::*;
use vstd::utf8::*;

verus! {

/// Why the feed could not be read.
#[derive(Debug, Clone, Copy, PartialEq, Eq, Structural)]
pub enum ReadError {
    /// An element name, a text or a CDATA section is not valid UTF-8.
    InvalidUtf8,
}

/// The postings of a feed, and how many `position` elements it has.
#[derive(Debug, Clone)]
pub struct FeedRead {
    pub jobs: Vec<FieldMap>,
    pub positions: usize,
}

/// The bytes of the name `position`.
pub open spec fn position_tag() -> Seq<u8> {
    seq![112u8, 111u8, 115u8, 105u8, 116u8, 105u8, 111u8, 110u8]
}

/// The bytes of the name `workzag-jobs`, the feed's root element.
pub open spec fn root_tag() -> Seq<u8> {
    seq![119u8, 111u8, 114u8, 107u8, 122u8, 97u8, 103u8, 45u8, 106u8, 111u8, 98u8, 115u8]
}

/// The separator of key parts.
pub open spec fn dot() -> Seq<char> {
    seq!['.']
}

/// An empty posting map.
pub open spec fn no_fields() -> Map<Seq<char>, Seq<char>> {
    Map::empty()
}

/// The postings read so far, with the current one added when it holds a field.
pub open spec fn with_current(jobs: Seq<Map<Seq<char>, Seq<char>>>, map: Map<Seq<char>, Seq<char>>) -> Seq<Map<Seq<char>, Seq<char>>> {
    if map == no_fields() { jobs } else { jobs.push(map) }
}

/// Whether no token before the first end of document is a parse error.
pub open spec fn free_of_errors(toks: Seq<TokenView>) -> bool
    decreases toks.len(),
{
    toks.len() == 0 || toks[0] is Eof || (!(toks[0] is Malformed) && free_of_errors(toks.drop_first()))
}

/// The state of the reader between two tokens.
pub struct StreamState {
    pub path: Seq<Seq<char>>,
    pub map: Map<Seq<char>, Seq<char>>,
    pub counts: Map<Seq<char>, usize>,
    pub jobs: Seq<Map<Seq<char>, Seq<char>>>,
    pub positions: nat,
}

pub open spec fn initial_stream_state() -> StreamState {
    StreamState { path: Seq::empty(), map: no_fields(), counts: Map::empty(), jobs: Seq::empty(), positions: 0 }
}

/// The key under which a text found at `path` is stored.
pub open spec fn path_key(path: Seq<Seq<char>>) -> Seq<char> {
    join(path, dot())
}

/// The key that counts the children named `elem` of the element at `path`.
pub open spec fn context_key(path: Seq<Seq<char>>, elem: Seq<char>) -> Seq<char> {
    if path_key(path).len() == 0 { elem } else { path_key(path) + dot() + elem }
}

/// The path part of the child named `elem` that has `seen` earlier siblings of that name.
pub open spec fn numbered_part(elem: Seq<char>, seen: usize) -> Seq<char> {
    if seen > 0 { elem + dot() + decimal(seen as nat) } else { elem }
}

/// How many children named `elem` the element at `path` had before.
pub open spec fn seen_before(counts: Map<Seq<char>, usize>, key: Seq<char>) -> usize {
    if counts.contains_key(key) { counts[key] } else { 0 }
}

/// A text (or CDATA) token: stored, trimmed, under the current path when non-empty.
pub open spec fn stream_text(st: StreamState, bytes: Seq<u8>) -> Result<StreamState, ReadError> {
    if !valid_utf8(bytes) {
        Err(ReadError::InvalidUtf8)
    } else {
        let text = trim(decode_utf8(bytes));
        if text.len() > 0 && st.path.len() > 0 {
            Ok(StreamState { map: st.map.insert(path_key(st.path), text), ..st })
        } else {
            Ok(st)
        }
    }
}

/// The effect of one token on the state.
pub open spec fn stream_step(st: StreamState, t: TokenView) -> Result<StreamState, ReadError> {
    match t {
        TokenView::Start(name) => {
            if name == root_tag() {
                Ok(st)
            } else if name == position_tag() {
                Ok(StreamState {
                    path: Seq::empty(),
                    map: no_fields(),
                    counts: Map::empty(),
                    jobs: with_current(st.jobs, st.map),
                    positions: st.positions + 1,
                })
            } else if !valid_utf8(name) {
                Err(ReadError::InvalidUtf8)
            } else {
                let elem = decode_utf8(name);
                let key = context_key(st.path, elem);
                let seen = seen_before(st.counts, key);
                Ok(StreamState {
                    path: st.path.push(numbered_part(elem, seen)),
                    counts: st.counts.insert(key, (seen + 1) as usize),
                    ..st
                })
            }
        },
        TokenView::Text(b) => stream_text(st, b),
        TokenView::CData(b) => stream_text(st, b),
        TokenView::End => Ok(StreamState {
            path: if st.path.len() > 0 { st.path.drop_last() } else { st.path },
            ..st
        }),
        _ => Ok(st),
    }
}

/// The state after the tokens up to the end of the document.
pub open spec fn stream_run(st: StreamState, toks: Seq<TokenView>) -> Result<StreamState, ReadError>
    decreases toks.len(),
{
    if toks.len() == 0 || toks[0] is Eof {
        Ok(st)
    } else {
        match stream_step(st, toks[0]) {
            Ok(next) => stream_run(next, toks.drop_first()),
            Err(e) => Err(e),
        }
    }
}

/// The postings of a token stream and its number of `position` elements.
pub open spec fn spec_read_stream(toks: Seq<TokenView>) -> Result<(Seq<Map<Seq<char>, Seq<char>>>, nat), ReadError> {
    match stream_run(initial_stream_state(), toks) {
        Ok(st) => Ok((with_current(st.jobs, st.map), st.positions)),
        Err(e) => Err(e),
    }
}

/// The maps of a list of postings.
pub open spec fn map_views(v: Seq<FieldMap>) -> Seq<Map<Seq<char>, Seq<char>>> {
    v.map_values(|m: FieldMap| m@)
}

/// The result of reading, taken by its views.
pub open spec fn feed_view(r: Result<FeedRead, ReadError>) -> Result<(Seq<Map<Seq<char>, Seq<char>>>, nat), ReadError> {
    match r {
        Ok(f) => Ok((map_views(f.jobs@), f.positions as nat)),
        Err(e) => Err(e),
    }
}

/// Whether two byte strings are equal.
pub fn bytes_equal(a: &Vec<u8>, b: &Vec<u8>) -> (r: bool)
    ensures
        r == (a@ == b@),
{
    if a.len() != b.len() {
        return false;
    }
    let mut i: usize = 0;
    while i < a.len()
        invariant
            i <= a.len(),
            a.len() == b.len(),
            forall|j: int| 0 <= j < i ==> a@[j] == b@[j],
        decreases a.len() - i,
    {
        if a[i] != b[i] {
            return false;
        }
        i = i + 1;
    }
    assert(a@ =~= b@);
    true
}

pub fn position_tag_bytes() -> (v: Vec<u8>)
    ensures
        v@ == position_tag(),
{
    let v: Vec<u8> = vec![112u8, 111u8, 115u8, 105u8, 116u8, 105u8, 111u8, 110u8];
    assert(v@ =~= position_tag());
    v
}

pub fn root_tag_bytes() -> (v: Vec<u8>)
    ensures
        v@ == root_tag(),
{
    let v: Vec<u8> = vec![119u8, 111u8, 114u8, 107u8, 122u8, 97u8, 103u8, 45u8, 106u8, 111u8, 98u8, 115u8];
    assert(v@ =~= root_tag());
    v
}

/// The dot-joined key of a path.
pub fn key_of_path(path: &Vec<String>) -> (k: String)
    ensures
        k@ == path_key(string_views(path@)),
{
    proof {
        reveal_strlit(".");
        assert("."@ =~= dot());
    }
    join_strings(path, ".")
}

/// Whether a token list is free of parse errors before its end of document.
pub fn tokens_free_of_errors(toks: &Vec<XmlToken>) -> (b: bool)
    ensures
        b == free_of_errors(token_views(toks@)),
{
    let ghost all = token_views(toks@);
    assert(all.skip(0) =~= all);
    let mut i: usize = 0;
    while i < toks.len()
        invariant
            i <= toks.len(),
            all == token_views(toks@),
            free_of_errors(all) == free_of_errors(all.skip(i as int)),
        decreases toks.len() - i,
    {
        assert(all.skip(i as int)[0] == toks@[i as int]@);
        assert(all.skip(i as int).drop_first() =~= all.skip(i + 1));
        match &toks[i] {
            XmlToken::Eof => {
                return true;
            },
            XmlToken::Malformed => {
                return false;
            },
            _ => {},
        }
        i = i + 1;
    }
    assert(all.skip(i as int).len() == 0);
    true
}

/// The reader's state as it runs over the tokens.
struct StreamMachine {
    path: Vec<String>,
    map: FieldMap,
    counts: StrMap<usize>,
    jobs: Vec<FieldMap>,
    positions: usize,
}

impl View for StreamMachine {
    type V = StreamState;

    closed spec fn view(&self) -> StreamState {
        StreamState {
            path: string_views(self.path@),
            map: self.map@,
            counts: self.counts@,
            jobs: map_views(self.jobs@),
            positions: self.positions as nat,
        }
    }
}

impl StreamMachine {
    fn new() -> (m: Self)
        ensures
            m@ == initial_stream_state(),
    {
        let m = StreamMachine {
            path: Vec::new(),
            map: StrMap::new(),
            counts: StrMap::new(),
            jobs: Vec::new(),
            positions: 0,
        };
        assert(m@.path =~= Seq::<Seq<char>>::empty());
        assert(m@.jobs =~= Seq::<Map<Seq<char>, Seq<char>>>::empty());
        m
    }

    fn text(&mut self, bytes: &Vec<u8>) -> (r: Result<(), ReadError>)
        ensures
            match stream_text(old(self)@, bytes@) {
                Ok(s) => r is Ok && final(self)@ == s,
                Err(e) => r == Err::<(), ReadError>(e),
            },
    {
        let decoded = match utf8_to_string(bytes.clone()) {
            Some(s) => s,
            None => return Err(ReadError::InvalidUtf8),
        };
        let text = str_trim(decoded.as_str());
        if !text.as_str().is_empty() && self.path.len() > 0 {
            let key = key_of_path(&self.path);
            self.map.insert(key, text);
        }
        Ok(())
    }

    fn step(&mut self, t: &XmlToken) -> (r: Result<(), ReadError>)
        requires
            old(self).positions < usize::MAX,
            forall|k: Seq<char>| old(self)@.counts.contains_key(k) ==> old(self)@.counts[k] < usize::MAX,
        ensures
            match stream_step(old(self)@, t@) {
                Ok(s) => r is Ok && final(self)@ == s,
                Err(e) => r == Err::<(), ReadError>(e),
            },
    {
        match t {
            XmlToken::Start(name) => {
                if bytes_equal(name, &root_tag_bytes()) {
                    return Ok(());
                }
                if bytes_equal(name, &position_tag_bytes()) {
                    self.positions = self.positions + 1;
                    if !self.map.is_empty() {
                        let mut current = StrMap::new();
                        std::mem::swap(&mut current, &mut self.map);
                        self.jobs.push(current);
                        assert(map_views(self.jobs@) =~= map_views(old(self).jobs@).push(old(self).map@));
                    } else {
                        self.map = StrMap::new();
                    }
                    self.path = Vec::new();
                    self.counts = StrMap::new();
                    assert(self@.path =~= Seq::<Seq<char>>::empty());
                    return Ok(());
                }
                let elem = match utf8_to_string(name.clone()) {
                    Some(s) => s,
                    None => return Err(ReadError::InvalidUtf8),
                };
                let parent = key_of_path(&self.path);
                let key = if parent.as_str().is_empty() {
                    elem.clone()
                } else {
                    proof {
                        reveal_strlit(".");
                        assert("."@ =~= dot());
                    }
                    let mut k = parent;
                    k.append(".");
                    k.append(elem.as_str());
                    k
                };
                assert(key@ == context_key(old(self)@.path, elem@));
                let seen: usize = match self.counts.get(key.as_str()) {
                    Some(c) => *c,
                    None => 0,
                };
                assert(seen == seen_before(old(self)@.counts, key@));
                self.counts.insert(key, seen + 1);
                let part = if seen > 0 {
                    proof {
                        reveal_strlit(".");
                        assert("."@ =~= dot());
                    }
                    let mut p = elem;
                    p.append(".");
                    let digits = string_of(decimal_chars(seen).as_slice());
                    p.append(digits.as_str());
                    p
                } else {
                    elem
                };
                assert(part@ == numbered_part(elem@, seen));
                self.path.push(part);
                assert(self@.path =~= old(self)@.path.push(part@));
                Ok(())
            },
            XmlToken::Text(b) => self.text(b),
            XmlToken::CData(b) => self.text(b),
            XmlToken::End => {
                if self.path.len() > 0 {
                    self.path.pop();
                    assert(self@.path =~= old(self)@.path.drop_last());
                }
                Ok(())
            },
            _ => Ok(()),
        }
    }

    fn finish(self) -> (f: FeedRead)
        ensures
            map_views(f.jobs@) == with_current(self@.jobs, self@.map),
            f.positions == self.positions,
    {
        let mut jobs = self.jobs;
        if !self.map.is_empty() {
            let ghost before = jobs@;
            jobs.push(self.map);
            assert(map_views(jobs@) =~= map_views(before).push(self@.map));
        }
        FeedRead { jobs, positions: self.positions }
    }
}

/// Reads postings from a list of tokens, as [`read_stream`] does from the
/// tokens of its document.
pub fn read_tokens(tokens: &Vec<XmlToken>) -> (r: Result<FeedRead, ReadError>)
    requires
        free_of_errors(token_views(tokens@)),
    ensures
        feed_view(r) == spec_read_stream(token_views(tokens@)),
{
    let ghost all = token_views(tokens@);
    let mut m = StreamMachine::new();
    assert(all.skip(0) =~= all);
    let mut i: usize = 0;
    while i < tokens.len()
        invariant_except_break
            stream_run(initial_stream_state(), all) == stream_run(m@, all.skip(i as int)),
        invariant
            i <= tokens.len(),
            all == token_views(tokens@),
            m.positions <= i,
            forall|k: Seq<char>| m@.counts.contains_key(k) ==> m@.counts[k] <= i,
        ensures
            stream_run(initial_stream_state(), all) == Ok::<StreamState, ReadError>(m@),
        decreases tokens.len() - i,
    {
        let ghost rest = all.skip(i as int);
        assert(rest[0] == tokens@[i as int]@);
        assert(rest.drop_first() =~= all.skip(i + 1));
        if let XmlToken::Eof = &tokens[i] {
            break;
        }
        let ghost before = m@;
        match m.step(&tokens[i]) {
            Ok(()) => {},
            Err(e) => {
                return Err(e);
            },
        }
        i = i + 1;
    }
    assert(all.skip(i as int).len() == 0 ==> stream_run(m@, all.skip(i as int)) == Ok::<StreamState, ReadError>(m@));
    Ok(m.finish())
}

/// The feed has no parse error before its end.
pub open spec fn well_formed_feed(xml: Seq<char>) -> bool {
    free_of_errors(xml_token_stream(xml, true))
}

/// The postings of an XML feed, read with text trimming on.
pub open spec fn spec_feed(xml: Seq<char>) -> Result<(Seq<Map<Seq<char>, Seq<char>>>, nat), ReadError> {
    spec_read_stream(xml_token_stream(xml, true))
}

/// Every token's name, text or CDATA bytes are valid UTF-8.
pub open spec fn all_utf8(toks: Seq<TokenView>) -> bool {
    forall|i: int| 0 <= i < toks.len() ==> payload_is_utf8(#[trigger] toks[i])
}

/// Reading tokens whose bytes are all valid UTF-8 does not fail.
pub proof fn lemma_utf8_stream_reads(st: StreamState, toks: Seq<TokenView>)
    requires
        all_utf8(toks),
    ensures
        stream_run(st, toks) is Ok,
    decreases toks.len(),
{
    if toks.len() > 0 && !(toks[0] is Eof) {
        assert(payload_is_utf8(toks[0]));
        assert(all_utf8(toks.drop_first())) by {
            assert forall|i: int| 0 <= i < toks.drop_first().len() implies payload_is_utf8(#[trigger] toks.drop_first()[i]) by {
                assert(toks.drop_first()[i] == toks[i + 1]);
            }
        }
        lemma_utf8_stream_reads(stream_step(st, toks[0])->Ok_0, toks.drop_first());
    }
}

/// Reads the job postings of an XML feed: one map per `position` element
/// that holds a field, from each text under the dot-joined path of its
/// enclosing elements (see the module documentation).
pub fn read_stream(xml_feed: &str) -> (r: Result<Vec<FieldMap>, ReadError>)
    requires
        well_formed_feed(xml_feed@),
    ensures
        match spec_feed(xml_feed@) {
            Ok((jobs, _)) => r is Ok && map_views(r->Ok_0@) == jobs,
            Err(e) => r == Err::<Vec<FieldMap>, ReadError>(e),
        },
        r is Ok,
{
    let tokens = tokenize(xml_feed, true);
    proof {
        lemma_utf8_stream_reads(initial_stream_state(), token_views(tokens@));
    }
    match read_tokens(&tokens) {
        Ok(feed) => Ok(feed.jobs),
        Err(e) => Err(e),
    }
}

/// Reads the job postings of an XML feed as [`read_stream`] does, or gives
/// `None` where the feed has a parse error before its end.
pub fn checked_read_stream(xml_feed: &str) -> (r: Option<Result<Vec<FieldMap>, ReadError>>)
    ensures
        r is None <==> !well_formed_feed(xml_feed@),
        r matches Some(res) ==> match spec_feed(xml_feed@) {
            Ok((jobs, _)) => res is Ok && map_views(res->Ok_0@) == jobs,
            Err(e) => res == Err::<Vec<FieldMap>, ReadError>(e),
        },
        r matches Some(res) ==> res is Ok,
{
    let tokens = tokenize(xml_feed, true);
    if tokens_free_of_errors(&tokens) {
        Some(read_stream(xml_feed))
    } else {
        None
    }
}

/// Every field value is non-empty and has no white space at either end.
pub open spec fn clean_fields(m: Map<Seq<char>, Seq<char>>) -> bool {
    forall|k: Seq<char>| #[trigger] m.contains_key(k) ==> m[k].len() > 0 && is_trimmed(m[k])
}

/// What holds of every state the reader passes through.
pub open spec fn stream_invariant(st: StreamState) -> bool {
    &&& st.jobs.len() <= st.positions
    &&& clean_fields(st.map)
    &&& forall|j: int| 0 <= j < st.jobs.len() ==> #[trigger] st.jobs[j] != no_fields() && clean_fields(st.jobs[j])
}

proof fn lemma_step_keeps_invariant(st: StreamState, t: TokenView)
    requires
        stream_invariant(st),
    ensures
        stream_step(st, t) matches Ok(next) ==> stream_invariant(next),
{
    match t {
        TokenView::Text(b) => {
            lemma_trim_is_trimmed(decode_utf8(b));
        },
        TokenView::CData(b) => {
            lemma_trim_is_trimmed(decode_utf8(b));
        },
        TokenView::Start(name) => {
            if name != root_tag() && name == position_tag() {
                let next = stream_step(st, t)->Ok_0;
                assert forall|j: int| 0 <= j < next.jobs.len() implies #[trigger] next.jobs[j] != no_fields()
                    && clean_fields(next.jobs[j]) by {
                    if j < st.jobs.len() {
                        assert(next.jobs[j] == st.jobs[j]);
                    }
                }
                assert(clean_fields(next.map));
            }
        },
        _ => {},
    }
}

proof fn lemma_run_keeps_invariant(st: StreamState, toks: Seq<TokenView>)
    requires
        stream_invariant(st),
    ensures
        stream_run(st, toks) matches Ok(last) ==> stream_invariant(last),
    decreases toks.len(),
{
    if toks.len() > 0 && !(toks[0] is Eof) {
        lemma_step_keeps_invariant(st, toks[0]);
        if let Ok(next) = stream_step(st, toks[0]) {
            lemma_run_keeps_invariant(next, toks.drop_first());
        }
    }
}

/// Reading a feed yields at most one posting more than it has `position`
/// elements; every posting holds at least one field; and every field value
/// is non-empty, with no white space at either end.
pub proof fn lemma_read_stream_postings(toks: Seq<TokenView>)
    ensures
        spec_read_stream(toks) matches Ok((jobs, positions)) ==> {
            &&& jobs.len() <= positions + 1
            &&& forall|j: int| 0 <= j < jobs.len() ==> #[trigger] jobs[j] != no_fields() && clean_fields(jobs[j])
        },
{
    let init = initial_stream_state();
    assert(clean_fields(init.map));
    lemma_run_keeps_invariant(init, toks);
    if let Ok(st) = stream_run(init, toks) {
        let jobs = with_current(st.jobs, st.map);
        assert forall|j: int| 0 <= j < jobs.len() implies #[trigger] jobs[j] != no_fields() && clean_fields(jobs[j]) by {
            if j < st.jobs.len() {
                assert(jobs[j] == st.jobs[j]);
            }
        }
    }
}

} // verus!
