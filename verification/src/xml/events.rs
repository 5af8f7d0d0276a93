//! The XML events of a document, as the quick-xml pull reader reports them.

use quick_xml::events::Event;
use quick_xml::reader::Reader;
use vstd::prelude::*;
use vstd::utf8::valid_utf8;

verus! {

#[verifier::external_type_specification]
#[verifier::external_body]
#[verifier::reject_recursive_types(R)]
pub struct ExReader<R>(Reader<R>);

/// One event of the reader, reduced to what the feed logic reads:
/// the raw bytes of a start tag's name, of a text or of a CDATA section.
#[derive(Clone, Debug)]
pub enum XmlToken {
    Start(Vec<u8>),
    End,
    Text(Vec<u8>),
    CData(Vec<u8>),
    Eof,
    Malformed,
    Other,
}

/// The mathematical value of an [`XmlToken`].
pub enum TokenView {
    Start(Seq<u8>),
    End,
    Text(Seq<u8>),
    CData(Seq<u8>),
    Eof,
    Malformed,
    Other,
}

impl View for XmlToken {
    type V = TokenView;

    open spec fn view(&self) -> TokenView {
        match self {
            XmlToken::Start(n) => TokenView::Start(n@),
            XmlToken::End => TokenView::End,
            XmlToken::Text(b) => TokenView::Text(b@),
            XmlToken::CData(b) => TokenView::CData(b@),
            XmlToken::Eof => TokenView::Eof,
            XmlToken::Malformed => TokenView::Malformed,
            XmlToken::Other => TokenView::Other,
        }
    }
}

/// The end of the document or a parse error: the reader is not asked again after one.
pub open spec fn is_terminal(t: TokenView) -> bool {
    t is Eof || t is Malformed
}

/// The name, text or CDATA bytes of a token, where it has some, are valid UTF-8.
pub open spec fn payload_is_utf8(t: TokenView) -> bool {
    match t {
        TokenView::Start(n) => valid_utf8(n),
        TokenView::Text(b) => valid_utf8(b),
        TokenView::CData(b) => valid_utf8(b),
        _ => true,
    }
}

/// A stream that ends with its first terminal token.
pub open spec fn ends_at_first_terminal(s: Seq<TokenView>) -> bool {
    &&& s.len() > 0
    &&& is_terminal(s.last())
    &&& forall|i: int| 0 <= i < s.len() - 1 ==> !is_terminal(#[trigger] s[i])
}

/// The tokens of the events that successive `Reader::read_event` calls return
/// on a reader made by `Reader::from_str(xml)` with `trim_text(trim_text)`, up to
/// and including the first `Eof` event or error.
pub uninterp spec fn xml_token_stream(xml: Seq<char>, trim_text: bool) -> Seq<TokenView>;

/// The tokens that a reader has still to return, up to and including the
/// first `Eof` event or error.
pub uninterp spec fn pending_tokens(reader: Reader<&[u8]>) -> Seq<TokenView>;

/// Calls `Reader::from_str` and `Config::trim_text`. The reader has the whole
/// token stream of `xml` ahead of it, and that stream ends with its first
/// `Eof` or error, since the reader consumes its finite input and then
/// reports `Eof`. Every name, text and CDATA section is a piece of `xml`
/// cut at ASCII delimiters (`<`, `>`, white space, `]]>`), so its bytes are
/// valid UTF-8.
#[verifier::external_body]
fn open_reader<'a>(xml: &'a str, trim_text: bool) -> (r: Reader<&'a [u8]>)
    ensures
        pending_tokens(r) == xml_token_stream(xml@, trim_text),
        ends_at_first_terminal(pending_tokens(r)),
        forall|i: int| 0 <= i < pending_tokens(r).len() ==> payload_is_utf8(#[trigger] pending_tokens(r)[i]),
{
    let mut reader = Reader::from_str(xml);
    reader.config_mut().trim_text(trim_text);
    reader
}

/// Calls `Reader::read_event` once: returns the next pending token, which
/// leaves the pending stream.
#[verifier::external_body]
fn next_token(reader: &mut Reader<&[u8]>) -> (t: XmlToken)
    requires
        pending_tokens(*old(reader)).len() > 0,
    ensures
        t@ == pending_tokens(*old(reader))[0],
        pending_tokens(*final(reader)) == pending_tokens(*old(reader)).drop_first(),
{
    match reader.read_event() {
        Err(_) => XmlToken::Malformed,
        Ok(Event::Eof) => XmlToken::Eof,
        Ok(Event::Start(e)) => XmlToken::Start(e.name().as_ref().to_vec()),
        Ok(Event::End(_)) => XmlToken::End,
        Ok(Event::Text(e)) => XmlToken::Text(e.into_inner().into_owned()),
        Ok(Event::CData(e)) => XmlToken::CData(e.into_inner().into_owned()),
        Ok(_) => XmlToken::Other,
    }
}

/// The views of a list of tokens.
pub open spec fn token_views(v: Seq<XmlToken>) -> Seq<TokenView> {
    v.map_values(|t: XmlToken| t@)
}

/// Whether a token ends the stream.
pub fn token_is_terminal(t: &XmlToken) -> (b: bool)
    ensures
        b == is_terminal(t@),
{
    match t {
        XmlToken::Eof => true,
        XmlToken::Malformed => true,
        _ => false,
    }
}

/// All tokens of `xml`, read with the given text trimming, up to and
/// including the first end of document or parse error.
pub fn tokenize(xml: &str, trim_text: bool) -> (v: Vec<XmlToken>)
    ensures
        token_views(v@) == xml_token_stream(xml@, trim_text),
        forall|i: int| 0 <= i < v@.len() ==> payload_is_utf8(#[trigger] token_views(v@)[i]),
{
    let mut reader = open_reader(xml, trim_text);
    let ghost all = xml_token_stream(xml@, trim_text);
    let mut out: Vec<XmlToken> = Vec::new();
    loop
        invariant_except_break
            token_views(out@) + pending_tokens(reader) == all,
            pending_tokens(reader).len() > 0,
        invariant
            forall|i: int| 0 <= i < all.len() ==> payload_is_utf8(#[trigger] all[i]),
            all.len() > 0,
            is_terminal(all.last()),
            forall|i: int| 0 <= i < all.len() - 1 ==> !is_terminal(#[trigger] all[i]),
        ensures
            token_views(out@) == all,
        decreases pending_tokens(reader).len(),
    {
        let ghost before = pending_tokens(reader);
        let t = next_token(&mut reader);
        let stop = token_is_terminal(&t);
        proof {
            assert(token_views(out@.push(t)) =~= token_views(out@).push(t@));
            assert(all[token_views(out@).len() as int] == t@);
        }
        out.push(t);
        if stop {
            assert(token_views(out@).len() == all.len());
            assert(token_views(out@) =~= all);
            break;
        }
        assert(token_views(out@).len() < all.len());
        assert(token_views(out@) + pending_tokens(reader) =~= all);
    }
    out
}

} // verus!
