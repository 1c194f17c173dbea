//! The XML of a sitemap as a sequence of tokens, written with `xml-rs`, and
//! the events that `xml-rs` reads from a sitemap that is merged in.

use vstd::prelude::*;
use xml::reader::XmlEvent;
use xml::writer::EventWriter;

verus! {

/// One step in the writing of an XML document.
pub enum Token {
    /// The start of an element with the given name.
    Start(Seq<char>),
    /// The start of an element with a name, and one attribute with its name
    /// and value.
    StartWith(Seq<char>, Seq<char>, Seq<char>),
    /// Text inside an element.
    Text(Seq<char>),
    /// The end of the element that was started last and has not ended.
    End,
}

/// What a token adds to the number of open elements.
pub open spec fn weight(token: Token) -> int {
    match token {
        Token::Start(_) => 1,
        Token::StartWith(_, _, _) => 1,
        Token::Text(_) => 0,
        Token::End => -1,
    }
}

/// The number of elements that are open after the tokens: starts less ends.
pub open spec fn nesting(tokens: Seq<Token>) -> int
    decreases tokens.len(),
{
    if tokens.len() == 0 {
        0
    } else {
        nesting(tokens.drop_last()) + weight(tokens.last())
    }
}

/// No end comes without a start before it that it can close.
pub open spec fn well_nested(tokens: Seq<Token>) -> bool {
    forall|i: int| 0 <= i <= tokens.len() ==> nesting(#[trigger] tokens.take(i)) >= 0
}

/// One more token changes the nesting by its weight.
pub proof fn lemma_nesting_push(tokens: Seq<Token>, token: Token)
    ensures
        nesting(tokens.push(token)) == nesting(tokens) + weight(token),
{
    assert(tokens.push(token).drop_last() =~= tokens);
}

/// The nesting of two sequences of tokens, one after the other, is the sum.
pub proof fn lemma_nesting_add(a: Seq<Token>, b: Seq<Token>)
    ensures
        nesting(a + b) == nesting(a) + nesting(b),
    decreases b.len(),
{
    if b.len() == 0 {
        assert(a + b =~= a);
    } else {
        lemma_nesting_add(a, b.drop_last());
        assert((a + b).drop_last() =~= a + b.drop_last());
    }
}

/// A token that keeps the nesting from falling below zero keeps a
/// well-nested sequence well nested.
pub proof fn lemma_well_nested_push(tokens: Seq<Token>, token: Token)
    requires
        well_nested(tokens),
        nesting(tokens) + weight(token) >= 0,
    ensures
        well_nested(tokens.push(token)),
        nesting(tokens.push(token)) == nesting(tokens) + weight(token),
{
    lemma_nesting_push(tokens, token);
    let longer = tokens.push(token);
    assert forall|i: int| 0 <= i <= longer.len() implies nesting(#[trigger] longer.take(i))
        >= 0 by {
        if i <= tokens.len() {
            assert(longer.take(i) =~= tokens.take(i));
        } else {
            assert(longer.take(i) =~= longer);
        }
    }
}

/// The empty sequence of tokens is well nested.
pub proof fn lemma_well_nested_empty()
    ensures
        well_nested(Seq::<Token>::empty()),
        nesting(Seq::<Token>::empty()) == 0,
{
    assert forall|i: int| 0 <= i <= 0 implies nesting(
        #[trigger] Seq::<Token>::empty().take(i),
    ) >= 0 by {
        assert(Seq::<Token>::empty().take(i) =~= Seq::<Token>::empty());
    }
}

/// What one event of a sitemap that is merged in says.
#[derive(Debug)]
pub enum FragmentEvent {
    /// An element starts; with its local name.
    Start(String),
    /// Text inside an element.
    Text(String),
    /// An element ends; with its local name.
    End(String),
    /// Anything else: a declaration, a comment, white space.
    Other,
    /// The XML is broken from here on.
    Failed,
}

/// The mathematical value of a `FragmentEvent`.
pub enum Event {
    Start(Seq<char>),
    Text(Seq<char>),
    End(Seq<char>),
    Other,
    Failed,
}

impl View for FragmentEvent {
    type V = Event;

    open spec fn view(&self) -> Event {
        match self {
            FragmentEvent::Start(name) => Event::Start(name@),
            FragmentEvent::Text(text) => Event::Text(text@),
            FragmentEvent::End(name) => Event::End(name@),
            FragmentEvent::Other => Event::Other,
            FragmentEvent::Failed => Event::Failed,
        }
    }
}

/// The events of a list.
pub open spec fn events_of(v: Seq<FragmentEvent>) -> Seq<Event> {
    Seq::new(v.len(), |i: int| v[i]@)
}

/// The events that `xml-rs` reads from an XML text, up to the end of the
/// document or to the first error, which stands last as `Failed`.
pub uninterp spec fn xml_events(text: Seq<char>) -> Seq<Event>;

/// The tokens that the writer has taken so far.
pub uninterp spec fn emitted(w: EventWriter<Vec<u8>>) -> Seq<Token>;

/// The text of the document that `xml-rs` writes for a sequence of tokens,
/// with the XML declaration in front and with indentation.
pub uninterp spec fn document_text(tokens: Seq<Token>) -> Seq<char>;

/// Trusted: the writer of `xml-rs`, which is driven token by token.
#[verifier::external_type_specification]
#[verifier::external_body]
#[verifier::reject_recursive_types(W)]
pub struct ExEventWriter<W>(xml::writer::EventWriter<W>);

/// Trusted: `xml::reader::EventReader::from_str` and the iterator over its
/// events, which ends behind the end of the document or the first error.
/// Each event is kept as what it says: the local name of an element that
/// starts or ends, the text of characters, `Other` for every other event and
/// `Failed` for an error.  The events are a function of the text alone.
#[verifier::external_body]
pub(crate) fn read_events(text: &str) -> (r: Vec<FragmentEvent>)
    ensures
        events_of(r@) == xml_events(text@),
{
    let event = |e| match e {
        Ok(XmlEvent::StartElement { name, .. }) => FragmentEvent::Start(name.local_name),
        Ok(XmlEvent::Characters(text)) => FragmentEvent::Text(text),
        Ok(XmlEvent::EndElement { name }) => FragmentEvent::End(name.local_name),
        Ok(_) => FragmentEvent::Other,
        Err(_) => FragmentEvent::Failed,
    };
    xml::reader::EventReader::from_str(text).into_iter().map(event).collect()
}

/// Trusted: `xml::writer::EmitterConfig::create_writer` with indentation
/// switched on, over an empty buffer.  The new writer has taken no token.
#[verifier::external_body]
pub(crate) fn new_writer() -> (w: EventWriter<Vec<u8>>)
    ensures
        emitted(w) == Seq::<Token>::empty(),
{
    xml::writer::EmitterConfig::new().perform_indent(true).create_writer(Vec::new())
}

/// Trusted: `EventWriter::write` with `XmlEvent::start_element`.  Writing
/// into a buffer, it cannot fail; the writer has taken one token more.
#[verifier::external_body]
pub(crate) fn emit_start(w: &mut EventWriter<Vec<u8>>, name: &str)
    ensures
        emitted(*final(w)) == emitted(*old(w)).push(Token::Start(name@)),
{
    w.write(xml::writer::XmlEvent::start_element(name)).unwrap()
}

/// Trusted: `EventWriter::write` with `XmlEvent::start_element` and one
/// attribute, added by `attr`.  Writing into a buffer, it cannot fail; the
/// writer has taken one token more.
#[verifier::external_body]
pub(crate) fn emit_start_with(
    w: &mut EventWriter<Vec<u8>>,
    name: &str,
    attribute: &str,
    value: &str,
)
    ensures
        emitted(*final(w)) == emitted(*old(w)).push(
            Token::StartWith(name@, attribute@, value@),
        ),
{
    w.write(xml::writer::XmlEvent::start_element(name).attr(attribute, value)).unwrap()
}

/// Trusted: `EventWriter::write` with `XmlEvent::characters`.  Writing into
/// a buffer, it cannot fail; the writer has taken one token more.
#[verifier::external_body]
pub(crate) fn emit_text(w: &mut EventWriter<Vec<u8>>, text: &str)
    ensures
        emitted(*final(w)) == emitted(*old(w)).push(Token::Text(text@)),
{
    w.write(xml::writer::XmlEvent::characters(text)).unwrap()
}

/// Trusted: `EventWriter::write` with `XmlEvent::end_element`, which closes
/// the element that was started last.  It fails only where no element is
/// open, and that is left out; the writer has taken one token more.
#[verifier::external_body]
pub(crate) fn emit_end(w: &mut EventWriter<Vec<u8>>)
    requires
        nesting(emitted(*old(w))) > 0,
        well_nested(emitted(*old(w))),
    ensures
        emitted(*final(w)) == emitted(*old(w)).push(Token::End),
{
    w.write(xml::writer::XmlEvent::end_element()).unwrap()
}

/// Trusted: `EventWriter::into_inner`, which gives the buffer with the
/// document written so far.  The document is a function of the tokens that
/// the writer has taken.
#[verifier::external_body]
pub(crate) fn finish(w: EventWriter<Vec<u8>>) -> (text: String)
    ensures
        text@ == document_text(emitted(w)),
{
    String::from_utf8(w.into_inner()).unwrap()
}

} // verus!
