//! Reading WordprocessingML with quick-xml and handing the events on as plain tokens.

use vstd::prelude::*;

use quick_xml::events::attributes::Attribute;
use quick_xml::events::{BytesStart, Event};
use quick_xml::name::{QName, ResolveResult};
use quick_xml::NsReader;

verus! {

#[verifier::external_type_specification]
#[verifier::external_body]
#[verifier::reject_recursive_types(R)]
pub struct ExNsReader<R>(NsReader<R>);

#[verifier::external_type_specification]
#[verifier::external_body]
pub struct ExBytesStart<'a>(BytesStart<'a>);

/// How the prefix of a name resolved against the namespace declarations in scope.
#[derive(Clone, Debug, PartialEq, Eq)]
pub enum Namespace {
    /// Bound to this namespace URI, as raw bytes.
    Bound(Vec<u8>),
    /// No prefix and no default namespace.
    Unbound,
    /// A prefix, as raw bytes, that no declaration in scope binds.
    Unknown(Vec<u8>),
}

/// One attribute of an element: its resolved name and its decoded value.
#[derive(Debug, PartialEq, Eq)]
pub struct AttributeToken {
    pub namespace: Namespace,
    pub local: Vec<u8>,
    /// The value after UTF-8 decoding and entity unescaping, or why that failed.
    pub value: Result<String, String>,
}

/// An opening or empty element tag.
#[derive(Debug, PartialEq, Eq)]
pub struct ElementToken {
    pub namespace: Namespace,
    pub local: Vec<u8>,
    /// The attributes in document order; a malformed one ends the list with its message.
    pub attributes: Vec<Result<AttributeToken, String>>,
    /// Bytes between the tag's delimiters: `<` and `>`, or `<` and `/>`.
    pub tag_len: usize,
    /// Input bytes not yet read once the tag was read.
    pub remaining: usize,
}

/// An XML event, reduced to what paragraph identification reads.
#[derive(Debug, PartialEq, Eq)]
pub enum XmlToken {
    Start(ElementToken),
    Empty(ElementToken),
    End,
    /// Character data between tags, as raw bytes.
    Text(Vec<u8>),
    CData,
    /// A comment, declaration, processing instruction or document type.
    Other,
    Eof,
    /// The reader failed with this message.
    Malformed(String),
}

/// The kind of an event, with the raw bytes of character data.
pub enum EventKind {
    Start,
    Empty,
    End,
    Text(Vec<u8>),
    CData,
    Other,
    Eof,
}

/// A namespace-resolving quick-xml reader over `input` that keeps whitespace
/// text, together with the element of the event it read last.
///
/// The reader is opened on `input` only by [`TokenReader::new`] and advanced
/// only by [`read_event`], one event per call; `events` counts those calls.
/// The other reads below leave the reader where it is. So the reader is always
/// the one that has read the first `events` events of `input`.
pub struct TokenReader<'a> {
    reader: NsReader<&'a [u8]>,
    element: Option<BytesStart<'a>>,
    input: Ghost<Seq<u8>>,
    events: Ghost<nat>,
}

// ---------------------------------------------------------------------------
// Plain views of what the reader reports
// ---------------------------------------------------------------------------

pub enum NamespaceView {
    Bound(Seq<u8>),
    Unbound,
    Unknown(Seq<u8>),
}

pub open spec fn namespace_view(n: Namespace) -> NamespaceView {
    match n {
        Namespace::Bound(b) => NamespaceView::Bound(b@),
        Namespace::Unbound => NamespaceView::Unbound,
        Namespace::Unknown(p) => NamespaceView::Unknown(p@),
    }
}

pub enum EventView {
    Start,
    Empty,
    End,
    Text(Seq<u8>),
    CData,
    Other,
    Eof,
}

pub open spec fn event_view(e: EventKind) -> EventView {
    match e {
        EventKind::Start => EventView::Start,
        EventKind::Empty => EventView::Empty,
        EventKind::End => EventView::End,
        EventKind::Text(b) => EventView::Text(b@),
        EventKind::CData => EventView::CData,
        EventKind::Other => EventView::Other,
        EventKind::Eof => EventView::Eof,
    }
}

pub open spec fn text_result_view(r: Result<String, String>) -> Result<Seq<char>, Seq<char>> {
    match r {
        Ok(v) => Ok(v@),
        Err(m) => Err(m@),
    }
}

pub struct AttributeView {
    pub namespace: NamespaceView,
    pub local: Seq<u8>,
    pub value: Result<Seq<char>, Seq<char>>,
}

pub open spec fn attribute_view(a: Result<AttributeToken, String>) -> Result<AttributeView, Seq<char>> {
    match a {
        Ok(t) => Ok(
            AttributeView {
                namespace: namespace_view(t.namespace),
                local: t.local@,
                value: text_result_view(t.value),
            },
        ),
        Err(m) => Err(m@),
    }
}

pub struct ElementView {
    pub namespace: NamespaceView,
    pub local: Seq<u8>,
    pub attributes: Seq<Result<AttributeView, Seq<char>>>,
    pub tag_len: usize,
    pub remaining: usize,
}

pub open spec fn element_view(e: ElementToken) -> ElementView {
    ElementView {
        namespace: namespace_view(e.namespace),
        local: e.local@,
        attributes: e.attributes@.map_values(|a: Result<AttributeToken, String>| attribute_view(a)),
        tag_len: e.tag_len,
        remaining: e.remaining,
    }
}

pub enum TokenView {
    Start(ElementView),
    Empty(ElementView),
    End,
    Text(Seq<u8>),
    CData,
    Other,
    Eof,
    Malformed(Seq<char>),
}

pub open spec fn token_view(t: XmlToken) -> TokenView {
    match t {
        XmlToken::Start(e) => TokenView::Start(element_view(e)),
        XmlToken::Empty(e) => TokenView::Empty(element_view(e)),
        XmlToken::End => TokenView::End,
        XmlToken::Text(b) => TokenView::Text(b@),
        XmlToken::CData => TokenView::CData,
        XmlToken::Other => TokenView::Other,
        XmlToken::Eof => TokenView::Eof,
        XmlToken::Malformed(m) => TokenView::Malformed(m@),
    }
}

pub open spec fn token_views(tokens: Seq<XmlToken>) -> Seq<TokenView> {
    tokens.map_values(|t: XmlToken| token_view(t))
}

// ---------------------------------------------------------------------------
// What quick-xml reads from a byte slice
// ---------------------------------------------------------------------------

/// The event that quick-xml's `NsReader::read_event` returns after it has read
/// `events` events of `input`, or its error as text, for a reader opened on
/// `input` by `NsReader::from_reader` with `trim_text(false)`. Reading a byte
/// slice uses nothing but the slice, so this is a function of its arguments.
pub uninterp spec fn xml_event(input: Seq<u8>, events: nat) -> Result<EventView, Seq<char>>;

/// `NsReader::resolve_element` on the name of the element that the
/// `events`-th event of `input` opened: its namespace and local name.
pub uninterp spec fn xml_element_name(input: Seq<u8>, events: nat) -> (NamespaceView, Seq<u8>);

/// The length of the raw tag (`BytesStart::len`) that the `events`-th event of `input` opened.
pub uninterp spec fn xml_element_tag_len(input: Seq<u8>, events: nat) -> usize;

/// The `k`-th item of `BytesStart::attributes` for the element that the
/// `events`-th event of `input` opened: the raw key and value, or the error as text.
pub uninterp spec fn xml_element_attribute(input: Seq<u8>, events: nat, k: nat) -> Option<
    Result<(Seq<u8>, Seq<u8>), Seq<char>>,
>;

/// `NsReader::resolve_attribute` on `key` once `events` events of `input` were read.
pub uninterp spec fn xml_attribute_name(input: Seq<u8>, events: nat, key: Seq<u8>) -> (
    NamespaceView,
    Seq<u8>,
);

/// `Attribute::decode_and_unescape_value` on a raw value: UTF-8 decoding, then
/// the predefined entities and character references unescaped.
pub uninterp spec fn xml_attribute_value(raw: Seq<u8>) -> Result<Seq<char>, Seq<char>>;

/// The number of input bytes the reader has not consumed once it read `events` events of `input`.
pub uninterp spec fn xml_unread(input: Seq<u8>, events: nat) -> usize;

/// The attributes of the element read as the `events`-th event of `input`,
/// from the `k`-th on, as the reader lists them: up to the end of the list,
/// the first malformed one, or the `bound`-th one.
pub open spec fn attributes_from(input: Seq<u8>, events: nat, k: nat, bound: nat) -> Seq<
    Result<AttributeView, Seq<char>>,
>
    decreases bound - k,
{
    match xml_element_attribute(input, events, k) {
        None => seq![],
        Some(Err(m)) => seq![Err(m)],
        Some(Ok((key, raw))) => {
            let (namespace, local) = xml_attribute_name(input, events, key);
            let a = Ok(AttributeView { namespace, local, value: xml_attribute_value(raw) });
            if k >= bound {
                seq![a]
            } else {
                seq![a] + attributes_from(input, events, k + 1, bound)
            }
        },
    }
}

/// The element read as the `events`-th event of `input`.
pub open spec fn read_element(input: Seq<u8>, events: nat) -> ElementView {
    let (namespace, local) = xml_element_name(input, events);
    let tag_len = xml_element_tag_len(input, events);
    ElementView {
        namespace,
        local,
        attributes: attributes_from(input, events, 0, tag_len as nat),
        tag_len,
        remaining: xml_unread(input, events),
    }
}

/// The token for the event that follows the first `k` events of `input`.
pub open spec fn xml_token(input: Seq<u8>, k: nat) -> TokenView {
    match xml_event(input, k) {
        Err(m) => TokenView::Malformed(m),
        Ok(EventView::Start) => TokenView::Start(read_element(input, k + 1)),
        Ok(EventView::Empty) => TokenView::Empty(read_element(input, k + 1)),
        Ok(EventView::End) => TokenView::End,
        Ok(EventView::Text(b)) => TokenView::Text(b),
        Ok(EventView::CData) => TokenView::CData,
        Ok(EventView::Other) => TokenView::Other,
        Ok(EventView::Eof) => TokenView::Eof,
    }
}

pub open spec fn is_final_view(t: TokenView) -> bool {
    t is Eof || t is Malformed
}

/// The message of the token that ends a reading that did not finish within
/// one event per input byte and one more.
pub open spec fn unfinished_message() -> Seq<char> {
    "the XML reader did not reach the end of its input"@
}

/// The tokens of `input` from the `k`-th event on: through the first final
/// one, or, past one event per input byte, ended by a `Malformed` token.
pub open spec fn tokens_from(input: Seq<u8>, k: nat) -> Seq<TokenView>
    decreases input.len() - k,
{
    let t = xml_token(input, k);
    if is_final_view(t) {
        seq![t]
    } else if k >= input.len() {
        seq![t, TokenView::Malformed(unfinished_message())]
    } else {
        seq![t] + tokens_from(input, k + 1)
    }
}

/// The tokens quick-xml reads from `input`.
pub open spec fn xml_tokens(input: Seq<u8>) -> Seq<TokenView> {
    tokens_from(input, 0)
}

// ---------------------------------------------------------------------------
// Calls into quick-xml
// ---------------------------------------------------------------------------

/// A namespace-resolving reader over `input` that keeps whitespace text.
/// Calls `NsReader::from_reader` and `Config::trim_text(false)`.
#[verifier::external_body]
fn open_reader<'a>(input: &'a [u8]) -> (r: NsReader<&'a [u8]>) {
    let mut reader = NsReader::from_reader(input);
    reader.config_mut().trim_text(false);
    reader
}

/// Reads the next event with `NsReader::read_event`, keeping an opening or
/// empty element for the reads below; the reader's error is returned as text.
/// Claims that the event is the one [`xml_event`] names for the reader's state.
#[verifier::external_body]
fn read_event<'a>(r: &mut TokenReader<'a>) -> (e: Result<EventKind, String>)
    ensures
        final(r).input == old(r).input,
        final(r).events == old(r).events,
        match e {
            Ok(k) => xml_event(old(r).input@, old(r).events@) == Ok::<EventView, Seq<char>>(event_view(k)),
            Err(m) => xml_event(old(r).input@, old(r).events@) == Err::<EventView, Seq<char>>(m@),
        },
        (e matches Ok(EventKind::Start) || e matches Ok(EventKind::Empty)) ==> final(r).element is Some,
{
    let (kind, element) = match r.reader.read_event() {
        Err(error) => return Err(error.to_string()),
        Ok(Event::Start(e)) => (EventKind::Start, Some(e)),
        Ok(Event::Empty(e)) => (EventKind::Empty, Some(e)),
        Ok(Event::End(_)) => (EventKind::End, None),
        Ok(Event::Text(t)) => (EventKind::Text(t.to_vec()), None),
        Ok(Event::CData(_)) => (EventKind::CData, None),
        Ok(Event::Eof) => (EventKind::Eof, None),
        Ok(_) => (EventKind::Other, None),
    };
    r.element = element;
    Ok(kind)
}

/// The namespace and local name of the element read last, by
/// `NsReader::resolve_element` on its `BytesStart::name`.
#[verifier::external_body]
fn element_name(r: &TokenReader) -> (n: (Namespace, Vec<u8>))
    requires
        r.element is Some,
    ensures
        (namespace_view(n.0), n.1@) == xml_element_name(r.input@, r.events@),
{
    let (resolution, local) = r.reader.resolve_element(r.element.as_ref().unwrap().name());
    let namespace = match resolution {
        ResolveResult::Bound(ns) => Namespace::Bound(ns.as_ref().to_vec()),
        ResolveResult::Unbound => Namespace::Unbound,
        ResolveResult::Unknown(prefix) => Namespace::Unknown(prefix),
    };
    (namespace, local.as_ref().to_vec())
}

/// The raw length of the tag read last, between its delimiters (`BytesStart::len`).
#[verifier::external_body]
fn element_tag_len(r: &TokenReader) -> (n: usize)
    requires
        r.element is Some,
    ensures
        n == xml_element_tag_len(r.input@, r.events@),
{
    r.element.as_ref().unwrap().len()
}

/// The `k`-th item of the attributes of the element read last
/// (`BytesStart::attributes`, then `Iterator::nth`): its raw key and value,
/// or the error as text.
#[verifier::external_body]
fn element_attribute(r: &TokenReader, k: usize) -> (a: Option<Result<(Vec<u8>, Vec<u8>), String>>)
    requires
        r.element is Some,
    ensures
        match a {
            None => xml_element_attribute(r.input@, r.events@, k as nat) is None,
            Some(Ok((key, raw))) => xml_element_attribute(r.input@, r.events@, k as nat)
                == Some(Ok::<(Seq<u8>, Seq<u8>), Seq<char>>((key@, raw@))),
            Some(Err(m)) => xml_element_attribute(r.input@, r.events@, k as nat)
                == Some(Err::<(Seq<u8>, Seq<u8>), Seq<char>>(m@)),
        },
{
    match r.element.as_ref().unwrap().attributes().nth(k) {
        None => None,
        Some(Ok(a)) => Some(Ok((a.key.as_ref().to_vec(), a.value.to_vec()))),
        Some(Err(error)) => Some(Err(error.to_string())),
    }
}

/// The namespace and local name of an attribute key (`NsReader::resolve_attribute`).
#[verifier::external_body]
fn attribute_name(r: &TokenReader, key: &[u8]) -> (n: (Namespace, Vec<u8>))
    ensures
        (namespace_view(n.0), n.1@) == xml_attribute_name(r.input@, r.events@, key@),
{
    let (resolution, local) = r.reader.resolve_attribute(QName(key));
    let namespace = match resolution {
        ResolveResult::Bound(ns) => Namespace::Bound(ns.as_ref().to_vec()),
        ResolveResult::Unbound => Namespace::Unbound,
        ResolveResult::Unknown(prefix) => Namespace::Unknown(prefix),
    };
    (namespace, local.as_ref().to_vec())
}

/// A raw attribute value decoded and unescaped
/// (`Attribute::decode_and_unescape_value` with the reader's decoder, which is
/// UTF-8 since this crate builds quick-xml without its `encoding` feature).
#[verifier::external_body]
fn attribute_value(r: &TokenReader, key: &[u8], raw: &[u8]) -> (v: Result<String, String>)
    ensures
        text_result_view(v) == xml_attribute_value(raw@),
{
    match Attribute::from((key, raw)).decode_and_unescape_value(r.reader.decoder()) {
        Ok(value) => Ok(value.into_owned()),
        Err(error) => Err(error.to_string()),
    }
}

/// The length of the input the reader has not consumed; the slice reader
/// reads no further ahead than the event it returned. Calls `Reader::get_ref`.
#[verifier::external_body]
fn unread_len(r: &TokenReader) -> (n: usize)
    ensures
        n == xml_unread(r.input@, r.events@),
{
    r.reader.get_ref().len()
}

impl<'a> TokenReader<'a> {
    fn new(input: &'a [u8]) -> (r: Self)
        ensures
            r.input@ == input@,
            r.events@ == 0,
    {
        TokenReader { reader: open_reader(input), element: None, input: Ghost(input@), events: Ghost(0) }
    }

    /// Reads the next event and counts it.
    fn next_event(&mut self) -> (e: Result<EventKind, String>)
        ensures
            final(self).input == old(self).input,
            final(self).events@ == old(self).events@ + 1,
            match e {
                Ok(k) => xml_event(old(self).input@, old(self).events@) == Ok::<EventView, Seq<char>>(event_view(k)),
                Err(m) => xml_event(old(self).input@, old(self).events@) == Err::<EventView, Seq<char>>(m@),
            },
            (e matches Ok(EventKind::Start) || e matches Ok(EventKind::Empty)) ==> final(self).element is Some,
    {
        let e = read_event(self);
        proof {
            self.events = Ghost((self.events@ + 1) as nat);
        }
        e
    }
}

/// The attributes of the element read last, in document order; a malformed
/// one ends the list with its message.
fn read_attributes(r: &TokenReader) -> (out: Vec<Result<AttributeToken, String>>)
    requires
        r.element is Some,
    ensures
        out@.map_values(|a: Result<AttributeToken, String>| attribute_view(a)) == attributes_from(
            r.input@,
            r.events@,
            0,
            xml_element_tag_len(r.input@, r.events@) as nat,
        ),
{
    let mut out: Vec<Result<AttributeToken, String>> = Vec::new();
    // Every attribute spans at least one byte of the tag, so the tag's length
    // bounds the number of attributes.
    let bound = element_tag_len(r);
    let ghost whole = attributes_from(r.input@, r.events@, 0, bound as nat);
    let mut seen: usize = 0;
    loop
        invariant_except_break
            out@.map_values(|a: Result<AttributeToken, String>| attribute_view(a)) + attributes_from(
                r.input@,
                r.events@,
                seen as nat,
                bound as nat,
            ) == whole,
        invariant
            r.element is Some,
            seen <= bound,
            bound == xml_element_tag_len(r.input@, r.events@),
            whole == attributes_from(r.input@, r.events@, 0, bound as nat),
        ensures
            out@.map_values(|a: Result<AttributeToken, String>| attribute_view(a)) == whole,
        decreases bound - seen,
    {
        let ghost before = out@;
        let ghost rest = attributes_from(r.input@, r.events@, seen as nat, bound as nat);
        match element_attribute(r, seen) {
            None => {
                assert(rest =~= Seq::<Result<AttributeView, Seq<char>>>::empty());
                assert(out@.map_values(|a: Result<AttributeToken, String>| attribute_view(a)) + rest
                    =~= out@.map_values(|a: Result<AttributeToken, String>| attribute_view(a)));
                break;
            },
            Some(Err(message)) => {
                out.push(Err(message));
                assert(out@.map_values(|a: Result<AttributeToken, String>| attribute_view(a))
                    =~= before.map_values(|a: Result<AttributeToken, String>| attribute_view(a)) + rest);
                break;
            },
            Some(Ok((key, raw))) => {
                let (namespace, local) = attribute_name(r, key.as_slice());
                let value = attribute_value(r, key.as_slice(), raw.as_slice());
                out.push(Ok(AttributeToken { namespace, local, value }));
                let ghost head = seq![attribute_view(out@.last())];
                assert(out@.map_values(|a: Result<AttributeToken, String>| attribute_view(a))
                    =~= before.map_values(|a: Result<AttributeToken, String>| attribute_view(a)) + head);
                if seen == bound {
                    assert(rest == head);
                    assert(out@.map_values(|a: Result<AttributeToken, String>| attribute_view(a))
                        =~= before.map_values(|a: Result<AttributeToken, String>| attribute_view(a)) + rest);
                    break;
                }
                assert(rest == head + attributes_from(r.input@, r.events@, (seen + 1) as nat, bound as nat));
                assert(before.map_values(|a: Result<AttributeToken, String>| attribute_view(a)) + rest
                    =~= out@.map_values(|a: Result<AttributeToken, String>| attribute_view(a))
                    + attributes_from(r.input@, r.events@, (seen + 1) as nat, bound as nat));
            },
        }
        seen += 1;
    }
    out
}

fn element_token(r: &TokenReader) -> (e: ElementToken)
    requires
        r.element is Some,
    ensures
        element_view(e) == read_element(r.input@, r.events@),
{
    let (namespace, local) = element_name(r);
    let attributes = read_attributes(r);
    let e = ElementToken { namespace, local, attributes, tag_len: element_tag_len(r), remaining: unread_len(r) };
    assert(element_view(e).attributes =~= read_element(r.input@, r.events@).attributes);
    e
}

/// Whether a token ends the event stream.
pub open spec fn is_final(t: XmlToken) -> bool {
    t is Eof || t is Malformed
}

/// Reads every event of `input` as a token, through the end of input or the
/// first reader error, which is the last token: exactly the tokens
/// [`xml_tokens`] describes.
pub fn read_tokens(input: &[u8]) -> (r: Vec<XmlToken>)
    ensures
        token_views(r@) == xml_tokens(input@),
        r@.len() > 0,
        is_final(r@.last()),
        forall|i: int| 0 <= i < r@.len() - 1 ==> !is_final(#[trigger] r@[i]),
{
    let mut reader = TokenReader::new(input);
    let mut tokens: Vec<XmlToken> = Vec::new();
    // Reading stops after one event per input byte and one more; a reader
    // that has not ended by then is reported as malformed (see `tokens_from`).
    let bound = input.len();
    let mut count: usize = 0;
    loop
        invariant_except_break
            reader.events@ == count,
            token_views(tokens@) + tokens_from(input@, count as nat) == xml_tokens(input@),
        invariant
            count <= bound,
            bound == input@.len(),
            reader.input@ == input@,
            forall|i: int| 0 <= i < tokens@.len() ==> !is_final(#[trigger] tokens@[i]),
        ensures
            token_views(tokens@) + seq![TokenView::Malformed(unfinished_message())] == xml_tokens(input@),
            tokens@.len() > 0,
        decreases bound - count,
    {
        let ghost before = tokens@;
        let token = match reader.next_event() {
            Err(message) => XmlToken::Malformed(message),
            Ok(EventKind::Start) => XmlToken::Start(element_token(&reader)),
            Ok(EventKind::Empty) => XmlToken::Empty(element_token(&reader)),
            Ok(EventKind::End) => XmlToken::End,
            Ok(EventKind::Text(bytes)) => XmlToken::Text(bytes),
            Ok(EventKind::CData) => XmlToken::CData,
            Ok(EventKind::Other) => XmlToken::Other,
            Ok(EventKind::Eof) => XmlToken::Eof,
        };
        assert(token_view(token) == xml_token(input@, count as nat));
        let done = match &token {
            XmlToken::Eof | XmlToken::Malformed(_) => true,
            _ => false,
        };
        tokens.push(token);
        assert(token_views(tokens@) =~= token_views(before) + seq![xml_token(input@, count as nat)]);
        if done {
            assert(token_views(tokens@) =~= xml_tokens(input@));
            return tokens;
        }
        if count == bound {
            assert(tokens_from(input@, count as nat) == seq![xml_token(input@, count as nat), TokenView::Malformed(unfinished_message())]);
            assert(token_views(tokens@) + seq![TokenView::Malformed(unfinished_message())] =~= token_views(before) + tokens_from(input@, count as nat));
            break;
        }
        assert(token_views(tokens@) + tokens_from(input@, (count + 1) as nat) =~= xml_tokens(input@));
        count += 1;
    }
    let ghost before = tokens@;
    let message = String::from_str("the XML reader did not reach the end of its input");
    assert(message@ == unfinished_message());
    tokens.push(XmlToken::Malformed(message));
    assert(token_views(tokens@) =~= token_views(before) + seq![TokenView::Malformed(unfinished_message())]);
    tokens
}

} // verus!
