//! XML as a sequence of events: start tags with their attributes, end tags
//! and the characters between them.
use vstd::prelude::*;
use crate::error::EPubError;
use crate::io::{lines_error, split_lines, BufReader, InputFile};
use xml::Event::{Characters, Comment, ElementEnd, ElementStart, CDATA, PI};

verus! {

/// The namespace of the prefix `xml`.
pub const XML_NAMESPACE: &'static str = "http://www.w3.org/XML/1998/namespace";

/// One attribute of a start tag.
#[derive(Debug)]
pub struct Attribute {
    /// the name of the attribute, without prefix
    pub name: String,
    /// the namespace that the prefix of the attribute stands for
    pub ns: Option<String>,
    pub value: String,
}

/// What an [`Attribute`] holds.
pub struct AttributeView {
    pub name: Seq<char>,
    pub ns: Option<Seq<char>>,
    pub value: Seq<char>,
}

/// What an optional text holds.
pub open spec fn text_view(text: Option<String>) -> Option<Seq<char>> {
    match text {
        Some(text) => Some(text@),
        None => None,
    }
}

impl View for Attribute {
    type V = AttributeView;

    open spec fn view(&self) -> AttributeView {
        AttributeView { name: self.name@, ns: text_view(self.ns), value: self.value@ }
    }
}

/// What a sequence of attributes holds.
pub open spec fn attribute_views(attributes: Seq<Attribute>) -> Seq<AttributeView> {
    attributes.map_values(|attribute: Attribute| attribute@)
}

/// An opening tag.
#[derive(Debug)]
pub struct StartTag {
    /// the name of the tag, without prefix
    pub name: String,
    pub attributes: Vec<Attribute>,
}

/// What a [`StartTag`] holds.
pub struct StartTagView {
    pub name: Seq<char>,
    /// the value of every attribute, by the attribute's name and namespace
    pub attributes: Map<(Seq<char>, Option<Seq<char>>), Seq<char>>,
}

/// The value of the first of `attributes` with the name `name` in the
/// namespace `ns`.
pub open spec fn attribute_value(
    attributes: Seq<AttributeView>,
    name: Seq<char>,
    ns: Option<Seq<char>>,
) -> Option<Seq<char>>
    decreases attributes.len(),
{
    if attributes.len() == 0 {
        None
    } else if attributes[0].name == name && attributes[0].ns == ns {
        Some(attributes[0].value)
    } else {
        attribute_value(attributes.skip(1), name, ns)
    }
}

/// The values of `attributes` by name and namespace. Of two attributes
/// with one name in one namespace the first one counts.
pub open spec fn attribute_map(attributes: Seq<AttributeView>) -> Map<
    (Seq<char>, Option<Seq<char>>),
    Seq<char>,
> {
    Map::new(
        |key: (Seq<char>, Option<Seq<char>>)| attribute_value(attributes, key.0, key.1) is Some,
        |key: (Seq<char>, Option<Seq<char>>)| attribute_value(attributes, key.0, key.1)->Some_0,
    )
}

impl View for StartTag {
    type V = StartTagView;

    open spec fn view(&self) -> StartTagView {
        StartTagView {
            name: self.name@,
            attributes: attribute_map(attribute_views(self.attributes@)),
        }
    }
}

/// A closing tag.
#[derive(Debug)]
pub struct EndTag {
    /// the name of the tag, without prefix
    pub name: String,
}

/// What the parser finds in a document, piece by piece.
#[derive(Debug)]
pub enum XmlEvent {
    /// processing information
    PI(String),
    /// a start tag
    ElementStart(StartTag),
    /// an end tag
    ElementEnd(EndTag),
    /// character data
    Characters(String),
    /// a CDATA section
    CDATA(String),
    /// a comment
    Comment(String),
}

/// What an [`XmlEvent`] holds.
pub enum XmlEventView {
    PI(Seq<char>),
    ElementStart(StartTagView),
    ElementEnd(Seq<char>),
    Characters(Seq<char>),
    CDATA(Seq<char>),
    Comment(Seq<char>),
}

impl View for XmlEvent {
    type V = XmlEventView;

    open spec fn view(&self) -> XmlEventView {
        match self {
            XmlEvent::PI(text) => XmlEventView::PI(text@),
            XmlEvent::ElementStart(tag) => XmlEventView::ElementStart(tag@),
            XmlEvent::ElementEnd(tag) => XmlEventView::ElementEnd(tag.name@),
            XmlEvent::Characters(text) => XmlEventView::Characters(text@),
            XmlEvent::CDATA(text) => XmlEventView::CDATA(text@),
            XmlEvent::Comment(text) => XmlEventView::Comment(text@),
        }
    }
}

/// What a sequence of events holds.
pub open spec fn event_views(events: Seq<XmlEvent>) -> Seq<XmlEventView> {
    events.map_values(|event: XmlEvent| event@)
}

impl StartTagView {
    /// The value of the attribute `name` in the namespace `ns`, or without
    /// namespace.
    pub open spec fn lookup(self, name: Seq<char>, ns: Option<Seq<char>>) -> Option<Seq<char>> {
        if self.attributes.contains_key((name, ns)) {
            Some(self.attributes[(name, ns)])
        } else {
            None
        }
    }

    /// The value of the attribute `name` that has no namespace.
    pub open spec fn attribute(self, name: Seq<char>) -> Option<Seq<char>> {
        self.lookup(name, None)
    }

    /// The value of the attribute `name` in the namespace `ns`.
    pub open spec fn attribute_ns(self, name: Seq<char>, ns: Seq<char>) -> Option<Seq<char>> {
        self.lookup(name, Some(ns))
    }
}

impl StartTag {
    /// The index of the first attribute `name` in the namespace `ns`.
    fn find(&self, name: &str, ns: Option<&str>) -> (r: Option<usize>)
        ensures
            match r {
                Some(i) => i < self.attributes@.len() && self@.lookup(
                    name@,
                    match ns {
                        Some(ns) => Some(ns@),
                        None => None,
                    },
                ) == Some(self.attributes@[i as int].value@),
                None => self@.lookup(
                    name@,
                    match ns {
                        Some(ns) => Some(ns@),
                        None => None,
                    },
                ) is None,
            },
    {
        let ghost wanted = match ns {
            Some(ns) => Some(ns@),
            None => None,
        };
        let ghost all = attribute_views(self.attributes@);
        let mut i: usize = 0;
        assert(all.skip(0) =~= all);
        while i < self.attributes.len()
            invariant
                i <= self.attributes@.len(),
                all == attribute_views(self.attributes@),
                wanted == match ns {
                    Some(ns) => Some(ns@),
                    None => None,
                },
                attribute_value(all, name@, wanted) == attribute_value(
                    all.skip(i as int),
                    name@,
                    wanted,
                ),
            decreases self.attributes@.len() - i,
        {
            let attribute = &self.attributes[i];
            assert(all.skip(i as int)[0] == attribute@);
            assert(all.skip(i as int).skip(1) =~= all.skip(i + 1));
            let same_ns: bool = match (&attribute.ns, ns) {
                (Some(have), Some(want)) => same_text(have.as_str(), want),
                (None, None) => true,
                _ => false,
            };
            if same_ns && same_text(attribute.name.as_str(), name) {
                return Some(i);
            }
            i += 1;
        }
        None
    }

    /// The value of the attribute `name` that has no namespace.
    pub fn attribute(&self, name: &str) -> (r: Option<&String>)
        ensures
            match r {
                Some(value) => self@.attribute(name@) == Some(value@),
                None => self@.attribute(name@) is None,
            },
    {
        match self.find(name, None) {
            Some(i) => Some(&self.attributes[i].value),
            None => None,
        }
    }

    /// The value of the attribute `name` in the namespace `ns`.
    pub fn attribute_ns(&self, name: &str, ns: &str) -> (r: Option<&String>)
        ensures
            match r {
                Some(value) => self@.attribute_ns(name@, ns@) == Some(value@),
                None => self@.attribute_ns(name@, ns@) is None,
            },
    {
        match self.find(name, Some(ns)) {
            Some(i) => Some(&self.attributes[i].value),
            None => None,
        }
    }
}

/// Whether two texts hold the same characters.
pub fn same_text(a: &str, b: &str) -> (same: bool)
    ensures
        same == (a@ == b@),
{
    let x = a.as_bytes();
    let y = b.as_bytes();
    proof {
        // a text is what its bytes decode to, so texts are the same where their bytes are
        vstd::utf8::encode_utf8_decode_utf8(a@);
        vstd::utf8::encode_utf8_decode_utf8(b@);
    }
    if x.len() != y.len() {
        return false;
    }
    let mut i: usize = 0;
    while i < x.len()
        invariant
            i <= x@.len(),
            x@.len() == y@.len(),
            x@ == vstd::utf8::encode_utf8(a@),
            y@ == vstd::utf8::encode_utf8(b@),
            forall|k: int| 0 <= k < i ==> x@[k] == y@[k],
        decreases x@.len() - i,
    {
        if x[i] != y[i] {
            return false;
        }
        i += 1;
    }
    assert(x@ =~= y@);
    true
}

/// The character that ends a CDATA section where it stands twice before `>`.
pub const BRACKET: char = ']';

/// The longest run of brackets that the parser can count.
pub const MAX_BRACKET_RUN: usize = 255;

/// The longest text whose lines and columns the parser can count.
pub const MAX_DOCUMENT_LEN: usize = 0xffff_fffe;

/// The length of the run of brackets that `text` ends in.
pub open spec fn bracket_run(text: Seq<char>) -> nat
    decreases text.len(),
{
    if text.len() == 0 || text.last() != BRACKET {
        0
    } else {
        bracket_run(text.drop_last()) + 1
    }
}

/// The length of the longest run of brackets in `text`.
pub open spec fn longest_bracket_run(text: Seq<char>) -> nat
    decreases text.len(),
{
    if text.len() == 0 {
        0
    } else if bracket_run(text) > longest_bracket_run(text.drop_last()) {
        bracket_run(text)
    } else {
        longest_bracket_run(text.drop_last())
    }
}

/// Whether the parser can take a text: the text is no longer than the
/// parser can count, and so is every run of brackets in it.
pub open spec fn is_parsable(text: Seq<char>) -> bool {
    text.len() <= MAX_DOCUMENT_LEN && longest_bracket_run(text) <= MAX_BRACKET_RUN
}

/// Whether the parser can take the text that `lines` make.
pub fn can_parse(lines: &Vec<String>) -> (b: bool)
    ensures
        b == is_parsable(joined_text(text_views(lines@))),
{
    let ghost texts = text_views(lines@);
    let mut total: usize = 0;
    let mut run: usize = 0;
    let mut i: usize = 0;
    proof {
        assert(texts.take(0) =~= Seq::<Seq<char>>::empty());
    }
    while i < lines.len()
        invariant
            i <= lines@.len(),
            texts == text_views(lines@),
            total == joined_text(texts.take(i as int)).len(),
            total <= MAX_DOCUMENT_LEN,
            run == bracket_run(joined_text(texts.take(i as int))),
            longest_bracket_run(joined_text(texts.take(i as int))) <= MAX_BRACKET_RUN,
        decreases lines@.len() - i,
    {
        let ghost before = joined_text(texts.take(i as int));
        let ghost line = lines@[i as int]@;
        proof {
            assert(texts.take(i + 1).drop_last() =~= texts.take(i as int));
            assert(texts.take(i + 1).last() == line);
            assert(before + line.take(0) =~= before);
            lemma_joined_prefix(texts, i + 1);
            lemma_unparsable_prefix(joined_text(texts), (before + line).len() as int);
        }
        let text: &str = lines[i].as_str();
        for c in it: text.chars()
            invariant
                it.seq() == line,
                i < lines@.len(),
                texts == text_views(lines@),
                line == lines@[i as int]@,
                before == joined_text(texts.take(i as int)),
                joined_text(texts.take(i + 1)) == before + line,
                !is_parsable(before + line) ==> !is_parsable(joined_text(texts)),
                total == (before + line.take(it.index() as int)).len(),
                total <= MAX_DOCUMENT_LEN,
                run == bracket_run(before + line.take(it.index() as int)),
                longest_bracket_run(before + line.take(it.index() as int)) <= MAX_BRACKET_RUN,
        {
            let ghost seen = before + line.take(it.index() as int);
            let ghost next = before + line.take(it.index() + 1);
            proof {
                assert(next.drop_last() =~= seen);
                assert(next.last() == c);
                lemma_unparsable_prefix(before + line, before.len() + it.index() + 1);
                assert((before + line).take(before.len() + it.index() + 1) =~= next);
            }
            if total == MAX_DOCUMENT_LEN {
                return false;
            }
            total = total + 1;
            run = if c == BRACKET {
                run + 1
            } else {
                0
            };
            if run > MAX_BRACKET_RUN {
                return false;
            }
        }
        proof {
            assert(line.take(line.len() as int) =~= line);
        }
        i += 1;
    }
    proof {
        assert(texts.take(i as int) =~= texts);
    }
    true
}

/// The text that the first lines make is what the text of all lines starts with.
pub proof fn lemma_joined_prefix(lines: Seq<Seq<char>>, n: int)
    requires
        0 <= n <= lines.len(),
    ensures
        joined_text(lines.take(n)).len() <= joined_text(lines).len(),
        joined_text(lines).take(joined_text(lines.take(n)).len() as int) == joined_text(
            lines.take(n),
        ),
    decreases lines.len() - n,
{
    if n == lines.len() {
        assert(lines.take(n) =~= lines);
        assert(joined_text(lines).take(joined_text(lines).len() as int) =~= joined_text(lines));
    } else {
        assert(lines.take(n + 1).drop_last() =~= lines.take(n));
        lemma_joined_prefix(lines, n + 1);
        let more = joined_text(lines.take(n + 1));
        let less = joined_text(lines.take(n));
        assert(more == less + lines[n]);
        assert(joined_text(lines).take(less.len() as int) =~= joined_text(lines).take(
            more.len() as int,
        ).take(less.len() as int));
        assert(more.take(less.len() as int) =~= less);
    }
}

/// A text that starts with what the parser cannot take cannot be taken either.
pub proof fn lemma_unparsable_prefix(text: Seq<char>, n: int)
    requires
        0 <= n <= text.len(),
    ensures
        !is_parsable(text.take(n)) ==> !is_parsable(text),
        longest_bracket_run(text.take(n)) <= longest_bracket_run(text),
    decreases text.len() - n,
{
    if n == text.len() {
        assert(text.take(n) =~= text);
    } else {
        assert(text.take(n + 1).drop_last() =~= text.take(n));
        lemma_unparsable_prefix(text, n + 1);
    }
}

/// RustyXML's streaming parser.
#[verifier::external_type_specification]
#[verifier::external_body]
pub struct ExParser(::xml::Parser);

/// An event as RustyXML hands it out.
#[verifier::external_type_specification]
#[verifier::external_body]
pub struct ExEvent(::xml::Event);

/// RustyXML's report of erroneous XML.
#[verifier::external_type_specification]
#[verifier::external_body]
pub struct ExParserError(::xml::ParserError);

/// The characters that were fed to a parser so far.
pub uninterp spec fn fed_chars(parser: ::xml::Parser) -> Seq<char>;

/// The number of events and errors that a parser has handed out so far.
pub uninterp spec fn handed_out(parser: ::xml::Parser) -> nat;

/// What RustyXML's parser hands out for a text, in its order: the events
/// of the text, with the error behind them where the text is erroneous.
pub uninterp spec fn xml_events(text: Seq<char>) -> Seq<Result<XmlEventView, (u32, u32)>>;

/// What an event, or the line and column of an error, holds.
pub open spec fn item_view(item: Result<XmlEvent, (u32, u32)>) -> Result<XmlEventView, (u32, u32)> {
    match item {
        Ok(event) => Ok(event@),
        Err(place) => Err(place),
    }
}

/// Whether `r` is what stands at `at` in `items`: nothing where `items`
/// end before `at`.
pub open spec fn is_item_at(
    r: Option<Result<XmlEvent, (u32, u32)>>,
    items: Seq<Result<XmlEventView, (u32, u32)>>,
    at: nat,
) -> bool {
    match r {
        Some(item) => at < items.len() && item_view(item) == items[at as int],
        None => at >= items.len(),
    }
}

/// `xml::Parser::new`: a parser that nothing was fed to and that has
/// handed out nothing.
pub assume_specification[ ::xml::Parser::new ]() -> (parser: ::xml::Parser)
    ensures
        fed_chars(parser) == Seq::<char>::empty(),
        handed_out(parser) == 0,
;

/// `xml::Parser::feed_str`: puts the characters of `data` behind those that
/// were fed before.
pub assume_specification[ ::xml::Parser::feed_str ](parser: &mut ::xml::Parser, data: &str)
    ensures
        fed_chars(*final(parser)) == fed_chars(*old(parser)) + data@,
        handed_out(*final(parser)) == handed_out(*old(parser)),
;

/// `Iterator::next` of `xml::Parser`: the next of the events and errors
/// that the characters fed so far give, or nothing where all of them were
/// handed out.
///
/// An event comes field by field, a start tag with its name and with its
/// attributes in the order in which RustyXML's map hands them out, each
/// once; an error comes as its line and its column.
///
/// The parser counts lines and columns in 32 bits and the brackets at the
/// end of a CDATA section in 8 bits, and panics where a count runs over.
/// So the text that was fed must be one whose counts stay below that.
#[verifier::external_body]
fn next_event(parser: &mut ::xml::Parser) -> (r: Option<Result<XmlEvent, (u32, u32)>>)
    requires
        is_parsable(fed_chars(*old(parser))),
    ensures
        fed_chars(*final(parser)) == fed_chars(*old(parser)),
        handed_out(*final(parser)) == handed_out(*old(parser)) + if r is Some {
            1nat
        } else {
            0nat
        },
        is_item_at(r, xml_events(fed_chars(*old(parser))), handed_out(*old(parser))),
{
    Some(match parser.next()? {
        Ok(PI(text)) => Ok(XmlEvent::PI(text)),
        Ok(ElementStart(tag)) => Ok(XmlEvent::ElementStart(StartTag {
            name: tag.name,
            attributes: tag.attributes.into_iter().map(|((name, ns), value)| Attribute { name, ns, value }).collect(),
        })),
        Ok(ElementEnd(tag)) => Ok(XmlEvent::ElementEnd(EndTag { name: tag.name })),
        Ok(Characters(text)) => Ok(XmlEvent::Characters(text)),
        Ok(CDATA(text)) => Ok(XmlEvent::CDATA(text)),
        Ok(Comment(text)) => Ok(XmlEvent::Comment(text)),
        Err(error) => Err((error.line, error.col)),
    })
}

/// What a sequence of texts holds.
pub open spec fn text_views(texts: Seq<String>) -> Seq<Seq<char>> {
    texts.map_values(|text: String| text@)
}

/// The text that `lines` make, one behind the other.
pub open spec fn joined_text(lines: Seq<Seq<char>>) -> Seq<char>
    decreases lines.len(),
{
    if lines.len() == 0 {
        Seq::empty()
    } else {
        joined_text(lines.drop_last()) + lines.last()
    }
}

/// The events among what a parser hands out, or the first error.
pub open spec fn parsed_events(items: Seq<Result<XmlEventView, (u32, u32)>>) -> Result<
    Seq<XmlEventView>,
    EPubError,
>
    decreases items.len(),
{
    if items.len() == 0 {
        Ok(Seq::empty())
    } else {
        match parsed_events(items.drop_last()) {
            Err(error) => Err(error),
            Ok(events) => match items.last() {
                Ok(event) => Ok(events.push(event)),
                Err(place) => Err(EPubError::XmlParseErr(place.0, place.1)),
            },
        }
    }
}

/// An error among the first items is the error of all items.
pub proof fn lemma_parsed_events_error(items: Seq<Result<XmlEventView, (u32, u32)>>, n: int)
    requires
        0 <= n <= items.len(),
        parsed_events(items.take(n)) is Err,
    ensures
        parsed_events(items) == parsed_events(items.take(n)),
    decreases items.len() - n,
{
    if n == items.len() {
        assert(items.take(n) =~= items);
    } else {
        assert(items.take(n + 1).drop_last() =~= items.take(n));
        lemma_parsed_events_error(items, n + 1);
    }
}

/// The events of a document, or the error of the parser. A text that the
/// parser cannot take is invalid.
pub open spec fn document_events(text: Seq<char>) -> Result<Seq<XmlEventView>, EPubError> {
    if is_parsable(text) {
        parsed_events(xml_events(text))
    } else {
        Err(EPubError::InvalidXml)
    }
}

/// Whether `r` is the outcome `events` of parsing a document.
pub open spec fn is_parsed(
    r: Result<Vec<XmlEvent>, EPubError>,
    events: Result<Seq<XmlEventView>, EPubError>,
) -> bool {
    match events {
        Ok(events) => r matches Ok(parsed) && event_views(parsed@) == events,
        Err(e) => r matches Err(error) && error == e,
    }
}

/// Parses a document that is given line by line.
///
/// A text that the parser cannot take is refused as invalid. Else the
/// lines are fed to the parser one behind the other, and what the parser
/// makes of them is collected: all events, or the first error.
pub fn parse_lines(lines: &Vec<String>) -> (r: Result<Vec<XmlEvent>, EPubError>)
    ensures
        is_parsed(r, document_events(joined_text(text_views(lines@)))),
{
    if !can_parse(lines) {
        return Err(EPubError::InvalidXml);
    }
    let mut parser = ::xml::Parser::new();
    let mut i: usize = 0;
    assert(text_views(lines@).take(0) =~= Seq::<Seq<char>>::empty());
    while i < lines.len()
        invariant
            i <= lines@.len(),
            handed_out(parser) == 0,
            fed_chars(parser) == joined_text(text_views(lines@).take(i as int)),
        decreases lines@.len() - i,
    {
        parser.feed_str(lines[i].as_str());
        proof {
            let texts = text_views(lines@);
            assert(texts.take(i + 1).drop_last() =~= texts.take(i as int));
            assert(texts.take(i + 1).last() == lines@[i as int]@);
        }
        i += 1;
    }
    assert(text_views(lines@).take(i as int) =~= text_views(lines@));
    let ghost items = xml_events(joined_text(text_views(lines@)));
    let mut events: Vec<XmlEvent> = Vec::new();
    proof {
        assert(items.take(0) =~= Seq::<Result<XmlEventView, (u32, u32)>>::empty());
        assert(event_views(events@) =~= Seq::<XmlEventView>::empty());
    }
    loop
        invariant_except_break
            handed_out(parser) <= items.len(),
        invariant
            is_parsable(fed_chars(parser)),
            fed_chars(parser) == joined_text(text_views(lines@)),
            items == xml_events(fed_chars(parser)),
            items == xml_events(joined_text(text_views(lines@))),
            handed_out(parser) == events@.len(),
            parsed_events(items.take(events@.len() as int)) == Ok::<Seq<XmlEventView>, EPubError>(
                event_views(events@),
            ),
        ensures
            handed_out(parser) == items.len(),
        decreases items.len() - handed_out(parser),
    {
        let ghost n = events@.len() as int;
        let ghost before = event_views(events@);
        match next_event(&mut parser) {
            None => {
                break ;
            },
            Some(Ok(event)) => {
                events.push(event);
                proof {
                    assert(items.take(n + 1).drop_last() =~= items.take(n));
                    assert(items.take(n + 1).last() == items[n]);
                    assert(event_views(events@) =~= before.push(event@));
                }
            },
            Some(Err(place)) => {
                proof {
                    assert(items.take(n + 1).drop_last() =~= items.take(n));
                    assert(items.take(n + 1).last() == items[n]);
                    lemma_parsed_events_error(items, n + 1);
                }
                return Err(EPubError::XmlParseErr(place.0, place.1));
            },
        }
    }
    assert(items.take(events@.len() as int) =~= items);
    Ok(events)
}

/// Parses a document that is given as one text.
pub fn parse_text(text: &str) -> (r: Result<Vec<XmlEvent>, EPubError>)
    ensures
        is_parsed(r, document_events(text@)),
{
    let mut lines: Vec<String> = Vec::new();
    lines.push(String::from_str(text));
    proof {
        let texts = text_views(lines@);
        assert(texts.drop_last() =~= Seq::<Seq<char>>::empty());
        assert(joined_text(texts.drop_last()) =~= Seq::<char>::empty());
        assert(joined_text(texts) =~= text@);
    }
    parse_lines(&lines)
}

/// Whether a file can be read as lines of text: its medium is sound and
/// every line is valid UTF-8.
pub open spec fn is_text_file(file: InputFile) -> bool {
    &&& !file.faulty()
    &&& forall|i: int|
        0 <= i < split_lines(file.remaining()).len() ==> vstd::utf8::valid_utf8(
            #[trigger] split_lines(file.remaining())[i],
        )
}

/// The text of a file that is read as lines: its lines, decoded, one
/// behind the other.
pub open spec fn file_text(file: InputFile) -> Seq<char> {
    joined_text(
        split_lines(file.remaining()).map_values(|line: Seq<u8>| vstd::utf8::decode_utf8(line)),
    )
}

/// The events of the document in a file, or the error of the parser.
pub open spec fn file_events(file: InputFile) -> Result<Seq<XmlEventView>, EPubError> {
    document_events(file_text(file))
}

/// Reads a file as lines of text and parses them as one document.
///
/// A file that cannot be read as text gives the error of reading its
/// lines; else the outcome is that of parsing its text.
pub fn read_document(file: InputFile) -> (r: Result<Vec<XmlEvent>, EPubError>)
    requires
        file.wf(),
    ensures
        !is_text_file(file) ==> r == Err::<Vec<XmlEvent>, EPubError>(
            lines_error(split_lines(file.remaining()), file.faulty()),
        ),
        is_text_file(file) ==> is_parsed(r, file_events(file)),
{
    proof {
        if file.remaining().len() == 0 {
            assert(split_lines(file.remaining()) =~= Seq::<Seq<u8>>::empty());
        }
    }
    let mut rdr: BufReader = BufReader::new(file)?;
    let lines: Vec<String> = rdr.read_lines()?;
    proof {
        assert(text_views(lines@) =~= split_lines(file.remaining()).map_values(
            |line: Seq<u8>| vstd::utf8::decode_utf8(line),
        ));
    }
    parse_lines(&lines)
}

} // verus!
