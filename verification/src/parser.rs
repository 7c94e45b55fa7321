use vstd::prelude::*;

use quick_xml::events::Event;
use quick_xml::reader::Reader;
use vstd::string::StringExecFns;

verus! {

/// `quick_xml::reader::Reader`, a pull parser over XML input.
#[verifier::external_type_specification]
#[verifier::external_body]
#[verifier::reject_recursive_types(R)]
pub struct ExXmlReader<R>(Reader<R>);

/// An event of the XML parser, as far as text extraction reads it.
pub enum XmlEvent {
    /// Character data between tags, still escaped.
    Text(Vec<u8>),
    /// The end of the input.
    End,
    /// A parse error, with its description.
    Failed(String),
    /// Any other event (tags, comments, declarations, ...).
    Other,
}

/// The value of an `XmlEvent`.
pub enum XmlEventView {
    Text(Seq<u8>),
    End,
    Failed(Seq<char>),
    Other,
}

impl View for XmlEvent {
    type V = XmlEventView;

    open spec fn view(&self) -> XmlEventView {
        match self {
            XmlEvent::Text(raw) => XmlEventView::Text(raw@),
            XmlEvent::End => XmlEventView::End,
            XmlEvent::Failed(message) => XmlEventView::Failed(message@),
            XmlEvent::Other => XmlEventView::Other,
        }
    }
}

/// The event that `Reader::read_event` returns at its `k`-th call (counting from
/// zero) on a reader made by `Reader::from_reader` over `input`, with
/// `trim_text` set as given before the first call. The parser reads a byte
/// slice and keeps no other state, so this is a function of these values.
pub uninterp spec fn xml_event(input: Seq<u8>, trim_text: bool, k: nat) -> XmlEventView;

/// An XML parser over a byte slice, with what its events depend on: the input,
/// whether it trims text, and how many events it has handed out.
pub struct XmlReader<'a> {
    reader: Reader<&'a [u8]>,
    input: Ghost<Seq<u8>>,
    trims: Ghost<bool>,
    reads: Ghost<nat>,
}

impl<'a> XmlReader<'a> {
    /// The bytes the parser reads.
    pub closed spec fn input(&self) -> Seq<u8> {
        self.input@
    }

    /// Whether the parser drops white space around text.
    pub closed spec fn trims(&self) -> bool {
        self.trims@
    }

    /// How many events the parser has handed out.
    pub closed spec fn reads(&self) -> nat {
        self.reads@
    }
}

/// `Reader::from_reader` over a byte slice: a parser at the start of `bytes`,
/// with the default configuration (text is not trimmed).
#[verifier::external_body]
fn xml_reader<'a>(bytes: &'a [u8]) -> (r: XmlReader<'a>)
    ensures
        r.input() == bytes@,
        !r.trims(),
        r.reads() == 0,
{
    XmlReader {
        reader: Reader::from_reader(bytes),
        input: Ghost(bytes@),
        trims: Ghost(false),
        reads: Ghost(0),
    }
}

/// `Reader::trim_text(true)` before the first event: the parser drops white
/// space around text from then on.
#[verifier::external_body]
fn trim_text<'a>(reader: &mut XmlReader<'a>)
    requires
        old(reader).reads() == 0,
    ensures
        final(reader).input() == old(reader).input(),
        final(reader).trims(),
        final(reader).reads() == 0,
{
    reader.reader.trim_text(true);
}

/// `Reader::read_event`: the next event of the parser, named by `xml_event`
/// after the input, the configuration and the number of earlier calls.
#[verifier::external_body]
fn read_event<'a>(reader: &mut XmlReader<'a>) -> (e: XmlEvent)
    ensures
        e@ == xml_event(old(reader).input(), old(reader).trims(), old(reader).reads()),
        final(reader).input() == old(reader).input(),
        final(reader).trims() == old(reader).trims(),
        final(reader).reads() == old(reader).reads() + 1,
{
    match reader.reader.read_event() {
        Ok(Event::Text(e)) => XmlEvent::Text(e.into_inner().into_owned()),
        Ok(Event::Eof) => XmlEvent::End,
        Ok(_) => XmlEvent::Other,
        Err(e) => XmlEvent::Failed(format!("{:?}", e)),
    }
}

/// How far `Reader::buffer_position` says a parser made by `Reader::from_reader`
/// over `input`, with `trim_text` set as given, got after `reads` calls of
/// `read_event`. Like the events, it depends on these values alone.
pub uninterp spec fn xml_position(input: Seq<u8>, trim_text: bool, reads: nat) -> usize;

/// `Reader::buffer_position`: how far the reader got, named by `xml_position`
/// after the input, the configuration and the number of events read.
#[verifier::external_body]
fn buffer_position<'a>(reader: &XmlReader<'a>) -> (r: usize)
    ensures
        r == xml_position(reader.input(), reader.trims(), reader.reads()),
{
    reader.reader.buffer_position()
}

/// `std::str::from_utf8`: the string that the bytes encode in UTF-8, where they are valid UTF-8.
#[verifier::external_body]
fn utf8_str(bytes: &[u8]) -> (r: Option<&str>)
    ensures
        r is Some <==> vstd::utf8::valid_utf8(bytes@),
        r matches Some(s) ==> s@ == vstd::utf8::decode_utf8(bytes@),
{
    std::str::from_utf8(bytes).ok()
}

/// What `quick_xml::escape::unescape` returns for a text: the text with its
/// entity and character references (`&amp;`, `&#10;`, ...) replaced, or `None`
/// where a reference is malformed or unknown.
pub uninterp spec fn xml_unescaped(raw: Seq<char>) -> Option<Seq<char>>;

/// `quick_xml::escape::unescape`. Its result is a function of the text alone,
/// named by `xml_unescaped`.
#[verifier::external_body]
fn unescape(raw: &str) -> (r: Option<String>)
    ensures
        match r {
            Some(s) => xml_unescaped(raw@) == Some(s@),
            None => xml_unescaped(raw@) is None,
        },
{
    quick_xml::escape::unescape(raw).ok().map(|s| s.into_owned())
}

/// The text that an escaped text event stands for, if its bytes are valid
/// UTF-8 and its references can be resolved.
pub open spec fn event_text(raw: Seq<u8>) -> Option<Seq<char>> {
    if vstd::utf8::valid_utf8(raw) {
        xml_unescaped(vstd::utf8::decode_utf8(raw))
    } else {
        None
    }
}

/// Why the text of an XML document could not be extracted.
#[derive(Debug, Clone, Copy, PartialEq, Eq, Structural)]
pub enum XmlTextError {
    /// A text event is not valid UTF-8.
    NonDecodable,
    /// A text event holds a malformed or unknown reference.
    InvalidEscape,
}

/// Appends the text of one text event, and a line break, to `content`.
pub fn append_event_text(content: &mut String, raw: &[u8]) -> (r: Result<(), XmlTextError>)
    ensures
        match event_text(raw@) {
            Some(t) => r is Ok && final(content)@ == old(content)@ + t.push('\n'),
            None => {
                &&& final(content)@ == old(content)@
                &&& r == Err::<(), XmlTextError>(
                    if vstd::utf8::valid_utf8(raw@) {
                        XmlTextError::InvalidEscape
                    } else {
                        XmlTextError::NonDecodable
                    },
                )
            },
        },
{
    let decoded = match utf8_str(raw) {
        Some(s) => s,
        None => return Err(XmlTextError::NonDecodable),
    };
    let text = match unescape(decoded) {
        Some(t) => t,
        None => return Err(XmlTextError::InvalidEscape),
    };
    content.append(text.as_str());
    let newline = "\n";
    proof {
        reveal_strlit("\n");
    }
    content.append(newline);
    assert(content@ =~= old(content)@ + text@.push('\n'));
    Ok(())
}

/// The text of an XML, XHTML or HTML document and the parse errors met on the way.
pub struct XmlText {
    /// The text of each text event, each followed by a line break.
    pub content: String,
    /// For each parse error, the reader's position after it and its description.
    pub errors: Vec<(usize, String)>,
}

/// Text, and parse errors with the reader's position after each, gathered so far.
pub type Extracted = (Seq<char>, Seq<(usize, Seq<char>)>);

/// The error of a text event whose text cannot be read.
pub open spec fn event_text_error(raw: Seq<u8>) -> XmlTextError {
    if vstd::utf8::valid_utf8(raw) {
        XmlTextError::InvalidEscape
    } else {
        XmlTextError::NonDecodable
    }
}

/// What one event other than the end contributes: a text event its text and a
/// line break (or the error that stops extraction), a parse error the reader's
/// position after it, `position`, and its description.
pub open spec fn event_contribution(e: XmlEventView, position: usize) -> Result<
    Extracted,
    XmlTextError,
> {
    match e {
        XmlEventView::Text(raw) => match event_text(raw) {
            Some(t) => Ok((t.push('\n'), Seq::<(usize, Seq<char>)>::empty())),
            None => Err(event_text_error(raw)),
        },
        XmlEventView::Failed(message) => Ok((Seq::<char>::empty(), seq![(position, message)])),
        _ => Ok((Seq::<char>::empty(), Seq::<(usize, Seq<char>)>::empty())),
    }
}

/// `acc` followed by what comes after it, or the error that comes after it.
pub open spec fn followed_by(acc: Extracted, rest: Result<Extracted, XmlTextError>) -> Result<
    Extracted,
    XmlTextError,
> {
    match rest {
        Ok(p) => Ok((acc.0 + p.0, acc.1 + p.1)),
        Err(e) => Err(e),
    }
}

/// What the events of `input` from the `k`-th on contribute, reading at most
/// `remaining + 1` of them and stopping at the end of the input or at the
/// first text that cannot be read.
pub open spec fn extract_from(input: Seq<u8>, k: nat, remaining: nat) -> Result<
    Extracted,
    XmlTextError,
>
    decreases remaining,
{
    let e = xml_event(input, true, k);
    if e is End {
        Ok((Seq::<char>::empty(), Seq::<(usize, Seq<char>)>::empty()))
    } else {
        match event_contribution(e, xml_position(input, true, k + 1)) {
            Err(x) => Err(x),
            Ok(p) => if remaining == 0 {
                Ok(p)
            } else {
                followed_by(p, extract_from(input, k + 1, (remaining - 1) as nat))
            },
        }
    }
}

/// A list of parse errors, each a position and a description.
pub open spec fn error_entries(errors: Seq<(usize, String)>) -> Seq<(usize, Seq<char>)> {
    errors.map_values(|e: (usize, String)| (e.0, e.1@))
}

/// Appending in two steps is appending the two parts at once.
pub proof fn lemma_followed_by_assoc(acc: Extracted, p: Extracted, rest: Result<Extracted, XmlTextError>)
    ensures
        followed_by(acc, followed_by(p, rest)) == followed_by((acc.0 + p.0, acc.1 + p.1), rest),
{
    match rest {
        Ok(q) => {
            assert(acc.0 + (p.0 + q.0) =~= (acc.0 + p.0) + q.0);
            assert(acc.1 + (p.1 + q.1) =~= (acc.1 + p.1) + q.1);
        },
        Err(_) => {},
    }
}

/// Extracts the text of an XML document: the parser drops white space around
/// text, and the text of each text event is appended as a line of its own.
/// A parse error is recorded and reading goes on (the parser then reports the
/// end). Every event but the end consumes input, so at most one read more than
/// there are bytes is made.
pub fn parse_xml_text(bytes: &[u8]) -> (r: Result<XmlText, XmlTextError>)
    ensures
        match extract_from(bytes@, 0, bytes@.len()) {
            Ok(x) => r matches Ok(t) && t.content@ == x.0 && error_entries(t.errors@) == x.1,
            Err(e) => r matches Err(f) && f == e,
        },
{
    let mut reader = xml_reader(bytes);
    trim_text(&mut reader);
    let mut content = String::new();
    let mut errors: Vec<(usize, String)> = Vec::new();
    let mut remaining = bytes.len();
    let ghost whole = extract_from(bytes@, 0, bytes@.len());
    proof {
        assert(content@ =~= Seq::<char>::empty());
        assert(error_entries(errors@) =~= Seq::<(usize, Seq<char>)>::empty());
        let x = extract_from(bytes@, 0, bytes@.len());
        match x {
            Ok(q) => {
                assert(Seq::<char>::empty() + q.0 =~= q.0);
                assert(Seq::<(usize, Seq<char>)>::empty() + q.1 =~= q.1);
            },
            Err(_) => {},
        }
    }
    loop
        invariant_except_break
            reader.reads() + remaining == bytes@.len(),
            whole == followed_by(
                (content@, error_entries(errors@)),
                extract_from(bytes@, reader.reads(), remaining as nat),
            ),
        invariant
            reader.input() == bytes@,
            reader.trims(),
            whole == extract_from(bytes@, 0, bytes@.len()),
        ensures
            whole == Ok::<Extracted, XmlTextError>((content@, error_entries(errors@))),
        decreases remaining,
    {
        let ghost k = reader.reads();
        let ghost acc = (content@, error_entries(errors@));
        let ghost ev = xml_event(bytes@, true, k);
        let event = read_event(&mut reader);
        let ghost p = event_contribution(ev, xml_position(bytes@, true, k + 1));
        match event {
            XmlEvent::End => {
                proof {
                    assert(acc.0 + Seq::<char>::empty() =~= acc.0);
                    assert(acc.1 + Seq::<(usize, Seq<char>)>::empty() =~= acc.1);
                }
                break ;
            },
            XmlEvent::Text(raw) => {
                match append_event_text(&mut content, raw.as_slice()) {
                    Ok(()) => {
                        assert(error_entries(errors@) == acc.1);
                    },
                    Err(e) => {
                        return Err(e);
                    },
                }
            },
            XmlEvent::Failed(message) => {
                let position = buffer_position(&reader);
                let ghost m = message@;
                errors.push((position, message));
                assert(error_entries(errors@) =~= acc.1 + seq![(position, m)]);
                assert(content@ =~= acc.0 + Seq::<char>::empty());
            },
            XmlEvent::Other => {
                assert(content@ =~= acc.0 + Seq::<char>::empty());
                assert(error_entries(errors@) =~= acc.1 + Seq::<(usize, Seq<char>)>::empty());
            },
        }
        proof {
            let q = p->Ok_0;
            assert(p is Ok);
            assert(content@ == acc.0 + q.0);
            assert(error_entries(errors@) == acc.1 + q.1);
            if remaining > 0 {
                lemma_followed_by_assoc(acc, q, extract_from(bytes@, k + 1, (remaining - 1) as nat));
            }
        }
        if remaining == 0 {
            break ;
        }
        remaining = remaining - 1;
    }
    Ok(XmlText { content, errors })
}

/// The file types whose documents are indexed.
pub open spec fn is_allowed_type_spec(extension: Seq<char>) -> bool {
    extension == "html"@ || extension == "xhtml"@ || extension == "xml"@
}

/// Whether a file with the given extension is indexed: `html`, `xhtml` or `xml`.
pub fn is_allowed_type(extension: &str) -> (r: bool)
    ensures
        r == is_allowed_type_spec(extension@),
        r <==> (extension@ == "html"@ || extension@ == "xhtml"@ || extension@ == "xml"@),
{
    let e = extension.to_owned();
    let html = "html".to_owned();
    let xhtml = "xhtml".to_owned();
    let xml = "xml".to_owned();
    e == html || e == xhtml || e == xml
}

} // verus!
