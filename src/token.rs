//! The tokens that the two passes read, in a form the library owns.

use vstd::prelude::*;

use xmlparser::ElementEnd as XmlEnd;
use xmlparser::Token as XmlToken;
use xmlparser::Token::{Attribute, Comment, Declaration, ElementStart, Text};

verus! {

/// How a start tag or an element ends.
#[derive(Debug, Clone, PartialEq, Eq)]
pub enum ElementEnd {
    /// `>`: the start tag is finished and the element has content.
    Open,
    /// `</name>`: the matching end tag.
    Close { name: String },
    /// `/>`: a self-closing element.
    Empty,
}

/// The mathematical value of an [`ElementEnd`].
pub enum EndView {
    Open,
    Close(Seq<char>),
    Empty,
}

impl View for ElementEnd {
    type V = EndView;

    open spec fn view(&self) -> EndView {
        match self {
            ElementEnd::Open => EndView::Open,
            ElementEnd::Close { name } => EndView::Close(name@),
            ElementEnd::Empty => EndView::Empty,
        }
    }
}

/// One lexical item of an XML document, holding its text as written.
#[derive(Debug, Clone, PartialEq, Eq)]
pub enum Token {
    /// `<?xml version="..." encoding="..."?>`.
    Declaration { version: String, encoding: Option<String> },
    /// `<!-- text -->`; `text` is what stands between the delimiters.
    Comment { text: String },
    /// Character data between markup, whitespace included.
    Text { text: String },
    /// `<name`, opening a start tag; attributes follow as their own tokens.
    /// Element and attribute names are local names, without a namespace prefix.
    ElementStart { name: String },
    /// `key="value"` inside a start tag; `value` is the raw attribute text.
    Attribute { key: String, value: String },
    /// The end of a start tag, or an end tag.
    ElementEnd { end: ElementEnd },
    /// Any other markup (processing instruction, DTD part, CDATA section),
    /// kept as the exact text of the document.
    Other { text: String },
}

/// The mathematical value of a [`Token`].
pub enum TokenView {
    Declaration(Seq<char>, Option<Seq<char>>),
    Comment(Seq<char>),
    Text(Seq<char>),
    ElementStart(Seq<char>),
    Attribute(Seq<char>, Seq<char>),
    ElementEnd(EndView),
    Other(Seq<char>),
}

/// The view of an optional string.
pub open spec fn opt_view(o: Option<String>) -> Option<Seq<char>> {
    match o {
        Some(s) => Some(s@),
        None => None,
    }
}

impl View for Token {
    type V = TokenView;

    open spec fn view(&self) -> TokenView {
        match self {
            Token::Declaration { version, encoding } => TokenView::Declaration(
                version@,
                opt_view(*encoding),
            ),
            Token::Comment { text } => TokenView::Comment(text@),
            Token::Text { text } => TokenView::Text(text@),
            Token::ElementStart { name } => TokenView::ElementStart(name@),
            Token::Attribute { key, value } => TokenView::Attribute(key@, value@),
            Token::ElementEnd { end } => TokenView::ElementEnd(end@),
            Token::Other { text } => TokenView::Other(text@),
        }
    }
}

/// The view of an optional string slice.
pub open spec fn opt_str_view(o: Option<&str>) -> Option<Seq<char>> {
    match o {
        Some(s) => Some(s@),
        None => None,
    }
}

impl Token {
    /// An XML declaration with its version and, if given, its encoding.
    pub fn declaration(version: &str, encoding: Option<&str>) -> (r: Token)
        ensures
            r@ == TokenView::Declaration(version@, opt_str_view(encoding)),
    {
        let encoding = match encoding {
            Some(e) => Some(e.to_owned()),
            None => None,
        };
        Token::Declaration { version: version.to_owned(), encoding }
    }

    /// A comment holding `text`.
    pub fn comment(text: &str) -> (r: Token)
        ensures
            r@ == TokenView::Comment(text@),
    {
        Token::Comment { text: text.to_owned() }
    }

    /// Character data `text`.
    pub fn text(text: &str) -> (r: Token)
        ensures
            r@ == TokenView::Text(text@),
    {
        Token::Text { text: text.to_owned() }
    }

    /// The start of an element named `name`.
    pub fn element_start(name: &str) -> (r: Token)
        ensures
            r@ == TokenView::ElementStart(name@),
    {
        Token::ElementStart { name: name.to_owned() }
    }

    /// The attribute `key="value"`.
    pub fn attribute(key: &str, value: &str) -> (r: Token)
        ensures
            r@ == TokenView::Attribute(key@, value@),
    {
        Token::Attribute { key: key.to_owned(), value: value.to_owned() }
    }

    /// The `>` that ends a start tag.
    pub fn end_open() -> (r: Token)
        ensures
            r@ == TokenView::ElementEnd(EndView::Open),
    {
        Token::ElementEnd { end: ElementEnd::Open }
    }

    /// The end tag `</name>`.
    pub fn end_close(name: &str) -> (r: Token)
        ensures
            r@ == TokenView::ElementEnd(EndView::Close(name@)),
    {
        Token::ElementEnd { end: ElementEnd::Close { name: name.to_owned() } }
    }

    /// The `/>` of a self-closing element.
    pub fn end_empty() -> (r: Token)
        ensures
            r@ == TokenView::ElementEnd(EndView::Empty),
    {
        Token::ElementEnd { end: ElementEnd::Empty }
    }

    /// Other markup, kept as the text `text`.
    pub fn other(text: &str) -> (r: Token)
        ensures
            r@ == TokenView::Other(text@),
    {
        Token::Other { text: text.to_owned() }
    }
}

/// The views of a sequence of tokens.
pub open spec fn tokens_view(tokens: Seq<Token>) -> Seq<TokenView> {
    tokens.map_values(|t: Token| t@)
}

/// The error type of xmlparser's tokenizer (where and why a text is not
/// well-formed XML).
#[verifier::external_type_specification]
#[verifier::external_body]
pub struct ExXmlError(xmlparser::Error);

/// Why a pass could not run.
#[derive(Debug)]
pub enum ExchangeError {
    /// The document is not well-formed XML; `error` says where and why.
    MalformedInput { error: xmlparser::Error },
}

/// The tokens of the XML text `text`, in document order, or `None` where the
/// text is not well-formed.
pub uninterp spec fn xml_tokens(text: Seq<char>) -> Option<Seq<TokenView>>;

/// Relies on xmlparser's `Tokenizer` (built with `From<&str>`, read as an
/// iterator): the tokens of the text in document order, or the first error,
/// after which it yields nothing. Each token is converted one for one; a
/// token of another kind keeps the exact text of its span.
#[verifier::external_body]
fn xml_tokenize(text: &str) -> (r: Result<Vec<Token>, xmlparser::Error>)
    ensures
        match r {
            Ok(tokens) => xml_tokens(text@) == Some(tokens_view(tokens@)),
            Err(_) => xml_tokens(text@) is None,
        },
{
    xmlparser::Tokenizer::from(text).map(|t| t.map(|t| match t {
        Declaration { version, encoding, .. } => Token::declaration(&version, encoding.as_deref()),
        Comment { text, .. } => Token::comment(&text),
        Text { text } => Token::text(&text),
        ElementStart { local, .. } => Token::element_start(&local),
        Attribute { local, value, .. } => Token::attribute(&local, &value),
        XmlToken::ElementEnd { end: XmlEnd::Open, .. } => Token::end_open(),
        XmlToken::ElementEnd { end: XmlEnd::Close(_, local), .. } => Token::end_close(&local),
        XmlToken::ElementEnd { end: XmlEnd::Empty, .. } => Token::end_empty(),
        other => Token::other(&other.span()),
    })).collect()
}

/// The tokens of an XML document, or [`ExchangeError::MalformedInput`] where
/// it is not well-formed.
pub fn tokenize(text: &str) -> (r: Result<Vec<Token>, ExchangeError>)
    ensures
        match xml_tokens(text@) {
            Some(tv) => r is Ok && tokens_view(r->Ok_0@) == tv,
            None => r is Err,
        },
{
    match xml_tokenize(text) {
        Ok(tokens) => Ok(tokens),
        Err(error) => Err(ExchangeError::MalformedInput { error }),
    }
}

} // verus!
