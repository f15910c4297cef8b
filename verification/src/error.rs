//! The errors that reading and writing report.

use crate::text::push_decimal;
use vstd::prelude::*;

verus! {

/// `std::io::Error`, which the error types carry for a caller that reads or
/// writes; the library itself looks into none.
#[verifier::external_type_specification]
#[verifier::external_body]
pub struct ExIoError(std::io::Error);

/// Why a binary container could not be read.
#[derive(Debug)]
pub enum BinParse {
    /// The bytes ended before what was to be read.
    Io(std::io::Error),
    /// The bytes are there and do not make sense.
    Parse(String),
}

/// What a `BinParse` holds, as contracts see it.
pub enum BinParseView {
    Io(std::io::Error),
    Parse(Seq<char>),
}

impl View for BinParse {
    type V = BinParseView;

    open spec fn view(&self) -> BinParseView {
        match self {
            BinParse::Io(e) => BinParseView::Io(*e),
            BinParse::Parse(s) => BinParseView::Parse(s@),
        }
    }
}

impl From<std::io::Error> for BinParse {
    fn from(err: std::io::Error) -> (r: BinParse) {
        BinParse::Io(err)
    }
}

impl vstd::std_specs::convert::FromSpecImpl<std::io::Error> for BinParse {
    open spec fn obeys_from_spec() -> bool {
        true
    }

    open spec fn from_spec(err: std::io::Error) -> BinParse {
        BinParse::Io(err)
    }
}

impl BinParse {
    /// The error as a line of text for a reader.
    pub fn to_string(&self) -> (s: String)
        ensures
            self matches BinParse::Parse(msg) ==> s@ == "Binary Parse Error: "@ + msg@,
    {
        match self {
            BinParse::Io(e) => {
                let mut s = String::from_str("IO Error: ");
                let text = io_error_text(e);
                s.append(text.as_str());
                s
            },
            BinParse::Parse(msg) => {
                let mut s = String::from_str("Binary Parse Error: ");
                s.append(msg.as_str());
                s
            },
        }
    }
}

/// A message, and the line of the input that it is about where there is one.
#[derive(Debug, Clone)]
pub struct Line {
    pub message: String,
    /// Lines are counted from 1.
    pub line_number: Option<u64>,
}

/// What a `Line` holds, as contracts see it.
pub struct LineView {
    pub message: Seq<char>,
    pub line_number: Option<u64>,
}

impl View for Line {
    type V = LineView;

    open spec fn view(&self) -> LineView {
        LineView { message: self.message@, line_number: self.line_number }
    }
}

impl LineView {
    /// The message as it is shown: behind `Line`, the number and a colon
    /// where the line is known.
    pub open spec fn shown(self) -> Seq<char> {
        match self.line_number {
            Some(n) => "Line "@ + crate::text::decimal(n as nat) + ": "@ + self.message,
            None => self.message,
        }
    }
}

impl Line {
    /// The error as a line of text for a reader.
    pub fn to_string(&self) -> (s: String)
        ensures
            s@ == self@.shown(),
    {
        match self.line_number {
            Some(n) => {
                let mut s = String::from_str("Line ");
                push_decimal(&mut s, n);
                s.append(": ");
                s.append(self.message.as_str());
                s
            },
            None => self.message.clone(),
        }
    }
}

/// Why a map's text could not be read.
#[derive(Debug)]
pub enum TextParse {
    /// The bytes could not be had.
    Io(std::io::Error),
    /// The bytes do not make tokens.
    Lexer(Line),
    /// The tokens do not make a map.
    Parser(Line),
}

/// What a `TextParse` holds, as contracts see it.
pub enum TextParseView {
    Io(std::io::Error),
    Lexer(LineView),
    Parser(LineView),
}

impl View for TextParse {
    type V = TextParseView;

    open spec fn view(&self) -> TextParseView {
        match self {
            TextParse::Io(e) => TextParseView::Io(*e),
            TextParse::Lexer(line) => TextParseView::Lexer(line@),
            TextParse::Parser(line) => TextParseView::Parser(line@),
        }
    }
}

/// The message of an input that ends where a token is due.
pub open spec fn eof_message() -> Seq<char> {
    "Unexpected end-of-file"@
}

impl TextParseView {
    /// The error of the tokenizer with `message`, met on line `line_number`.
    pub open spec fn lexer(message: Seq<char>, line_number: u64) -> TextParseView {
        TextParseView::Lexer(LineView { message, line_number: Some(line_number) })
    }

    /// The error of the parser with `message`, for a token of line
    /// `line_number`.
    pub open spec fn parser(message: Seq<char>, line_number: u64) -> TextParseView {
        TextParseView::Parser(LineView { message, line_number: Some(line_number) })
    }

    /// The error of the parser for an input that ends too early.
    pub open spec fn eof() -> TextParseView {
        TextParseView::Parser(LineView { message: eof_message(), line_number: None })
    }
}

impl From<std::io::Error> for TextParse {
    fn from(err: std::io::Error) -> (r: TextParse) {
        TextParse::Io(err)
    }
}

impl vstd::std_specs::convert::FromSpecImpl<std::io::Error> for TextParse {
    open spec fn obeys_from_spec() -> bool {
        true
    }

    open spec fn from_spec(err: std::io::Error) -> TextParse {
        TextParse::Io(err)
    }
}

impl TextParse {
    pub fn from_lexer(message: String, line_number: u64) -> (r: TextParse)
        ensures
            r@ == TextParseView::lexer(message@, line_number),
    {
        TextParse::Lexer(Line { message, line_number: Some(line_number) })
    }

    pub fn from_parser(message: String, line_number: u64) -> (r: TextParse)
        ensures
            r@ == TextParseView::parser(message@, line_number),
    {
        TextParse::Parser(Line { message, line_number: Some(line_number) })
    }

    pub fn eof() -> (r: TextParse)
        ensures
            r@ == TextParseView::eof(),
    {
        TextParse::Parser(
            Line { message: String::from_str("Unexpected end-of-file"), line_number: None },
        )
    }

    /// The error as a line of text for a reader.
    pub fn to_string(&self) -> (s: String)
        ensures
            self matches TextParse::Lexer(line) ==> s@ == line@.shown(),
            self matches TextParse::Parser(line) ==> s@ == line@.shown(),
    {
        match self {
            TextParse::Io(e) => io_error_text(e),
            TextParse::Lexer(line) => line.to_string(),
            TextParse::Parser(line) => line.to_string(),
        }
    }
}

/// Why a map was not written.
#[derive(Debug)]
pub enum Write {
    /// The map holds what its text form cannot.
    Validation(String),
    /// The bytes could not be sent.
    Io(std::io::Error),
}

/// What a `Write` holds, as contracts see it.
pub enum WriteView {
    Validation(Seq<char>),
    Io(std::io::Error),
}

impl View for Write {
    type V = WriteView;

    open spec fn view(&self) -> WriteView {
        match self {
            Write::Validation(s) => WriteView::Validation(s@),
            Write::Io(e) => WriteView::Io(*e),
        }
    }
}

impl From<std::io::Error> for Write {
    fn from(err: std::io::Error) -> (r: Write) {
        Write::Io(err)
    }
}

impl vstd::std_specs::convert::FromSpecImpl<std::io::Error> for Write {
    open spec fn obeys_from_spec() -> bool {
        true
    }

    open spec fn from_spec(err: std::io::Error) -> Write {
        Write::Io(err)
    }
}

impl Write {
    /// The error as a line of text for a reader.
    pub fn to_string(&self) -> (s: String)
        ensures
            self matches Write::Validation(msg) ==> s@ == msg@,
    {
        match self {
            Write::Validation(msg) => msg.clone(),
            Write::Io(e) => io_error_text(e),
        }
    }
}

/// The text that `std::io::Error` shows of itself, through `to_string`.
/// Nothing is claimed of it: it depends on the error and on the system.
#[verifier::external_body]
fn io_error_text(e: &std::io::Error) -> String {
    e.to_string()
}

/// The error that `std::io::Read::read_exact` gives where the bytes end
/// before the buffer is full, made with `std::io::Error::from` of
/// `ErrorKind::UnexpectedEof`.
#[verifier::external_body]
pub(crate) fn unexpected_eof() -> std::io::Error {
    std::io::Error::from(std::io::ErrorKind::UnexpectedEof)
}

} // verus!
