use quake_util::error::{BinParse, Line, TextParse, Write};
use std::io;

fn generic() -> io::Error {
    io::Error::new(io::ErrorKind::Other, "Generic test error")
}

#[test]
fn io_errors_are_carried_and_shown() {
    let text = TextParse::from(generic());
    assert!(matches!(text, TextParse::Io(_)));
    assert!(text.to_string().contains("Generic test error"));

    let bin = BinParse::from(generic());
    assert!(matches!(bin, BinParse::Io(_)));
    assert_eq!(bin.to_string(), "IO Error: Generic test error");

    let write = Write::from(generic());
    assert!(matches!(write, Write::Io(_)));
    assert_eq!(write.to_string(), "Generic test error");
}

#[test]
fn lines_are_shown_with_their_number() {
    let with_number = Line {
        message: String::from("Expected `}`, got `(`"),
        line_number: Some(12),
    };
    assert_eq!(with_number.to_string(), "Line 12: Expected `}`, got `(`");
    let big = Line {
        message: String::from("m"),
        line_number: Some(u64::MAX),
    };
    assert_eq!(big.to_string(), "Line 18446744073709551615: m");
    let without = Line {
        message: String::from("Unexpected end-of-file"),
        line_number: None,
    };
    assert_eq!(without.to_string(), "Unexpected end-of-file");
}

#[test]
fn text_errors_are_made_and_shown() {
    let lexer = TextParse::from_lexer(String::from("Null byte"), 3);
    assert!(matches!(&lexer, TextParse::Lexer(line) if line.line_number == Some(3)));
    assert_eq!(lexer.to_string(), "Line 3: Null byte");

    let parser = TextParse::from_parser(String::from("Expected quoted, got `}`"), 100);
    assert!(matches!(&parser, TextParse::Parser(line) if line.line_number == Some(100)));
    assert_eq!(parser.to_string(), "Line 100: Expected quoted, got `}`");

    let eof = TextParse::eof();
    assert!(matches!(&eof, TextParse::Parser(line) if line.line_number.is_none()));
    assert_eq!(eof.to_string(), "Unexpected end-of-file");
}

#[test]
fn other_errors_are_shown() {
    assert_eq!(
        BinParse::Parse(String::from("Bad offset")).to_string(),
        "Binary Parse Error: Bad offset"
    );
    assert_eq!(
        Write::Validation(String::from("Non-finite number (NaN)")).to_string(),
        "Non-finite number (NaN)"
    );
}
