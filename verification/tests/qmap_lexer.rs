use quake_util::error;
use quake_util::qmap::{lex, Token, TokenIterator};
use quake_util::Text;

fn bytes_to_token_text(bytes: &[u8]) -> Text {
    Text::from_slice(bytes).unwrap()
}

// Successes

#[test]
fn lex_all_symbols() {
    let input = b" // a comment  \n { } x \"\"\t\" \"\n-1.23e4 {k \r\n q\"";
    let mut iter = TokenIterator::new(&input[..]);

    let expected = [
        (&b"{"[..], 2u64),
        (&b"}"[..], 2u64),
        (&b"x"[..], 2u64),
        (&b"\"\""[..], 2u64),
        (&b"\" \""[..], 2u64),
        (&b"-1.23e4"[..], 3u64),
        (&b"{k"[..], 3u64),
        (&b"q\""[..], 4u64),
    ];

    for &(text, line_number) in expected.iter() {
        let expected = Token {
            text: bytes_to_token_text(text),
            line_number,
        };
        let actual = iter.next().unwrap();
        assert_eq!(actual.map_err(|_| ()).unwrap(), expected);
    }
    assert!(iter.next().is_none());
    assert!(iter.next().is_none());
}

#[test]
fn lex_whole_input() {
    let tokens = lex(&b"a \"b c\"\r\n/d //e\n f"[..]).unwrap();
    let texts: Vec<&[u8]> = tokens.iter().map(|t| &t.text.as_bytes()[..]).collect();
    assert_eq!(texts, vec![&b"a"[..], &b"\"b c\""[..], &b"/d"[..], &b"f"[..]]);
    let lines: Vec<u64> = tokens.iter().map(|t| t.line_number).collect();
    assert_eq!(lines, vec![1, 1, 2, 3]);
}

#[test]
fn lex_single_slash_is_no_comment() {
    let tokens = lex(&b"( 1 2 3 ) /HALF 0 // gone\n1"[..]).unwrap();
    let texts: Vec<&[u8]> = tokens.iter().map(|t| &t.text.as_bytes()[..]).collect();
    assert_eq!(
        texts,
        vec![&b"("[..], &b"1"[..], &b"2"[..], &b"3"[..], &b")"[..], &b"/HALF"[..], &b"0"[..], &b"1"[..]]
    );
}

#[test]
fn lex_slash_before_whitespace_takes_it() {
    let tokens = lex(&b"/ x y"[..]).unwrap();
    let texts: Vec<&[u8]> = tokens.iter().map(|t| &t.text.as_bytes()[..]).collect();
    assert_eq!(texts, vec![&b"/ x"[..], &b"y"[..]]);
}

#[test]
fn lex_counts_lines_of_every_kind() {
    let tokens = lex(&b"a\rb\nc\r\nd\r\re"[..]).unwrap();
    let lines: Vec<u64> = tokens.iter().map(|t| t.line_number).collect();
    assert_eq!(lines, vec![1, 2, 3, 4, 6]);
}

#[test]
fn lex_quoted_over_lines() {
    let tokens = lex(&b"\"a\nb\" c"[..]).unwrap();
    assert_eq!(tokens[0].text.as_bytes(), &b"\"a\nb\"".to_vec());
    assert_eq!(tokens[0].line_number, 2);
    assert_eq!(tokens[1].line_number, 2);
}

#[test]
fn token_predicates() {
    let brace = Token {
        text: bytes_to_token_text(b"{"),
        line_number: 1,
    };
    assert!(brace.match_byte(b'{'));
    assert!(!brace.match_byte(b'}'));
    assert!(!brace.match_quoted());
    let quoted = Token {
        text: bytes_to_token_text(b"\"\""),
        line_number: 7,
    };
    assert!(quoted.match_quoted());
    assert!(!quoted.match_byte(b'"'));
    let lone = Token {
        text: bytes_to_token_text(b"\""),
        line_number: 7,
    };
    assert!(!lone.match_quoted());
    assert!(lone.match_byte(b'"'));
    assert_eq!(quoted.text_as_string(), "\"\"");
    assert_eq!(quoted.to_string(), "\"\": line 7");
    let high = Token {
        text: bytes_to_token_text(&[0xe9]),
        line_number: 1,
    };
    assert_eq!(high.text_as_string(), "\u{e9}");
}

// Failures

#[test]
fn lex_bad_quoted() {
    let input = b"good-token \"bad-token eof-here-we-come";
    let mut iter = TokenIterator::new(&input[..]);
    assert!(iter.next().unwrap().is_ok());
    let bad_token = iter.next();

    if let Err(qmap_error) = bad_token.unwrap() {
        if let error::TextParse::Lexer(line_error) = qmap_error {
            assert!(line_error.message.contains("closing quote"));
            assert_eq!(u64::from(line_error.line_number.unwrap()), 1u64);
        } else {
            panic!("Unexpected error type");
        }
    } else {
        panic!("Expected error");
    }
    assert!(iter.next().is_none());
}

#[test]
fn lex_null_byte() {
    let input = b"a\n\nb\0c";
    let mut iter = TokenIterator::new(&input[..]);
    assert!(iter.next().unwrap().is_ok());
    match iter.next().unwrap() {
        Err(error::TextParse::Lexer(line_error)) => {
            assert_eq!(line_error.message, "Null byte");
            assert_eq!(line_error.line_number, Some(3));
            assert_eq!(line_error.to_string(), "Line 3: Null byte");
        }
        _ => panic!("Expected error"),
    }
    assert!(iter.next().is_none());
    assert!(lex(&input[..]).is_err());
}
