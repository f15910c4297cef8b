use quake_util::error;
use quake_util::qmap::parse;
use quake_util::qmap::{EntityKind, Number};
use quake_util::Text;

fn panic_expected_point() {
    panic!("Expected point entity, found brush entity");
}

fn panic_unexpected_variant(err: error::TextParse) {
    panic!("Unexpected error variant for {}", err.to_string());
}

fn text(s: &str) -> Text {
    Text::from_slice(s.as_bytes()).unwrap()
}

fn value(number: &Number) -> f64 {
    std::str::from_utf8(number.as_bytes()).unwrap().parse::<f64>().unwrap()
}

fn values<const N: usize>(numbers: &[Number; N]) -> [f64; N] {
    let mut out = [0.0; N];
    for (slot, number) in out.iter_mut().zip(numbers.iter()) {
        *slot = value(number);
    }
    out
}

fn points(half_space: &[[Number; 3]; 3]) -> [[f64; 3]; 3] {
    [values(&half_space[0]), values(&half_space[1]), values(&half_space[2])]
}

// Parse successes

#[test]
fn parse_empty_map() {
    let map = parse(&b""[..]).unwrap();
    assert_eq!(map.entities.len(), 0);
}

#[test]
fn parse_empty_point_entity() {
    let map = parse(&b"{ }"[..]).unwrap();
    assert_eq!(map.entities.len(), 1);
    let ent = &map.entities[0];
    assert_eq!(ent.edict.len(), 0);
    if ent.kind() != EntityKind::Point {
        panic_expected_point();
    }
}

#[test]
fn parse_point_entity_with_key_value() {
    let map = parse(
        &br#"
        {
            "classname" "light"
        }
    "#[..],
    )
    .unwrap();
    assert_eq!(map.entities.len(), 1);
    let ent = &map.entities[0];
    let edict = &ent.edict;
    assert_eq!(edict.len(), 1);
    assert_eq!((edict.key(0), edict.value(0)), (&text("classname"), &text("light")));
}

#[test]
fn parse_standard_brush_entity() {
    let map = parse(
        &b"
        {
            {
                ( 1 2 3 ) ( 4 5 6 ) ( 7 8 9 ) TEXTURE1 0 0 0 1 1
            }
        }
    "[..],
    )
    .unwrap();
    assert_eq!(map.entities.len(), 1);
    let ent = &map.entities[0];
    assert_eq!(ent.brushes.len(), 1);
    let brush = &ent.brushes[0];
    assert_eq!(brush.len(), 1);
    let surface = &brush[0];
    assert_eq!(
        points(&surface.half_space),
        [[1.0, 2.0, 3.0], [4.0, 5.0, 6.0], [7.0, 8.0, 9.0]]
    );
    assert_eq!(surface.texture, text("TEXTURE1"));
    assert_eq!(values(&surface.alignment.offset), [0.0, 0.0]);
    assert_eq!(value(&surface.alignment.rotation), 0.0);
    assert_eq!(values(&surface.alignment.scale), [1.0, 1.0]);
    assert!(surface.alignment.axes.is_none());
}

#[test]
fn parse_valve_brush_entity() {
    let map = parse(
        &b"
        {
        {
            ( 1 2 3 ) ( 4 5 6 ) ( 7 8 9 ) TEX2 [ 1 0 0 0 ] [ 0 1 0 0 ] 0 1 1
        }
        }
    "[..],
    )
    .unwrap();
    assert_eq!(map.entities.len(), 1);
    let ent = &map.entities[0];
    assert_eq!(ent.edict.len(), 0);
    assert_eq!(ent.brushes.len(), 1);
    let brush = &ent.brushes[0];
    assert_eq!(brush.len(), 1);
    let surface = &brush[0];
    assert_eq!(
        points(&surface.half_space),
        [[1.0, 2.0, 3.0], [4.0, 5.0, 6.0], [7.0, 8.0, 9.0]]
    );
    assert_eq!(surface.texture, text("TEX2"));
    assert_eq!(values(&surface.alignment.offset), [0.0, 0.0]);
    assert_eq!(value(&surface.alignment.rotation), 0.0);
    assert_eq!(values(&surface.alignment.scale), [1.0, 1.0]);
    let axes = surface.alignment.axes.as_ref().unwrap();
    assert_eq!(
        Some([values(&axes[0]), values(&axes[1])]),
        Some([[1.0, 0.0, 0.0], [0.0, 1.0, 0.0]]),
    );
}

#[test]
fn parse_weird_numbers() {
    let map = parse(
        &b"
        { {
            ( 9E99 1E-9 -1.37e9 ) ( 12 -0 -100.7 ) ( 0e8 0E8 1.2e34 )
                T 0.25 0.25 45 2.0001 2.002
        } }
    "[..],
    )
    .unwrap();

    let brushes = &map.entities[0].brushes;
    let brush = &brushes[0];
    let surface = &brush[0];

    assert_eq!(
        points(&surface.half_space),
        [
            [9E99, 1E-9, -1.37e9],
            [12.0, 0.0, -100.7],
            [0.0, 0.0, 1.2e34]
        ]
    );

    assert_eq!(values(&surface.alignment.offset), [0.25, 0.25]);
    assert_eq!(value(&surface.alignment.rotation), 45.0);
    assert_eq!(values(&surface.alignment.scale), [2.0001, 2.002]);
}

#[test]
fn parse_weird_textures() {
    let map = parse(
        &br#"
            { {
                ( 1 2 3 ) ( 4 5 6 ) ( 7 8 9 )
                {FENCE
                0 0 0 1 1

                ( 9 8 7 ) ( 6 5 4 ) ( 9 8 7 )
                "spaced out"
                0 0 0 1 1

                ( 11 12 13 ) ( 23 24 25 ) ( 35 36 37 )
                silly"example
                0 0 0 1 1
            } }
        "#[..],
    )
    .unwrap();

    let brushes = &map.entities[0].brushes;
    let surface1 = &(brushes[0])[0];
    let surface2 = &(brushes[0])[1];
    let surface3 = &(brushes[0])[2];
    assert_eq!(surface1.texture, text("{FENCE"));
    assert_eq!(surface2.texture, text("spaced out"));
    assert_eq!(surface3.texture, text(r#"silly"example"#));
}

// Parse errors

#[test]
fn parse_token_error() {
    let err = parse(&b"\""[..]).err().unwrap();
    if let error::TextParse::Lexer(line_err) = err {
        assert_eq!(u64::from(line_err.line_number.unwrap()), 1u64);
    } else {
        panic_unexpected_variant(err);
    }
}

#[test]
fn parse_eof_error() {
    let err = parse(&b"{"[..]).err().unwrap();
    if let error::TextParse::Parser(line_err) = err {
        assert_eq!(line_err.line_number, None);
        assert!(line_err.message.contains("end-of-file"));
    } else {
        panic_unexpected_variant(err);
    }
}

#[test]
fn parse_closing_brace_error() {
    let err = parse(&b"}"[..]).err().unwrap();
    if let error::TextParse::Parser(line_err) = err {
        assert_eq!(u64::from(line_err.line_number.unwrap()), 1u64);
        assert!(line_err.message.contains('}'));
    } else {
        panic_unexpected_variant(err);
    }
}

#[test]
fn parse_missing_value() {
    let err = parse(&b"{\n \"classname\"\n }"[..]).err().unwrap();
    if let error::TextParse::Parser(line_err) = err {
        assert_eq!(u64::from(line_err.line_number.unwrap()), 3u64);
        assert!(line_err.message.contains('}'));
    } else {
        panic_unexpected_variant(err);
    }
}

#[test]
fn parse_bad_texture_name() {
    let map_text = br#"
            { {
                ( 1 2 3 ) ( 2 3 1 ) ( 3 1 2 ) "bad"tex" 0 0 0 1 1
            } }
        "#;
    let err = parse(&map_text[..]).err().unwrap();
    if let error::TextParse::Parser(line_err) = err {
        assert!(line_err.message.contains("tex\""));
    } else {
        panic_unexpected_variant(err);
    }
}

#[test]
fn parse_unclosed_surface() {
    let map_text = br#"
        {
            "classname" "world"
        {
            ( 1 2 3 ) ( 2 3 1 ) ( 3 1 2 ) tex 0 0 0 1 1
        {
    "#;
    let err = parse(&map_text[..]).err().unwrap();
    if let error::TextParse::Parser(line_err) = err {
        let (pfx, _) = line_err.message.split_once("got").unwrap();
        assert!(pfx.contains("`}`"));
        assert!(pfx.contains("`(`"));
    } else {
        panic_unexpected_variant(err);
    }
}

#[test]
fn parse_unclosed_quote_is_a_lexical_error() {
    let err = parse(&b"\"bad-token eof-here-we-come"[..]).err().unwrap();
    if let error::TextParse::Lexer(line_err) = err {
        assert!(line_err.message.contains("closing quote"));
        assert_eq!(line_err.line_number, Some(1));
        assert_eq!(line_err.to_string(), "Line 1: Missing closing quote");
    } else {
        panic_unexpected_variant(err);
    }
}

#[test]
fn parse_null_byte_is_a_lexical_error() {
    let err = parse(&b"{\n\"a\" \"b\"\n\0}"[..]).err().unwrap();
    assert_eq!(err.to_string(), "Line 3: Null byte");
    assert!(matches!(err, error::TextParse::Lexer(_)));
}

#[test]
fn parse_error_messages_are_exact() {
    let message = |input: &[u8]| parse(input).err().unwrap().to_string();
    assert_eq!(message(b"}"), "Line 1: Expected `{`, got `}`");
    assert_eq!(message(b"{"), "Unexpected end-of-file");
    assert_eq!(
        message(b"{\n \"classname\"\n }"),
        "Line 3: Expected quoted, got `}`"
    );
    assert_eq!(
        message(b"{ {\n( 1 2 3 ) ( 2 3 1 ) ( 3 1 2 ) \"bad\"tex\" 0 0 0 1 1\n} }"),
        "Line 2: Expected number, got `tex\"`"
    );
    assert_eq!(
        message(b"{\n{\n( 1 2 3 ) ( 2 3 1 ) ( 3 1 2 ) tex 0 0 0 1 1\n{\n"),
        "Line 4: Expected `(` or `}`, got `{`"
    );
    assert_eq!(
        message(b"{ { ( 1 2 3 ] } }"),
        "Line 1: Expected `)`, got `]`"
    );
    assert_eq!(
        message(b"{ { ( 1 2 3 ) ( 2 3 1 ) ( 3 1 2 ) tex [ 1 0 0 0 ) } }"),
        "Line 1: Expected `]`, got `)`"
    );
    assert_eq!(
        message(b"{ { ( 1 2 3 ) ( 2 3 1 ) ( 3 1 2 ) tex"),
        "Unexpected end-of-file"
    );
    assert_eq!(
        message(b"{ { ( 1 2 3 ) ( 2 3 1 ) ( 3 1 2 )"),
        "Unexpected end-of-file"
    );
}

#[test]
fn parse_stops_at_the_first_error() {
    let err = parse(&b"} \"never closed"[..]).err().unwrap();
    assert!(matches!(err, error::TextParse::Parser(_)));
    let err = parse(&b"{ \"never closed"[..]).err().unwrap();
    assert!(matches!(err, error::TextParse::Lexer(_)));
    let err = parse(&b"{ { ( 1 2 3 ) ( 2 3 1 ) ( 3 1 2 ) tex \"never closed"[..])
        .err()
        .unwrap();
    assert!(matches!(err, error::TextParse::Lexer(_)));
}

#[test]
fn parse_mixes_the_forms_of_alignment_in_one_brush() {
    let map = parse(
        &b"{ {
            ( 1 2 3 ) ( 4 5 6 ) ( 7 8 9 ) A 0 0 0 1 1
            ( 1 2 3 ) ( 4 5 6 ) ( 7 8 9 ) B [ 1 0 0 8 ] [ 0 1 0 16 ] 90 2 4
        } {
        } }"[..],
    )
    .unwrap();
    let brushes = &map.entities[0].brushes;
    assert_eq!(brushes.len(), 2);
    assert_eq!(brushes[1].len(), 0);
    assert!(brushes[0][0].alignment.axes.is_none());
    let second = &brushes[0][1].alignment;
    assert!(second.axes.is_some());
    assert_eq!(values(&second.offset), [8.0, 16.0]);
    assert_eq!(value(&second.rotation), 90.0);
    assert_eq!(values(&second.scale), [2.0, 4.0]);
}

#[test]
fn parse_keeps_numerals_as_they_stand() {
    let map = parse(&b"{ { ( 1e999 -0 007 ) ( 4 5 6 ) ( 7 8 9 ) A 0 0 0 1 1 } }"[..]).unwrap();
    let point = &map.entities[0].brushes[0][0].half_space[0];
    assert_eq!(point[0].as_bytes(), &b"1e999".to_vec());
    assert_eq!(point[1].as_bytes(), &b"-0".to_vec());
    assert_eq!(point[2].as_bytes(), &b"007".to_vec());
    assert!(point[0].is_finite());
    let mut dest = Vec::new();
    assert!(map.write_to(&mut dest).is_ok());
    assert!(std::str::from_utf8(&dest).unwrap().contains("( 1e999 -0 007 )"));
}

#[test]
fn parse_takes_infinities_and_the_check_refuses_them() {
    let map = parse(&b"{ { ( inf 2 3 ) ( 4 NaN 6 ) ( 7 8 9 ) A 0 0 0 1 1 } }"[..]).unwrap();
    let mut dest = Vec::new();
    let err = map.write_to(&mut dest).unwrap_err();
    assert_eq!(err.to_string(), "Non-finite number (inf)");
    assert_eq!(dest.len(), 0);
}

#[test]
fn texture_of_slashes_is_written_and_not_read_back() {
    let good = parse(&b"{ { ( 1 2 3 ) ( 4 5 6 ) ( 7 8 9 ) /HALF 0 0 0 1 1 } }"[..]).unwrap();
    assert_eq!(good.entities[0].brushes[0][0].texture, text("/HALF"));

    let mut map = parse(&b"{ { ( 1 2 3 ) ( 4 5 6 ) ( 7 8 9 ) T 0 0 0 1 1 } }"[..]).unwrap();
    map.entities[0].brushes[0][0].texture = text("/");
    let mut dest = Vec::new();
    assert!(map.write_to(&mut dest).is_ok());
    assert!(parse(&dest).is_err());

    map.entities[0].brushes[0][0].texture = text("//x");
    let mut dest = Vec::new();
    assert!(map.write_to(&mut dest).is_ok());
    assert!(parse(&dest).is_err());
}
