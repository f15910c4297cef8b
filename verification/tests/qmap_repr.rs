use quake_util::qmap::{
    parse, Alignment, Brush, CheckWritable, Edict, Entity, EntityKind, Number, QuakeMap, Surface,
    ValidationResult,
};
use quake_util::Text;
use quake_util::WriteError;

fn num(x: f64) -> Number {
    Number::parse(format!("{}", x).as_bytes()).unwrap()
}

fn text(s: &str) -> Text {
    Text::from_slice(s.as_bytes()).unwrap()
}

fn good_axes() -> [[Number; 3]; 2] {
    [[num(1.0), num(0.0), num(0.0)], [num(0.0), num(1.0), num(0.0)]]
}

fn bad_axes() -> [[Number; 3]; 2] {
    [
        [num(f64::INFINITY), num(0.0), num(0.0)],
        [num(0.0), num(0.0), num(0.0)],
    ]
}

fn good_vec2() -> [Number; 2] {
    [num(1.0), num(1.0)]
}

fn bad_vec2() -> [Number; 2] {
    [num(-f64::INFINITY), num(0.0)]
}

fn good_half_space() -> [[Number; 3]; 3] {
    [
        [num(-1.0), num(-1.0), num(0.0)],
        [num(1.0), num(-1.0), num(0.0)],
        [num(-1.0), num(1.0), num(0.0)],
    ]
}

fn bad_half_space() -> [[Number; 3]; 3] {
    [
        [num(f64::NAN), num(-1.0), num(0.0)],
        [num(1.0), num(-1.0), num(0.0)],
        [num(-1.0), num(1.0), num(0.0)],
    ]
}

fn good_alignment() -> Alignment {
    Alignment {
        offset: good_vec2(),
        rotation: num(0.0),
        scale: good_vec2(),
        axes: Some(good_axes()),
    }
}

fn bad_alignment_rotation() -> Alignment {
    Alignment {
        offset: good_vec2(),
        rotation: num(f64::NAN),
        scale: good_vec2(),
        axes: Some(good_axes()),
    }
}

fn expect_err_containing(res: ValidationResult, text: &str) {
    if let Err(e) = res {
        assert!(e.contains(text), "Expected {:?} to contain '{}'", e, text);
    } else {
        panic_expected_error();
    }
}

fn panic_expected_error() {
    panic!("Expected error");
}

fn simple_edict() -> Edict {
    let mut edict = Edict::new();
    edict.insert(text("classname"), text("worldspawn"));
    edict
}

fn bad_edict_key() -> Edict {
    let mut edict = Edict::new();
    edict.insert(text("\n"), text("oops"));
    edict
}

fn simple_surface() -> Surface {
    Surface {
        half_space: good_half_space(),
        texture: text("{FENCE"),
        alignment: good_alignment(),
    }
}

fn simple_brush() -> Brush {
    vec![
        simple_surface(),
        simple_surface(),
        simple_surface(),
        simple_surface(),
    ]
}

fn simple_brush_entity() -> Entity {
    Entity {
        edict: simple_edict(),
        brushes: vec![simple_brush()],
    }
}

fn simple_point_entity() -> Entity {
    Entity {
        edict: simple_edict(),
        brushes: vec![],
    }
}

fn bad_entity_edict() -> Entity {
    Entity {
        edict: bad_edict_key(),
        brushes: vec![simple_brush()],
    }
}

fn entity_with_texture(texture: &str) -> Entity {
    Entity {
        edict: Edict::new(),
        brushes: vec![vec![Surface {
            half_space: good_half_space(),
            texture: text(texture),
            alignment: good_alignment(),
        }]],
    }
}

fn simple_map() -> QuakeMap {
    let mut qmap = QuakeMap::new();
    qmap.entities.push(simple_brush_entity());
    qmap.entities.push(simple_point_entity());
    qmap
}

fn bad_map_edict() -> QuakeMap {
    let mut qmap = QuakeMap::new();
    let ent = bad_entity_edict();
    qmap.entities.push(ent);
    qmap
}

// Successes

#[test]
fn check_simple_map() {
    assert_eq!(simple_map().check_writable(), Ok(()));
}

#[test]
fn check_is_repeatable() {
    let good = simple_map();
    assert_eq!(good.check_writable(), good.check_writable());
    let bad = bad_map_edict();
    assert_eq!(bad.check_writable(), bad.check_writable());
    assert!(bad.check_writable().is_err());
}

// Failures

#[test]
fn check_bad_map() {
    assert!(matches!(bad_map_edict().check_writable(), Err(_)));
}

#[test]
fn check_bad_entities() {
    let bad_edict_strings = ["\"", "\n", "\r"];
    let bad_edict_chars = bad_edict_strings
        .into_iter()
        .map(|s| s.chars().next().unwrap());
    let good_edict_strings = ["hello", "evening", "bye"].into_iter();

    let bad_char_iter = bad_edict_chars.clone().chain(bad_edict_chars.clone());

    let key_iter = bad_edict_strings
        .into_iter()
        .chain(good_edict_strings.clone());

    let value_iter = good_edict_strings
        .clone()
        .chain(bad_edict_strings.into_iter());

    let trials = bad_char_iter.zip(key_iter.zip(value_iter));

    for (bad_char, (key, value)) in trials {
        let key = text(key);
        let value = text(value);
        let mut edict = Edict::new();
        edict.insert(key, value);
        let ent = Entity {
            edict,
            brushes: vec![],
        };

        expect_err_containing(ent.check_writable(), &format!("{:?}", bad_char));
    }
}

#[test]
fn check_bad_surface_texture() {
    assert!(matches!(
        entity_with_texture("\"").check_writable(),
        Err(_)
    ));
}

#[test]
fn check_bad_surface_half_space() {
    let surf = Surface {
        half_space: bad_half_space(),
        texture: text("butts"),
        alignment: good_alignment(),
    };

    expect_err_containing(surf.check_writable(), "finite");
}

#[test]
fn check_bad_surface_alignment() {
    let surf = Surface {
        half_space: good_half_space(),
        texture: text("potato"),
        alignment: bad_alignment_rotation(),
    };

    assert!(matches!(surf.check_writable(), Err(_)));
}

#[test]
fn check_bad_valve_alignment() {
    expect_err_containing(bad_alignment_rotation().check_writable(), "finite");
}

#[test]
fn check_bad_valve_alignment_axes() {
    let aln = Alignment {
        offset: good_vec2(),
        rotation: num(0.0),
        scale: good_vec2(),
        axes: Some(bad_axes()),
    };

    expect_err_containing(aln.check_writable(), "finite");
}

#[test]
fn check_bad_alignment_rotation() {
    let aln = Alignment {
        offset: good_vec2(),
        rotation: num(f64::INFINITY),
        scale: good_vec2(),
        axes: None,
    };

    expect_err_containing(aln.check_writable(), "finite");
}

#[test]
fn check_bad_alignment_offset() {
    let aln = Alignment {
        offset: bad_vec2(),
        rotation: num(12345.7),
        scale: good_vec2(),
        axes: None,
    };

    expect_err_containing(aln.check_writable(), "finite");
}

#[test]
fn check_bad_alignment_scale() {
    let aln = Alignment {
        offset: good_vec2(),
        rotation: num(-125.7),
        scale: bad_vec2(),
        axes: None,
    };

    expect_err_containing(aln.check_writable(), "finite");
}

#[test]
fn check_messages_are_exact() {
    let aln = Alignment {
        offset: good_vec2(),
        rotation: num(f64::NEG_INFINITY),
        scale: bad_vec2(),
        axes: None,
    };
    assert_eq!(
        aln.check_writable(),
        Err(String::from("Non-finite number (-inf)"))
    );
    assert_eq!(
        bad_entity_edict().check_writable(),
        Err(String::from(
            "Cannot write quote-wrapped string, contains '\\n'"
        ))
    );
    assert_eq!(
        entity_with_texture("a\t\"\u{7f}").check_writable(),
        Err(String::from(
            "Cannot write texture \"a\\t\\\"\\x7f\", not quotable and contains whitespace"
        ))
    );
}

#[test]
fn first_fault_is_reported() {
    let mut edict = Edict::new();
    edict.insert(text("fine"), text("a\rb"));
    edict.insert(text("bad\"key"), text("fine"));
    let ent = Entity {
        edict,
        brushes: vec![vec![Surface {
            half_space: bad_half_space(),
            texture: text("x"),
            alignment: good_alignment(),
        }]],
    };
    expect_err_containing(ent.check_writable(), "'\\r'");
}

#[test]
fn numbers_are_numerals() {
    for good in ["0", "-0", "+1", "1.", ".5", "1.5e10", "1E-9", "9E99", "1e+5", "007"] {
        let n = Number::parse(good.as_bytes()).unwrap();
        assert!(n.is_finite(), "{}", good);
        assert_eq!(n.as_bytes(), &good.as_bytes().to_vec());
        assert!(good.parse::<f64>().is_ok());
    }
    for special in ["inf", "-inf", "+Infinity", "NaN", "nan", "-NAN", "INF"] {
        let n = Number::parse(special.as_bytes()).unwrap();
        assert!(!n.is_finite(), "{}", special);
        assert!(special.parse::<f64>().is_ok());
    }
    for bad in [
        "", "+", "-", ".", "e5", "1e", "1e+", "1.5.2", "1_000", "0x10", " 1", "1 ", "infinit",
        "nanx", "1e5.0", "--1", "1f", "\u{e9}",
    ] {
        assert!(Number::parse(bad.as_bytes()).is_none(), "{}", bad);
        assert!(bad.parse::<f64>().is_err(), "{}", bad);
    }
}

#[test]
fn edict_is_a_mapping() {
    let mut edict = Edict::new();
    assert!(edict.is_empty());
    assert_eq!(edict.insert(text("a"), text("1")), None);
    assert_eq!(edict.insert(text("b"), text("2")), None);
    assert_eq!(edict.insert(text("a"), text("3")), Some(text("1")));
    assert_eq!(edict.len(), 2);
    assert_eq!(edict.key(0), &text("a"));
    assert_eq!(edict.value(0), &text("3"));
    assert_eq!(edict.key(1), &text("b"));
    assert_eq!(edict.get(&text("b")), Some(&text("2")));
    assert_eq!(edict.get(&text("c")), None);
    let copy = edict.clone();
    assert_eq!(copy.len(), 2);
    assert_eq!(copy.get(&text("a")), Some(&text("3")));
}

#[test]
fn parse_repeated_key_takes_last_value() {
    let map = parse(&b"{ \"k\" \"1\" \"j\" \"2\" \"k\" \"3\" }"[..]).unwrap();
    let edict = &map.entities[0].edict;
    assert_eq!(edict.len(), 2);
    assert_eq!(edict.get(&text("k")), Some(&text("3")));
    assert_eq!(edict.key(0), &text("k"));
}

#[test]
fn entity_kinds() {
    assert_eq!(simple_point_entity().kind(), EntityKind::Point);
    assert_eq!(simple_brush_entity().kind(), EntityKind::Brush);
    assert_eq!(Entity::new().kind(), EntityKind::Point);
    assert_eq!(Entity::default().brushes.len(), 0);
    assert_eq!(QuakeMap::default().entities.len(), 0);
}

#[test]
fn text_refuses_nul() {
    assert!(Text::new(vec![b'a', 0, b'b']).is_none());
    assert!(Text::from_slice(b"\0").is_none());
    assert_eq!(Text::new(vec![]).unwrap(), Text::empty());
    assert_eq!(text("abc").to_string(), "abc");
    assert_eq!(text("abc").subrange(1, 3), text("bc"));
}

// Writing

#[test]
fn write_empty_map() {
    let map = QuakeMap::new();
    let mut dest = Vec::<u8>::new();
    assert!(map.write_to(&mut dest).is_ok());
    assert_eq!(&dest[..], b"");
}

#[test]
fn parse_and_write_empty_input() {
    let map = parse(&b""[..]).unwrap();
    assert_eq!(map.entities.len(), 0);
    let mut dest = Vec::<u8>::new();
    assert!(map.write_to(&mut dest).is_ok());
    assert_eq!(dest.len(), 0);
}

#[test]
fn write_simple_map() {
    let mut dest = Vec::<u8>::new();
    assert!(simple_map().write_to(&mut dest).is_ok());
    assert!(std::str::from_utf8(&dest).unwrap().contains("worldspawn"));
    assert!(std::str::from_utf8(&dest).unwrap().contains(" {FENCE "));
}

#[test]
fn write_simple_entity() {
    let mut dest = Vec::<u8>::new();
    assert!(simple_brush_entity().write_to(&mut dest).is_ok());
    assert!(std::str::from_utf8(&dest).unwrap().contains("worldspawn"));
    assert!(std::str::from_utf8(&dest).unwrap().contains(" {FENCE "));
}

#[test]
fn write_exact_text() {
    let mut edict = Edict::new();
    edict.insert(text("classname"), text("worldspawn"));
    edict.insert(text("message"), text(""));
    let legacy = Surface {
        half_space: good_half_space(),
        texture: text("stone wall"),
        alignment: Alignment {
            offset: [num(0.25), num(-8.0)],
            rotation: num(45.0),
            scale: [num(1.0), num(2.5)],
            axes: None,
        },
    };
    let ent = Entity {
        edict,
        brushes: vec![vec![simple_surface(), legacy], vec![]],
    };
    let mut dest = b"; ".to_vec();
    assert!(ent.write_to(&mut dest).is_ok());
    let expected = "; {\r\n\
        \"classname\" \"worldspawn\"\r\n\
        \"message\" \"\"\r\n\
        {\r\n\
        ( -1 -1 0 ) ( 1 -1 0 ) ( -1 1 0 ) {FENCE [ 1 0 0 1 ] [ 0 1 0 1 ] 0 1 1\r\n\
        ( -1 -1 0 ) ( 1 -1 0 ) ( -1 1 0 ) \"stone wall\" 0.25 -8 45 1 2.5\r\n\
        }\r\n\
        {\r\n\
        }\r\n\
        }\r\n";
    assert_eq!(std::str::from_utf8(&dest).unwrap(), expected);
}

#[test]
fn write_then_parse_gives_the_map_back() {
    let mut map = simple_map();
    map.entities.push(entity_with_texture("some texture"));
    map.entities.push(entity_with_texture(""));
    map.entities.push(entity_with_texture("/HALF"));
    map.entities.push(entity_with_texture("sil\"ly"));
    map.entities[2].brushes.push(vec![]);
    map.entities[2].edict.insert(text("a key"), text("a // value"));
    let mut dest = Vec::<u8>::new();
    assert!(map.write_to(&mut dest).is_ok());
    let back = parse(&dest[..]).unwrap();
    assert_eq!(back.entities.len(), map.entities.len());
    for (a, b) in back.entities.iter().zip(map.entities.iter()) {
        assert_eq!(a.edict.len(), b.edict.len());
        for i in 0..a.edict.len() {
            assert_eq!(a.edict.key(i), b.edict.key(i));
            assert_eq!(a.edict.value(i), b.edict.value(i));
        }
        assert_eq!(a.brushes, b.brushes);
    }
    let mut again = Vec::<u8>::new();
    assert!(back.write_to(&mut again).is_ok());
    assert_eq!(again, dest);
}

#[test]
fn write_entity_with_spaced_texture() {
    let ent = entity_with_texture("some texture");
    let mut dest = Vec::<u8>::new();
    assert!(ent.write_to(&mut dest).is_ok());
    assert!(std::str::from_utf8(&dest)
        .unwrap()
        .contains("\"some texture\""));
}

#[test]
fn write_texture_with_quote() {
    let ent = entity_with_texture("some\"texture");
    let mut dest = Vec::<u8>::new();
    assert!(ent.write_to(&mut dest).is_ok());
    assert!(std::str::from_utf8(&dest)
        .unwrap()
        .contains(" some\"texture "));
}

#[test]
fn write_bad_texture_empty() {
    let ent = entity_with_texture("");
    let mut dest = Vec::<u8>::new();
    assert!(ent.write_to(&mut dest).is_ok());
    assert!(std::str::from_utf8(&dest).unwrap().contains("\"\""));
}

// Failure

#[test]
fn write_bad_map() {
    let res = bad_map_edict().write_to(&mut Vec::new());
    if res.is_ok() {
        panic_expected_error();
    }
}

#[test]
fn write_bad_entity() {
    let res = bad_entity_edict().write_to(&mut Vec::new());
    if let Err(e) = res {
        assert!(format!("{:?}", e).contains("\\n"));
    } else {
        panic_expected_error();
    }
}

#[test]
fn write_bad_texture_spaced_with_quote() {
    let ent = entity_with_texture("some\" texture");
    let err = ent.write_to(&mut Vec::new()).unwrap_err();
    assert!(format!("{:?}", err).contains("whitespace"));
}

#[test]
fn write_bad_texture_leads_quote() {
    let ent = entity_with_texture("\"some");
    let err = ent.write_to(&mut Vec::new()).unwrap_err();
    assert!(format!("{:?}", err).contains("not quotable and contains whitespace"));
}

#[test]
fn write_validation_error_outputs_nothing() {
    let mut dest: Vec<u8> = vec![];
    let mut qmap = QuakeMap::new();
    qmap.entities.push(Entity {
        edict: simple_edict(),
        brushes: vec![vec![Surface {
            half_space: good_half_space(),
            texture: text("b\""),
            alignment: Alignment {
                offset: good_vec2(),
                rotation: num(0.0),
                scale: bad_vec2(),
                axes: Some(good_axes()),
            },
        }]],
    });
    let res = qmap.write_to(&mut dest);

    if let Err(WriteError::Validation(_)) = res {
        assert_eq!(String::from_utf8(dest).unwrap(), String::from(""));
    } else {
        panic_expected_error();
    }
}

#[test]
fn write_fault_in_a_later_entity_outputs_nothing() {
    let mut dest: Vec<u8> = b"kept".to_vec();
    let mut qmap = simple_map();
    qmap.entities.push(bad_entity_edict());
    let res = qmap.write_to(&mut dest);
    match res {
        Err(WriteError::Validation(message)) => {
            assert!(message.contains("'\\n'"));
            assert_eq!(dest, b"kept".to_vec());
        }
        _ => panic_expected_error(),
    }
    let err = qmap.write_to(&mut dest).unwrap_err();
    assert_eq!(
        err.to_string(),
        "Cannot write quote-wrapped string, contains '\\n'"
    );
}

fn agree(text: &[u8]) {
    let ours = Number::parse(text);
    let theirs = std::str::from_utf8(text).unwrap().parse::<f64>();
    assert_eq!(
        ours.is_some(),
        theirs.is_ok(),
        "{:?}",
        String::from_utf8_lossy(text)
    );
    if let (Some(number), Ok(value)) = (ours, theirs) {
        if !number.is_finite() {
            assert!(!value.is_finite());
        } else if !value.is_finite() {
            assert!(text.iter().any(|b| *b == b'e' || *b == b'E'));
        }
    }
}

#[test]
fn numerals_agree_with_the_standard_parser() {
    let alphabet = b"01.eE+-infaty_ N";
    let mut text: Vec<u8> = Vec::new();
    let mut counters: Vec<usize> = Vec::new();
    agree(&text);
    for length in 1..=5usize {
        counters.clear();
        counters.resize(length, 0);
        'all: loop {
            text.clear();
            text.extend(counters.iter().map(|i| alphabet[*i]));
            agree(&text);
            let mut place = 0;
            loop {
                if place == length {
                    break 'all;
                }
                counters[place] += 1;
                if counters[place] < alphabet.len() {
                    break;
                }
                counters[place] = 0;
                place += 1;
            }
        }
    }
    for longer in [
        "infinity", "+infinity", "-INFINITY", "Infinity", "infinityy", "+infinit", "-1.5e-10",
        "1.5e+10", "123456789.987654321e-123", "1e1000", "-1e1000", "1e-1000", "0.0000001",
        "nane", "++inf", "+-1", "1e++1", ".e1", "1.e1", ".1e1", "1..1", "1e1e1", "e", "E", "1e1.",
    ] {
        agree(longer.as_bytes());
    }
}
