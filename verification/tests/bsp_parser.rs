use quake_util::bsp;
use quake_util::bsp::EntryOffset;
use quake_util::BinParseError;
use quake_util::ByteReader;
use quake_util::Text;

const HEAD_SZ: usize = 124;
const ENTITIES: &str = r#"
{
    "classname" "func_door"
    "model" "*37"
}"#;
const ENTITIES_LEN: usize = ENTITIES.len() + 1;

fn text(s: &str) -> Text {
    Text::from_slice(s.as_bytes()).unwrap()
}

#[test]
fn parse_good_bsp() {
    const MODELS_LEN: usize = 123;
    let mut bytes = [0u8; HEAD_SZ + ENTITIES_LEN + MODELS_LEN];
    let entities_offset = HEAD_SZ as u32;
    let models_offset = entities_offset + ENTITIES_LEN as u32;
    bytes[0] = b'B';
    bytes[1] = b'S';
    bytes[2] = b'P';
    bytes[3] = b'2';
    bytes[4..8].copy_from_slice(&(entities_offset).to_le_bytes());
    bytes[8..12].copy_from_slice(&(ENTITIES_LEN as u32).to_le_bytes());
    bytes[(HEAD_SZ - 8)..(HEAD_SZ - 4)].copy_from_slice(&(models_offset).to_le_bytes());
    bytes[(HEAD_SZ - 4)..HEAD_SZ].copy_from_slice(&(MODELS_LEN as u32).to_le_bytes());
    bytes[HEAD_SZ..(HEAD_SZ + ENTITIES_LEN - 1)]
        .copy_from_slice(&ENTITIES.bytes().collect::<Vec<u8>>());

    let cursor = ByteReader::new(&bytes);
    let mut parser = bsp::Parser::new(cursor).unwrap();

    {
        let lump_reader = parser.lump_reader(EntryOffset::Models).unwrap();
        assert_eq!(lump_reader.remaining_len(), MODELS_LEN);
    }

    assert_eq!(parser.version(), bsp::BSP2_VERSION);
    assert!(!parser.lump_empty(EntryOffset::Entities));
    assert!(parser.lump_empty(EntryOffset::Nodes));

    let qmap = parser.parse_entities().unwrap();

    assert_eq!(
        qmap.entities[0].edict.get(&text("classname")),
        Some(&text("func_door"))
    );

    assert_eq!(
        qmap.entities[0].edict.get(&text("model")),
        Some(&text("*37"))
    );
}

#[test]
fn parse_empty_entities() {
    let mut bytes = [0u8; HEAD_SZ];
    bytes[0] = 29;
    bytes[4..8].copy_from_slice(&(HEAD_SZ as u32).to_le_bytes());
    bytes[8..12].copy_from_slice(&(0u32).to_le_bytes());

    let cursor = ByteReader::new(&bytes);
    let mut parser = bsp::Parser::new(cursor).unwrap();

    let quake_map = parser.parse_entities().unwrap();

    assert_eq!(quake_map.entities.len(), 0);
}

#[test]
fn parse_bad_entities() {
    let mut bytes = [0u8; HEAD_SZ + 2];
    bytes[0] = 29;
    bytes[4..8].copy_from_slice(&(HEAD_SZ as u32).to_le_bytes());
    bytes[8..12].copy_from_slice(&(2u32).to_le_bytes());
    bytes[HEAD_SZ] = b'{';
    bytes[HEAD_SZ + 1] = 0;

    let cursor = ByteReader::new(&bytes);
    let mut parser = bsp::Parser::new(cursor).unwrap();

    let error = parser.parse_entities().unwrap_err();

    assert!(matches!(error, BinParseError::Parse(_)));
    assert_eq!(
        error.to_string(),
        "Binary Parse Error: Unexpected end-of-file"
    );
}

#[test]
fn parse_entities_error_names_the_line() {
    let text = b"{\n\"a\" \"b\"\n(\n}";
    let mut bytes = vec![0u8; HEAD_SZ];
    bytes[0] = 29;
    bytes[4..8].copy_from_slice(&(HEAD_SZ as u32).to_le_bytes());
    bytes[8..12].copy_from_slice(&(text.len() as u32).to_le_bytes());
    bytes.extend(text);

    let mut parser = bsp::Parser::new(ByteReader::new(&bytes)).unwrap();
    match parser.parse_entities().unwrap_err() {
        BinParseError::Parse(message) => {
            assert_eq!(message, "Line 3: Expected `}`, got `(`");
        }
        BinParseError::Io(_) => panic!("Incorrect error type"),
    }
}

#[test]
fn short_head_is_an_io_error() {
    let bytes = [29u8; 100];
    let error = bsp::Parser::new(ByteReader::new(&bytes)).unwrap_err();
    assert!(matches!(error, BinParseError::Io(_)));
}

#[test]
fn lump_that_is_cut_off_gives_what_is_there() {
    let mut bytes = vec![0u8; HEAD_SZ];
    bytes[0] = 29;
    bytes[4..8].copy_from_slice(&(HEAD_SZ as u32).to_le_bytes());
    bytes[8..12].copy_from_slice(&(100u32).to_le_bytes());
    bytes.extend(b"{ }");
    let mut parser = bsp::Parser::new(ByteReader::new(&bytes)).unwrap();
    let reader = parser.lump_reader(EntryOffset::Entities).unwrap();
    assert_eq!(reader.remaining(), b"{ }");
    assert_eq!(parser.parse_entities().unwrap().entities.len(), 1);
}
