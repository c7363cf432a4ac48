use soroban_sdk::xdr::{Limits, ScSymbol, ScVal as XScVal, WriteXdr};
use soroscope::parser::{ArgParser, ParserError};
use soroscope::value::{ScAddress, ScVal};

#[test]
fn test_parse_primitives() {
    assert!(matches!(ArgParser::parse("null").unwrap(), ScVal::Void));
    assert!(matches!(ArgParser::parse("true").unwrap(), ScVal::Bool(true)));
    assert!(matches!(ArgParser::parse("false").unwrap(), ScVal::Bool(false)));
    assert!(matches!(ArgParser::parse("123").unwrap(), ScVal::I64(123)));
    assert!(matches!(ArgParser::parse("-456").unwrap(), ScVal::I64(-456)));
}

#[test]
fn test_parse_string_and_symbol() {
    let s = ArgParser::parse("\"hello\"").unwrap();
    match s {
        ScVal::String(bytes) => {
            assert_eq!(String::from_utf8(bytes).unwrap(), "hello");
        }
        _ => panic!("Expected String variant"),
    }

    let sym = ArgParser::parse("\":my_sym\"").unwrap();
    match sym {
        ScVal::Symbol(bytes) => {
            assert_eq!(String::from_utf8(bytes).unwrap(), "my_sym");
        }
        _ => panic!("Expected Symbol variant"),
    }
}

#[test]
fn test_parse_address() {
    let account = "GAAAAAAAAAAAAAAAAAAAAAAAAAAAAAAAAAAAAAAAAAAAAAAAAAAAGO6V";
    let contract = "CAAAAAAAAAAAAAAAAAAAAAAAAAAAAAAAAAAAAAAAAAAAAAAAAAAAD2KM";

    let result = ArgParser::parse(&format!("\"{}\"", account)).unwrap();
    assert!(matches!(result, ScVal::Address(ScAddress::Account(_))));

    let result = ArgParser::parse(&format!("\"{}\"", contract)).unwrap();
    assert!(matches!(result, ScVal::Address(ScAddress::Contract(_))));
}

#[test]
fn test_parse_complex_nested() {
    let json = r#"{
        "admin": "GAAAAAAAAAAAAAAAAAAAAAAAAAAAAAAAAAAAAAAAAAAAAAAAAAAAGO6V",
        "config": {
            "threshold": 3,
            "active": true
        },
        "tags": [":tag1", ":tag2"]
    }"#;

    let result = ArgParser::parse(json).unwrap();
    if let ScVal::Mapping(Some(map)) = result {
        assert_eq!(map.len(), 3);
    } else {
        panic!("Expected Map");
    }
}

#[test]
fn test_error_path() {
    let json = r#"{"a": {"b": [1, 1.5]}}"#;
    let result = ArgParser::parse(json);
    assert!(result.is_err());
    let err = result.unwrap_err().message();
    assert!(err.contains("$.a.b[1]"));
    assert!(err.contains("expected integer, found number 1.5"));
}

// ── further cases ──────────────────────────────────────────────────────────

#[test]
fn map_keys_come_out_in_canonical_order() {
    let result = ArgParser::parse(r#"{"bb": 1, "a": 2, "ab": 3, "c": 4}"#).unwrap();
    let keys: Vec<Vec<u8>> = match result {
        ScVal::Mapping(Some(entries)) => entries
            .into_iter()
            .map(|e| match e.key {
                ScVal::Symbol(k) => k,
                _ => panic!("Expected symbol key"),
            })
            .collect(),
        _ => panic!("Expected Map"),
    };
    assert_eq!(keys, vec![b"a".to_vec(), b"c".to_vec(), b"ab".to_vec(), b"bb".to_vec()]);
}

#[test]
fn hex_bytes_are_decoded() {
    assert_eq!(ArgParser::parse("\"0xdeadBEEF\"").unwrap(), ScVal::Bytes(vec![0xde, 0xad, 0xbe, 0xef]));
    match ArgParser::parse("\"0xabc\"") {
        Err(ParserError::InvalidHex { location, .. }) => assert_eq!(location, "$"),
        _ => panic!("Expected InvalidHex"),
    }
    match ArgParser::parse("[\"0xzz\"]") {
        Err(ParserError::InvalidHex { location, .. }) => assert_eq!(location, "$[0]"),
        _ => panic!("Expected InvalidHex"),
    }
}

#[test]
fn symbols_are_checked() {
    match ArgParser::parse("\":\"") {
        Err(ParserError::InvalidSymbol { location, details }) => {
            assert_eq!(location, "$");
            assert_eq!(details, "Symbol must be 1-32 characters");
        }
        _ => panic!("Expected InvalidSymbol"),
    }
    assert!(matches!(ArgParser::parse("\":has space\""), Err(ParserError::InvalidSymbol { .. })));
    let long = format!("\":{}\"", "a".repeat(33));
    assert!(matches!(ArgParser::parse(&long), Err(ParserError::InvalidSymbol { .. })));
    let max = format!("\":{}\"", "a".repeat(32));
    assert!(matches!(ArgParser::parse(&max), Ok(ScVal::Symbol(_))));
}

#[test]
fn long_object_key_is_rejected_with_its_path() {
    let json = format!("{{\"cfg\": {{\"{}\": 1}}}}", "k".repeat(33));
    match ArgParser::parse(&json) {
        Err(ParserError::InvalidSymbol { location, details }) => {
            assert_eq!(location, format!("$.cfg.{}", "k".repeat(33)));
            assert_eq!(details, "Key name too long for symbol");
        }
        _ => panic!("Expected InvalidSymbol"),
    }
}

#[test]
fn large_unsigned_and_invalid_json() {
    assert_eq!(ArgParser::parse("18446744073709551615").unwrap(), ScVal::U64(u64::MAX));
    match ArgParser::parse("{not json") {
        Err(ParserError::InvalidType { location, expected, .. }) => {
            assert_eq!(location, "$");
            assert_eq!(expected, "valid JSON");
        }
        _ => panic!("Expected InvalidType"),
    }
}

#[test]
fn bad_address_text_stays_a_string() {
    let text = format!("\"G{}\"", "A".repeat(55));
    assert!(matches!(ArgParser::parse(&text).unwrap(), ScVal::String(_)));
}

#[test]
fn arrays_keep_their_order() {
    let v = ArgParser::parse("[1, \"x\", null, [true]]").unwrap();
    assert_eq!(
        v,
        ScVal::Vec(Some(vec![
            ScVal::I64(1),
            ScVal::String(b"x".to_vec()),
            ScVal::Void,
            ScVal::Vec(Some(vec![ScVal::Bool(true)])),
        ]))
    );
}

#[test]
fn map_order_matches_the_network_encoding_of_keys() {
    let names = ["zeta", "a", "alpha", "b_2", "B", "abc", "Z9"];
    let json = format!(
        "{{{}}}",
        names.iter().map(|n| format!("\"{}\": 0", n)).collect::<Vec<_>>().join(", ")
    );
    let parsed: Vec<Vec<u8>> = match ArgParser::parse(&json).unwrap() {
        ScVal::Mapping(Some(entries)) => entries
            .into_iter()
            .map(|e| match e.key {
                ScVal::Symbol(k) => k,
                _ => panic!("Expected symbol key"),
            })
            .collect(),
        _ => panic!("Expected Map"),
    };
    let mut by_encoding: Vec<(Vec<u8>, Vec<u8>)> = names
        .iter()
        .map(|n| {
            let sym = XScVal::Symbol(ScSymbol(n.as_bytes().to_vec().try_into().unwrap()));
            (sym.to_xdr(Limits::none()).unwrap(), n.as_bytes().to_vec())
        })
        .collect();
    by_encoding.sort();
    let expected: Vec<Vec<u8>> = by_encoding.into_iter().map(|(_, n)| n).collect();
    assert_eq!(parsed, expected);
}
