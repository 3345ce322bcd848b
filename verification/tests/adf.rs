use aperion::{
    check, check_binary, check_bytes, detect_encoding, encode_binary, parse, parse_binary,
    parse_bytes, AdfEncoding, AdfError, AdfStatement, MaterialImportSyntax, Operation, Value,
};

/// Decodes a number literal into the bits of its binary64 value.
fn number(text: &str) -> u64 {
    text.parse::<f64>().map(f64::to_bits).unwrap_or(0)
}

const SAMPLE: &str = r#"
            adf 1;
            use material body from "body.amat";
            + sphere(radius: 1.0, at: [0, 2, 0], mat: body, k: 0.2);
            ? sphere(radius: 0.35)
                at [0.25, 2.1, 0.6]
                mat paint_red;
        "#;

fn parse_error(source: &str) -> String {
    match parse(source, &number) {
        Ok(_) => panic!("expected a parse error"),
        Err(error) => error.to_string(),
    }
}

fn check_error(source: &str) -> String {
    match check(source, &number) {
        Ok(_) => panic!("expected a check error"),
        Err(error) => error.to_string(),
    }
}

#[test]
fn parses_basic_document() {
    let document = parse(SAMPLE, &number).expect("parser should accept the sample");

    assert_eq!(document.version, 1);
    assert_eq!(document.statements.len(), 3);
}

#[test]
fn parses_legacy_material_import() {
    let source = r#"
            adf 1;
            @material "^.amat";
        "#;

    let document = parse(source, &number).expect("legacy import should parse");
    assert_eq!(document.statements.len(), 1);
}

#[test]
fn rejects_unsupported_version() {
    let source = r#"
            adf 999;
            @material "^.amat";
        "#;

    let error = parse(source, &number).expect_err("unsupported version should fail");
    assert!(error.to_string().contains("unsupported ADF version 999"));
}

#[test]
fn binary_roundtrip_preserves_document() {
    let document = parse(SAMPLE, &number).expect("text ADF should parse");
    let bytes = encode_binary(&document).expect("document should encode");
    let decoded = parse_binary(&bytes).expect("binary ADF should decode");

    assert_eq!(document, decoded);
}

#[test]
fn check_bytes_detects_binary_adfb() {
    let source = r#"
            adf 1;
            use material body from "body.amat";
            + sphere(radius: 1.0, at: [0, 2, 0], mat: body, k: 0.2);
        "#;

    let document = parse(source, &number).expect("text ADF should parse");
    let bytes = encode_binary(&document).expect("document should encode");
    let (encoding, summary) = check_bytes(&bytes, &number).expect("binary ADF should validate");

    assert_eq!(encoding, AdfEncoding::Binary);
    assert_eq!(summary.version, 1);
    assert_eq!(summary.material_imports, 1);
    assert_eq!(summary.edits, 1);
}

#[test]
fn sample_statements_are_read_in_full() {
    let document = parse(SAMPLE, &number).unwrap();
    match &document.statements[0] {
        AdfStatement::MaterialImport(import) => {
            assert_eq!(import.alias.as_deref(), Some("body"));
            assert_eq!(import.path, "body.amat");
            assert_eq!(import.syntax, MaterialImportSyntax::Use);
        }
        other => panic!("unexpected statement {other:?}"),
    }
    match &document.statements[1] {
        AdfStatement::Edit(edit) => {
            assert_eq!(edit.operation, Operation::Union);
            assert_eq!(edit.primitive, "sphere");
            let keys: Vec<&str> = edit.properties.iter().map(|p| p.key.as_str()).collect();
            assert_eq!(keys, vec!["radius", "at", "mat", "k"]);
            assert_eq!(edit.properties[0].value, Value::Number(1.0f64.to_bits()));
            assert_eq!(
                edit.properties[1].value,
                Value::Vector(vec![
                    Value::Number(0.0f64.to_bits()),
                    Value::Number(2.0f64.to_bits()),
                    Value::Number(0.0f64.to_bits()),
                ])
            );
            assert_eq!(edit.properties[2].value, Value::Ident("body".to_string()));
        }
        other => panic!("unexpected statement {other:?}"),
    }
    match &document.statements[2] {
        AdfStatement::Edit(edit) => {
            assert_eq!(edit.operation, Operation::Paint);
            let keys: Vec<&str> = edit.properties.iter().map(|p| p.key.as_str()).collect();
            assert_eq!(keys, vec!["radius", "at", "mat"]);
            assert_eq!(edit.properties[2].value, Value::Ident("paint_red".to_string()));
        }
        other => panic!("unexpected statement {other:?}"),
    }
}

#[test]
fn values_of_every_kind() {
    let source = "adf 1; - box(a: -2.5, b: \"x\\ty\", c: true, d: false, e: [1, [2], \"z\"]) f 3;";
    let document = parse(source, &number).unwrap();
    let AdfStatement::Edit(edit) = &document.statements[0] else {
        panic!("expected an edit");
    };
    assert_eq!(edit.operation, Operation::Difference);
    assert_eq!(edit.properties[0].value, Value::Number((-2.5f64).to_bits()));
    assert_eq!(edit.properties[1].value, Value::String("x\ty".to_string()));
    assert_eq!(edit.properties[2].value, Value::Bool(true));
    assert_eq!(edit.properties[3].value, Value::Bool(false));
    assert_eq!(
        edit.properties[4].value,
        Value::Vector(vec![
            Value::Number(1.0f64.to_bits()),
            Value::Vector(vec![Value::Number(2.0f64.to_bits())]),
            Value::String("z".to_string()),
        ])
    );
    assert_eq!(edit.properties[5].key, "f");
    assert_eq!(edit.properties[5].value, Value::Number(3.0f64.to_bits()));
}

#[test]
fn comments_and_intersection() {
    let source = "# header\nadf 1; // version\n^ cube(size: 1e2);\n";
    let document = parse(source, &number).unwrap();
    let AdfStatement::Edit(edit) = &document.statements[0] else {
        panic!("expected an edit");
    };
    assert_eq!(edit.operation, Operation::Intersection);
    assert_eq!(edit.properties[0].value, Value::Number(100.0f64.to_bits()));
}

#[test]
fn check_summarizes_what_parse_reads() {
    let summary = check(SAMPLE, &number).unwrap();
    assert_eq!(summary.version, 1);
    assert_eq!(summary.material_imports, 1);
    assert_eq!(summary.edits, 2);
}

#[test]
fn error_messages_name_the_place() {
    assert_eq!(parse_error("adf 1; +"), "expected an identifier at line 1, column 9");
    assert_eq!(parse_error("ad 1;"), "expected keyword \"adf\" at line 1, column 1");
    assert_eq!(parse_error("adf 1.5;"), "expected an unsigned integer at line 1, column 5");
    assert_eq!(parse_error("adf 1"), "expected ';' after ADF version at line 1, column 6");
    assert_eq!(
        parse_error("adf 2;"),
        "unsupported ADF version 2 (supported: 1) at line 1, column 6"
    );
    assert_eq!(
        parse_error("adf 1;\nfoo;"),
        "expected a material import or edit statement at line 2, column 1"
    );
    assert_eq!(
        parse_error("adf 1; + s(r 1);"),
        "expected ':' after property r at line 1, column 14"
    );
    assert_eq!(parse_error("adf 1; + s(r: );"), "expected a value at line 1, column 15");
    assert_eq!(
        parse_error("adf 1; + s(r: -x);"),
        "expected a number after '-' at line 1, column 16"
    );
    assert_eq!(
        parse_error("adf 1; + s(r: [1, 2);"),
        "expected a value at line 1, column 20"
    );
    assert_eq!(parse_error("adf 1; + s(r: [1"), "expected ']' after vector at line 1, column 17");
    assert_eq!(parse_error("adf 1; + s() x 1"), "expected ';' after edit at line 1, column 17");
    assert_eq!(
        parse_error("adf 1; use material m \"p\";"),
        "expected keyword \"from\" at line 1, column 23"
    );
    assert_eq!(
        parse_error("adf 1; @material x;"),
        "expected a string literal at line 1, column 18"
    );
}

#[test]
fn lexical_errors() {
    assert_eq!(parse_error("adf 1; $"), "unexpected character '$' at line 1, column 8");
    assert_eq!(
        parse_error("adf 1;\n @material \"abc"),
        "unterminated string starting at line 2, column 12"
    );
    assert_eq!(
        parse_error("adf 1; @material \"a\\qb\";"),
        "unsupported escape sequence \\q at line 1, column 21"
    );
    assert_eq!(parse_error("adf 1.2.3;"), "invalid number \"1.2.3\" at line 1, column 5");
}

#[test]
fn check_stops_at_the_first_grammatical_error() {
    // Parsing reads every token first, so the bad character is met first;
    // checking stops at the missing semicolon before reaching it.
    assert_eq!(parse_error("adf 1 $"), "unexpected character '$' at line 1, column 7");
    assert_eq!(check_error("adf 1 x $"), "expected ';' after ADF version at line 1, column 7");
    assert_eq!(check_error("adf 1; $"), "unexpected character '$' at line 1, column 8");
}

#[test]
fn detect_encoding_reads_the_magic() {
    assert_eq!(detect_encoding(b"ADFB\x01"), AdfEncoding::Binary);
    assert_eq!(detect_encoding(b"ADF"), AdfEncoding::Text);
    assert_eq!(detect_encoding(b"adf 1;"), AdfEncoding::Text);
    assert_eq!(AdfEncoding::Binary.name(), "ADFB");
    assert_eq!(AdfEncoding::Text.name(), "ADFT");
}

#[test]
fn bytes_in_the_text_form() {
    let (encoding, summary) = check_bytes(SAMPLE.as_bytes(), &number).unwrap();
    assert_eq!(encoding, AdfEncoding::Text);
    assert_eq!(summary.edits, 2);
    let (encoding, document) = parse_bytes(SAMPLE.as_bytes(), &number).unwrap();
    assert_eq!(encoding, AdfEncoding::Text);
    assert_eq!(document, parse(SAMPLE, &number).unwrap());
}

#[test]
fn bytes_that_are_not_utf8() {
    let error = parse_bytes(b"adf 1; \xff", &number).unwrap_err();
    assert!(matches!(error, AdfError::Utf8(_)));
    assert!(error.to_string().starts_with("ADF text is not valid UTF-8: "));
    let error = check_bytes(b"\xc3", &number).unwrap_err();
    assert!(matches!(error, AdfError::Utf8(_)));
}

#[test]
fn binary_form_bytes_roundtrip() {
    let document = parse(SAMPLE, &number).unwrap();
    let bytes = encode_binary(&document).unwrap();
    assert_eq!(&bytes[..4], b"ADFB");
    let (encoding, decoded) = parse_bytes(&bytes, &number).unwrap();
    assert_eq!(encoding, AdfEncoding::Binary);
    assert_eq!(decoded, document);
    let summary = check_binary(&bytes).unwrap();
    assert_eq!(summary.material_imports, 1);
    assert_eq!(summary.edits, 2);
}

#[test]
fn binary_errors() {
    let document = parse(SAMPLE, &number).unwrap();
    let bytes = encode_binary(&document).unwrap();
    let error = parse_binary(&bytes[..bytes.len() - 1]).unwrap_err();
    assert!(matches!(error, AdfError::Binary(_)));
    let mut longer = bytes.clone();
    longer.push(0);
    assert!(matches!(parse_binary(&longer), Err(AdfError::Binary(_))));
    assert!(matches!(check_binary(&longer), Err(AdfError::Binary(_))));
    assert!(matches!(parse_binary(b"ADFX"), Err(AdfError::Binary(_))));

    let mut old = document;
    old.version = 7;
    let error = encode_binary(&old).unwrap_err();
    assert!(matches!(error, AdfError::Binary(_)));
}

#[test]
fn error_text_is_the_message() {
    let error = AdfError::Parse("bad".to_string());
    assert_eq!(error.to_string(), "bad");
    let error = AdfError::Binary("worse".to_string());
    assert_eq!(error.to_string(), "worse");
}

#[test]
fn unexpected_control_character_is_escaped() {
    assert_eq!(
        parse_error("adf 1; \u{1b}"),
        "unexpected character '\\u{1b}' at line 1, column 8"
    );
}

#[test]
fn utf8_and_read_errors_give_their_cause() {
    let error = parse_bytes(b"adf 1; \xff", &number).unwrap_err();
    assert_eq!(
        error.to_string(),
        "ADF text is not valid UTF-8: invalid utf-8 sequence of 1 bytes from index 7"
    );
    let error = AdfError::ReadFile {
        path: "scene.adf".to_string(),
        source: std::io::Error::new(std::io::ErrorKind::Other, "disk on fire"),
    };
    assert_eq!(error.to_string(), "could not read scene.adf: disk on fire");
}

fn binary_error(bytes: &[u8]) -> String {
    match parse_binary(bytes) {
        Ok(_) => panic!("expected a binary error"),
        Err(AdfError::Binary(m)) => m,
        Err(other) => panic!("unexpected error {}", other.to_string()),
    }
}

#[test]
fn binary_error_messages() {
    assert_eq!(
        binary_error(b"ADFX\x01\x00\x00\x00\x00\x00\x00\x00"),
        "invalid ADFB magic [65, 68, 70, 88], expected [65, 68, 70, 66]"
    );
    assert_eq!(binary_error(b"AD"), "unexpected end of ADFB input at byte 0, needed 2 more bytes");
    assert_eq!(
        binary_error(b"ADFB\x02\x00\x00\x00\x00\x00\x00\x00"),
        "unsupported ADF version 2 (supported: 1)"
    );
    assert_eq!(binary_error(b"ADFB\x01\x00\x00\x00\x00\x00\x00\x00\x07"), "ADFB has 1 trailing bytes");
    let unknown = b"ADFB\x01\x00\x00\x00\x01\x00\x00\x00\x09";
    assert_eq!(binary_error(unknown), "unknown ADFB statement tag 9 at byte 12");
    match check_binary(unknown) {
        Err(AdfError::Binary(m)) => assert_eq!(m, "unknown ADFB statement tag 9 at byte 12"),
        _ => panic!("expected a binary error"),
    }
    let empty = parse_binary(b"ADFB\x01\x00\x00\x00\x00\x00\x00\x00").unwrap();
    assert_eq!(empty.version, 1);
    assert!(empty.statements.is_empty());
}

#[test]
fn numbers_compare_as_floating_point_values() {
    assert_eq!(Value::Number(0.0f64.to_bits()), Value::Number((-0.0f64).to_bits()));
    assert_ne!(Value::Number(f64::NAN.to_bits()), Value::Number(f64::NAN.to_bits()));
    assert_ne!(Value::Number(1.0f64.to_bits()), Value::Number(2.0f64.to_bits()));
    assert_eq!(
        Value::Vector(vec![Value::Number(0.0f64.to_bits()), Value::String("a".to_string())]),
        Value::Vector(vec![Value::Number((-0.0f64).to_bits()), Value::String("a".to_string())])
    );
    assert_ne!(
        Value::Vector(vec![Value::Bool(true)]),
        Value::Vector(vec![Value::Bool(true), Value::Bool(true)])
    );
    assert_ne!(Value::String("a".to_string()), Value::Ident("a".to_string()));
    let zero = parse("adf 1; + s(a: 0);", &number).unwrap();
    let negative_zero = parse("adf 1; + s(a: -0);", &number).unwrap();
    assert_eq!(zero, negative_zero);
}

fn number_text(bits: u64) -> String {
    f64::from_bits(bits).to_string()
}

#[test]
fn documents_described_for_reading() {
    let document = parse(SAMPLE, &number).unwrap();
    assert_eq!(
        aperion::describe::describe(&document, &number_text),
        "ADF v1\n   1. material import body from \"body.amat\"\n   2. Union sphere\n      radius = 1\n      at = [0, 2, 0]\n      mat = body\n      k = 0.2\n   3. Paint sphere\n      radius = 0.35\n      at = [0.25, 2.1, 0.6]\n      mat = paint_red\n"
    );
    let mut source = String::from("adf 1;");
    for _ in 0..10 {
        source.push_str(" @material \"it's \\\"x\\\"\";");
    }
    let text = aperion::describe::describe(&parse(&source, &number).unwrap(), &number_text);
    assert!(text.contains("\n   9. material import from \"it's \\\"x\\\"\"\n"));
    assert!(text.ends_with("\n  10. material import from \"it's \\\"x\\\"\"\n"));
    let value = Value::Vector(vec![Value::Bool(true), Value::String("q".to_string()), Value::Vector(vec![])]);
    assert_eq!(aperion::describe::describe_value(&value, &number_text), "[true, \"q\", []]");
}
