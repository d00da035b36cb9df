use alpm_local::desc::{decode_scalar, from_str, parse_text, Field, Scalar, ScalarKind, Shape, Value};
use alpm_local::encode::encode_to_string;
use alpm_local::error::{Error, ErrorKind};

fn field(key: &str, shape: Shape) -> Field {
    Field { key: key.to_string(), shape }
}

fn scalar(kind: ScalarKind, token: &str) -> Result<Scalar, Error> {
    decode_scalar(&kind, &token.chars().collect())
}

fn kind_of<T>(r: Result<T, Error>) -> ErrorKind {
    match r {
        Ok(_) => panic!("expected an error"),
        Err(e) => e.kind().clone(),
    }
}

fn as_str(v: &Value) -> &str {
    match v {
        Value::One(Scalar::Str(s)) => s.as_str(),
        _ => panic!("expected a string"),
    }
}

fn as_strs(v: &Value) -> Vec<String> {
    match v {
        Value::List(xs) => xs
            .iter()
            .map(|x| match x {
                Scalar::Str(s) => s.clone(),
                _ => panic!("expected strings"),
            })
            .collect(),
        _ => panic!("expected a list"),
    }
}

#[test]
fn decodes_scalars_and_lists() {
    let text = "%NAME%\npkg\n\n%COUNT%\n42\n\n%ITEMS%\na\nb\nc\n";
    let schema = vec![
        field("NAME", Shape::One(ScalarKind::Str)),
        field("COUNT", Shape::One(ScalarKind::Unsigned)),
        field("ITEMS", Shape::List(ScalarKind::Str)),
    ];
    let vs = from_str(text, &schema).unwrap();
    assert_eq!(vs.len(), 3);
    assert_eq!(as_str(&vs[0]), "pkg");
    assert!(matches!(vs[1], Value::One(Scalar::Unsigned(42))));
    assert_eq!(as_strs(&vs[2]), vec!["a", "b", "c"]);
}

#[test]
fn missing_optional_and_list_take_defaults() {
    let text = "%NAME%\npkg\n";
    let schema = vec![
        field("NAME", Shape::One(ScalarKind::Str)),
        field("BASE", Shape::Optional(ScalarKind::Str)),
        field("GROUPS", Shape::ListOrEmpty(ScalarKind::Str)),
    ];
    let vs = from_str(text, &schema).unwrap();
    assert!(matches!(vs[1], Value::Absent));
    assert!(as_strs(&vs[2]).is_empty());
}

#[test]
fn unknown_section_is_skipped() {
    let schema = vec![field("NAME", Shape::One(ScalarKind::Str))];
    let plain = from_str("%NAME%\npkg\n", &schema).unwrap();
    let extra = from_str("%EXTRA%\nx\ny\n\n%NAME%\npkg\n\n%MORE%\nz\n", &schema).unwrap();
    assert_eq!(as_str(&plain[0]), "pkg");
    assert_eq!(as_str(&extra[0]), "pkg");
}

#[test]
fn missing_required_field_is_custom_error() {
    let schema = vec![field("NAME", Shape::One(ScalarKind::Str))];
    let e = from_str("%OTHER%\nx\n", &schema).unwrap_err();
    assert_eq!(e.kind(), &ErrorKind::Custom("missing field".to_string()));
    assert_eq!(e.cause().map(|c| c.as_str()), Some("NAME"));
}

#[test]
fn value_line_without_key_is_expected_key() {
    let schema = vec![field("NAME", Shape::One(ScalarKind::Str))];
    assert_eq!(kind_of(from_str("pkg\n", &schema)), ErrorKind::ExpectedKey);
    assert_eq!(kind_of(from_str("%NAME%\npkg\n\nstray\n", &schema)), ErrorKind::ExpectedKey);
    assert_eq!(kind_of(from_str("%%\npkg\n", &schema)), ErrorKind::ExpectedKey);
}

#[test]
fn unit_field_with_content_is_expected_empty() {
    let schema = vec![field("FLAG", Shape::Unit)];
    assert!(matches!(from_str("%FLAG%\n", &schema).unwrap()[0], Value::Unit));
    assert_eq!(kind_of(from_str("%FLAG%\nx\n", &schema)), ErrorKind::ExpectedEmpty);
}

#[test]
fn nested_field_is_unsupported() {
    let schema = vec![field("INNER", Shape::Nested)];
    assert_eq!(
        kind_of(from_str("%INNER%\nx\n", &schema)),
        ErrorKind::Unsupported("nested record".to_string())
    );
}

#[test]
fn several_lines_for_single_value_is_unsupported() {
    let schema = vec![field("NAME", Shape::One(ScalarKind::Str))];
    assert_eq!(
        kind_of(from_str("%NAME%\na\nb\n", &schema)),
        ErrorKind::Unsupported("several values for a single value".to_string())
    );
}

#[test]
fn bool_tokens() {
    assert!(matches!(scalar(ScalarKind::Bool, "true"), Ok(Scalar::Bool(true))));
    assert!(matches!(scalar(ScalarKind::Bool, "false"), Ok(Scalar::Bool(false))));
    assert_eq!(kind_of(scalar(ScalarKind::Bool, "True")), ErrorKind::ExpectedBool);
    assert_eq!(kind_of(scalar(ScalarKind::Bool, "1")), ErrorKind::ExpectedBool);
}

#[test]
fn unsigned_tokens() {
    assert!(matches!(scalar(ScalarKind::Unsigned, "0"), Ok(Scalar::Unsigned(0))));
    assert!(matches!(
        scalar(ScalarKind::Unsigned, "18446744073709551615"),
        Ok(Scalar::Unsigned(u64::MAX))
    ));
    assert_eq!(kind_of(scalar(ScalarKind::Unsigned, "18446744073709551616")), ErrorKind::ExpectedUnsigned);
    assert_eq!(kind_of(scalar(ScalarKind::Unsigned, "")), ErrorKind::ExpectedUnsigned);
    assert_eq!(kind_of(scalar(ScalarKind::Unsigned, "-1")), ErrorKind::ExpectedUnsigned);
    assert_eq!(kind_of(scalar(ScalarKind::Unsigned, "12a")), ErrorKind::ExpectedUnsigned);
}

#[test]
fn signed_tokens() {
    assert!(matches!(scalar(ScalarKind::Signed, "-17"), Ok(Scalar::Signed(-17))));
    assert!(matches!(scalar(ScalarKind::Signed, "17"), Ok(Scalar::Signed(17))));
    assert!(matches!(
        scalar(ScalarKind::Signed, "-9223372036854775808"),
        Ok(Scalar::Signed(i64::MIN))
    ));
    assert_eq!(kind_of(scalar(ScalarKind::Signed, "9223372036854775808")), ErrorKind::ExpectedSigned);
    assert_eq!(kind_of(scalar(ScalarKind::Signed, "-")), ErrorKind::ExpectedSigned);
    assert_eq!(kind_of(scalar(ScalarKind::Signed, "x")), ErrorKind::ExpectedSigned);
}

#[test]
fn char_tokens() {
    assert!(matches!(scalar(ScalarKind::Char, "é"), Ok(Scalar::Char('é'))));
    assert_eq!(kind_of(scalar(ScalarKind::Char, "ab")), ErrorKind::ExpectedChar);
    assert_eq!(kind_of(scalar(ScalarKind::Char, "")), ErrorKind::ExpectedChar);
}

#[test]
fn byte_tokens() {
    assert!(matches!(scalar(ScalarKind::Byte, "ff"), Ok(Scalar::Byte(255))));
    assert!(matches!(scalar(ScalarKind::Byte, "0A"), Ok(Scalar::Byte(10))));
    assert!(matches!(scalar(ScalarKind::Byte, "7f"), Ok(Scalar::Byte(127))));
}

#[test]
fn malformed_byte_tokens_are_expected_byte() {
    for t in ["", "f", "fff", "g0", "0g", " f", "+1"] {
        assert_eq!(kind_of(scalar(ScalarKind::Byte, t)), ErrorKind::ExpectedByte);
    }
}

#[test]
fn variant_tokens() {
    let tags = vec!["0".to_string(), "1".to_string()];
    assert!(matches!(scalar(ScalarKind::Variant(tags.clone()), "1"), Ok(Scalar::Variant(1))));
    assert_eq!(
        kind_of(scalar(ScalarKind::Variant(tags), "2")),
        ErrorKind::Custom("unknown variant".to_string())
    );
}

#[test]
fn string_token_is_taken_verbatim() {
    match scalar(ScalarKind::Str, "libbar>=2.0") {
        Ok(Scalar::Str(s)) => assert_eq!(s, "libbar>=2.0"),
        _ => panic!("expected a string"),
    }
}

#[test]
fn error_with_cause_keeps_kind() {
    let e = Error::new(ErrorKind::ExpectedKey).with_cause("line 3".to_string());
    assert_eq!(e.kind(), &ErrorKind::ExpectedKey);
    assert_eq!(e.cause().map(|c| c.as_str()), Some("line 3"));
    let c = Error::custom("bad".to_string());
    assert_eq!(c.kind(), &ErrorKind::Custom("bad".to_string()));
    assert!(c.cause().is_none());
}

#[test]
fn sections_round_trip_through_text() {
    let text = "%NAME%\npkgname\n\n%DEPENDS%\nlibfoo\nlibbar>=2.0\n\n%EMPTY%\n\n";
    let ss = parse_text(text).unwrap();
    assert_eq!(ss.len(), 3);
    let again = encode_to_string(&ss);
    assert_eq!(again, text);
    let back = parse_text(&again).unwrap();
    assert_eq!(back.len(), ss.len());
    for (a, b) in back.iter().zip(ss.iter()) {
        assert_eq!(a.key, b.key);
        assert_eq!(a.values, b.values);
    }
}

#[test]
fn loose_text_reencodes_canonically() {
    let text = "\n\n%A%\nx\n\n\n%B%\ny\nz";
    let ss = parse_text(text).unwrap();
    let canonical = encode_to_string(&ss);
    assert_eq!(canonical, "%A%\nx\n\n%B%\ny\nz\n\n");
    let back = parse_text(&canonical).unwrap();
    assert_eq!(back[1].values, vec![vec!['y'], vec!['z']]);
}
