use json_fixer::Formatter;
use json_fixer::JsonFormatError;
use json_fixer::Position;
use json_fixer::JsonEntryValue;
use json_fixer::JsonFixer;
use json_fixer::JsonFixerConfig;
use json_fixer::JsonFixerError;
use json_fixer::JsonFormatter;
use json_fixer::JsonTokenizer;
use json_fixer::JsonValue;
use json_fixer::SyntaxError;
use json_fixer::Token;

#[test]
fn test_idempotence_on_strict_inputs() {
    let cases = vec![
        r#"{"name":"John","age":30}"#,
        r#"[1,2,3]"#,
        r#"{"a":{"b":[true,false,null]}}"#,
        r#""plain""#,
        r#"-1.23e+4"#,
    ];
    for input in cases {
        let once = JsonFixer::fix(input).unwrap();
        let twice = JsonFixer::fix(&once).unwrap();
        assert_eq!(twice, once);
    }
}

#[test]
fn test_defect_absorption_comma_runs() {
    for k in 0..6 {
        let commas = ",".repeat(k);
        let arr = format!("[1,2,3{}]", commas);
        assert_eq!(JsonFixer::fix(&arr).unwrap(), "[1,2,3]");
        let obj = format!("{}\"a\":1{}{}", "{", commas, "}");
        assert_eq!(JsonFixer::fix(&obj).unwrap(), r#"{"a":1}"#);
    }
}

#[test]
fn test_key_normalization() {
    let cases = vec![
        (r#"{ident_key:null}"#, r#"{"ident_key":null}"#),
        (r#"{'single':true}"#, r#"{"single":true}"#),
        (r#"{"double":1e5}"#, r#"{"double":1e5}"#),
        (r#"{k1:0.5}"#, r#"{"k1":0.5}"#),
        (r#"{'a b':1}"#, r#"{"a b":1}"#),
        (r#"{'':1}"#, r#"{"":1}"#),
    ];
    for (input, expected) in cases {
        assert_eq!(JsonFixer::fix(input).unwrap(), expected);
    }
}

#[test]
fn test_sort_keys_pretty_composition() {
    let input = r#"{c:3, a:1, b:2}"#;
    let mut config = JsonFixerConfig::default();
    config.sort_keys = true;
    config.beautify = true;
    config.indent_size = 4;
    let expected = "{\n    \"a\": 1,\n    \"b\": 2,\n    \"c\": 3\n}";
    assert_eq!(JsonFixer::fix_with_config(input, config).unwrap(), expected);
}

#[test]
fn test_sort_keys_compact_stable_duplicates() {
    let input = r#"{b:2, a:1, b:1}"#;
    let mut config = JsonFixerConfig::default();
    config.sort_keys = true;
    assert_eq!(
        JsonFixer::fix_with_config(input, config).unwrap(),
        r#"{"a":1,"b":2,"b":1}"#
    );
}

#[test]
fn test_unicode_escapes() {
    assert_eq!(JsonFixer::fix(r#""A""#).unwrap(), r#""A""#);
    // an invalid escape is dropped silently, its four characters consumed
    assert_eq!(JsonFixer::fix(r#""x\uZZZZy""#).unwrap(), r#""xy""#);
}

#[test]
fn test_error_unexpected_character() {
    let result = JsonFixer::fix("@");
    assert!(matches!(
        result,
        Err(JsonFixerError::Syntax(SyntaxError::UnexpectedCharacter('@', _)))
    ));
    let result2 = JsonFixer::fix("[@]");
    assert!(matches!(
        result2,
        Err(JsonFixerError::Syntax(SyntaxError::UnexpectedCharacter('@', _)))
    ));
}

#[test]
fn test_fix_with_space_between_preset() {
    let input = r#"{name:"John",age:30}"#;
    assert_eq!(
        JsonFixer::fix_with_space_between(input).unwrap(),
        r#"{ "name": "John", "age": 30 }"#
    );
}

#[test]
fn test_fix_pretty_preset() {
    let input = r#"{name:"John"}"#;
    assert_eq!(
        JsonFixer::fix_pretty(input).unwrap(),
        "{\n    \"name\": \"John\"\n}"
    );
    // the preset equals fixing with beautify and a four-space indent
    let mut config = JsonFixerConfig::default();
    config.beautify = true;
    config.indent_size = 4;
    assert_eq!(
        JsonFixer::fix_pretty(input).unwrap(),
        JsonFixer::fix_with_config(input, config).unwrap()
    );
}

#[test]
fn test_trailing_token_rejected() {
    assert!(matches!(
        JsonFixer::fix("{}x"),
        Err(JsonFixerError::Syntax(SyntaxError::UnexpectedToken(_, _)))
    ));
    assert!(matches!(
        JsonFixer::fix("[1],"),
        Err(JsonFixerError::Syntax(SyntaxError::UnexpectedToken(_, _)))
    ));
    assert!(matches!(
        JsonFixer::fix("1 2"),
        Err(JsonFixerError::Syntax(SyntaxError::UnexpectedToken(_, _)))
    ));
}

#[test]
fn test_preserve_trailing_whitespace_kept() {
    let mut config = JsonFixerConfig::default();
    config.preserve = true;
    let input = "{   }\n ";
    assert_eq!(JsonFixer::fix_with_config(input, config).unwrap(), "{   }\n ");
    // without preserve the trailing run is dropped
    assert_eq!(JsonFixer::fix(input).unwrap(), "{}");
}

#[test]
fn test_tokenizer_stream() {
    let mut tok = JsonTokenizer::new(r#"{ "a": 1e5 }"#);
    let t1 = tok.next_token().unwrap().unwrap();
    assert!(matches!(t1, Token::LeftBrace(_)));
    assert_eq!(t1.get(), "'{'");
    let t2 = tok.next_token().unwrap().unwrap();
    assert!(matches!(t2, Token::Whitespace(_, _)));
    let t3 = tok.next_token().unwrap().unwrap();
    assert_eq!(t3.get(), "String(a)");
    assert_eq!(t3.pos().line, 1);
    let t4 = tok.next_token().unwrap().unwrap();
    assert_eq!(t4.get(), "':'");
    let t5 = tok.next_token().unwrap().unwrap();
    let t6 = tok.next_token().unwrap().unwrap();
    assert_eq!(t6.get(), "Number(1e5)");
    assert!(matches!(t5, Token::Whitespace(_, _)));
    let t7 = tok.next_token().unwrap().unwrap();
    let t8 = tok.next_token().unwrap().unwrap();
    assert!(matches!(t8, Token::RightBrace(_)));
    assert!(matches!(t7, Token::Whitespace(_, _)));
    assert!(tok.next_token().unwrap().is_none());
}

#[test]
fn test_tokenizer_positions_across_lines() {
    let mut tok = JsonTokenizer::new("[\n1]");
    let t1 = tok.next_token().unwrap().unwrap();
    assert_eq!(t1.pos().line, 1);
    assert_eq!(t1.pos().column, 1);
    let _ws = tok.next_token().unwrap().unwrap();
    let t2 = tok.next_token().unwrap().unwrap();
    assert_eq!(t2.pos().line, 2);
}

#[test]
fn test_formatter_direct() {
    let entry = JsonEntryValue {
        space_bf_key: None,
        key: Some("k".to_string()),
        space_af_key: None,
        space_bf_val: None,
        value: Some(JsonValue::Boolean(true)),
        space_af_val: None,
    };
    let value = JsonValue::Object(vec![entry]);
    let formatter = JsonFormatter;
    let out = formatter.format(&value, &JsonFixerConfig::default()).unwrap();
    assert_eq!(out, r#"{"k":true}"#);
}

#[test]
fn test_entry_getters() {
    let entry = JsonEntryValue {
        space_bf_key: Some("  ".to_string()),
        key: Some("k".to_string()),
        space_af_key: None,
        space_bf_val: Some(" ".to_string()),
        value: Some(JsonValue::Null),
        space_af_val: None,
    };
    assert_eq!(entry.get_sp_bf_key(), "  ");
    assert_eq!(entry.get_key(), "k");
    assert_eq!(entry.get_sp_af_key(), "");
    assert_eq!(entry.get_sp_bf_val(), " ");
    assert_eq!(entry.get_sp_af_val(), "");
    assert!(matches!(entry.get_value(), JsonValue::Null));
}

#[test]
fn test_preserve_trailing_comma_removed() {
    let input = "{  \n                \"key1\": 30,\n            }";
    let expected = "{  \n                \"key1\": 30\n            }";
    let mut config = JsonFixerConfig::default();
    config.preserve = true;
    assert_eq!(JsonFixer::fix_with_config(input, config).unwrap(), expected);
}

#[test]
fn test_preserve_sort_keys() {
    let input = "{ b: 2, a: 1 }";
    let mut config = JsonFixerConfig::default();
    config.preserve = true;
    config.sort_keys = true;
    assert_eq!(
        JsonFixer::fix_with_config(input, config).unwrap(),
        "{ \"a\": 1, \"b\": 2 }"
    );
}

#[test]
fn test_top_level_scalars() {
    assert_eq!(JsonFixer::fix(" true ").unwrap(), "true");
    assert_eq!(JsonFixer::fix("null").unwrap(), "null");
    assert_eq!(JsonFixer::fix(" .5 ").unwrap(), "0.5");
    assert_eq!(JsonFixer::fix("\"s\"").unwrap(), "\"s\"");
}

#[test]
fn test_error_messages() {
    let e = SyntaxError::UnmatchedQuotes(Position { line: 2, column: 7 });
    assert_eq!(e.message(), "Unmatched quotes at line 2, column 7");
    let e2 = JsonFixerError::Syntax(SyntaxError::UnexpectedEndOfInput(Position {
        line: 1,
        column: 14,
    }));
    assert_eq!(e2.message(), "Syntax error: Unexpected end of input at line 1, column 14");
    let e3 = JsonFixerError::SerdeError("bad value".to_string());
    assert_eq!(e3.message(), "Serde error: bad value");
    let e4 = JsonFormatError::LineTooLong { line: 3, length: 120, max: 80 };
    assert_eq!(
        e4.message(),
        "Line 3 is too long of length: 120 \nExpeced max length: 80"
    );
    let e5 = SyntaxError::InvalidNumber("--123".to_string(), Position { line: 1, column: 10 });
    assert_eq!(e5.message(), "Invalid number '--123' at line 1, column 10");
}
