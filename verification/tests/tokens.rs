use yoctojson::TokenType;
use yoctojson::Tokenizer;

#[test]
fn test_read_until() {
    let mut tokenizer = Tokenizer::new(b"{\"key\": 1.001, \"flag\": true, \"x\": 1}".to_vec());
    let r = tokenizer.read_until(&vec![b'"']);
    assert!(r == Some(b"{\"".to_vec()));
}

#[test]
fn test_get_token() {
    let mut tokenizer = Tokenizer::new(b"{\"key\": 1.001, \"flag\": true, \"x\": 1}".to_vec());
    let r = tokenizer.get_token().unwrap();
    assert_eq!(r.token_type, TokenType::CurlyOpen);
    assert_eq!(r.value, b"{".to_vec());
    let rr = tokenizer.get_token().unwrap();
    assert_eq!(rr.token_type, TokenType::StringValue);
    assert_eq!(rr.value, b"\"key\"".to_vec());
    let colon = tokenizer.get_token().unwrap();
    assert_eq!(colon.token_type, TokenType::Colon);
    assert_eq!(colon.value, b":".to_vec());
    let num = tokenizer.get_token().unwrap();
    assert_eq!(num.token_type, TokenType::Number);
    assert_eq!(num.value, b"1.001".to_vec());
    tokenizer.get_token().unwrap();
    tokenizer.get_token().unwrap();
    tokenizer.get_token().unwrap();
    let bool_token = tokenizer.get_token().unwrap();
    assert_eq!(bool_token.token_type, TokenType::Boolean);
    assert_eq!(bool_token.value, b"true".to_vec());
    let comma = tokenizer.get_token().unwrap();
    assert_eq!(comma.token_type, TokenType::Comma);
    assert_eq!(comma.value, b",".to_vec())
}

#[test]
fn test_escape() {
    let mut tokenizer = Tokenizer::new(b"[\"y\no\0c\\\t\"]".to_vec());
    assert_eq!(
        tokenizer.get_token().unwrap().token_type,
        TokenType::ArrayOpen
    );
    let str_token = tokenizer.get_token().unwrap();
    assert_eq!(str_token.token_type, TokenType::StringValue);
    assert_eq!(str_token.value, b"\"y\no\0c\\\t\"".to_vec())
}

#[test]
fn test_unicode_basic() {
    let mut tokenizer = Tokenizer::new("[\"Здравствуйте\"]".as_bytes().to_vec());
    assert_eq!(
        tokenizer.get_token().unwrap().token_type,
        TokenType::ArrayOpen
    );
    let str_token = tokenizer.get_token().unwrap();
    assert_eq!(str_token.token_type, TokenType::StringValue);
    assert_eq!(str_token.value, "\"Здравствуйте\"".as_bytes().to_vec())
}

#[test]
fn test_unicode_keys_values() {
    let mut tokenizer = Tokenizer::new("{\"Здравствуйте\": [\"Здравствуйте\"]}".as_bytes().to_vec());
    assert_eq!(
        tokenizer.get_token().unwrap().token_type,
        TokenType::CurlyOpen
    );
    let str_token = tokenizer.get_token().unwrap();
    assert_eq!(str_token.token_type, TokenType::StringValue);
    assert_eq!(str_token.value, "\"Здравствуйте\"".as_bytes().to_vec())
}

#[test]
fn test_structural_characters_only() {
    let mut tokenizer = Tokenizer::new(b" { } [\n] : , ".to_vec());
    let expected = [
        (TokenType::CurlyOpen, b"{"),
        (TokenType::CurlyClose, b"}"),
        (TokenType::ArrayOpen, b"["),
        (TokenType::ArrayClose, b"]"),
        (TokenType::Colon, b":"),
        (TokenType::Comma, b","),
    ];
    for (kind, text) in expected.iter() {
        let token = tokenizer.get_token().unwrap();
        assert_eq!(token.token_type, *kind);
        assert_eq!(token.value, text.to_vec());
    }
    assert!(tokenizer.get_token().is_none());
}

#[test]
fn test_escaped_quote_roundtrip() {
    let mut tokenizer = Tokenizer::new(b"\"a\\\"b\"".to_vec());
    let token = tokenizer.get_token().unwrap();
    assert_eq!(token.token_type, TokenType::StringValue);
    assert_eq!(token.value, b"\"a\\\"b\"".to_vec());
    assert!(tokenizer.get_token().is_none());
}

#[test]
fn test_boolean_true() {
    let mut tokenizer = Tokenizer::new(b"true".to_vec());
    let token = tokenizer.get_token().unwrap();
    assert_eq!(token.token_type, TokenType::Boolean);
    assert_eq!(token.value, b"true".to_vec());
    assert!(tokenizer.get_token().is_none());
}

#[test]
fn test_boolean_false() {
    let mut tokenizer = Tokenizer::new(b"false".to_vec());
    let token = tokenizer.get_token().unwrap();
    assert_eq!(token.token_type, TokenType::Boolean);
    assert_eq!(token.value, b"false".to_vec());
    assert!(tokenizer.get_token().is_none());
}

#[test]
fn test_truncated_boolean_yields_no_token() {
    let mut tokenizer = Tokenizer::new(b"tru".to_vec());
    assert!(tokenizer.get_token().is_none());
}

#[test]
fn test_null_literal() {
    let mut tokenizer = Tokenizer::new(b"null".to_vec());
    let token = tokenizer.get_token().unwrap();
    assert_eq!(token.token_type, TokenType::Null);
    assert_eq!(token.value, b"null".to_vec());
}

#[test]
fn test_truncated_null_yields_no_token() {
    let mut tokenizer = Tokenizer::new(b"nul".to_vec());
    assert!(tokenizer.get_token().is_none());
}

#[test]
fn test_negative_decimal_number() {
    let mut tokenizer = Tokenizer::new(b"-12.5".to_vec());
    let token = tokenizer.get_token().unwrap();
    assert_eq!(token.token_type, TokenType::Number);
    assert_eq!(token.value, b"-12.5".to_vec());
    assert!(tokenizer.get_token().is_none());
}

#[test]
fn test_malformed_number_accepted_greedily() {
    let mut tokenizer = Tokenizer::new(b"1.2.3".to_vec());
    let token = tokenizer.get_token().unwrap();
    assert_eq!(token.token_type, TokenType::Number);
    assert_eq!(token.value, b"1.2.3".to_vec());
    assert!(tokenizer.get_token().is_none());
}

#[test]
fn test_single_quoted_string() {
    let mut tokenizer = Tokenizer::new(b"'abc'".to_vec());
    let token = tokenizer.get_token().unwrap();
    assert_eq!(token.token_type, TokenType::StringValue);
    assert_eq!(token.value, b"'abc'".to_vec());
}

#[test]
fn test_unterminated_string_yields_no_token() {
    let mut tokenizer = Tokenizer::new(b"\"abc".to_vec());
    assert!(tokenizer.get_token().is_none());
}

#[test]
fn test_unrecognized_byte_yields_no_token() {
    let mut tokenizer = Tokenizer::new(b"@".to_vec());
    assert!(tokenizer.get_token().is_none());
}

#[test]
fn test_lone_backslash_yields_no_token() {
    let mut tokenizer = Tokenizer::new(b"\\true".to_vec());
    assert!(tokenizer.get_token().is_none());
}

#[test]
fn test_tab_is_not_token_separating_whitespace() {
    let mut tokenizer = Tokenizer::new(b"\t{".to_vec());
    assert!(tokenizer.get_token().is_none());
}

#[test]
fn test_empty_input() {
    let mut tokenizer = Tokenizer::new(Vec::new());
    assert!(tokenizer.get_token().is_none());
}

#[test]
fn test_whitespace_only_input() {
    let mut tokenizer = Tokenizer::new(b"  \n \n ".to_vec());
    assert!(tokenizer.get_token().is_none());
}

#[test]
fn test_read_while_leaves_first_nonmatching_byte() {
    let mut tokenizer = Tokenizer::new(b"120x".to_vec());
    let digits = tokenizer.read_while(&vec![b'0', b'1', b'2']);
    assert_eq!(digits, b"120".to_vec());
    assert!(tokenizer.get_token().is_none());
}

#[test]
fn test_escape_decoding_table() {
    // \n, \r, \t, \0 and \\ decode; an unknown escape passes through with
    // its backslash kept.
    let mut tokenizer = Tokenizer::new(b"\"\\n\\r\\t\\0\\\\\\q\"".to_vec());
    let token = tokenizer.get_token().unwrap();
    assert_eq!(token.token_type, TokenType::StringValue);
    assert_eq!(token.value, b"\"\\\n\\\r\\\t\\\0\\\\\\q\"".to_vec());
}
