use opam_file_rs::lexer::{
    get_value_bool, get_value_env, get_value_isize, get_value_pfxop, get_value_relop,
    get_value_string, lex, lex_escape, LexErrorKind, TokenKind,
};
use opam_file_rs::value::{EnvUpdateOpKind, PfxOpKind, RelOpKind};

fn kinds(input: &str) -> Vec<TokenKind> {
    lex(input).unwrap().into_iter().map(|t| t.0).collect()
}

#[test]
fn check_lex_escape_n() {
    assert_eq!(
        lex_escape(&"\\n".chars().collect::<Vec<_>>(), 0),
        Ok(("\n".to_string(), 2))
    )
}

#[test]
fn check_lex_escape_hex_unicode() {
    assert_eq!(
        lex_escape(&"\\x4E".chars().collect::<Vec<_>>(), 0),
        Ok(("N".to_string(), 4))
    )
}

#[test]
fn check_lex_escape_digit_unicode() {
    assert_eq!(
        lex_escape(&"\\078".chars().collect::<Vec<_>>(), 0),
        Ok(("N".to_string(), 4))
    )
}

#[test]
fn escape_simple_characters() {
    let cases = [("\\\\", "\\"), ("\\\"", "\""), ("\\'", "'"), ("\\r", "\r"), ("\\t", "\t"), ("\\b", "\u{8}")];
    for (src, want) in cases {
        assert_eq!(
            lex_escape(&src.chars().collect::<Vec<_>>(), 0),
            Ok((want.to_string(), 2))
        );
    }
}

#[test]
fn escape_errors() {
    let v = |s: &str| s.chars().collect::<Vec<_>>();
    assert_eq!(lex_escape(&v("\\q"), 0), Err((LexErrorKind::InvalidChar('q'), 1, 2)));
    assert_eq!(lex_escape(&v("\\x4"), 0), Err((LexErrorKind::InvalidChar('x'), 1, 2)));
    assert_eq!(lex_escape(&v("\\999"), 0), Err((LexErrorKind::InvalidChar('9'), 1, 2)));
    assert_eq!(lex_escape(&v("\\"), 0), Err((LexErrorKind::Eof, 1, 2)));
}

#[test]
fn escapes_inside_string() {
    assert_eq!(
        lex("\"\\n\\x4E\\078\"").unwrap(),
        vec![
            (TokenKind::STRING("\nNN".to_string()), 0, 12),
            (TokenKind::EOF, 12, 13),
        ]
    );
}

#[test]
fn triple_quoted_strings() {
    assert_eq!(
        kinds("\"\"\"a \"\" b\"\"\""),
        vec![TokenKind::STRING("a \"\" b".to_string()), TokenKind::EOF]
    );
    assert_eq!(
        kinds("\"\"\"a \" b\"\"\""),
        vec![TokenKind::STRING("a \" b".to_string()), TokenKind::EOF]
    );
    assert_eq!(lex("\"\"\"abc").unwrap_err(), (LexErrorKind::Eof, 0, 1));
}

#[test]
fn operators_longest_match() {
    assert_eq!(
        lex("=+=").unwrap(),
        vec![
            (TokenKind::ENVOP(EnvUpdateOpKind::EqPlusEq), 0, 3),
            (TokenKind::EOF, 3, 4),
        ]
    );
    assert_eq!(
        kinds(":= : =: =+ += != ! >= > <= < ~ = & | ?"),
        vec![
            TokenKind::ENVOP(EnvUpdateOpKind::ColonEq),
            TokenKind::COLON,
            TokenKind::ENVOP(EnvUpdateOpKind::EqColon),
            TokenKind::ENVOP(EnvUpdateOpKind::EqPlus),
            TokenKind::ENVOP(EnvUpdateOpKind::PlusEq),
            TokenKind::RELOP(RelOpKind::Neq),
            TokenKind::PFXOP(PfxOpKind::Not),
            TokenKind::RELOP(RelOpKind::Geq),
            TokenKind::RELOP(RelOpKind::Gt),
            TokenKind::RELOP(RelOpKind::Leq),
            TokenKind::RELOP(RelOpKind::Lt),
            TokenKind::RELOP(RelOpKind::Sem),
            TokenKind::RELOP(RelOpKind::Eq),
            TokenKind::AND,
            TokenKind::OR,
            TokenKind::PFXOP(PfxOpKind::Defined),
            TokenKind::EOF,
        ]
    );
}

#[test]
fn lone_plus_is_invalid() {
    assert_eq!(lex("a += b + c"), Err((LexErrorKind::InvalidChar('+'), 7, 8)));
}

#[test]
fn lone_minus_and_unknown_chars_are_invalid() {
    assert_eq!(lex("- 1"), Err((LexErrorKind::InvalidChar('-'), 0, 1)));
    assert_eq!(lex("x $"), Err((LexErrorKind::InvalidChar('$'), 2, 3)));
}

#[test]
fn unterminated_string_is_eof() {
    assert_eq!(lex("x: \"abc"), Err((LexErrorKind::Eof, 3, 4)));
}

#[test]
fn nested_block_comments() {
    assert_eq!(
        lex("(* a (* b *) c *) x").unwrap(),
        vec![
            (TokenKind::IDENT("x".to_string()), 18, 19),
            (TokenKind::EOF, 19, 20),
        ]
    );
    assert_eq!(lex("(* (* x *)").unwrap(), vec![(TokenKind::EOF, 10, 11)]);
    assert_eq!(kinds("(* (* x *) *) )"), vec![TokenKind::RPAR, TokenKind::EOF]);
}

#[test]
fn line_comments_and_blanks() {
    assert_eq!(
        lex("# note\n\t\r x").unwrap(),
        vec![
            (TokenKind::IDENT("x".to_string()), 10, 11),
            (TokenKind::EOF, 11, 12),
        ]
    );
    assert_eq!(lex("").unwrap(), vec![(TokenKind::EOF, 0, 1)]);
}

#[test]
fn integers_and_words() {
    assert_eq!(
        lex("-12 34 true false opam-version_2").unwrap(),
        vec![
            (TokenKind::INT(-12), 0, 3),
            (TokenKind::INT(34), 4, 6),
            (TokenKind::BOOL(true), 7, 11),
            (TokenKind::BOOL(false), 12, 17),
            (TokenKind::IDENT("opam-version_2".to_string()), 18, 32),
            (TokenKind::EOF, 32, 33),
        ]
    );
    assert_eq!(
        kinds("-9223372036854775808 9223372036854775807"),
        vec![TokenKind::INT(isize::MIN), TokenKind::INT(isize::MAX), TokenKind::EOF]
    );
    assert_eq!(
        lex("9223372036854775808"),
        Err((LexErrorKind::InvalidChar('9'), 0, 1))
    );
}

#[test]
fn offsets_count_characters() {
    assert_eq!(
        lex("\"é\" x").unwrap(),
        vec![
            (TokenKind::STRING("é".to_string()), 0, 3),
            (TokenKind::IDENT("x".to_string()), 4, 5),
            (TokenKind::EOF, 5, 6),
        ]
    );
}

#[test]
fn token_getters() {
    assert_eq!(get_value_bool(TokenKind::BOOL(true)), Some(true));
    assert_eq!(get_value_bool(TokenKind::INT(1)), None);
    assert_eq!(get_value_string(TokenKind::STRING("s".to_string())), Some("s".to_string()));
    assert_eq!(get_value_string(TokenKind::IDENT("i".to_string())), Some("i".to_string()));
    assert_eq!(get_value_string(TokenKind::EOF), None);
    assert_eq!(get_value_isize(TokenKind::INT(-4)), Some(-4));
    assert_eq!(get_value_isize(TokenKind::COLON), None);
    assert_eq!(get_value_pfxop(TokenKind::PFXOP(PfxOpKind::Not)), Some(PfxOpKind::Not));
    assert_eq!(get_value_pfxop(TokenKind::AND), None);
    assert_eq!(get_value_relop(TokenKind::RELOP(RelOpKind::Lt)), Some(RelOpKind::Lt));
    assert_eq!(get_value_relop(TokenKind::OR), None);
    assert_eq!(
        get_value_env(TokenKind::ENVOP(EnvUpdateOpKind::EqColon)),
        Some(EnvUpdateOpKind::EqColon)
    );
    assert_eq!(get_value_env(TokenKind::LBRACE), None);
}
