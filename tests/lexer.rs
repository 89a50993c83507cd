use reflector::lexer::{
    classify_chars, lex_classified, lex_string, string_slice_to_token_type, CharClass, Token,
    TokenType,
};

fn lex(s: &str) -> Vec<Token> {
    lex_string(&s.to_string())
}

fn kinds(tokens: &[Token]) -> Vec<TokenType> {
    tokens.iter().map(|t| t.token_type).collect()
}

fn lexemes(tokens: &[Token]) -> Vec<Option<String>> {
    tokens.iter().map(|t| t.string_view.clone()).collect()
}

#[test]
fn single_left_brace() {
    assert_eq!(kinds(&lex("{")), vec![TokenType::LeftBrace]);
}

#[test]
fn double_left_brace_is_one_token() {
    assert_eq!(kinds(&lex("{{")), vec![TokenType::DoubleLeftBrace]);
}

#[test]
fn right_braces_single_and_double() {
    assert_eq!(kinds(&lex("}")), vec![TokenType::RightBrace]);
    assert_eq!(kinds(&lex("}}")), vec![TokenType::DoubleRightBrace]);
}

#[test]
fn plus_minus_equals_single_and_double() {
    assert_eq!(kinds(&lex("+")), vec![TokenType::Plus]);
    assert_eq!(kinds(&lex("++")), vec![TokenType::PlusPlus]);
    assert_eq!(kinds(&lex("-")), vec![TokenType::Minus]);
    assert_eq!(kinds(&lex("--")), vec![TokenType::MinusMinus]);
    assert_eq!(kinds(&lex("=")), vec![TokenType::Equals]);
    assert_eq!(kinds(&lex("==")), vec![TokenType::EqualsEquals]);
}

#[test]
fn three_braces_pair_then_single() {
    assert_eq!(
        kinds(&lex("{{{")),
        vec![TokenType::DoubleLeftBrace, TokenType::LeftBrace]
    );
    assert_eq!(kinds(&lex("+++")), vec![TokenType::PlusPlus, TokenType::Plus]);
}

#[test]
fn mixed_pairs_do_not_combine() {
    assert_eq!(
        kinds(&lex("{}+-=")),
        vec![
            TokenType::LeftBrace,
            TokenType::RightBrace,
            TokenType::Plus,
            TokenType::Minus,
            TokenType::Equals
        ]
    );
}

#[test]
fn single_character_punctuation() {
    assert_eq!(
        kinds(&lex("#()[];,.*")),
        vec![
            TokenType::Pound,
            TokenType::LeftParen,
            TokenType::RightParen,
            TokenType::LeftBracket,
            TokenType::RightBracket,
            TokenType::Semicolon,
            TokenType::Comma,
            TokenType::Period,
            TokenType::Asterisk
        ]
    );
    assert_eq!(lexemes(&lex("#;")), vec![None, None]);
}

#[test]
fn keyword_uniform() {
    let tokens = lex("uniform");
    assert_eq!(kinds(&tokens), vec![TokenType::Uniform]);
    assert_eq!(lexemes(&tokens), vec![Some("uniform".to_string())]);
}

#[test]
fn keyword_prefix_is_text() {
    let tokens = lex("uniformX");
    assert_eq!(kinds(&tokens), vec![TokenType::Text]);
    assert_eq!(lexemes(&tokens), vec![Some("uniformX".to_string())]);
}

#[test]
fn keywords_are_case_sensitive() {
    assert_eq!(kinds(&lex("Uniform")), vec![TokenType::Text]);
    assert_eq!(kinds(&lex("version")), vec![TokenType::Version]);
    assert_eq!(kinds(&lex("VERSION")), vec![TokenType::DirectiveVersion]);
}

#[test]
fn keyword_table_entries() {
    let table = [
        ("in", TokenType::In),
        ("out", TokenType::Out),
        ("version", TokenType::Version),
        ("void", TokenType::Void),
        ("uniform", TokenType::Uniform),
        ("sampler", TokenType::Sampler),
        ("sampler2D", TokenType::Sampler2d),
        ("texture2D", TokenType::Texture2d),
        ("image2D", TokenType::Image2d),
        ("float", TokenType::Float),
        ("uint", TokenType::Uint),
        ("vec2", TokenType::Vec2),
        ("vec3", TokenType::Vec3),
        ("vec4", TokenType::Vec4),
        ("mat2", TokenType::Mat2),
        ("mat3", TokenType::Mat3),
        ("mat4", TokenType::Mat4),
        ("VERSION", TokenType::DirectiveVersion),
        ("LOCATION", TokenType::DirectiveLocation),
        ("SET_BINDING", TokenType::DirectiveSetBinding),
        ("PUSH_CONSTANT", TokenType::DirectivePushConstant),
        ("RATE_VERTEX", TokenType::RateVertex),
        ("RATE_INSTANCE", TokenType::RateInstance),
        ("BINDING", TokenType::Binding),
        ("OFFSET", TokenType::Offset),
        ("TIGHTLY_PACKED", TokenType::TightlyPacked),
        ("BUFFER_LABEL", TokenType::BufferLabel),
    ];
    for (word, kind) in table.iter() {
        assert_eq!(string_slice_to_token_type(word), *kind);
        let tokens = lex(word);
        assert_eq!(kinds(&tokens), vec![*kind]);
        assert_eq!(lexemes(&tokens), vec![Some(word.to_string())]);
    }
    assert_eq!(string_slice_to_token_type("main"), TokenType::Text);
    assert_eq!(string_slice_to_token_type(""), TokenType::Text);
    assert_eq!(string_slice_to_token_type("vec5"), TokenType::Text);
}

#[test]
fn comment_is_skipped() {
    let tokens = lex("a // b\nc");
    assert_eq!(kinds(&tokens), vec![TokenType::Text, TokenType::Text]);
    assert_eq!(
        lexemes(&tokens),
        vec![Some("a".to_string()), Some("c".to_string())]
    );
}

#[test]
fn comment_at_end_of_input() {
    let tokens = lex("x // trailing { } ;");
    assert_eq!(kinds(&tokens), vec![TokenType::Text]);
    assert_eq!(kinds(&lex("//")), vec![]);
}

#[test]
fn lone_slash() {
    assert_eq!(
        kinds(&lex("a / b")),
        vec![TokenType::Text, TokenType::Slash, TokenType::Text]
    );
    assert_eq!(kinds(&lex("/")), vec![TokenType::Slash]);
}

#[test]
fn empty_and_whitespace_only_input() {
    assert_eq!(kinds(&lex("")), vec![]);
    assert_eq!(kinds(&lex("  \t\r\n  ")), vec![]);
}

#[test]
fn trailing_and_embedded_whitespace_terminates() {
    let tokens = lex("  void   main  \n\n");
    assert_eq!(kinds(&tokens), vec![TokenType::Void, TokenType::Text]);
}

#[test]
fn unicode_whitespace_is_discarded() {
    let tokens = lex("a\u{a0}b\u{2003}c");
    assert_eq!(
        lexemes(&tokens),
        vec![
            Some("a".to_string()),
            Some("b".to_string()),
            Some("c".to_string())
        ]
    );
}

#[test]
fn unicode_letters_and_digits_form_words() {
    let tokens = lex("café_2 450");
    assert_eq!(
        lexemes(&tokens),
        vec![Some("café_2".to_string()), Some("450".to_string())]
    );
    assert_eq!(kinds(&tokens), vec![TokenType::Text, TokenType::Text]);
}

#[test]
fn unknown_symbol_is_one_text_token() {
    let tokens = lex("a<b");
    assert_eq!(
        kinds(&tokens),
        vec![TokenType::Text, TokenType::Text, TokenType::Text]
    );
    assert_eq!(
        lexemes(&tokens),
        vec![
            Some("a".to_string()),
            Some("<".to_string()),
            Some("b".to_string())
        ]
    );
}

#[test]
fn lexing_twice_gives_same_tokens() {
    let source = "#VERSION 450\nlayout(vec4 x) { y++ == z; } // done";
    let first = lex(source);
    let second = lex(source);
    assert_eq!(kinds(&first), kinds(&second));
    assert_eq!(lexemes(&first), lexemes(&second));
    assert_eq!(first.len(), 15);
}

#[test]
fn directive_line() {
    let tokens = lex("#SET_BINDING 0 1\nuniform sampler2D tex;");
    assert_eq!(
        kinds(&tokens),
        vec![
            TokenType::Pound,
            TokenType::DirectiveSetBinding,
            TokenType::Text,
            TokenType::Text,
            TokenType::Uniform,
            TokenType::Sampler2d,
            TokenType::Text,
            TokenType::Semicolon
        ]
    );
}

#[test]
fn token_constructors() {
    let t = Token::new(TokenType::Comma);
    assert_eq!(t.token_type, TokenType::Comma);
    assert_eq!(t.string_view, None);
    let w = Token::new_text_token(TokenType::Text, "abc".to_string());
    assert_eq!(w.token_type, TokenType::Text);
    assert_eq!(w.string_view, Some("abc".to_string()));
}

#[test]
fn classified_lexing_follows_given_classes() {
    let plain = CharClass { whitespace: false, alphanumeric: false };
    let space = CharClass { whitespace: true, alphanumeric: false };
    let letter = CharClass { whitespace: false, alphanumeric: true };
    // 'x' told to be whitespace is discarded; '!' told to be a letter joins the word
    let tokens = lex_classified("ax!{", &vec![letter, space, letter, plain]);
    assert_eq!(
        kinds(&tokens),
        vec![TokenType::Text, TokenType::Text, TokenType::LeftBrace]
    );
    assert_eq!(
        lexemes(&tokens),
        vec![Some("a".to_string()), Some("!".to_string()), None]
    );
    assert_eq!(classify_chars("a \u{a0}_9"), vec![letter, space, space, plain, letter]);
}
