use nyx_parser::{
    Base, FloatExponent, FloatLiteral, FloatSuffix, IndentLexer, IntegerLiteral, IntegerSuffix, Lexer,
    Token,
};

fn lexer_test_helper(input: &str, expected_tokens: Vec<Token>) {
    let mut lex = Lexer::new(input);
    for expected_token in expected_tokens {
        assert_eq!(lex.next_token().unwrap().unwrap(), expected_token);
    }
    assert_eq!(lex.next_token(), None); // Ensure no more tokens
}

// --- Simple Tests ---

#[test]
fn test_keywords() {
    lexer_test_helper(
        "fn let mut const type struct union interface ext impl true false ok raw super if else for while break continue match return mutable usize Self in",
        vec![
            Token::Fn,
            Token::Let,
            Token::Mut,
            Token::Const,
            Token::Type,
            Token::Struct,
            Token::Union,
            Token::Interface,
            Token::Ext,
            Token::Impl,
            Token::True,
            Token::False,
            Token::OkLiteral,
            Token::Raw,
            Token::Super,
            Token::If,
            Token::Else,
            Token::For,
            Token::While,
            Token::Break,
            Token::Continue,
            Token::Match,
            Token::Return,
            Token::Mutable,
            Token::USize,
            Token::SelfKeyword,
            Token::In,
        ],
    );
}

#[test]
fn test_primitive_types() {
    lexer_test_helper(
        "u8 u16 u32 u64 i8 i16 i32 i64 f32 f64 bool",
        vec![
            Token::U8,
            Token::U16,
            Token::U32,
            Token::U64,
            Token::I8,
            Token::I16,
            Token::I32,
            Token::I64,
            Token::F32,
            Token::F64,
            Token::Bool,
        ],
    );
}

#[test]
fn test_operators() {
    lexer_test_helper(
        "+ - * / % == != < > <= >= && || ! & | ^ ~ << >> = += -= *= /= %= &= |= ^= <<= >>=",
        vec![
            Token::Plus,
            Token::Minus,
            Token::Star,
            Token::Slash,
            Token::Percent,
            Token::EqEq,
            Token::Ne,
            Token::Lt,
            Token::Gt,
            Token::Le,
            Token::Ge,
            Token::AndAnd,
            Token::OrOr,
            Token::Bang,
            Token::And,
            Token::Or,
            Token::Caret,
            Token::Tilde,
            Token::Shl,
            Token::Shr,
            Token::Eq,
            Token::PlusEq,
            Token::MinusEq,
            Token::StarEq,
            Token::SlashEq,
            Token::PercentEq,
            Token::AndEq,
            Token::OrEq,
            Token::CaretEq,
            Token::ShlEq,
            Token::ShrEq,
        ],
    );
}

#[test]
fn test_delimiters_and_punctuation() {
    lexer_test_helper(
        "() {} [] : ; , . ->",
        vec![
            Token::LParen,
            Token::RParen,
            Token::LBrace,
            Token::RBrace,
            Token::LBracket,
            Token::RBracket,
            Token::Colon,
            Token::Semicolon,
            Token::Comma,
            Token::Dot,
            Token::Arrow,
        ],
    );
}

#[test]
fn test_identifiers_and_underscore() {
    lexer_test_helper(
        "myVar _ another_var _123 var_name_long _leading_underscore",
        vec![
            Token::Ident("myVar".to_string()),
            Token::Underscore,
            Token::Ident("another_var".to_string()),
            Token::Ident("_123".to_string()),
            Token::Ident("var_name_long".to_string()),
            Token::Ident("_leading_underscore".to_string()),
        ],
    );
}

// --- Complex Tests (Numeric Literals with Suffixes) ---

#[test]
fn test_integer_literals_with_suffixes() {
    lexer_test_helper(
        "123u8 0b101u16 0o77u32 0xAFu64 10i8 0b11i16 0o12i32 0xFFi64 5usize",
        vec![
            Token::IntegerLiteral(
                IntegerLiteral::builder()
                    .base(Base::Decimal)
                    .digits("123".to_string())
                    .suffix(Some(IntegerSuffix::U8))
                    .build()
                    .unwrap(),
            ),
            Token::IntegerLiteral(
                IntegerLiteral::builder()
                    .base(Base::Binary)
                    .digits("101".to_string())
                    .suffix(Some(IntegerSuffix::U16))
                    .build()
                    .unwrap(),
            ),
            Token::IntegerLiteral(
                IntegerLiteral::builder()
                    .base(Base::Octal)
                    .digits("77".to_string())
                    .suffix(Some(IntegerSuffix::U32))
                    .build()
                    .unwrap(),
            ),
            Token::IntegerLiteral(
                IntegerLiteral::builder()
                    .base(Base::Hex)
                    .digits("AF".to_string())
                    .suffix(Some(IntegerSuffix::U64))
                    .build()
                    .unwrap(),
            ),
            Token::IntegerLiteral(
                IntegerLiteral::builder()
                    .base(Base::Decimal)
                    .digits("10".to_string())
                    .suffix(Some(IntegerSuffix::I8))
                    .build()
                    .unwrap(),
            ),
            Token::IntegerLiteral(
                IntegerLiteral::builder()
                    .base(Base::Binary)
                    .digits("11".to_string())
                    .suffix(Some(IntegerSuffix::I16))
                    .build()
                    .unwrap(),
            ),
            Token::IntegerLiteral(
                IntegerLiteral::builder()
                    .base(Base::Octal)
                    .digits("12".to_string())
                    .suffix(Some(IntegerSuffix::I32))
                    .build()
                    .unwrap(),
            ),
            Token::IntegerLiteral(
                IntegerLiteral::builder()
                    .base(Base::Hex)
                    .digits("FF".to_string())
                    .suffix(Some(IntegerSuffix::I64))
                    .build()
                    .unwrap(),
            ),
            Token::IntegerLiteral(
                IntegerLiteral::builder()
                    .base(Base::Decimal)
                    .digits("5".to_string())
                    .suffix(Some(IntegerSuffix::USize))
                    .build()
                    .unwrap(),
            ),
        ],
    );
    lexer_test_helper(
        "1_000u32 0b1_0u8 0o_7_7u16 0x_AF_u64", // Underscores in numbers
        vec![
            Token::IntegerLiteral(
                IntegerLiteral::builder()
                    .base(Base::Decimal)
                    .digits("1000".to_string())
                    .suffix(Some(IntegerSuffix::U32))
                    .build()
                    .unwrap(),
            ),
            Token::IntegerLiteral(
                IntegerLiteral::builder()
                    .base(Base::Binary)
                    .digits("10".to_string())
                    .suffix(Some(IntegerSuffix::U8))
                    .build()
                    .unwrap(),
            ),
            Token::IntegerLiteral(
                IntegerLiteral::builder()
                    .base(Base::Octal)
                    .digits("77".to_string())
                    .suffix(Some(IntegerSuffix::U16))
                    .build()
                    .unwrap(),
            ),
            Token::IntegerLiteral(
                IntegerLiteral::builder()
                    .base(Base::Hex)
                    .digits("AF".to_string())
                    .suffix(Some(IntegerSuffix::U64))
                    .build()
                    .unwrap(),
            ),
        ],
    );
}

#[test]
fn test_float_literals_with_suffixes() {
    lexer_test_helper(
        "3.14f32 1.0e-5f64 2f32 2.f32", // Note: 2f32 might be `2` (Integer) followed by `f32` (Ident)
        vec![
            Token::FloatLiteral(
                FloatLiteral::builder()
                    .digits("3.14".to_string())
                    .exponent(None)
                    .suffix(Some(FloatSuffix::F32))
                    .build()
                    .unwrap(),
            ),
            Token::FloatLiteral(
                FloatLiteral::builder()
                    .digits("1.0".to_string())
                    .exponent(Some(FloatExponent::Negative(5)))
                    .suffix(Some(FloatSuffix::F64))
                    .build()
                    .unwrap(),
            ),
            Token::IntegerLiteral(
                IntegerLiteral::builder()
                    .base(Base::Decimal)
                    .digits("2".to_string())
                    .suffix(None)
                    .build()
                    .unwrap(),
            ),
            Token::F32,
            Token::IntegerLiteral(
                IntegerLiteral::builder()
                    .base(Base::Decimal)
                    .digits("2".to_string())
                    .suffix(None)
                    .build()
                    .unwrap(),
            ),
            Token::Dot,
            Token::F32,
        ],
    );
    // Correct float with exponent only
    lexer_test_helper(
        "1e5f32 1.23e+10f64",
        vec![
            Token::FloatLiteral(
                FloatLiteral::builder()
                    .digits("1".to_string())
                    .exponent(Some(FloatExponent::Unsigned(5)))
                    .suffix(Some(FloatSuffix::F32))
                    .build()
                    .unwrap(),
            ),
            Token::FloatLiteral(
                FloatLiteral::builder()
                    .digits("1.23".to_string())
                    .exponent(Some(FloatExponent::Positive(10)))
                    .suffix(Some(FloatSuffix::F64))
                    .build()
                    .unwrap(),
            ),
        ],
    );
    // A dot not followed by a digit does not start a float: `2.f32` is an integer, a dot, then `f32`.
    // It's `[0-9][_0-9]*\.[0-9][_0-9]*` so `2.` won't match as Float. It'll be `IntegerLiteral` + `Dot`.
    // This is a language design choice.
}

#[test]
fn test_mixed_simple_literals() {
    lexer_test_helper(
        "42 3.14 0b10 0o7 0xFa 'c' \"hello\"",
        vec![
            Token::IntegerLiteral(
                IntegerLiteral::builder()
                    .base(Base::Decimal)
                    .digits("42".to_string())
                    .suffix(None)
                    .build()
                    .unwrap(),
            ),
            Token::FloatLiteral(
                FloatLiteral::builder()
                    .digits("3.14".to_string())
                    .exponent(None)
                    .suffix(None)
                    .build()
                    .unwrap(),
            ),
            Token::IntegerLiteral(
                IntegerLiteral::builder()
                    .base(Base::Binary)
                    .digits("10".to_string())
                    .suffix(None)
                    .build()
                    .unwrap(),
            ),
            Token::IntegerLiteral(
                IntegerLiteral::builder()
                    .base(Base::Octal)
                    .digits("7".to_string())
                    .suffix(None)
                    .build()
                    .unwrap(),
            ),
            Token::IntegerLiteral(
                IntegerLiteral::builder()
                    .base(Base::Hex)
                    .digits("Fa".to_string())
                    .suffix(None)
                    .build()
                    .unwrap(),
            ),
            Token::CharLiteral("c".to_string()),
            Token::StringLiteral("hello".to_string()),
        ],
    );
}

#[test]
fn test_string_and_char_literals() {
    lexer_test_helper(
        r#"'a' '\n' '\'' '\\' "hello world" "tab\tnew\nline""#,
        vec![
            Token::CharLiteral("a".to_string()),
            Token::CharLiteral("\n".to_string()),
            Token::CharLiteral("'".to_string()),
            Token::CharLiteral("\\".to_string()),
            Token::StringLiteral("hello world".to_string()),
            Token::StringLiteral("tab\tnew\nline".to_string()),
        ],
    );
}

#[test]
fn test_metadata() {
    lexer_test_helper(
        "@inline @deprecated(msg) @test_attr",
        vec![
            Token::At,
            Token::Ident("inline".to_string()),
            Token::At,
            Token::Ident("deprecated".to_string()),
            Token::LParen,
            Token::Ident("msg".to_string()),
            Token::RParen,
            Token::At,
            Token::Ident("test_attr".to_string()),
        ],
    );
}

#[test]
fn test_comments_and_whitespace() {
    lexer_test_helper(
        "  // single line comment\n let /*multi\nline\ncomment*/ x = 10",
        vec![
            Token::Newline,
            Token::Let,
            Token::Ident("x".to_string()),
            Token::Eq,
            Token::IntegerLiteral(
                IntegerLiteral::builder()
                    .base(Base::Decimal)
                    .digits("10".to_string())
                    .suffix(None)
                    .build()
                    .unwrap(),
            ),
        ],
    );
}

#[test]
fn test_complex_expression() {
    let input = "fn add(a: i32, b: i32) -> i32 { return a + b; }";
    let expected = vec![
        Token::Fn,
        Token::Ident("add".to_string()),
        Token::LParen,
        Token::Ident("a".to_string()),
        Token::Colon,
        Token::I32,
        Token::Comma,
        Token::Ident("b".to_string()),
        Token::Colon,
        Token::I32,
        Token::RParen,
        Token::Arrow,
        Token::I32,
        Token::LBrace,
        Token::Return,
        Token::Ident("a".to_string()),
        Token::Plus,
        Token::Ident("b".to_string()),
        Token::Semicolon,
        Token::RBrace,
    ];
    lexer_test_helper(input, expected);
}

#[test]
fn test_match_statement() {
    let input = "match value { 0 => handle_zero(), _ => handle_other() }";
    let expected = vec![
        Token::Match,
        Token::Ident("value".to_string()),
        Token::LBrace,
        Token::IntegerLiteral(
            IntegerLiteral::builder()
                .base(Base::Decimal)
                .digits("0".to_string())
                .suffix(None)
                .build()
                .unwrap(),
        ),
        Token::FatArrow,
        Token::Ident("handle_zero".to_string()),
        Token::LParen,
        Token::RParen,
        Token::Comma,
        Token::Underscore,
        Token::FatArrow,
        Token::Ident("handle_other".to_string()),
        Token::LParen,
        Token::RParen,
        Token::RBrace,
    ];
    lexer_test_helper(input, expected);
}

// --- Edge Case Tests ---

#[test]
fn test_empty_input() {
    let mut lex = Lexer::new("");
    assert_eq!(lex.next_token(), None);
}

#[test]
fn test_unrecognized_character() {
    let mut lex = Lexer::new("let $invalid;"); // $ is not tokenized
    assert_eq!(lex.next_token().unwrap().unwrap(), Token::Let);
    assert_eq!(lex.next_token().unwrap().is_err(), true); // Should be an error for $
    // Scanning resumes right after the rejected character.
    assert_eq!(lex.next_token().unwrap().unwrap(), Token::Ident("invalid".to_string())); // Expect 'invalid'
    assert_eq!(lex.next_token().unwrap().unwrap(), Token::Semicolon); // Expect ';'
    assert_eq!(lex.next_token(), None); // Now expect no more tokens
}

#[test]
fn test_string_literal_with_unclosed_quote() {
    let mut lex = Lexer::new("\"unclosed string");
    assert!(lex.next_token().unwrap().is_err()); // Should produce an error
    assert_eq!(lex.next_token(), None);
}

#[test]
fn test_char_literal_with_unclosed_quote() {
    let mut lex = Lexer::new(r#"'u"#);
    assert!(lex.next_token().unwrap().is_err()); // Should produce an error
    assert_eq!(lex.next_token(), None);
}

#[test]
fn test_incomplete_float_literal() {
    // "1." is an IntegerLiteral then Dot: a float needs a digit after the dot
    lexer_test_helper(
        "1. f32",
        vec![
            Token::IntegerLiteral(
                IntegerLiteral::builder()
                    .base(Base::Decimal)
                    .digits("1".to_string())
                    .suffix(None)
                    .build()
                    .unwrap(),
            ),
            Token::Dot,
            Token::F32,
        ],
    );
}

#[test]
fn test_float_vs_integer_no_suffix() {
    lexer_test_helper(
        "100 100.0 1e5 0xAf",
        vec![
            Token::IntegerLiteral(
                IntegerLiteral::builder()
                    .base(Base::Decimal)
                    .digits("100".to_string())
                    .suffix(None)
                    .build()
                    .unwrap(),
            ),
            Token::FloatLiteral(
                FloatLiteral::builder()
                    .digits("100.0".to_string())
                    .exponent(None)
                    .suffix(None)
                    .build()
                    .unwrap(),
            ),
            Token::FloatLiteral(
                FloatLiteral::builder()
                    .digits("1".to_string())
                    .exponent(Some(FloatExponent::Unsigned(5)))
                    .suffix(None)
                    .build()
                    .unwrap(),
            ),
            Token::IntegerLiteral(
                IntegerLiteral::builder()
                    .base(Base::Hex)
                    .digits("Af".to_string())
                    .suffix(None)
                    .build()
                    .unwrap(),
            ),
        ],
    );
}

// --- Indentation Tests ---

fn indent_lexer_test_helper(input: &str, expected_tokens: Vec<Token>) {
    let mut lexer = IndentLexer::new(input);
    for (i, expected_token) in expected_tokens.iter().enumerate() {
        let token = lexer.next();
        assert!(token.is_some(), "Expected token at position {}, but got None", i);
        let token = token.unwrap();
        assert!(token.is_ok(), "Expected Ok token at position {}, but got Err", i);
        assert_eq!(
            token.unwrap(),
            *expected_token,
            "Token mismatch at position {}",
            i
        );
    }
    assert_eq!(lexer.next(), None, "Expected no more tokens, but got Some");
}

#[test]
fn test_basic_indentation() {
    let input = "fn test\n    let x\n    let y";
    let expected = vec![
        Token::Fn,
        Token::Ident("test".to_string()),
        Token::Newline,
        Token::Indent,
        Token::Let,
        Token::Ident("x".to_string()),
        Token::Newline,
        Token::Let,
        Token::Ident("y".to_string()),
        Token::Dedent, // EOF dedent
    ];
    indent_lexer_test_helper(input, expected);
}

#[test]
fn test_indentation_increase_and_decrease() {
    let input = "fn test\n    if true\n        let x\nlet y";
    let expected = vec![
        Token::Fn,
        Token::Ident("test".to_string()),
        Token::Newline,
        Token::Indent,
        Token::If,
        Token::True,
        Token::Newline,
        Token::Indent,
        Token::Let,
        Token::Ident("x".to_string()),
        Token::Newline,
        Token::Dedent,
        Token::Dedent,
        Token::Let,
        Token::Ident("y".to_string()),
    ];
    indent_lexer_test_helper(input, expected);
}

#[test]
fn test_multiple_indent_levels() {
    let input = "fn outer\n    fn middle\n        fn inner\n            let x";
    let expected = vec![
        Token::Fn,
        Token::Ident("outer".to_string()),
        Token::Newline,
        Token::Indent,
        Token::Fn,
        Token::Ident("middle".to_string()),
        Token::Newline,
        Token::Indent,
        Token::Fn,
        Token::Ident("inner".to_string()),
        Token::Newline,
        Token::Indent,
        Token::Let,
        Token::Ident("x".to_string()),
        Token::Dedent, // EOF dedents
        Token::Dedent,
        Token::Dedent,
    ];
    indent_lexer_test_helper(input, expected);
}

#[test]
fn test_dedent_multiple_levels() {
    let input = "fn test\n    if true\n        if false\n            let x\nlet y";
    let expected = vec![
        Token::Fn,
        Token::Ident("test".to_string()),
        Token::Newline,
        Token::Indent,
        Token::If,
        Token::True,
        Token::Newline,
        Token::Indent,
        Token::If,
        Token::False,
        Token::Newline,
        Token::Indent,
        Token::Let,
        Token::Ident("x".to_string()),
        Token::Newline,
        Token::Dedent,
        Token::Dedent,
        Token::Dedent,
        Token::Let,
        Token::Ident("y".to_string()),
    ];
    indent_lexer_test_helper(input, expected);
}

#[test]
fn test_no_indentation_change() {
    let input = "let x\nlet y\nlet z";
    let expected = vec![
        Token::Let,
        Token::Ident("x".to_string()),
        Token::Newline,
        Token::Let,
        Token::Ident("y".to_string()),
        Token::Newline,
        Token::Let,
        Token::Ident("z".to_string()),
    ];
    indent_lexer_test_helper(input, expected);
}

#[test]
fn test_blank_lines_ignored() {
    let input = "fn test\n\n    let x\n\nlet y";
    let expected = vec![
        Token::Fn,
        Token::Ident("test".to_string()),
        Token::Newline,
        Token::Newline,
        Token::Indent,
        Token::Let,
        Token::Ident("x".to_string()),
        Token::Newline,
        Token::Newline,
        Token::Dedent,
        Token::Let,
        Token::Ident("y".to_string()),
    ];
    indent_lexer_test_helper(input, expected);
}

#[test]
fn test_indentation_with_expressions() {
    let input = "if x\n    let a = 1\n    let b = 2";
    let expected = vec![
        Token::If,
        Token::Ident("x".to_string()),
        Token::Newline,
        Token::Indent,
        Token::Let,
        Token::Ident("a".to_string()),
        Token::Eq,
        Token::IntegerLiteral(
            IntegerLiteral::builder()
                .base(Base::Decimal)
                .digits("1".to_string())
                .suffix(None)
                .build()
                .unwrap(),
        ),
        Token::Newline,
        Token::Let,
        Token::Ident("b".to_string()),
        Token::Eq,
        Token::IntegerLiteral(
            IntegerLiteral::builder()
                .base(Base::Decimal)
                .digits("2".to_string())
                .suffix(None)
                .build()
                .unwrap(),
        ),
        Token::Dedent, // EOF dedent
    ];
    indent_lexer_test_helper(input, expected);
}
