use dlang::lexer::{tokenize, Lexer, Token};

fn kinds(src: &str) -> Vec<Token> {
    tokenize(src).into_iter().map(|(t, _)| t).collect()
}

fn strip_trivia_by_spans(src: &str) -> Vec<u8> {
    let bytes = src.as_bytes();
    let mut out = Vec::new();
    for (_, (s, e)) in tokenize(src) {
        out.extend_from_slice(&bytes[s..e]);
    }
    out
}

#[test]
fn stream_ends_with_one_end_marker_at_input_end() {
    let src = "fn f() { return 1; }  // tail\n";
    let ts = tokenize(src);
    assert!(matches!(ts.last().unwrap().0, Token::End));
    assert_eq!(ts.last().unwrap().1, (src.len(), src.len()));
    let ends = ts.iter().filter(|(t, _)| matches!(t, Token::End)).count();
    assert_eq!(ends, 1);
}

#[test]
fn slices_rebuild_source_without_trivia() {
    let src = "fn  add(a: i32 , b: i32) -> i32 {\n  // sum\n  return a + b; /* done */ }";
    let joined = strip_trivia_by_spans(src);
    assert_eq!(
        String::from_utf8(joined).unwrap(),
        "fnadd(a:i32,b:i32)->i32{returna+b;}"
    );
}

#[test]
fn empty_and_trivia_only_sources_give_only_end() {
    for src in ["", "   \n\t", "// only a comment", "/* block */  "] {
        let ts = tokenize(src);
        assert_eq!(ts.len(), 1);
        assert!(matches!(ts[0].0, Token::End));
        assert_eq!(ts[0].1, (src.len(), src.len()));
    }
}

#[test]
fn keywords_and_identifiers() {
    let ks = kinds("fn let const return if else while for struct impl async await true false fnx _a1");
    assert!(matches!(ks[0], Token::KeywordFn));
    assert!(matches!(ks[1], Token::KeywordLet));
    assert!(matches!(ks[2], Token::KeywordConst));
    assert!(matches!(ks[3], Token::KeywordReturn));
    assert!(matches!(ks[4], Token::KeywordIf));
    assert!(matches!(ks[5], Token::KeywordElse));
    assert!(matches!(ks[6], Token::KeywordWhile));
    assert!(matches!(ks[7], Token::KeywordFor));
    assert!(matches!(ks[8], Token::KeywordStruct));
    assert!(matches!(ks[9], Token::KeywordImpl));
    assert!(matches!(ks[10], Token::KeywordAsync));
    assert!(matches!(ks[11], Token::KeywordAwait));
    assert!(matches!(ks[12], Token::Bool(true)));
    assert!(matches!(ks[13], Token::Bool(false)));
    assert!(matches!(&ks[14], Token::Ident(n) if n == "fnx"));
    assert!(matches!(&ks[15], Token::Ident(n) if n == "_a1"));
    assert!(matches!(ks[16], Token::End));
}

#[test]
fn operators_take_longest_match() {
    let ks = kinds("== = <= < >= > != ! && || -> - .. . + * / % ( ) { } [ ] , : ;");
    let want = [
        matches!(ks[0], Token::DoubleEquals),
        matches!(ks[1], Token::Equals),
        matches!(ks[2], Token::LessOrEqual),
        matches!(ks[3], Token::LessThan),
        matches!(ks[4], Token::GreaterOrEqual),
        matches!(ks[5], Token::GreaterThan),
        matches!(ks[6], Token::NotEquals),
        matches!(ks[7], Token::Bang),
        matches!(ks[8], Token::And),
        matches!(ks[9], Token::Or),
        matches!(ks[10], Token::Arrow),
        matches!(ks[11], Token::Minus),
        matches!(ks[12], Token::DoubleDot),
        matches!(ks[13], Token::Dot),
        matches!(ks[14], Token::Plus),
        matches!(ks[15], Token::Star),
        matches!(ks[16], Token::Slash),
        matches!(ks[17], Token::Percent),
        matches!(ks[18], Token::LParen),
        matches!(ks[19], Token::RParen),
        matches!(ks[20], Token::LBrace),
        matches!(ks[21], Token::RBrace),
        matches!(ks[22], Token::LSquare),
        matches!(ks[23], Token::RSquare),
        matches!(ks[24], Token::Comma),
        matches!(ks[25], Token::Colon),
        matches!(ks[26], Token::Semicolon),
        matches!(ks[27], Token::End),
    ];
    assert!(want.iter().all(|b| *b));
    let spans: Vec<(usize, usize)> = tokenize("a==b").into_iter().map(|(_, s)| s).collect();
    assert_eq!(spans, vec![(0, 1), (1, 3), (3, 4), (4, 4)]);
}

#[test]
fn number_literals() {
    let ks = kinds("42 -7 3.25 -0.5 1..2 9223372036854775807 -9223372036854775808");
    assert!(matches!(ks[0], Token::Int(42)));
    assert!(matches!(ks[1], Token::Int(-7)));
    assert!(matches!(&ks[2], Token::Float(t) if t == "3.25"));
    assert!(matches!(&ks[3], Token::Float(t) if t == "-0.5"));
    assert!(matches!(ks[4], Token::Int(1)));
    assert!(matches!(ks[5], Token::DoubleDot));
    assert!(matches!(ks[6], Token::Int(2)));
    assert!(matches!(ks[7], Token::Int(i64::MAX)));
    assert!(matches!(ks[8], Token::Int(i64::MIN)));
}

#[test]
fn integer_too_large_is_invalid() {
    let ks = kinds("9223372036854775808 -9223372036854775809");
    assert!(matches!(ks[0], Token::Error));
    assert!(matches!(ks[1], Token::Error));
    assert!(matches!(ks[2], Token::End));
}

#[test]
fn string_literals_decode_escapes() {
    let ks = kinds(r#""a\nb\t\"q\\" "é""#);
    assert!(matches!(&ks[0], Token::StringLit(s) if s == "a\nb\t\"q\\"));
    assert!(matches!(&ks[1], Token::StringLit(s) if s == "é"));
}

#[test]
fn unterminated_string_is_invalid_to_the_end() {
    let src = "let s = \"abc";
    let ts = tokenize(src);
    assert!(matches!(ts[3].0, Token::Error));
    assert_eq!(ts[3].1, (8, src.len()));
    assert!(matches!(ts[4].0, Token::End));
}

#[test]
fn unknown_byte_is_invalid_token() {
    let ts = tokenize("a @ b");
    assert!(matches!(ts[1].0, Token::Error));
    assert_eq!(ts[1].1, (2, 3));
    assert!(matches!(&ts[2].0, Token::Ident(n) if n == "b"));
}

#[test]
fn unclosed_block_comment_is_operators() {
    let ks = kinds("/* x");
    assert!(matches!(ks[0], Token::Slash));
    assert!(matches!(ks[1], Token::Star));
    assert!(matches!(&ks[2], Token::Ident(n) if n == "x"));
}

#[test]
fn lexer_pulls_tokens_and_reports_span_and_slice() {
    let mut lx = Lexer::new("  foo(1)");
    let (t, span) = lx.next_token();
    assert!(matches!(&t, Token::Ident(n) if n == "foo"));
    assert_eq!(span, (2, 5));
    assert_eq!(lx.span(), (2, 5));
    assert_eq!(lx.slice(), b"foo".to_vec());
    assert!(matches!(lx.next_token().0, Token::LParen));
    assert!(matches!(lx.next_token().0, Token::Int(1)));
    assert!(matches!(lx.next_token().0, Token::RParen));
    assert!(matches!(lx.next_token().0, Token::End));
    assert!(matches!(lx.next_token().0, Token::End));
}
