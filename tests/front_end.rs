use rox::env::{Env, EnvError};
use rox::expression::Expr;
use rox::interpreter::Object;
use rox::keywords::get_keywords;
use rox::number::Number;
use rox::parser::{ParseError, Parser};
use rox::scanner::{scan, ScanError, Scanner};
use rox::statement::Stmt;
use rox::token::{Literal, Token, TokenType};
use rox::token::TokenType as T;

fn kinds(src: &str) -> Vec<TokenType> {
    scan(src).expect("scans").iter().map(|t| t.token_type).collect()
}

fn expression_text(src: &str) -> String {
    let stmts = Parser::new(scan(src).unwrap()).parse().unwrap();
    match &stmts[0] {
        Stmt::Expression(e) => e.to_text(),
        other => panic!("not an expression statement: {:?}", other),
    }
}

#[test]
fn scans_declaration() {
    assert_eq!(kinds("var x = 10;"), vec![T::VAR, T::IDENTIFIER, T::EQUAL, T::NUMBER, T::SEMICOLON, T::EOF]);
}

#[test]
fn scans_operators() {
    assert_eq!(
        kinds("! != = == < <= > >= ( ) { } , . - + ; * /"),
        vec![
            T::BANG, T::BANG_EQUAL, T::EQUAL, T::EQUAL_EQUAL, T::LESS, T::LESS_EQUAL, T::GREATER, T::GREATER_EQUAL,
            T::LEFT_PAREN, T::RIGHT_PAREN, T::LEFT_BRACE, T::RIGHT_BRACE, T::COMMA, T::DOT, T::MINUS, T::PLUS, T::SEMICOLON,
            T::STAR, T::SLASH, T::EOF
        ]
    );
}

#[test]
fn scans_keywords_and_names() {
    assert_eq!(
        kinds("and class else false for fun if nil or print return super this true var while whilex _a1 Name"),
        vec![
            T::AND, T::CLASS, T::ELSE, T::FALSE, T::FOR, T::FUN, T::IF, T::NIL, T::OR, T::PRINT, T::RETURN, T::SUPER, T::THIS, T::TRUE, T::VAR,
            T::WHILE, T::IDENTIFIER, T::IDENTIFIER, T::IDENTIFIER, T::EOF
        ]
    );
}

#[test]
fn keyword_lookup() {
    assert_eq!(get_keywords("while"), Some(TokenType::WHILE));
    assert_eq!(get_keywords("and"), Some(TokenType::AND));
    assert_eq!(get_keywords("whale"), None);
    assert_eq!(get_keywords(""), None);
}

#[test]
fn comments_are_skipped_and_lines_counted() {
    let toks = scan("// one\n/* two\nthree */ x\n\"a\nb\" y").unwrap();
    let names: Vec<(TokenType, usize)> = toks.iter().map(|t| (t.token_type, t.line)).collect();
    assert_eq!(
        names,
        vec![
            (TokenType::IDENTIFIER, 3),
            (TokenType::STRING, 5),
            (TokenType::IDENTIFIER, 5),
            (TokenType::EOF, 5)
        ]
    );
    match &toks[1].literal {
        Literal::String(s) => assert_eq!(s, "a\nb"),
        other => panic!("unexpected {:?}", other),
    }
    assert_eq!(toks[1].lexeme, "\"a\nb\"");
}

#[test]
fn number_literals() {
    let toks = scan("12.5 7. 3").unwrap();
    let kinds: Vec<TokenType> = toks.iter().map(|t| t.token_type).collect();
    assert_eq!(
        kinds,
        vec![TokenType::NUMBER, TokenType::NUMBER, TokenType::DOT, TokenType::NUMBER, TokenType::EOF]
    );
    assert_eq!(toks[0].literal.to_text(), "12.5");
    assert_eq!(toks[0].lexeme, "12.5");
    assert_eq!(toks[1].literal.to_text(), "7");
}

#[test]
fn empty_source_gives_eof() {
    let toks = scan("").unwrap();
    assert_eq!(toks.len(), 1);
    assert_eq!(toks[0].token_type, TokenType::EOF);
    assert_eq!(toks[0].line, 1);
}

#[test]
fn unexpected_character_fails() {
    assert_eq!(scan("var a = 1;\n@").unwrap_err(), ScanError::UnexpectedChar('@', 2));
    assert_eq!(scan("é").unwrap_err(), ScanError::UnexpectedChar('é', 1));
}

#[test]
fn unterminated_string_fails() {
    assert_eq!(scan("print \"abc").unwrap_err(), ScanError::UnterminatedString(1));
}

#[test]
fn huge_number_fails() {
    assert_eq!(scan("99999999999999999999").unwrap_err(), ScanError::NumberTooLarge(1));
}

#[test]
fn non_ascii_inside_strings() {
    let toks = scan("\"héllo\" x").unwrap();
    match &toks[0].literal {
        Literal::String(s) => assert_eq!(s, "héllo"),
        other => panic!("unexpected {:?}", other),
    }
    assert_eq!(toks[1].lexeme, "x");
}

#[test]
fn scanner_struct_scans() {
    let mut s = Scanner::new("print 1;".to_string());
    assert!(s.scan_tokens().is_ok());
    assert_eq!(s.tokens.len(), 4);
}

#[test]
fn renders_precedence() {
    assert_eq!(expression_text("1 + 2 * 3;"), "(+ 1 (* 2 3))");
    assert_eq!(expression_text("(1 + 2) * 3;"), "(* (group (+ 1 2)) 3)");
    assert_eq!(expression_text("-1 - -2;"), "(- (-1) (-2))");
    assert_eq!(expression_text("a = b = 1;"), "(= (= 1))");
    assert_eq!(expression_text("x or y and z;"), "(or (var x) (and (var y) (var z)))");
    assert_eq!(expression_text("1 - 2 - 3;"), "(- (- 1 2) 3)");
    assert_eq!(expression_text("!true == false;"), "(== (!true) false)");
}

#[test]
fn invalid_assignment_target() {
    let r = Parser::new(scan("1 = 2;").unwrap()).parse();
    assert_eq!(r.unwrap_err(), ParseError::InvalidAssignTarget { line: 1 });
}

#[test]
fn missing_semicolon() {
    let r = Parser::new(scan("print 1").unwrap()).parse();
    assert_eq!(
        r.unwrap_err(),
        ParseError::Expected { expected: TokenType::SEMICOLON, found: TokenType::EOF, line: 1 }
    );
}

#[test]
fn missing_expression() {
    let r = Parser::new(scan("print ;").unwrap()).parse();
    assert_eq!(r.unwrap_err(), ParseError::ExpectedExpression { found: TokenType::SEMICOLON, line: 1 });
}

#[test]
fn unclosed_block() {
    let r = Parser::new(scan("{ print 1;").unwrap()).parse();
    assert_eq!(
        r.unwrap_err(),
        ParseError::Expected { expected: TokenType::RIGHT_BRACE, found: TokenType::EOF, line: 1 }
    );
}

#[test]
fn parses_statements() {
    let stmts = Parser::new(scan("var a; if (a) print 1; else { print 2; } while (a) a = nil;").unwrap())
        .parse()
        .unwrap();
    assert_eq!(stmts.len(), 3);
    match &stmts[0] {
        Stmt::Var(t, Some(Expr::Literal(Literal::Nil))) => assert_eq!(t.lexeme, "a"),
        other => panic!("unexpected {:?}", other),
    }
    assert!(matches!(&stmts[1], Stmt::If(_, _, _)));
    assert!(matches!(&stmts[2], Stmt::While(_, _)));
}

#[test]
fn number_arithmetic_and_text() {
    let a = Number::ratio(1, 2).unwrap();
    let b = Number::ratio(1, -3).unwrap();
    let mut s = String::new();
    a.add(&b).unwrap().push_text(&mut s);
    assert_eq!(s, "0.1666666666666666");
    assert!(Number::ratio(1, 0).is_none());
    assert!(b.less(&a));
    assert!(a.equals(&Number::ratio(2, 4).unwrap()));
    let mut t = String::new();
    Number::from_int(-120).push_text(&mut t);
    assert_eq!(t, "-120");
}

#[test]
fn env_chain() {
    let mut global = Env::new(None);
    global.define("a".to_string(), Object { value: Literal::Bool(true) }).unwrap();
    let mut inner = Env::new(Some(global));
    assert_eq!(inner.depth(), 2);
    inner.define("b".to_string(), Object { value: Literal::Nil }).unwrap();
    inner.assign("a".to_string(), Object { value: Literal::Bool(false) }).unwrap();
    assert!(matches!(inner.assign("c".to_string(), Object { value: Literal::Nil }), Err(EnvError::VarAssign(_))));
    let outer = inner.get_enclosing().unwrap();
    assert!(matches!(outer.get("a".to_string()).unwrap().value, Literal::Bool(false)));
    match outer.get("b".to_string()) {
        Err(EnvError::VarNotFound(m)) => assert_eq!(m, "Cannot find the variable 'b' in the scope"),
        other => panic!("unexpected {:?}", other),
    }
    assert!(outer.get_enclosing().is_none());
}

#[test]
fn token_new_keeps_fields() {
    let t = Token::new(TokenType::PLUS, "+".to_string(), 4, Literal::Nil);
    assert_eq!(t.token_type, TokenType::PLUS);
    assert_eq!(t.lexeme, "+");
    assert_eq!(t.line, 4);
}

#[test]
fn parse_all_recovers_at_statement_boundaries() {
    let parser = Parser::new(scan("print ; var x = 1; 1 = 2; print x;").unwrap());
    let (stmts, errors) = parser.parse_all();
    assert_eq!(
        errors,
        vec![
            ParseError::ExpectedExpression { found: TokenType::SEMICOLON, line: 1 },
            ParseError::InvalidAssignTarget { line: 1 }
        ]
    );
    assert_eq!(stmts.len(), 2);
    assert!(matches!(&stmts[0], Stmt::Var(_, _)));
    assert!(matches!(&stmts[1], Stmt::Print(_)));
}

#[test]
fn parse_all_without_errors_matches_parse() {
    let src = "var a = 1; { print a; }";
    let (stmts, errors) = Parser::new(scan(src).unwrap()).parse_all();
    assert!(errors.is_empty());
    let parsed = Parser::new(scan(src).unwrap()).parse().unwrap();
    assert_eq!(stmts.len(), parsed.len());
}
