use sexpr_compiler::language::ast::AST;
use sexpr_compiler::language::error::SyntaxError;
use sexpr_compiler::language::parser::Parser;
use sexpr_compiler::language::sexpr::{List, Sexpr};
use sexpr_compiler::language::token::{SexprItem, Token, TokenType};
use sexpr_compiler::language::tokenizer::Tokenizer;

fn tokens(text: &str) -> Vec<String> {
    let mut tokenizer = Tokenizer::over(text.as_bytes());
    let mut out = Vec::new();
    while let Some(item) = tokenizer.next() {
        match item {
            Ok(token) => out.push(show(&token)),
            Err(SyntaxError::EndWithWord { start, end, literal }) => {
                out.push(format!("error {}..{} {}", start, end, word(literal)))
            }
            Err(other) => panic!("unexpected error: {:?}", other),
        }
    }
    out
}

fn word(text: &[u8]) -> String {
    String::from_utf8(text.to_vec()).unwrap()
}

fn show(token: &Token) -> String {
    let kind = match &token.token {
        TokenType::L_PAREN => String::from("("),
        TokenType::R_PAREN => String::from(")"),
        TokenType::END_LINE => String::from("eol"),
        TokenType::STRING(SexprItem::Atom(text)) => format!("atom {}", word(text)),
        TokenType::STRING(SexprItem::Symbol(text)) => format!("symbol {}", word(text)),
        TokenType::STRING(SexprItem::Extension(text)) => format!("extension {}", word(text)),
        TokenType::STRING(SexprItem::Nil) => String::from("nil"),
    };
    format!("{}..{} {}", token.start(), token.end(), kind)
}

fn shape(sexpr: &Sexpr) -> String {
    match sexpr {
        Sexpr::EndList => String::from("."),
        Sexpr::Item(token) => match &token.token {
            TokenType::STRING(SexprItem::Atom(text)) => word(text),
            TokenType::STRING(SexprItem::Symbol(text)) => word(text),
            TokenType::STRING(SexprItem::Extension(text)) => word(text),
            TokenType::STRING(SexprItem::Nil) => String::from("nil"),
            _ => String::from("?"),
        },
        Sexpr::List { car, cdr } => {
            let mut parts = Vec::new();
            if let Some(head) = &**car {
                parts.push(shape(head));
            }
            for member in cdr {
                parts.push(shape(member));
            }
            format!("[{}]", parts.join(" "))
        }
    }
}

#[test]
fn words_end_in_front_of_spaces_and_parentheses() {
    assert_eq!(
        tokens("(defun #ext :sym nil (x) )"),
        vec![
            "0..0 (",
            "1..5 atom defun",
            "7..10 extension #ext",
            "12..15 symbol :sym",
            "17..19 nil",
            "21..21 (",
            "22..22 atom x",
            "23..23 )",
            "25..25 )",
        ]
    );
}

#[test]
fn a_word_at_the_end_of_the_input_is_an_error() {
    assert_eq!(tokens("(a bc"), vec!["0..0 (", "1..1 atom a", "error 3..5 bc"]);
    assert_eq!(tokens("abc"), vec!["error 0..3 abc"]);
    assert_eq!(tokens("(a) :x"), vec!["0..0 (", "1..1 atom a", "2..2 )", "error 4..6 :x"]);
    assert_eq!(tokens(""), Vec::<String>::new());
    assert_eq!(tokens("   "), Vec::<String>::new());
}

#[test]
fn a_line_break_is_a_token_and_drops_the_word_in_front_of_it() {
    assert_eq!(tokens("(a)\n(b)"), vec!["0..0 (", "1..1 atom a", "2..2 )", "3..3 eol", "4..4 (", "5..5 atom b", "6..6 )"]);
    assert_eq!(tokens("ab\ncd "), vec!["2..2 eol", "3..4 atom cd"]);
}

#[test]
fn a_tokenizer_reads_a_string() {
    let source = String::from("(a)");
    let mut tokenizer = Tokenizer::new(&source);
    assert_eq!(show(&tokenizer.next().unwrap().unwrap()), "0..0 (");
    assert_eq!(show(&tokenizer.next().unwrap().unwrap()), "1..1 atom a");
    assert_eq!(show(&tokenizer.next().unwrap().unwrap()), "2..2 )");
    assert!(tokenizer.next().is_none());
    assert!(tokenizer.next().is_none());
}

#[test]
fn tokens_are_classified_by_how_they_start() {
    assert!(matches!(TokenType::from("#a".as_bytes()), TokenType::STRING(SexprItem::Extension(_))));
    assert!(matches!(TokenType::from(":a".as_bytes()), TokenType::STRING(SexprItem::Symbol(_))));
    assert!(matches!(TokenType::from("nil".as_bytes()), TokenType::STRING(SexprItem::Nil)));
    assert!(matches!(TokenType::from("nile".as_bytes()), TokenType::STRING(SexprItem::Atom(_))));
    assert!(matches!(TokenType::from("".as_bytes()), TokenType::STRING(SexprItem::Atom(_))));
    assert!(matches!(TokenType::word("a".as_bytes()), TokenType::STRING(SexprItem::Atom(_))));
    assert!(matches!(TokenType::of_byte(40), Some(TokenType::L_PAREN)));
    assert!(matches!(TokenType::of_byte(41), Some(TokenType::R_PAREN)));
    assert!(matches!(TokenType::of_byte(10), Some(TokenType::END_LINE)));
    assert!(TokenType::of_byte(97).is_none());
    assert_eq!(show(&Token::at(3, 41).unwrap()), "3..3 )");
    assert!(Token::at(3, 97).is_none());
    assert_eq!(show(&Token::word(2..4, "abc".as_bytes())), "2..4 atom abc");
    assert!(matches!(Token::word(0..0, "x".as_bytes()).kind(), TokenType::STRING(_)));
}

#[test]
fn a_list_holds_its_members_and_the_end_mark() {
    let mut parser = Parser::new(Tokenizer::over("(a (b c) () d) (e) ".as_bytes()));
    let first = parser.parse().unwrap().unwrap();
    assert_eq!(shape(&first), "[a [b c .] [.] d .]");
    let second = parser.parse().unwrap().unwrap();
    assert_eq!(shape(&second), "[e .]");
    assert!(parser.parse().is_none());
}

#[test]
fn a_list_that_is_not_closed_is_an_unexpected_end() {
    let mut parser = Parser::new(Tokenizer::over("(a (b c) ".as_bytes()));
    assert!(matches!(parser.parse(), Some(Err(SyntaxError::UnexpectedEnd))));
    assert!(parser.parse().is_none());
}

#[test]
fn a_word_at_the_end_of_the_input_stops_the_parser() {
    let mut parser = Parser::new(Tokenizer::over("(print :debug hello".as_bytes()));
    match parser.parse() {
        Some(Err(SyntaxError::EndWithWord { start, end, literal })) => {
            assert_eq!((start, end), (14, 19));
            assert_eq!(literal, "hello".as_bytes());
        }
        other => panic!("unexpected outcome: {:?}", other),
    }
    assert!(parser.parse().is_none());
    let mut parser = Parser::new(Tokenizer::over("word".as_bytes()));
    assert!(matches!(
        parser.parse(),
        Some(Err(SyntaxError::EndWithWord { start: 0, end: 4, .. }))
    ));
}

#[test]
fn what_does_not_open_a_list_is_an_unexpected_start() {
    let mut parser = Parser::new(Tokenizer::over("a (b) ".as_bytes()));
    assert!(matches!(parser.parse(), Some(Err(SyntaxError::UnexpectedStart))));
    assert_eq!(shape(&parser.parse().unwrap().unwrap()), "[b .]");
}

#[test]
fn a_leading_closing_parenthesis_is_reported_with_its_offset() {
    let mut parser = Parser::new(Tokenizer::over(")".as_bytes()));
    assert!(matches!(parser.parse(), Some(Err(SyntaxError::UnexpectedR(0)))));
    assert!(parser.parse().is_none());
    let source = String::from(")");
    let mut parser = Parser::from(Tokenizer::new(&source));
    assert!(matches!(parser.parse(), Some(Err(SyntaxError::UnexpectedR(0)))));
    let mut parser = Parser::new(Tokenizer::over("(a)   ) ".as_bytes()));
    assert!(matches!(parser.parse(), Some(Ok(_))));
    assert!(matches!(parser.parse(), Some(Err(SyntaxError::UnexpectedR(6)))));
    let mut ast = AST::new(Parser::new(Tokenizer::over(" ) ".as_bytes())));
    assert!(matches!(ast.parse(), Err(SyntaxError::UnexpectedR(1))));
}

#[test]
fn the_first_member_of_a_list_is_kept_apart() {
    let mut parser = Parser::new(Tokenizer::over("(a (b) ) (() c) ".as_bytes()));
    match parser.parse().unwrap().unwrap() {
        Sexpr::List { car, cdr } => {
            assert_eq!(shape((*car).as_ref().unwrap()), "a");
            assert_eq!(cdr.len(), 2);
            match &cdr[0] {
                Sexpr::List { car, cdr } => {
                    assert_eq!(shape((**car).as_ref().unwrap()), "b");
                    assert_eq!(cdr.len(), 1);
                    assert!(matches!(cdr[0], Sexpr::EndList));
                }
                other => panic!("not a list: {:?}", other),
            }
            assert!(matches!(cdr[1], Sexpr::EndList));
        }
        other => panic!("not a list: {:?}", other),
    }
    match parser.parse().unwrap().unwrap() {
        Sexpr::List { car, cdr } => {
            match (*car).as_ref().unwrap() {
                Sexpr::List { car, cdr } => {
                    assert!(matches!((**car).as_ref(), Some(Sexpr::EndList)));
                    assert_eq!(cdr.len(), 0);
                }
                other => panic!("not a list: {:?}", other),
            }
            assert_eq!(cdr.len(), 2);
        }
        other => panic!("not a list: {:?}", other),
    }
}

#[test]
fn a_line_break_inside_a_list_is_an_error() {
    let mut parser = Parser::new(Tokenizer::over("(a \n b) ".as_bytes()));
    match parser.parse() {
        Some(Err(SyntaxError::Expected { expected, got })) => {
            assert!(matches!(expected, TokenType::R_PAREN));
            assert_eq!(show(&got), "3..3 eol");
        }
        other => panic!("unexpected outcome: {:?}", other),
    }
}

#[test]
fn a_parser_is_made_from_a_tokenizer() {
    let mut parser = Parser::from(Tokenizer::over("(x) ".as_bytes()));
    assert_eq!(shape(&parser.parse().unwrap().unwrap()), "[x .]");
}

#[test]
fn members_are_added_until_the_list_is_ended() {
    let mut list = Sexpr::new();
    assert!(list.accepts());
    assert_eq!(shape(&list), "[]");
    list.add(Sexpr::Item(Token::word(0..0, "a".as_bytes())));
    list.add(Sexpr::new());
    list.add(Sexpr::Item(Token::word(2..2, "b".as_bytes())));
    assert_eq!(shape(&list), "[a [] b]");
    assert!(list.accepts());
    list.endlist();
    assert_eq!(shape(&list), "[a [] b .]");
    assert!(!list.accepts());

    let mut empty = Sexpr::new();
    empty.endlist();
    assert_eq!(shape(&empty), "[.]");
    assert!(!empty.accepts());
    assert!(!Sexpr::EndList.accepts());
    assert!(!Sexpr::Item(Token::word(0..0, "a".as_bytes())).accepts());
}

#[test]
fn an_expression_is_taken_apart() {
    assert!(Sexpr::EndList.next().is_none());
    match Sexpr::Item(Token::word(4..6, "abc".as_bytes())).next() {
        Some(Ok(token)) => assert_eq!(show(&token), "4..6 atom abc"),
        other => panic!("unexpected outcome: {:?}", other),
    }
    assert!(matches!(Sexpr::new().next(), Some(Err(List::Void))));
    let mut list = Sexpr::new();
    list.add(Sexpr::Item(Token::word(0..0, "a".as_bytes())));
    list.add(Sexpr::Item(Token::word(2..2, "b".as_bytes())));
    list.endlist();
    match list.next() {
        Some(Err(List::Packed { car, cdr })) => {
            assert_eq!(shape(&car), "a");
            assert_eq!(cdr.len(), 2);
            assert_eq!(shape(&cdr[0]), "b");
            assert_eq!(shape(&cdr[1]), ".");
        }
        other => panic!("unexpected outcome: {:?}", other),
    }
    assert!(matches!(List::from(None), List::Void));
    assert!(matches!(
        List::from(Some((Sexpr::EndList, Vec::new()))),
        List::Packed { .. }
    ));
}

#[test]
fn lists_are_read_one_after_another() {
    let mut ast = AST::new(Parser::new(Tokenizer::over("(a) (b c) x (d) (e".as_bytes())));
    assert_eq!(ast.parse().unwrap(), true);
    assert_eq!(ast.parse().unwrap(), true);
    assert_eq!(ast.len(), 2);
    assert!(matches!(ast.parse(), Err(SyntaxError::UnexpectedStart)));
    assert_eq!(ast.len(), 2);
    assert_eq!(ast.parse().unwrap(), true);
    assert!(matches!(
        ast.parse(),
        Err(SyntaxError::EndWithWord { start: 17, end: 18, .. })
    ));
    assert_eq!(ast.parse().unwrap(), false);
    assert_eq!(ast.len(), 3);
    assert_eq!(shape(ast.get(0).unwrap()), "[a .]");
    assert_eq!(shape(ast.get(1).unwrap()), "[b c .]");
    assert_eq!(shape(ast.get(2).unwrap()), "[d .]");
    assert!(ast.get(3).is_none());
}
