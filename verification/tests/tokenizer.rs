use sexpr_compiler::syntax::tokenizer::token::{Lexeme, LexemeKind, Token};
use sexpr_compiler::syntax::tokenizer::tokenized::{
    Tokenized, TokenizerError, TokenizerErrorKind, Tokens,
};

fn collect(input: &str) -> Vec<Result<Token<'_>, TokenizerError<'_>>> {
    let mut tokens = input.tokens();
    let mut out = Vec::new();
    while let Some(item) = tokens.next() {
        out.push(item);
    }
    out
}

fn lexeme<'a>(item: &'a Result<Token<'a>, TokenizerError<'a>>) -> &'a Lexeme<'a> {
    match item {
        Ok(Token::Lexeme(lexeme)) => lexeme,
        other => panic!("not a lexeme: {:?}", other),
    }
}

#[test]
fn test_simple_tokens() {
    let input = "(This #tokenizable :wow expression nil \"string test\")";
    for i in collect(input) {
        println!("{:#?}", i)
    }
    let items = collect(input);
    assert_eq!(items.len(), 8);
    assert!(matches!(items[0], Ok(Token::LParen(0))));
    assert_eq!(lexeme(&items[1]).kind(), LexemeKind::Symbol);
    assert_eq!(lexeme(&items[1]).literal(), Some("This".as_bytes()));
    assert_eq!(lexeme(&items[2]).kind(), LexemeKind::Extension);
    assert_eq!(lexeme(&items[2]).literal(), Some("tokenizable".as_bytes()));
    assert_eq!(lexeme(&items[3]).kind(), LexemeKind::Atom);
    assert_eq!(lexeme(&items[3]).literal(), Some("wow".as_bytes()));
    assert_eq!(lexeme(&items[4]).kind(), LexemeKind::Symbol);
    assert_eq!(lexeme(&items[5]).kind(), LexemeKind::Nil);
    assert_eq!(lexeme(&items[5]).literal(), None);
    assert_eq!(lexeme(&items[6]).kind(), LexemeKind::String);
    assert_eq!(lexeme(&items[6]).literal(), Some("string test".as_bytes()));
    assert!(matches!(items[7], Ok(Token::RParen(52))));
}

#[test]
fn test_complex_tokens() {
    let input = "(defun print (:string msg) \"Prints msg\" (dbg msg) ) ";
    for i in collect(input) {
        println!("{:#?}", i)
    }
    let items = collect(input);
    assert_eq!(items.len(), 13);
    assert!(items.iter().all(|item| item.is_ok()));
    assert!(matches!(items[3], Ok(Token::LParen(13))));
    assert_eq!(lexeme(&items[4]).kind(), LexemeKind::Atom);
    assert_eq!(lexeme(&items[4]).literal(), Some("string".as_bytes()));
    assert_eq!(lexeme(&items[5]).literal(), Some("msg".as_bytes()));
    assert!(matches!(items[6], Ok(Token::RParen(25))));
    assert_eq!(lexeme(&items[7]).literal(), Some("Prints msg".as_bytes()));
    assert_eq!(lexeme(&items[10]).literal(), Some("msg".as_bytes()));
    assert!(matches!(items[11], Ok(Token::RParen(48))));
    assert!(matches!(items[12], Ok(Token::RParen(50))));
}

#[test]
fn lexeme_ranges_reconstruct_their_text() {
    let input = "(This #tokenizable :wow expression nil \"string test\")";
    for item in collect(input) {
        if let Ok(Token::Lexeme(lexeme)) = item {
            let rebuilt = lexeme.reconstruct(input.as_bytes()).unwrap();
            match lexeme.literal() {
                Some(literal) => assert_eq!(rebuilt, literal),
                None => assert_eq!(rebuilt, "nil".as_bytes()),
            }
        }
    }
}

#[test]
fn lexeme_ranges_are_half_open_and_exclude_sigils() {
    let items = collect("(#ext :atom \"str\" sym )");
    assert_eq!((lexeme(&items[1]).start(), lexeme(&items[1]).end()), (2, 5));
    assert_eq!((lexeme(&items[2]).start(), lexeme(&items[2]).end()), (7, 11));
    assert_eq!((lexeme(&items[3]).start(), lexeme(&items[3]).end()), (13, 16));
    assert_eq!((lexeme(&items[4]).start(), lexeme(&items[4]).end()), (18, 21));
}

#[test]
fn reconstruct_refuses_a_range_outside_the_source() {
    let items = collect("(abcdef )");
    assert_eq!(lexeme(&items[1]).reconstruct("(ab".as_bytes()), None);
}

#[test]
fn nil_is_its_own_class() {
    let items = collect("nil ");
    assert_eq!(items.len(), 1);
    assert_eq!(lexeme(&items[0]).kind(), LexemeKind::Nil);
    assert_eq!((lexeme(&items[0]).start(), lexeme(&items[0]).end()), (0, 3));
}

#[test]
fn nil_with_a_sigil_or_more_text_is_not_nil() {
    let items = collect(":nil #nil \"nil\" nile ni (nil)");
    assert_eq!(lexeme(&items[0]).kind(), LexemeKind::Atom);
    assert_eq!(lexeme(&items[1]).kind(), LexemeKind::Extension);
    assert_eq!(lexeme(&items[2]).kind(), LexemeKind::String);
    assert_eq!(lexeme(&items[3]).kind(), LexemeKind::Symbol);
    assert_eq!(lexeme(&items[4]).kind(), LexemeKind::Symbol);
    assert!(matches!(items[5], Ok(Token::LParen(24))));
    assert_eq!(lexeme(&items[6]).kind(), LexemeKind::Nil);
    assert!(matches!(items[7], Ok(Token::RParen(28))));
}

#[test]
fn parentheses_end_a_lexeme_and_stay_in_place() {
    let items = collect("(a(b)c)");
    assert_eq!(items.len(), 7);
    assert!(matches!(items[0], Ok(Token::LParen(0))));
    assert_eq!(lexeme(&items[1]).literal(), Some("a".as_bytes()));
    assert!(matches!(items[2], Ok(Token::LParen(2))));
    assert_eq!(lexeme(&items[3]).literal(), Some("b".as_bytes()));
    assert!(matches!(items[4], Ok(Token::RParen(4))));
    assert_eq!(lexeme(&items[5]).literal(), Some("c".as_bytes()));
    assert!(matches!(items[6], Ok(Token::RParen(6))));
}

#[test]
fn a_string_keeps_spaces_and_parentheses() {
    let items = collect("\"a (b) c\" ");
    assert_eq!(items.len(), 1);
    assert_eq!(lexeme(&items[0]).kind(), LexemeKind::String);
    assert_eq!(lexeme(&items[0]).literal(), Some("a (b) c".as_bytes()));
}

#[test]
fn a_newline_is_an_ordinary_byte() {
    let items = collect("(a\nb )");
    assert_eq!(items.len(), 3);
    assert_eq!(lexeme(&items[1]).literal(), Some("a\nb".as_bytes()));
}

#[test]
fn empty_and_blank_input_yield_nothing() {
    assert_eq!(collect("").len(), 0);
    assert_eq!(collect("    ").len(), 0);
}

#[test]
fn an_empty_atom_has_an_empty_range() {
    let items = collect(": ");
    assert_eq!(lexeme(&items[0]).kind(), LexemeKind::Atom);
    assert_eq!((lexeme(&items[0]).start(), lexeme(&items[0]).end()), (1, 1));
    assert_eq!(lexeme(&items[0]).literal(), Some("".as_bytes()));
}

fn error<'a>(item: &'a Result<Token<'a>, TokenizerError<'a>>) -> &'a TokenizerError<'a> {
    match item {
        Err(error) => error,
        other => panic!("not an error: {:?}", other),
    }
}

#[test]
fn a_symbol_at_the_end_of_input_is_an_error() {
    let items = collect("(print :debug hello");
    assert_eq!(items.len(), 4);
    let e = error(&items[3]);
    assert_eq!(e.kind(), TokenizerErrorKind::EndWithSymbol);
    assert_eq!(e.start(), 14);
    assert_eq!(e.end(), 19);
    assert_eq!(e.literal(), "hello".as_bytes());
}

#[test]
fn an_atom_at_the_end_of_input_is_an_error() {
    let items = collect("(a :atom");
    let e = error(&items[2]);
    assert_eq!(e.kind(), TokenizerErrorKind::EndWithAtom);
    assert_eq!((e.start(), e.end()), (3, 8));
    assert_eq!(e.literal(), ":atom".as_bytes());
}

#[test]
fn an_extension_at_the_end_of_input_is_an_error() {
    let items = collect("#ext");
    let e = error(&items[0]);
    assert_eq!(e.kind(), TokenizerErrorKind::EndWithExt);
    assert_eq!((e.start(), e.end()), (0, 4));
    assert_eq!(e.literal(), "#ext".as_bytes());
}

#[test]
fn an_open_string_is_an_error() {
    let items = collect("(a \"open string )");
    let e = error(&items[2]);
    assert_eq!(e.kind(), TokenizerErrorKind::StringDelimeterError);
    assert_eq!((e.start(), e.end()), (3, 17));
    assert_eq!(e.literal(), "\"open string )".as_bytes());
}

#[test]
fn nothing_follows_an_error() {
    let mut tokens = Tokenized::new("abc".as_bytes());
    assert!(matches!(tokens.next(), Some(Err(_))));
    assert!(tokens.next().is_none());
    assert_eq!(tokens.position(), 3);
}

#[test]
fn tokens_of_bytes_and_strings_agree() {
    let text = String::from("(a b)");
    let mut from_string = text.tokens();
    let mut from_bytes = text.as_bytes().tokens();
    loop {
        match (from_string.next(), from_bytes.next()) {
            (None, None) => break,
            (Some(Ok(a)), Some(Ok(b))) => assert_eq!(format!("{:?}", a), format!("{:?}", b)),
            other => panic!("streams differ: {:?}", other),
        }
    }
}
