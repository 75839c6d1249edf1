use sexpr_compiler::syntax::parser::parser::{Parsed, ParserError};
use sexpr_compiler::syntax::parser::sexpr::{
    Arena, Item, List, Sexpr, SexprType, Traverser, Zipper, ZipperError,
};
use sexpr_compiler::syntax::tokenizer::token::{Lexeme, LexemeKind};
use sexpr_compiler::syntax::tokenizer::tokenized::{Tokenized, TokenizerErrorKind, Tokens};

const PROGRAM: &str = "(defun print ( :string msg ) \"Prints msg\" ( dbg msg ) ) ( exit 1 )";

fn first_form(input: &str) -> Sexpr<'_> {
    let mut parsed = Parsed::new(input.tokens());
    parsed.next().unwrap().unwrap()
}

fn item_text<'a>(member: &SexprType<'a>) -> &'a [u8] {
    match member {
        SexprType::Item(item) => item.data().literal().unwrap(),
        other => panic!("not an item: {:?}", other),
    }
}

fn child(member: &SexprType<'_>) -> usize {
    match member {
        SexprType::List(id) => *id,
        other => panic!("not a list: {:?}", other),
    }
}

#[test]
fn parser_parse() {
    let s = PROGRAM.tokens();
    let mut parsed = Parsed::new(s);
    let first = parsed.next();
    println!("first {:#?}", first);
    let second = parsed.next();
    println!("second {:#?}", second);
    let third = parsed.next();
    println!("{:#?}", third);

    let first = first.unwrap().unwrap();
    assert_eq!(first.len(), 3);
    assert_eq!(first.leaf_count(), Some(7));
    let root = first.get(0).unwrap();
    assert_eq!(root.len(), 5);
    assert_eq!(item_text(root.get(0).unwrap()), "defun".as_bytes());
    assert_eq!(item_text(root.get(1).unwrap()), "print".as_bytes());
    assert_eq!(child(root.get(2).unwrap()), 1);
    assert_eq!(item_text(root.get(3).unwrap()), "Prints msg".as_bytes());
    assert_eq!(child(root.get(4).unwrap()), 2);

    let second = second.unwrap().unwrap();
    assert_eq!(second.len(), 1);
    assert_eq!(second.leaf_count(), Some(2));
    assert!(third.is_none());
}

#[test]
fn sexpr_parse() {
    let mut s = PROGRAM.tokens();
    let zipper = Zipper::new(&mut s).unwrap().unwrap();
    let sexpr = zipper.iter();
    let mut traverser = sexpr.traverse_ref();

    let first = traverser.step();
    println!("{:#?}", first);
    let second = traverser.step();
    println!("{:#?}", second);
    let third = traverser.step();
    println!("{:#?}", third);

    let first = first.unwrap();
    assert_eq!(first.len(), 5);
    assert_eq!(first.get_parent(), None);
    let second = second.unwrap();
    assert_eq!(second.len(), 2);
    assert_eq!(second.get_parent(), Some(0));
    assert_eq!(item_text(second.get(0).unwrap()), "string".as_bytes());
    assert_eq!(item_text(second.get(1).unwrap()), "msg".as_bytes());
    let third = third.unwrap();
    assert_eq!(third.len(), 2);
    assert_eq!(third.get_parent(), Some(0));
    assert_eq!(item_text(third.get(0).unwrap()), "dbg".as_bytes());
    assert!(traverser.step().is_none());
    assert!(traverser.step().is_none());
    assert_eq!(s.position(), PROGRAM.len());
}

#[test]
fn leaves_are_the_lexemes_between_the_parentheses() {
    let sexpr = first_form("(a (b c) (d (e \"f g\" :h #i nil)) j)");
    assert_eq!(sexpr.leaf_count(), Some(10));
    assert_eq!(sexpr.len(), 4);
}

#[test]
fn an_empty_list_has_no_leaves() {
    let sexpr = first_form("()");
    assert_eq!(sexpr.len(), 1);
    assert_eq!(sexpr.leaf_count(), Some(0));
    assert_eq!(sexpr.get(0).unwrap().len(), 0);
}

#[test]
fn lists_are_numbered_in_the_order_they_open() {
    let sexpr = first_form("(a (b (c)) (d))");
    assert_eq!(sexpr.len(), 4);
    let root = sexpr.get(0).unwrap();
    assert_eq!(child(root.get(1).unwrap()), 1);
    assert_eq!(child(root.get(2).unwrap()), 3);
    let b = sexpr.get(1).unwrap();
    assert_eq!(child(b.get(1).unwrap()), 2);
    assert_eq!(b.get_parent(), Some(0));
    assert_eq!(sexpr.get(2).unwrap().get_parent(), Some(1));
    assert_eq!(sexpr.get(3).unwrap().get_parent(), Some(0));
    assert!(sexpr.get(4).is_none());
}

#[test]
fn an_arena_holds_one_list_for_each_opening_parenthesis() {
    let mut tokens = "( a ( b ) c )".tokens();
    let sexpr = Zipper::new(&mut tokens).unwrap().unwrap().iter();
    assert_eq!(sexpr.len(), 2);
    let root = sexpr.get(0).unwrap();
    assert_eq!(root.len(), 3);
    assert_eq!(item_text(root.get(0).unwrap()), "a".as_bytes());
    assert_eq!(child(root.get(1).unwrap()), 1);
    assert_eq!(item_text(root.get(2).unwrap()), "c".as_bytes());
    assert_eq!(sexpr.get(1).unwrap().len(), 1);
    assert_eq!(sexpr.get(1).unwrap().get_parent(), Some(0));
    assert_eq!(root.get_parent(), None);
}

#[test]
fn the_rest_of_a_form_is_read_into_the_arena_it_is_given() {
    let mut tokens = "( ( a ) ) b )".tokens();
    let mut arena = Arena::begin();
    assert!(Zipper::next_sexpr(&mut tokens, 0, &mut arena).is_ok());
    assert!(tokens.next().is_none());
    assert_eq!(arena.len(), 3);
    let root = arena.get(0).unwrap();
    assert_eq!(root.len(), 2);
    assert_eq!(child(root.get(0).unwrap()), 1);
    assert_eq!(item_text(root.get(1).unwrap()), "b".as_bytes());
    let first = arena.get(1).unwrap();
    assert_eq!(first.get_parent(), Some(0));
    assert_eq!(first.len(), 1);
    assert_eq!(child(first.get(0).unwrap()), 2);
    let second = arena.get(2).unwrap();
    assert_eq!(second.get_parent(), Some(1));
    assert_eq!(item_text(second.get(0).unwrap()), "a".as_bytes());
    match second.get(0).unwrap() {
        SexprType::Item(item) => assert_eq!(item.get_parent(), 2),
        other => panic!("not an item: {:?}", other),
    }
    assert_eq!(Sexpr::from_arena(arena).leaf_count(), Some(2));
}

#[test]
fn every_list_of_a_finished_tree_is_closed() {
    let sexpr = first_form("(a (b (c)) (d))");
    for id in 0..sexpr.len() {
        assert!(sexpr.get(id).unwrap().is_closed());
    }
}

#[test]
fn items_know_their_list() {
    let sexpr = first_form("(a (b))");
    match sexpr.get(1).unwrap().get(0).unwrap() {
        SexprType::Item(item) => {
            assert_eq!(item.get_parent(), 1);
            assert_eq!(item.data().kind(), LexemeKind::Symbol);
        }
        other => panic!("not an item: {:?}", other),
    }
}

#[test]
fn an_open_list_at_the_end_is_unexpected_eof() {
    let mut parsed = Parsed::new("(a (b)".tokens());
    assert!(matches!(parsed.next(), Some(Err(ParserError::UnexpectedEOF))));
    assert!(parsed.next().is_none());
}

#[test]
fn a_leading_closing_parenthesis_is_unexpected() {
    let mut parsed = Parsed::new(")".tokens());
    assert!(matches!(parsed.next(), Some(Err(ParserError::UnexpectedR(0)))));
    assert!(parsed.next().is_none());
}

#[test]
fn a_closing_parenthesis_behind_a_form_is_unexpected_at_its_offset() {
    let mut parsed = Parsed::new("(a) )".tokens());
    assert!(matches!(parsed.next(), Some(Ok(_))));
    assert!(matches!(parsed.next(), Some(Err(ParserError::UnexpectedR(4)))));
}

#[test]
fn a_bare_lexeme_is_unexpected() {
    let mut parsed = Parsed::new("a (b)".tokens());
    match parsed.next() {
        Some(Err(ParserError::UnexpectedLexeme(lexeme))) => {
            assert_eq!(lexeme.kind(), LexemeKind::Symbol);
            assert_eq!(lexeme.literal(), Some("a".as_bytes()));
        }
        other => panic!("unexpected outcome: {:?}", other),
    }
    assert!(matches!(parsed.next(), Some(Ok(_))));
    assert!(parsed.next().is_none());
}

#[test]
fn a_lexeme_at_the_end_of_input_fails_at_its_start() {
    let mut parsed = Parsed::new("(print :debug hello".tokens());
    match parsed.next() {
        Some(Err(ParserError::Tokenizer(error))) => {
            assert_eq!(error.kind(), TokenizerErrorKind::EndWithSymbol);
            assert_eq!(error.start(), 14);
        }
        other => panic!("unexpected outcome: {:?}", other),
    }
    assert!(parsed.next().is_none());
}

#[test]
fn a_tokenizer_error_where_a_form_should_start_is_reported() {
    let mut parsed = Parsed::new("(a) \"open".tokens());
    assert!(matches!(parsed.next(), Some(Ok(_))));
    match parsed.next() {
        Some(Err(ParserError::Tokenizer(error))) => {
            assert_eq!(error.kind(), TokenizerErrorKind::StringDelimeterError);
            assert_eq!(error.start(), 4);
        }
        other => panic!("unexpected outcome: {:?}", other),
    }
}

#[test]
fn empty_input_has_no_form() {
    let mut parsed = Parsed::new("   ".tokens());
    assert!(parsed.next().is_none());
}

#[test]
fn parse_all_reads_every_form() {
    let mut parsed = Parsed::new(PROGRAM.tokens());
    let (forms, failure) = parsed.parse_all();
    assert!(failure.is_none());
    assert_eq!(forms.len(), 2);
    assert_eq!(forms[0].leaf_count(), Some(7));
    assert_eq!(forms[1].leaf_count(), Some(2));
}

#[test]
fn parse_all_keeps_the_forms_in_front_of_a_failure() {
    let mut parsed = Parsed::new("(a) (b c) (d".tokens());
    let (forms, failure) = parsed.parse_all();
    assert_eq!(forms.len(), 2);
    assert!(matches!(failure, Some(ParserError::Tokenizer(_))));
    let mut parsed = Parsed::new("(a) (b c) (d ".tokens());
    let (forms, failure) = parsed.parse_all();
    assert_eq!(forms.len(), 2);
    assert!(matches!(failure, Some(ParserError::UnexpectedEOF)));
}

#[test]
fn zipper_reports_every_tokenizer_error_and_parses_nothing() {
    let mut tokens = "(a b".tokens();
    match Zipper::new(&mut tokens) {
        Some(Err(errors)) => {
            assert_eq!(errors.len(), 1);
            assert!(matches!(errors[0], ZipperError::TokenizerError(_)));
        }
        other => panic!("unexpected outcome: {:?}", other),
    }
}

#[test]
fn zipper_reports_the_failure_of_reading_the_first_form() {
    let mut tokens = "(a (b) ".tokens();
    match Zipper::new(&mut tokens) {
        Some(Err(errors)) => {
            assert_eq!(errors.len(), 1);
            assert!(matches!(errors[0], ZipperError::UnexpectedEOF));
        }
        other => panic!("unexpected outcome: {:?}", other),
    }
    let mut tokens = ") ".tokens();
    match Zipper::new(&mut tokens) {
        Some(Err(errors)) => assert!(matches!(errors[0], ZipperError::UnexpectedR(0))),
        other => panic!("unexpected outcome: {:?}", other),
    }
    let mut tokens = "a ".tokens();
    match Zipper::new(&mut tokens) {
        Some(Err(errors)) => assert!(matches!(errors[0], ZipperError::UnexpectedLexeme(_))),
        other => panic!("unexpected outcome: {:?}", other),
    }
}

#[test]
fn zipper_of_nothing_is_nothing() {
    let mut tokens = "".tokens();
    assert!(Zipper::new(&mut tokens).is_none());
}

#[test]
fn zipper_parses_the_first_form_only() {
    let mut tokens = "(a b) (c)".tokens();
    let sexpr = Zipper::new(&mut tokens).unwrap().unwrap().iter();
    assert_eq!(sexpr.len(), 1);
    assert_eq!(sexpr.leaf_count(), Some(2));
}

#[test]
fn an_arena_hands_out_identities_in_order() {
    let mut arena = Arena::new();
    assert_eq!(arena.push(List::root()), 0);
    assert_eq!(arena.push(List::new(0)), 1);
    assert_eq!(arena.len(), 2);
    assert_eq!(arena.get(1).unwrap().get_parent(), Some(0));
    assert!(arena.get(2).is_none());
    assert!(arena.get_mut(0).is_some());
    assert!(arena.get_mut(2).is_none());
}

#[test]
fn arena_operations_build_a_tree() {
    let source = "x".as_bytes();
    let mut arena = Arena::begin();
    let inner = arena.open_list(0);
    assert_eq!(inner, 1);
    arena.push_lexeme(inner, Lexeme::Symbol { range: 0..1, literal: source });
    assert_eq!(arena.close_list(inner), Some(0));
    assert_eq!(arena.close_list(0), None);
    let sexpr = Sexpr::from_arena(arena);
    assert_eq!(sexpr.leaf_count(), Some(1));
    assert!(sexpr.get(0).unwrap().is_closed());
    assert_eq!(child(sexpr.get(0).unwrap().get(0).unwrap()), 1);
}

#[test]
fn an_item_wraps_its_lexeme() {
    let item = Item::new(Lexeme::Nil { range: 3..6 }, 7);
    assert_eq!(item.get_parent(), 7);
    assert_eq!(item.data().kind(), LexemeKind::Nil);
    assert_eq!(item.data().start(), 3);
}

#[test]
fn a_list_gives_up_its_members() {
    let sexpr = first_form("(a b)");
    let _ = sexpr;
    let list = List::root();
    assert_eq!(list.iter().len(), 0);
}

#[test]
fn tokens_can_be_parsed_from_bytes() {
    let mut parsed = Parsed::new(Tokenized::new("(a)".as_bytes()));
    assert!(matches!(parsed.next(), Some(Ok(_))));
}
