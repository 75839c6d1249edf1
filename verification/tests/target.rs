use sexpr_compiler::input::configuration::{Assembler, Configuration, Platform, Target, Type};
use sexpr_compiler::input::source::Source;
use sexpr_compiler::syntax::parser::parser::{Parsed, ParserError};
use sexpr_compiler::syntax::tokenizer::tokenized::Tokens;
use sexpr_compiler::target::assembler::assembly::Assembly;
use sexpr_compiler::target::assembler::fasm::{
    DataDirective, Fasm, FasmError, Format, Instruction, Label, Operand, Register, Segment,
};
use sexpr_compiler::target::cached::{
    CachError, CachePlan, Cached, IoFailure, IoKind, MemoryStore,
};
use sexpr_compiler::target::compiled::{number, same_bytes, CompileError, Compiled};
use sexpr_compiler::target::saved::{SaveError, Saved, Written};

fn executable() -> Configuration {
    Configuration::Compiled {
        platform: Platform::Linux,
        bintype: Type::Executable,
        target: Target::ELF64,
        assembler: Assembler::Fasm,
    }
}

fn library() -> Configuration {
    Configuration::Compiled {
        platform: Platform::Linux,
        bintype: Type::Library,
        target: Target::ELF64,
        assembler: Assembler::Fasm,
    }
}

fn hello<'a>() -> Fasm<'a> {
    let data = Segment {
        name: "data".as_bytes(),
        executable: false,
        readable: true,
        writable: true,
        labels: vec![Label::DataDef { data_dir: DataDirective::Db, name: "msg".as_bytes() }],
    };
    let code = Segment {
        name: "code".as_bytes(),
        executable: true,
        readable: true,
        writable: false,
        labels: vec![Label::CodeDef {
            name: "start".as_bytes(),
            instructions: vec![
                Instruction::Mov {
                    left: Operand::Reg(Register::Rax),
                    right: Operand::Int(1),
                },
                Instruction::Lea {
                    left: Operand::Reg(Register::Rsi),
                    right: Operand::Pointer(Box::new(Operand::Label(Label::DataDef {
                        data_dir: DataDirective::Db,
                        name: "msg".as_bytes(),
                    }))),
                },
                Instruction::Mov {
                    left: Operand::Reg(Register::Rdx),
                    right: Operand::Str("len".as_bytes()),
                },
                Instruction::Xor {
                    left: Operand::Reg(Register::Rdi),
                    right: Operand::Reg(Register::Rdi),
                },
                Instruction::Syscall,
            ],
        }],
    };
    Fasm { format: Format::ELF64_EXEC, rest: vec![data, code] }
}

const HELLO: &str = "format ELF64 executable\n\
segment data readable writable\n\
msg db\n\
segment code readable executable\n\
start\n\
mov rax,1\n\
lea rsi,[msg]\n\
mov rdx,len\n\
xor rdi,rdi\n\
syscall\n\
\n";

#[test]
fn a_program_is_rendered_line_by_line() {
    assert_eq!(String::from_utf8(hello().render()).unwrap(), HELLO);
}

#[test]
fn rendering_twice_gives_the_same_bytes() {
    let program = hello();
    assert_eq!(program.render(), program.render());
    assert_eq!(program.render(), hello().render());
    assert_eq!(program.assemble(), Ok(program.render()));
}

#[test]
fn an_empty_program_is_its_format_line_and_an_empty_line() {
    let program = Fasm { format: Format::ELF64_EXEC, rest: Vec::new() };
    assert_eq!(program.render(), "format ELF64 executable\n\n".as_bytes());
}

#[test]
fn a_segment_lists_the_flags_it_has() {
    let mut out = Vec::new();
    let segment = Segment {
        name: "s".as_bytes(),
        executable: true,
        readable: false,
        writable: true,
        labels: Vec::new(),
    };
    segment.render(&mut out);
    assert_eq!(out, "segment s writable executable\n".as_bytes());
    let mut out = Vec::new();
    let bare = Segment {
        name: "s".as_bytes(),
        executable: false,
        readable: false,
        writable: false,
        labels: Vec::new(),
    };
    bare.render(&mut out);
    assert_eq!(out, "segment s\n".as_bytes());
}

#[test]
fn operands_are_rendered_after_what_is_there() {
    let mut out = "x".as_bytes().to_vec();
    Operand::Pointer(Box::new(Operand::Pointer(Box::new(Operand::Int(1024))))).render(&mut out);
    assert_eq!(out, "x[[1024]]".as_bytes());
    let mut out = Vec::new();
    Operand::Int(0).render(&mut out);
    Operand::Int(usize::MAX).render(&mut out);
    assert_eq!(out, format!("0{}", usize::MAX).as_bytes());
    let mut out = Vec::new();
    Operand::Label(Label::CodeDef { name: "main".as_bytes(), instructions: Vec::new() })
        .render(&mut out);
    Register::Rsi.render(&mut out);
    DataDirective::Db.render(&mut out);
    assert_eq!(out, "mainrsidb".as_bytes());
}

#[test]
fn main_that_exits_with_zero_is_compiled() {
    let program = Compiled::from_source(&executable(), "(defun main () (exit 0))".as_bytes())
        .unwrap();
    let text = String::from_utf8(program.render()).unwrap();
    assert!(text.starts_with("format ELF64 executable"));
    assert_eq!(program.rest.len(), 1);
    assert_eq!(program.rest[0].labels.len(), 1);
    match &program.rest[0].labels[0] {
        Label::CodeDef { name, instructions } => {
            assert_eq!(*name, "main".as_bytes());
            assert_eq!(instructions.len(), 3);
        }
        other => panic!("not a code label: {:?}", other),
    }
    assert_eq!(
        text,
        "format ELF64 executable\n\
         segment .text readable executable\n\
         main\n\
         mov rax,60\n\
         xor rdi,rdi\n\
         syscall\n\
         \n"
    );
}

#[test]
fn every_function_becomes_a_code_label_in_order() {
    let source = "(defun first (:int n) \"Leaves with seven\" (exit 7)) (defun second () )";
    let program = Compiled::from_source(&executable(), source.as_bytes()).unwrap();
    assert_eq!(
        String::from_utf8(program.render()).unwrap(),
        "format ELF64 executable\n\
         segment .text readable executable\n\
         first\n\
         mov rax,60\n\
         mov rdi,7\n\
         syscall\n\
         second\n\
         \n"
    );
}

#[test]
fn what_is_no_function_is_not_compiled() {
    for source in [
        "(exit 1)",
        "(defun main)",
        "(defun main x (exit 1))",
        "(defun \"main\" () (exit 1))",
        "(defun main () (exit))",
        "(defun main () (exit one))",
        "(defun main () (exit 1 2))",
        "(defun main () (leave 1))",
        "(defun main () exit)",
        "(defun main () (exit 99999999999999999999999999))",
        "(defun main () (exit :1))",
        "(define main () (exit 1))",
    ] {
        match Compiled::from_source(&executable(), source.as_bytes()) {
            Err(CompileError::Assembly(FasmError::NotCompiled)) => {}
            other => panic!("{}: unexpected outcome: {:?}", source, other),
        }
    }
}

#[test]
fn a_library_is_not_compiled() {
    assert!(matches!(
        Compiled::from_source(&library(), "(defun main () (exit 0))".as_bytes()),
        Err(CompileError::Assembly(FasmError::NotCompiled))
    ));
}

#[test]
fn a_source_that_does_not_parse_is_not_compiled() {
    assert!(matches!(
        Compiled::from_source(&executable(), "(defun main () (exit 0".as_bytes()),
        Err(CompileError::Parser(ParserError::Tokenizer(_)))
    ));
    assert!(matches!(
        Compiled::from_source(&executable(), "(defun main () (exit 0)".as_bytes()),
        Err(CompileError::Parser(ParserError::UnexpectedEOF))
    ));
    assert!(matches!(
        Compiled::from_source(&executable(), "(defun main () (exit 0))) ".as_bytes()),
        Err(CompileError::Parser(ParserError::UnexpectedR(24)))
    ));
}

#[test]
fn no_source_is_an_empty_program() {
    let program = Compiled::from_source(&executable(), "".as_bytes()).unwrap();
    assert_eq!(
        program.render(),
        "format ELF64 executable\nsegment .text readable executable\n\n".as_bytes()
    );
}

#[test]
fn parsed_forms_are_compiled_one_by_one() {
    let mut parsed = Parsed::new("(defun main () (exit 3)) (defun x () )".tokens());
    let (forms, failure) = parsed.parse_all();
    assert!(failure.is_none());
    match Compiled::label(&forms[0]) {
        Some(Label::CodeDef { name, instructions }) => {
            assert_eq!(name, "main".as_bytes());
            assert_eq!(instructions.len(), 3);
        }
        other => panic!("not a code label: {:?}", other),
    }
    let program = Compiled::program(&executable(), &forms).unwrap();
    assert_eq!(program.rest[0].labels.len(), 2);
    assert_eq!(program.rest[0].name, ".text".as_bytes());
    assert!(program.rest[0].readable && program.rest[0].executable && !program.rest[0].writable);
}

#[test]
fn numerals_are_read_if_they_fit() {
    assert_eq!(number("0".as_bytes()), Some(0));
    assert_eq!(number("007".as_bytes()), Some(7));
    assert_eq!(number("60".as_bytes()), Some(60));
    assert_eq!(number(usize::MAX.to_string().as_bytes()), Some(usize::MAX));
    assert_eq!(number("18446744073709551616".as_bytes()), None);
    assert_eq!(number("".as_bytes()), None);
    assert_eq!(number("-1".as_bytes()), None);
    assert_eq!(number("1a".as_bytes()), None);
    assert!(same_bytes("exit".as_bytes(), "exit".as_bytes()));
    assert!(!same_bytes("exit".as_bytes(), "exiu".as_bytes()));
    assert!(!same_bytes("exit".as_bytes(), "exi".as_bytes()));
}

#[test]
fn the_second_write_under_a_key_fails_and_the_first_stays() {
    let mut store = MemoryStore::new();
    let program = hello();
    let entry = Cached::new(&mut store, "cache/", "hello.asm", &program).unwrap();
    assert_eq!(entry.bytes(), &program.render());
    assert_eq!(entry.bytes().as_slice(), HELLO.as_bytes());
    assert_eq!(entry.location(), "cache/hello.asm");
    assert_eq!(entry.name(), "hello.asm");
    assert_eq!(store.read("cache/hello.asm"), Some(&program.render()));

    let other = Fasm { format: Format::ELF64_EXEC, rest: Vec::new() };
    assert!(matches!(
        Cached::new(&mut store, "cache/", "hello.asm", &other),
        Err(CachError::Mutated)
    ));
    assert_eq!(store.read("cache/hello.asm"), Some(&program.render()));
    assert!(Cached::new(&mut store, "cache/", "other.asm", &other).is_ok());
    assert_eq!(store.read("cache/other.asm"), Some(&other.render()));
    assert_eq!(store.read("cache/hello.asm"), Some(&program.render()));
}

#[test]
fn path_and_key_are_put_together_as_they_are() {
    assert_eq!(Cached::full_path("dir", "file"), "dirfile");
    assert_eq!(Cached::full_path("dir/", "file"), "dir/file");
    assert_eq!(Cached::full_path("", ""), "");
    let mut store = MemoryStore::new();
    let program = hello();
    assert!(Cached::new(&mut store, "a", "bc", &program).is_ok());
    assert!(matches!(
        Cached::new(&mut store, "ab", "c", &program),
        Err(CachError::Mutated)
    ));
}

struct Broken;

impl Assembly for Broken {
    type Error = FasmError;

    fn assemble(&self) -> Result<Vec<u8>, FasmError> {
        Err(FasmError::FasmNotFound)
    }
}

#[test]
fn a_program_that_cannot_be_rendered_is_not_written() {
    let mut store = MemoryStore::new();
    assert!(matches!(
        Cached::new(&mut store, "cache/", "k", &Broken),
        Err(CachError::AssemblyError(FasmError::FasmNotFound))
    ));
    assert!(store.read("cache/k").is_none());
    assert!(matches!(
        Cached::plan("cache/", "k", &Broken),
        Err(CachError::AssemblyError(FasmError::FasmNotFound))
    ));
    assert!(matches!(
        Saved::plan("saved/", "k", &Broken),
        Err(SaveError::AsmError(FasmError::FasmNotFound))
    ));
}

fn failure(kind: IoKind) -> IoFailure {
    IoFailure { kind, message: String::from("no") }
}

fn plan() -> CachePlan {
    Cached::plan("cache/", "k", &hello()).unwrap()
}

#[test]
fn the_outcome_of_the_writing_decides_the_entry() {
    let entry = Cached::conclude::<FasmError>(plan(), Ok(())).unwrap();
    assert_eq!(entry.bytes().as_slice(), HELLO.as_bytes());
    assert_eq!(entry.location(), "cache/k");
    assert!(matches!(
        Cached::conclude::<FasmError>(plan(), Err(failure(IoKind::AlreadyExists))),
        Err(CachError::Mutated)
    ));
    for kind in [IoKind::NotFound, IoKind::PermissionDenied, IoKind::Other] {
        match Cached::conclude::<FasmError>(plan(), Err(failure(kind))) {
            Err(CachError::IOError(f)) => {
                assert_eq!(f.kind, kind);
                assert_eq!(f.message, "no");
            }
            other => panic!("unexpected outcome: {:?}", other),
        }
    }
}

#[test]
fn a_plan_holds_what_the_rendering_came_to() {
    let plan = Cached::planned::<FasmError>("dir/", "key", Ok(vec![1, 2, 3])).unwrap();
    assert_eq!(plan.key, "key");
    assert_eq!(plan.path, "dir/key");
    assert_eq!(plan.bytes, vec![1, 2, 3]);
    assert!(matches!(
        Cached::planned("dir/", "key", Err(FasmError::NotCompiled)),
        Err(CachError::AssemblyError(FasmError::NotCompiled))
    ));
    let plan = Saved::planned::<FasmError>("dir/", "key", Ok(vec![4])).unwrap();
    assert_eq!(plan.path, "dir/key");
    assert_eq!(plan.bytes, vec![4]);
    assert!(matches!(
        Saved::planned("dir/", "key", Err(FasmError::NotCompiled)),
        Err(SaveError::AsmError(FasmError::NotCompiled))
    ));
}

#[test]
fn rendered_bytes_are_written_as_they_are() {
    let mut store = MemoryStore::new();
    let entry = Cached::write::<FasmError>(&mut store, "c/", "k", Ok(vec![7, 8])).unwrap();
    assert_eq!(entry.bytes(), &vec![7, 8]);
    assert_eq!(store.read("c/k"), Some(&vec![7, 8]));
    assert!(matches!(
        Cached::write::<FasmError>(&mut store, "c/", "k", Ok(vec![9])),
        Err(CachError::Mutated)
    ));
    assert!(matches!(
        Cached::write(&mut store, "c/", "other", Err(FasmError::FasmNotFound)),
        Err(CachError::AssemblyError(FasmError::FasmNotFound))
    ));
    assert_eq!(store.read("c/k"), Some(&vec![7, 8]));
    assert!(store.read("c/other").is_none());
}

#[test]
fn an_entry_is_valid_for_its_key_if_its_file_is_there_and_not_empty() {
    let entry = Cached::conclude::<FasmError>(plan(), Ok(())).unwrap();
    assert!(entry.is_valid("k", Some(HELLO.len())));
    assert!(entry.is_valid("k", Some(1)));
    assert!(!entry.is_valid("k", Some(0)));
    assert!(!entry.is_valid("k", None));
    assert!(!entry.is_valid("other", Some(HELLO.len())));
}

#[test]
fn saving_treats_a_file_that_exists_as_a_failure_of_the_writing() {
    let plan = Saved::plan("saved/", "k", &hello()).unwrap();
    assert_eq!(plan.path, "saved/k");
    assert_eq!(plan.key, "k");
    let saved = Saved::conclude::<FasmError>(plan, Ok(())).unwrap();
    assert_eq!(saved.bytes().as_slice(), HELLO.as_bytes());
    assert_eq!(saved.location(), "saved/k");
    let plan = Saved::plan("saved/", "k", &hello()).unwrap();
    match Saved::conclude::<FasmError>(plan, Err(failure(IoKind::AlreadyExists))) {
        Err(SaveError::IO(f)) => assert_eq!(f.kind, IoKind::AlreadyExists),
        other => panic!("unexpected outcome: {:?}", other),
    }
    assert_eq!(Written::Saved(saved).bytes().as_slice(), HELLO.as_bytes());
    let entry = Cached::conclude::<FasmError>(
        Cached::plan("cache/", "k", &hello()).unwrap(),
        Ok(()),
    )
    .unwrap();
    assert_eq!(Written::Cached(entry).bytes().as_slice(), HELLO.as_bytes());
}

#[test]
fn a_store_creates_a_file_once() {
    let mut store = MemoryStore::new();
    assert!(store.read("a").is_none());
    assert!(store.create_new("a", &vec![1, 2]).is_ok());
    match store.create_new("a", &vec![3]) {
        Err(f) => assert_eq!(f.kind, IoKind::AlreadyExists),
        Ok(()) => panic!("created twice"),
    }
    assert_eq!(store.read("a"), Some(&vec![1, 2]));
    assert!(store.create_new("b", &vec![]).is_ok());
    assert_eq!(store.read("b"), Some(&vec![]));
}

#[test]
fn a_source_carries_its_configuration() {
    let source = Source::new(executable(), String::from("(a)"));
    assert_eq!(source.config(), executable());
    assert_eq!(source.code(), "(a)");
    assert_eq!(source.config().bintype(), Type::Executable);
    assert_eq!(source.config().target(), Target::ELF64);
    assert_eq!(library().bintype(), Type::Library);
}
