//! From parse trees to an assembly program.
//!
//! A program is a run of function definitions, `(defun NAME (PARAMETERS)
//! STATEMENT...)`. Each becomes a code label with the name of the function, in
//! the one segment of the program, which is readable and executable. A
//! statement is `(exit STATUS)`, with a decimal numeral for the status, which
//! becomes the system call that ends the process, or a string, which documents
//! the function and becomes nothing. Anything else is not compiled.

use super::assembler::fasm::{
    Fasm, FasmError, FasmView, Format, Instruction, InstructionView, Label, LabelView, Operand,
    OperandView, Register, Segment, SegmentView, instruction_views, label_views, segment_views,
};
use crate::input::configuration::{Configuration, Type};
use crate::syntax::parser::parser::{Parsed, ParserError, fails_behind, reads_forms};
use crate::syntax::parser::sexpr::{ListPtr, Sexpr, SexprType, trees_of};
use crate::syntax::tokenizer::tokenized::{Tokenized, token_stream};
use crate::syntax::parser::shape::Tree;
use crate::syntax::tokenizer::token::LexemeKind;
use vstd::prelude::*;
use vstd::string::StringSliceAdditionalSpecFns;

verus! {

/// The number of the system call that ends the process.
pub const SYS_EXIT: usize = 60;

/// The text of the symbol, if the tree is a symbol.
pub open spec fn symbol_text(tree: Tree) -> Option<Seq<u8>> {
    match tree {
        Tree::Leaf(lexeme) => if lexeme.kind == LexemeKind::Symbol {
            Some(lexeme.text)
        } else {
            None
        },
        Tree::Node(_) => None,
    }
}

/// Whether `text` is a decimal numeral: one or more ASCII digits.
pub open spec fn is_number(text: Seq<u8>) -> bool {
    text.len() > 0 && forall|i: int| 0 <= i < text.len() ==> 48 <= #[trigger] text[i] <= 57
}

/// The number that a run of ASCII digits denotes.
pub open spec fn number_value(text: Seq<u8>) -> nat
    decreases text.len(),
{
    if text.len() == 0 {
        0
    } else {
        number_value(text.drop_last()) * 10 + (text.last() - 48) as nat
    }
}

/// The instructions that end the process with `status`: the number of the
/// system call in `rax`, the status in `rdi`, which is cleared by an
/// exclusive or with itself if the status is zero, and the system call.
pub open spec fn exit_code(status: usize) -> Seq<InstructionView> {
    seq![
        InstructionView::Mov {
            left: OperandView::Reg(Register::Rax),
            right: OperandView::Int(SYS_EXIT),
        },
        if status == 0 {
            InstructionView::Xor {
                left: OperandView::Reg(Register::Rdi),
                right: OperandView::Reg(Register::Rdi),
            }
        } else {
            InstructionView::Mov {
                left: OperandView::Reg(Register::Rdi),
                right: OperandView::Int(status),
            }
        },
        InstructionView::Syscall,
    ]
}

/// The status of an exit statement, if the tree is one: a list of the symbol
/// `exit` and a symbol that is a decimal numeral which fits in a `usize`.
pub open spec fn exit_status(tree: Tree) -> Option<usize> {
    match tree {
        Tree::Node(children) => if children.len() == 2 && symbol_text(children[0]) == Some(
            "exit".spec_bytes(),
        ) {
            match symbol_text(children[1]) {
                Some(text) => if is_number(text) && number_value(text) <= usize::MAX {
                    Some(number_value(text) as usize)
                } else {
                    None
                },
                None => None,
            }
        } else {
            None
        },
        Tree::Leaf(_) => None,
    }
}

/// The instructions of a statement, if it can be compiled.
pub open spec fn compiled_statement(tree: Tree) -> Option<Seq<InstructionView>> {
    match tree {
        Tree::Leaf(lexeme) => if lexeme.kind == LexemeKind::String {
            Some(Seq::empty())
        } else {
            None
        },
        Tree::Node(_) => match exit_status(tree) {
            Some(status) => Some(exit_code(status)),
            None => None,
        },
    }
}

/// The instructions of the statements from number `from` on, one after
/// another, if all of them can be compiled.
pub open spec fn compiled_body(trees: Seq<Tree>, from: int) -> Option<Seq<InstructionView>>
    decreases trees.len() - from,
{
    if 0 <= from < trees.len() {
        match compiled_statement(trees[from]) {
            None => None,
            Some(code) => match compiled_body(trees, from + 1) {
                None => None,
                Some(rest) => Some(code + rest),
            },
        }
    } else {
        Some(Seq::empty())
    }
}

/// The code label of a function definition, if the tree is one and its
/// statements can be compiled: a list of the symbol `defun`, a symbol for the
/// name, a list for the parameters, and the statements.
pub open spec fn compiled_form(tree: Tree) -> Option<LabelView> {
    match tree {
        Tree::Node(children) => if children.len() >= 3 && symbol_text(children[0]) == Some(
            "defun".spec_bytes(),
        ) && children[2] is Node {
            match (symbol_text(children[1]), compiled_body(children, 3)) {
                (Some(name), Some(instructions)) => Some(LabelView::CodeDef { name, instructions }),
                _ => None,
            }
        } else {
            None
        },
        Tree::Leaf(_) => None,
    }
}

/// The code labels of the forms from number `from` on, in order, if all of
/// them can be compiled.
pub open spec fn compiled_labels(forms: Seq<Tree>, from: int) -> Option<Seq<LabelView>>
    decreases forms.len() - from,
{
    if 0 <= from < forms.len() {
        match compiled_form(forms[from]) {
            None => None,
            Some(label) => match compiled_labels(forms, from + 1) {
                None => None,
                Some(rest) => Some(seq![label] + rest),
            },
        }
    } else {
        Some(Seq::empty())
    }
}

/// The program that the forms are compiled to under `config`: an executable
/// with one segment, named `.text`, readable and executable, which holds the
/// code labels of the forms. A library is not compiled, nor is a program
/// with a form that is not compiled.
pub open spec fn compiled_program(config: Configuration, forms: Seq<Tree>) -> Result<
    FasmView,
    FasmError,
> {
    if config->bintype != Type::Executable {
        Err(FasmError::NotCompiled)
    } else {
        match compiled_labels(forms, 0) {
            None => Err(FasmError::NotCompiled),
            Some(labels) => Ok(
                FasmView {
                    format: Format::ELF64_EXEC,
                    rest: seq![
                        SegmentView {
                            name: ".text".spec_bytes(),
                            executable: true,
                            readable: true,
                            writable: false,
                            labels,
                        },
                    ],
                },
            ),
        }
    }
}

/// Whether two runs of bytes are the same.
pub fn same_bytes(a: &[u8], b: &[u8]) -> (same: bool)
    ensures
        same <==> a@ == b@,
{
    if a.len() != b.len() {
        return false;
    }
    let mut i: usize = 0;
    while i < a.len()
        invariant
            i <= a.len(),
            a.len() == b.len(),
            forall|j: int| 0 <= j < i ==> a@[j] == b@[j],
        decreases a.len() - i,
    {
        if a[i] != b[i] {
            return false;
        }
        i = i + 1;
    }
    proof {
        assert(a@ =~= b@);
    }
    true
}

/// A longer numeral does not denote a smaller number.
pub proof fn lemma_number_grows(text: Seq<u8>, k: int)
    requires
        0 <= k <= text.len(),
        forall|i: int| 0 <= i < text.len() ==> 48 <= #[trigger] text[i] <= 57,
    ensures
        number_value(text.take(k)) <= number_value(text),
    decreases text.len() - k,
{
    if k < text.len() {
        lemma_number_grows(text, k + 1);
        assert(text.take(k + 1).drop_last() =~= text.take(k));
    } else {
        assert(text.take(k) =~= text);
    }
}

/// The number that `text` denotes, if it is a decimal numeral and the number
/// fits in a `usize`.
pub fn number(text: &[u8]) -> (value: Option<usize>)
    ensures
        value == if is_number(text@) && number_value(text@) <= usize::MAX {
            Some(number_value(text@) as usize)
        } else {
            None::<usize>
        },
{
    if text.len() == 0 {
        return None;
    }
    let mut total: usize = 0;
    let mut i: usize = 0;
    while i < text.len()
        invariant
            i <= text.len(),
            text.len() > 0,
            forall|j: int| 0 <= j < i ==> 48 <= #[trigger] text@[j] <= 57,
            total == number_value(text@.take(i as int)),
        decreases text.len() - i,
    {
        let byte = text[i];
        if byte < 48 || byte > 57 {
            return None;
        }
        proof {
            assert(text@.take(i as int + 1).drop_last() =~= text@.take(i as int));
            if is_number(text@) {
                lemma_number_grows(text@, i as int + 1);
            }
        }
        let scaled = match total.checked_mul(10) {
            Some(scaled) => scaled,
            None => {
                return None;
            },
        };
        total = match scaled.checked_add((byte - 48) as usize) {
            Some(sum) => sum,
            None => {
                return None;
            },
        };
        i = i + 1;
    }
    proof {
        assert(text@.take(text.len() as int) =~= text@);
    }
    Some(total)
}

/// The bytes of the symbol, if the member is an item that is a symbol.
fn symbol_of<'a>(member: &SexprType<'a>, Ghost(tree): Ghost<Tree>) -> (text: Option<&'a [u8]>)
    requires
        match *member {
            SexprType::Item(item) => tree == Tree::Leaf(item.lexeme()),
            SexprType::List(_) => tree is Node,
        },
    ensures
        match text {
            Some(bytes) => symbol_text(tree) == Some(bytes@),
            None => symbol_text(tree) is None,
        },
{
    match member {
        SexprType::Item(item) => match item.data().kind() {
            LexemeKind::Symbol => item.data().literal(),
            _ => None,
        },
        SexprType::List(_) => None,
    }
}

/// The instructions that end the process with `status`.
fn exit_instructions<'a>(status: usize) -> (code: Vec<Instruction<'a>>)
    ensures
        instruction_views(code@) == exit_code(status),
{
    let mut code: Vec<Instruction<'a>> = Vec::new();
    code.push(
        Instruction::Mov { left: Operand::Reg(Register::Rax), right: Operand::Int(SYS_EXIT) },
    );
    if status == 0 {
        code.push(
            Instruction::Xor {
                left: Operand::Reg(Register::Rdi),
                right: Operand::Reg(Register::Rdi),
            },
        );
    } else {
        code.push(
            Instruction::Mov { left: Operand::Reg(Register::Rdi), right: Operand::Int(status) },
        );
    }
    code.push(Instruction::Syscall);
    code
}

/// Why a source could not be compiled.
#[derive(Debug)]
pub enum CompileError<'a> {
    /// The source could not be parsed.
    Parser(ParserError<'a>),
    /// The parsed forms could not be turned into a program.
    Assembly(FasmError),
}

/// Compiling: from parsed forms, or from source, to a program.
pub struct Compiled {}

impl Compiled {
    /// The status of the exit statement that list `id` of `sexpr` is, if it
    /// is one.
    fn exit_status<'a>(sexpr: &Sexpr<'a>, id: ListPtr) -> (status: Option<usize>)
        requires
            sexpr.wf(),
            id < sexpr.lists().len(),
        ensures
            status == exit_status(sexpr.subtree(id as int)),
    {
        proof {
            sexpr.lemma_subtree(id as int);
        }
        let ghost children = sexpr.subtree(id as int)->Node_0;
        let list = match sexpr.get(id) {
            Some(list) => list,
            None => {
                return None;
            },
        };
        if list.len() != 2 {
            return None;
        }
        let head = match list.get(0) {
            Some(member) => symbol_of(member, Ghost(children[0])),
            None => None,
        };
        let status = match list.get(1) {
            Some(member) => symbol_of(member, Ghost(children[1])),
            None => None,
        };
        match (head, status) {
            (Some(head), Some(status)) => if same_bytes(head, "exit".as_bytes()) {
                number(status)
            } else {
                None
            },
            _ => None,
        }
    }

    /// The instructions of the statement that `member` of list `id` is.
    fn statement<'a>(sexpr: &Sexpr<'a>, member: &SexprType<'a>, Ghost(tree): Ghost<Tree>) -> (code:
        Option<Vec<Instruction<'a>>>)
        requires
            sexpr.wf(),
            match *member {
                SexprType::Item(item) => tree == Tree::Leaf(item.lexeme()),
                SexprType::List(child) => child < sexpr.lists().len() && tree == sexpr.subtree(
                    child as int,
                ),
            },
        ensures
            match code {
                Some(code) => compiled_statement(tree) == Some(instruction_views(code@)),
                None => compiled_statement(tree) is None,
            },
    {
        match member {
            SexprType::Item(item) => match item.data().kind() {
                LexemeKind::String => {
                    let code: Vec<Instruction<'a>> = Vec::new();
                    Some(code)
                },
                _ => None,
            },
            SexprType::List(child) => {
                proof {
                    sexpr.lemma_subtree(*child as int);
                }
                match Self::exit_status(sexpr, *child) {
                    Some(status) => Some(exit_instructions(status)),
                    None => None,
                }
            },
        }
    }

    /// The code label that a parsed form is compiled to.
    pub fn label<'a>(sexpr: &Sexpr<'a>) -> (label: Option<Label<'a>>)
        requires
            sexpr.wf(),
        ensures
            match label {
                Some(label) => compiled_form(sexpr.tree()) == Some(label@),
                None => compiled_form(sexpr.tree()) is None,
            },
    {
        if sexpr.len() == 0 {
            proof {
                sexpr.lemma_has_root();
            }
            return None;
        }
        proof {
            sexpr.lemma_subtree(0);
        }
        let ghost children = sexpr.tree()->Node_0;
        let root = match sexpr.get(0) {
            Some(root) => root,
            None => {
                return None;
            },
        };
        if root.len() < 3 {
            return None;
        }
        let head = match root.get(0) {
            Some(member) => symbol_of(member, Ghost(children[0])),
            None => None,
        };
        let name = match root.get(1) {
            Some(member) => symbol_of(member, Ghost(children[1])),
            None => None,
        };
        let has_parameters = match root.get(2) {
            Some(SexprType::List(_)) => true,
            _ => false,
        };
        let is_defun = match head {
            Some(head) => same_bytes(head, "defun".as_bytes()),
            None => false,
        };
        if !is_defun || !has_parameters {
            return None;
        }
        let mut instructions: Vec<Instruction<'a>> = Vec::new();
        let mut i: usize = 3;
        while i < root.len()
            invariant
                sexpr.wf(),
                sexpr.lists().len() > 0,
                *root == sexpr.lists()[0],
                children == sexpr.tree()->Node_0,
                sexpr.tree() == sexpr.subtree(0),
                children.len() == root.entries().len(),
                forall|k: int|
                    0 <= k < root.entries().len() ==> match #[trigger] root.entries()[k] {
                        SexprType::Item(item) => children[k] == Tree::Leaf(item.lexeme()),
                        SexprType::List(child) => 0 < child < sexpr.lists().len() && children[k]
                            == sexpr.subtree(child as int),
                    },
                3 <= i <= root.entries().len(),
                compiled_body(children, 3) == match compiled_body(children, i as int) {
                    Some(rest) => Some(instruction_views(instructions@) + rest),
                    None => None,
                },
            decreases root.entries().len() - i,
        {
            let member = match root.get(i) {
                Some(member) => member,
                None => {
                    return None;
                },
            };
            let mut code = match Self::statement(sexpr, member, Ghost(children[i as int])) {
                Some(code) => code,
                None => {
                    return None;
                },
            };
            instructions.append(&mut code);
            i = i + 1;
        }
        match name {
            Some(name) => Some(Label::CodeDef { name, instructions }),
            None => None,
        }
    }

    /// The program that the parsed forms are compiled to under `config`.
    pub fn program<'a>(config: &Configuration, forms: &Vec<Sexpr<'a>>) -> (r: Result<
        Fasm<'a>,
        FasmError,
    >)
        requires
            forall|i: int| 0 <= i < forms@.len() ==> (#[trigger] forms@[i]).wf(),
        ensures
            match r {
                Ok(program) => compiled_program(*config, trees_of(forms@)) == Ok::<
                    FasmView,
                    FasmError,
                >(program@),
                Err(error) => compiled_program(*config, trees_of(forms@)) == Err::<
                    FasmView,
                    FasmError,
                >(error),
            },
    {
        match config.bintype() {
            Type::Executable => {},
            Type::Library => {
                return Err(FasmError::NotCompiled);
            },
        }
        let ghost trees = trees_of(forms@);
        let mut labels: Vec<Label<'a>> = Vec::new();
        let mut i: usize = 0;
        while i < forms.len()
            invariant
                i <= forms.len(),
                trees == trees_of(forms@),
                forall|j: int| 0 <= j < forms@.len() ==> (#[trigger] forms@[j]).wf(),
                compiled_labels(trees, 0) == match compiled_labels(trees, i as int) {
                    Some(rest) => Some(label_views(labels@) + rest),
                    None => None,
                },
            decreases forms.len() - i,
        {
            let label = match Self::label(&forms[i]) {
                Some(label) => label,
                None => {
                    return Err(FasmError::NotCompiled);
                },
            };
            labels.push(label);
            i = i + 1;
        }
        let segment = Segment {
            name: ".text".as_bytes(),
            executable: true,
            readable: true,
            writable: false,
            labels,
        };
        let mut rest: Vec<Segment<'a>> = Vec::new();
        rest.push(segment);
        let program = Fasm { format: Format::ELF64_EXEC, rest };
        proof {
            assert(segment_views(program.rest@) =~= seq![segment@]);
        }
        Ok(program)
    }
}

impl Compiled {
    /// Compiles a source under `config`: tokenizes and parses all of it, and
    /// turns the forms into a program.
    ///
    /// If all of the source is a run of complete forms, the outcome is that
    /// of compiling their trees. Otherwise it is the failure that ends the
    /// reading behind the complete forms the source starts with.
    pub fn from_source<'a>(config: &Configuration, source: &'a [u8]) -> (r: Result<
        Fasm<'a>,
        CompileError<'a>,
    >)
        ensures
            ({
                let items = token_stream(source@, 0);
                match r {
                    Ok(program) => exists|trees: Seq<Tree>|
                        #[trigger] reads_forms(items, items.len() as int, trees)
                            && compiled_program(*config, trees) == Ok::<FasmView, FasmError>(
                            program@,
                        ),
                    Err(CompileError::Assembly(error)) => exists|trees: Seq<Tree>|
                        #[trigger] reads_forms(items, items.len() as int, trees)
                            && compiled_program(*config, trees) == Err::<FasmView, FasmError>(
                            error,
                        ),
                    Err(CompileError::Parser(error)) => exists|n: int, trees: Seq<Tree>|
                        #[trigger] fails_behind(items, n, trees, error@),
                }
            }),
    {
        let mut parsed = Parsed::new(Tokenized::new(source));
        let ghost items = parsed.remaining();
        let (forms, failure) = parsed.parse_all();
        match failure {
            Some(error) => {
                proof {
                    let n = items.len() - parsed.remaining().len();
                    assert(fails_behind(items, n, trees_of(forms@), error@));
                }
                Err(CompileError::Parser(error))
            },
            None => {
                proof {
                    assert(reads_forms(items, items.len() as int, trees_of(forms@)));
                }
                match Self::program(config, &forms) {
                    Ok(program) => Ok(program),
                    Err(error) => Err(CompileError::Assembly(error)),
                }
            },
        }
    }
}

} // verus!
