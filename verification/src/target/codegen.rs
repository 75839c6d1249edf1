//! From a graph of basic blocks and its symbol table to an assembly program.
//!
//! Every name of the symbol table, of a variable or of the temporary of a
//! literal, becomes a data label, so that every value has a place. Every block
//! becomes a code label with the name of the block. An instruction works on
//! the places of the names it mentions. The instruction set has no arithmetic
//! and no jumps: a single assignment and a move are generated, anything else
//! is not.

use super::assembler::fasm::{
    DataDirective, Fasm, FasmError, FasmView, Format, Instruction, InstructionView, Label,
    LabelView, Operand, OperandView, Register, Segment, SegmentView, instruction_views,
    label_views, segment_views,
};
use crate::frontend::ast::{SignKind, Signed, Unsigned, Value, value_of};
use crate::frontend::cfg::{BasicBlock, BlockView, Cfg, CfgView};
use crate::frontend::symboltable::{Scope, SymbolMap, SymbolTable, SymbolView};
use vstd::prelude::*;
use vstd::string::StringSliceAdditionalSpecFns;

verus! {

/// A name as the bytes of a label.
pub open spec fn bytes_of(name: Seq<char>) -> Seq<u8> {
    vstd::utf8::encode_utf8(name)
}

/// The data labels of the names of one scope, in the order of the scope.
pub open spec fn data_of_entries(entries: Seq<(Seq<char>, SymbolView)>) -> Seq<LabelView> {
    Seq::new(
        entries.len(),
        |i: int| LabelView::DataDef { data_dir: DataDirective::Db, name: bytes_of(entries[i].0) },
    )
}

/// The data labels of the names of all scopes, scope by scope.
pub open spec fn data_of_scopes(scopes: Seq<Scope>) -> Seq<LabelView>
    decreases scopes.len(),
{
    if scopes.len() == 0 {
        Seq::empty()
    } else {
        data_of_scopes(scopes.drop_last()) + data_of_entries(scopes.last().entries)
    }
}

/// The number that a literal is written as in an instruction, if it is not
/// negative and fits in a `usize`.
pub open spec fn immediate(value: Value) -> Option<usize> {
    if 0 <= value_of(value) <= usize::MAX {
        Some(value_of(value) as usize)
    } else {
        None
    }
}

/// The place of a name: a pointer to its data label.
pub open spec fn place(name: Seq<char>) -> OperandView {
    OperandView::Pointer(Box::new(OperandView::Label(bytes_of(name))))
}

/// The machine instructions of one instruction of a block, if it can be
/// generated: a single assignment moves the literal into the place of the
/// name; a move goes through `rax`.
pub open spec fn code_of_instruction(
    instruction: crate::frontend::cfg::InstructionView,
) -> Option<Seq<InstructionView>> {
    match instruction {
        crate::frontend::cfg::InstructionView::SAssign { lhs, symbol } => match symbol.val {
            Some(value) => match immediate(value) {
                Some(number) => Some(
                    seq![InstructionView::Mov { left: place(lhs), right: OperandView::Int(number) }],
                ),
                None => None,
            },
            None => None,
        },
        crate::frontend::cfg::InstructionView::Mov { lhs, rhs } => Some(
            seq![
                InstructionView::Mov { left: OperandView::Reg(Register::Rax), right: place(rhs) },
                InstructionView::Mov { left: place(lhs), right: OperandView::Reg(Register::Rax) },
            ],
        ),
        _ => None,
    }
}

/// The machine instructions of the instructions of a block from number
/// `from` on, if all of them can be generated.
pub open spec fn code_of_block(
    code: Seq<crate::frontend::cfg::InstructionView>,
    from: int,
) -> Option<Seq<InstructionView>>
    decreases code.len() - from,
{
    if 0 <= from < code.len() {
        match code_of_instruction(code[from]) {
            None => None,
            Some(first) => match code_of_block(code, from + 1) {
                None => None,
                Some(rest) => Some(first + rest),
            },
        }
    } else {
        Some(Seq::empty())
    }
}

/// The code label of a block, if its instructions can be generated.
pub open spec fn label_of_block(block: BlockView) -> Option<LabelView> {
    match code_of_block(block.code, 0) {
        Some(instructions) => Some(LabelView::CodeDef { name: bytes_of(block.name), instructions }),
        None => None,
    }
}

/// The code labels of the blocks from number `from` on, if all of them can
/// be generated.
pub open spec fn labels_of_blocks(blocks: Seq<BlockView>, from: int) -> Option<Seq<LabelView>>
    decreases blocks.len() - from,
{
    if 0 <= from < blocks.len() {
        match label_of_block(blocks[from]) {
            None => None,
            Some(label) => match labels_of_blocks(blocks, from + 1) {
                None => None,
                Some(rest) => Some(seq![label] + rest),
            },
        }
    } else {
        Some(Seq::empty())
    }
}

/// The program of a graph: an executable with a data segment, readable and
/// writable, that holds the data labels, and a code segment, readable and
/// executable, that holds the code labels.
pub open spec fn generated(cfg: CfgView) -> Result<FasmView, FasmError> {
    match labels_of_blocks(cfg.blocks, 0) {
        None => Err(FasmError::NotCompiled),
        Some(code) => Ok(
            FasmView {
                format: Format::ELF64_EXEC,
                rest: seq![
                    SegmentView {
                        name: ".data".spec_bytes(),
                        executable: false,
                        readable: true,
                        writable: true,
                        labels: data_of_scopes(cfg.scopes),
                    },
                    SegmentView {
                        name: ".text".spec_bytes(),
                        executable: true,
                        readable: true,
                        writable: false,
                        labels: code,
                    },
                ],
            },
        ),
    }
}

/// A number of 64 bits as a `usize`, if it fits.
fn fits(number: u64) -> (r: Option<usize>)
    ensures
        r == if number <= usize::MAX {
            Some(number as usize)
        } else {
            None::<usize>
        },
{
    if number <= usize::MAX as u64 {
        Some(number as usize)
    } else {
        None
    }
}

/// A signed number of 64 bits as a `usize`, if it is not negative and fits.
fn fits_signed(number: i64) -> (r: Option<usize>)
    ensures
        r == if 0 <= number <= usize::MAX {
            Some(number as usize)
        } else {
            None::<usize>
        },
{
    if number >= 0 {
        fits(number as u64)
    } else {
        None
    }
}

/// The number that a literal is written as in an instruction.
pub fn immediate_of(value: Value) -> (r: Option<usize>)
    ensures
        r == immediate(value),
{
    match value {
        Value::Integer(SignKind::Signed(Signed::Char(c))) => fits_signed(c as i64),
        Value::Integer(SignKind::Signed(Signed::Short(c))) => fits_signed(c as i64),
        Value::Integer(SignKind::Signed(Signed::Int(c))) => fits_signed(c as i64),
        Value::Integer(SignKind::Signed(Signed::Long(c))) => fits_signed(c),
        Value::Integer(SignKind::Signed(Signed::LongLong(c))) => fits_signed(c),
        Value::Integer(SignKind::Unsigned(Unsigned::Char(c))) => fits(c as u64),
        Value::Integer(SignKind::Unsigned(Unsigned::Short(c))) => fits(c as u64),
        Value::Integer(SignKind::Unsigned(Unsigned::Int(c))) => fits(c as u64),
        Value::Integer(SignKind::Unsigned(Unsigned::Long(c))) => fits(c),
        Value::Integer(SignKind::Unsigned(Unsigned::LongLong(c))) => fits(c),
    }
}

/// The place of a name.
fn place_of<'a>(name: &'a String) -> (operand: Operand<'a>)
    ensures
        operand@ == place(name@),
{
    let label = Operand::Label(
        Label::DataDef { data_dir: DataDirective::Db, name: name.as_str().as_bytes() },
    );
    proof {
        assert(label@ == OperandView::Label(bytes_of(name@)));
    }
    Operand::Pointer(Box::new(label))
}

/// The machine instructions of one instruction of a block.
fn instruction_code<'a>(instruction: &'a crate::frontend::cfg::Instruction) -> (code: Option<
    Vec<Instruction<'a>>,
>)
    ensures
        match code {
            Some(code) => code_of_instruction(instruction@) == Some(instruction_views(code@)),
            None => code_of_instruction(instruction@) is None,
        },
{
    match instruction {
        crate::frontend::cfg::Instruction::SAssign(assign) => {
            let number = match assign.rhs.val() {
                Some(value) => immediate_of(value),
                None => None,
            };
            match number {
                Some(number) => {
                    let mut code: Vec<Instruction<'a>> = Vec::new();
                    code.push(
                        Instruction::Mov { left: place_of(&assign.lhs), right: Operand::Int(number) },
                    );
                    Some(code)
                },
                None => None,
            }
        },
        crate::frontend::cfg::Instruction::Mov(mov) => {
            let mut code: Vec<Instruction<'a>> = Vec::new();
            code.push(
                Instruction::Mov { left: Operand::Reg(Register::Rax), right: place_of(&mov.rhs) },
            );
            code.push(
                Instruction::Mov { left: place_of(&mov.lhs), right: Operand::Reg(Register::Rax) },
            );
            Some(code)
        },
        _ => None,
    }
}

/// The code label of a block.
fn block_label<'a>(block: &'a BasicBlock) -> (label: Option<Label<'a>>)
    ensures
        match label {
            Some(label) => label_of_block(block@) == Some(label@),
            None => label_of_block(block@) is None,
        },
{
    let mut instructions: Vec<Instruction<'a>> = Vec::new();
    let mut i: usize = 0;
    while i < block.len()
        invariant
            i <= block@.code.len(),
            code_of_block(block@.code, 0) == match code_of_block(block@.code, i as int) {
                Some(rest) => Some(instruction_views(instructions@) + rest),
                None => None,
            },
        decreases block@.code.len() - i,
    {
        let one = match block.get(i) {
            Some(instruction) => instruction_code(instruction),
            None => None,
        };
        let mut code = match one {
            Some(code) => code,
            None => {
                return None;
            },
        };
        instructions.append(&mut code);
        i = i + 1;
    }
    Some(Label::CodeDef { name: block.name().as_str().as_bytes(), instructions })
}

/// Appends the data labels of the names of one scope.
fn table_labels<'a>(table: &'a SymbolTable, labels: &mut Vec<Label<'a>>)
    ensures
        label_views(final(labels)@) == label_views(old(labels)@) + data_of_entries(table@.entries),
{
    let mut i: usize = 0;
    let ghost start = label_views(labels@);
    let ghost all = data_of_entries(table@.entries);
    while i < table.len()
        invariant
            i <= table@.entries.len(),
            all == data_of_entries(table@.entries),
            label_views(labels@) == start + all.take(i as int),
        decreases table@.entries.len() - i,
    {
        match table.name_at(i) {
            Some(name) => {
                let label = Label::DataDef {
                    data_dir: DataDirective::Db,
                    name: name.as_str().as_bytes(),
                };
                proof {
                    assert(start + all.take(i as int + 1) =~= (start + all.take(i as int)).push(
                        all[i as int],
                    ));
                }
                labels.push(label);
            },
            None => {},
        }
        i = i + 1;
    }
}

/// The data labels of the names of all scopes.
fn data_labels<'a>(map: &'a SymbolMap) -> (labels: Vec<Label<'a>>)
    ensures
        label_views(labels@) == data_of_scopes(map@),
{
    let mut labels: Vec<Label<'a>> = Vec::new();
    let mut i: usize = 0;
    while i < map.len()
        invariant
            i <= map@.len(),
            label_views(labels@) == data_of_scopes(map@.take(i as int)),
        decreases map@.len() - i,
    {
        match map.table(i) {
            Some(table) => {
                proof {
                    assert(map@.take(i as int + 1).drop_last() =~= map@.take(i as int));
                }
                table_labels(table, &mut labels);
            },
            None => {},
        }
        i = i + 1;
    }
    proof {
        assert(map@.take(map@.len() as int) =~= map@);
    }
    labels
}

/// The program of a graph and its symbol table.
pub fn generate<'a>(cfg: &'a Cfg) -> (r: Result<Fasm<'a>, FasmError>)
    ensures
        match r {
            Ok(program) => generated(cfg@) == Ok::<FasmView, FasmError>(program@),
            Err(error) => generated(cfg@) == Err::<FasmView, FasmError>(error),
        },
{
    let mut code: Vec<Label<'a>> = Vec::new();
    let mut i: usize = 0;
    while i < cfg.len()
        invariant
            i <= cfg@.blocks.len(),
            labels_of_blocks(cfg@.blocks, 0) == match labels_of_blocks(cfg@.blocks, i as int) {
                Some(rest) => Some(label_views(code@) + rest),
                None => None,
            },
        decreases cfg@.blocks.len() - i,
    {
        let one = match cfg.block(i) {
            Some(block) => block_label(block),
            None => None,
        };
        let label = match one {
            Some(label) => label,
            None => {
                return Err(FasmError::NotCompiled);
            },
        };
        code.push(label);
        i = i + 1;
    }
    let data = Segment {
        name: ".data".as_bytes(),
        executable: false,
        readable: true,
        writable: true,
        labels: data_labels(cfg.symbols()),
    };
    let text = Segment {
        name: ".text".as_bytes(),
        executable: true,
        readable: true,
        writable: false,
        labels: code,
    };
    let mut rest: Vec<Segment<'a>> = Vec::new();
    rest.push(data);
    rest.push(text);
    let program = Fasm { format: Format::ELF64_EXEC, rest };
    proof {
        assert(segment_views(program.rest@) =~= seq![data@, text@]);
    }
    Ok(program)
}

} // verus!
