//! The program model of the flat assembler, and its text.
//!
//! The text of a program is its format line, then its segments in order, then
//! an empty line. A segment is its header line and then its labels in order.
//! A data label is one line; a code label is a line with its name, followed by
//! its instructions, one to a line. Nothing is reordered or left out.

use super::assembly::Assembly;
use crate::text::{decimal_bytes, push_bytes, push_decimal, push_text};
use vstd::prelude::*;
use vstd::string::StringSliceAdditionalSpecFns;

verus! {

/// The format declaration of a program.
#[allow(non_camel_case_types)]
#[derive(Clone, Copy, Debug, PartialEq, Eq, Structural)]
pub enum Format {
    ELF64_EXEC,
}

/// The registers.
#[derive(Clone, Copy, Debug, PartialEq, Eq, Structural)]
pub enum Register {
    Rdx,
    Rsi,
    Rdi,
    Rax,
}

/// The directives that define data.
#[derive(Clone, Copy, Debug, PartialEq, Eq, Structural)]
pub enum DataDirective {
    Db,
}

/// Why no program text could be handed to the assembler.
#[derive(Clone, Copy, Debug, PartialEq, Eq, Structural)]
pub enum FasmError {
    NotCompiled,
    FasmNotFound,
}

/// What an operand is, as a mathematical value. A label operand stands for
/// the name of the label.
pub enum OperandView {
    Reg(Register),
    Str(Seq<u8>),
    Int(usize),
    Label(Seq<u8>),
    Pointer(Box<OperandView>),
}

/// What an instruction is, as a mathematical value.
pub enum InstructionView {
    Mov { left: OperandView, right: OperandView },
    Lea { left: OperandView, right: OperandView },
    Xor { left: OperandView, right: OperandView },
    Syscall,
}

/// What a label is, as a mathematical value.
pub enum LabelView {
    DataDef { data_dir: DataDirective, name: Seq<u8> },
    CodeDef { name: Seq<u8>, instructions: Seq<InstructionView> },
}

/// What a segment is, as a mathematical value.
pub struct SegmentView {
    pub name: Seq<u8>,
    pub executable: bool,
    pub readable: bool,
    pub writable: bool,
    pub labels: Seq<LabelView>,
}

/// What a program is, as a mathematical value.
pub struct FasmView {
    pub format: Format,
    pub rest: Seq<SegmentView>,
}

/// A machine instruction.
#[derive(Debug)]
pub enum Instruction<'a> {
    Mov { left: Operand<'a>, right: Operand<'a> },
    Lea { left: Operand<'a>, right: Operand<'a> },
    Xor { left: Operand<'a>, right: Operand<'a> },
    Syscall,
}

/// An operand of an instruction.
#[derive(Debug)]
pub enum Operand<'a> {
    Reg(Register),
    Str(&'a [u8]),
    Int(usize),
    Label(Label<'a>),
    Pointer(Box<Operand<'a>>),
}

/// A named place in a segment: data, or code with its instructions.
#[derive(Debug)]
pub enum Label<'a> {
    DataDef { data_dir: DataDirective, name: &'a [u8] },
    CodeDef { name: &'a [u8], instructions: Vec<Instruction<'a>> },
}

/// A segment: its name, its access flags and its labels.
#[derive(Debug)]
pub struct Segment<'a> {
    pub name: &'a [u8],
    pub executable: bool,
    pub readable: bool,
    pub writable: bool,
    pub labels: Vec<Label<'a>>,
}

/// A program: its format and its segments.
#[derive(Debug)]
pub struct Fasm<'a> {
    pub format: Format,
    pub rest: Vec<Segment<'a>>,
}

/// The name of a label.
pub open spec fn label_name(label: Label) -> Seq<u8> {
    match label {
        Label::DataDef { name, .. } => name@,
        Label::CodeDef { name, .. } => name@,
    }
}

/// The view of an operand.
pub open spec fn operand_view(operand: Operand) -> OperandView
    decreases operand,
{
    match operand {
        Operand::Reg(reg) => OperandView::Reg(reg),
        Operand::Str(s) => OperandView::Str(s@),
        Operand::Int(n) => OperandView::Int(n),
        Operand::Label(label) => OperandView::Label(label_name(label)),
        Operand::Pointer(inner) => OperandView::Pointer(Box::new(operand_view(*inner))),
    }
}

/// The view of an instruction.
pub open spec fn instruction_view(instruction: Instruction) -> InstructionView {
    match instruction {
        Instruction::Mov { left, right } => InstructionView::Mov {
            left: operand_view(left),
            right: operand_view(right),
        },
        Instruction::Lea { left, right } => InstructionView::Lea {
            left: operand_view(left),
            right: operand_view(right),
        },
        Instruction::Xor { left, right } => InstructionView::Xor {
            left: operand_view(left),
            right: operand_view(right),
        },
        Instruction::Syscall => InstructionView::Syscall,
    }
}

/// The views of a run of instructions.
pub open spec fn instruction_views(instructions: Seq<Instruction>) -> Seq<InstructionView> {
    Seq::new(instructions.len(), |i: int| instruction_view(instructions[i]))
}

/// The view of a label.
pub open spec fn label_view(label: Label) -> LabelView {
    match label {
        Label::DataDef { data_dir, name } => LabelView::DataDef { data_dir, name: name@ },
        Label::CodeDef { name, instructions } => LabelView::CodeDef {
            name: name@,
            instructions: instruction_views(instructions@),
        },
    }
}

/// The views of a run of labels.
pub open spec fn label_views(labels: Seq<Label>) -> Seq<LabelView> {
    Seq::new(labels.len(), |i: int| label_view(labels[i]))
}

/// The view of a segment.
pub open spec fn segment_view(segment: Segment) -> SegmentView {
    SegmentView {
        name: segment.name@,
        executable: segment.executable,
        readable: segment.readable,
        writable: segment.writable,
        labels: label_views(segment.labels@),
    }
}

/// The views of a run of segments.
pub open spec fn segment_views(segments: Seq<Segment>) -> Seq<SegmentView> {
    Seq::new(segments.len(), |i: int| segment_view(segments[i]))
}

impl<'a> View for Operand<'a> {
    type V = OperandView;

    open spec fn view(&self) -> OperandView {
        operand_view(*self)
    }
}

impl<'a> View for Instruction<'a> {
    type V = InstructionView;

    open spec fn view(&self) -> InstructionView {
        instruction_view(*self)
    }
}

impl<'a> View for Label<'a> {
    type V = LabelView;

    open spec fn view(&self) -> LabelView {
        label_view(*self)
    }
}

impl<'a> View for Segment<'a> {
    type V = SegmentView;

    open spec fn view(&self) -> SegmentView {
        segment_view(*self)
    }
}

impl<'a> View for Fasm<'a> {
    type V = FasmView;

    open spec fn view(&self) -> FasmView {
        FasmView { format: self.format, rest: segment_views(self.rest@) }
    }
}

/// The format line.
pub open spec fn format_text(format: Format) -> Seq<u8> {
    match format {
        Format::ELF64_EXEC => "format ELF64 executable\n".spec_bytes(),
    }
}

/// How a register is written.
pub open spec fn register_text(register: Register) -> Seq<u8> {
    match register {
        Register::Rax => "rax".spec_bytes(),
        Register::Rsi => "rsi".spec_bytes(),
        Register::Rdi => "rdi".spec_bytes(),
        Register::Rdx => "rdx".spec_bytes(),
    }
}

/// How a data directive is written.
pub open spec fn directive_text(directive: DataDirective) -> Seq<u8> {
    match directive {
        DataDirective::Db => "db".spec_bytes(),
    }
}

/// How an operand is written: a register by its name, a string as it is, an
/// integer as a decimal numeral, a label by its name, a pointer as its
/// target in square brackets.
pub open spec fn operand_text(operand: OperandView) -> Seq<u8>
    decreases operand,
{
    match operand {
        OperandView::Reg(reg) => register_text(reg),
        OperandView::Str(s) => s,
        OperandView::Int(n) => decimal_bytes(n as nat),
        OperandView::Label(name) => name,
        OperandView::Pointer(inner) => "[".spec_bytes() + operand_text(*inner) + "]".spec_bytes(),
    }
}

/// The line of an instruction with two operands.
pub open spec fn binary_text(mnemonic: Seq<u8>, left: OperandView, right: OperandView) -> Seq<u8> {
    mnemonic + operand_text(left) + ",".spec_bytes() + operand_text(right) + "\n".spec_bytes()
}

/// The line of an instruction.
pub open spec fn instruction_text(instruction: InstructionView) -> Seq<u8> {
    match instruction {
        InstructionView::Mov { left, right } => binary_text("mov ".spec_bytes(), left, right),
        InstructionView::Xor { left, right } => binary_text("xor ".spec_bytes(), left, right),
        InstructionView::Lea { left, right } => binary_text("lea ".spec_bytes(), left, right),
        InstructionView::Syscall => "syscall\n".spec_bytes(),
    }
}

/// The lines of a run of instructions.
pub open spec fn instructions_text(instructions: Seq<InstructionView>) -> Seq<u8>
    decreases instructions.len(),
{
    if instructions.len() == 0 {
        Seq::empty()
    } else {
        instructions_text(instructions.drop_last()) + instruction_text(instructions.last())
    }
}

/// The lines of a label: for data its name and directive; for code its name
/// and then its instructions.
pub open spec fn label_text(label: LabelView) -> Seq<u8> {
    match label {
        LabelView::DataDef { data_dir, name } => name + " ".spec_bytes() + directive_text(data_dir)
            + "\n".spec_bytes(),
        LabelView::CodeDef { name, instructions } => name + "\n".spec_bytes() + instructions_text(
            instructions,
        ),
    }
}

/// The lines of a run of labels.
pub open spec fn labels_text(labels: Seq<LabelView>) -> Seq<u8>
    decreases labels.len(),
{
    if labels.len() == 0 {
        Seq::empty()
    } else {
        labels_text(labels.drop_last()) + label_text(labels.last())
    }
}

/// The access flags of a segment, each with a space in front.
pub open spec fn flags_text(segment: SegmentView) -> Seq<u8> {
    (if segment.readable {
        " readable".spec_bytes()
    } else {
        Seq::empty()
    }) + (if segment.writable {
        " writable".spec_bytes()
    } else {
        Seq::empty()
    }) + (if segment.executable {
        " executable".spec_bytes()
    } else {
        Seq::empty()
    })
}

/// The lines of a segment: its header, then its labels.
pub open spec fn segment_text(segment: SegmentView) -> Seq<u8> {
    "segment ".spec_bytes() + segment.name + flags_text(segment) + "\n".spec_bytes() + labels_text(
        segment.labels,
    )
}

/// The lines of a run of segments.
pub open spec fn segments_text(segments: Seq<SegmentView>) -> Seq<u8>
    decreases segments.len(),
{
    if segments.len() == 0 {
        Seq::empty()
    } else {
        segments_text(segments.drop_last()) + segment_text(segments.last())
    }
}

/// The text of a program.
pub open spec fn fasm_text(program: FasmView) -> Seq<u8> {
    format_text(program.format) + segments_text(program.rest) + "\n".spec_bytes()
}

impl Format {
    /// Appends the format line to `out`.
    pub fn render(&self, out: &mut Vec<u8>)
        ensures
            final(out)@ == old(out)@ + format_text(*self),
    {
        match self {
            Format::ELF64_EXEC => push_text(out, "format ELF64 executable\n"),
        }
    }
}

impl Register {
    /// Appends the name of the register to `out`.
    pub fn render(&self, out: &mut Vec<u8>)
        ensures
            final(out)@ == old(out)@ + register_text(*self),
    {
        match self {
            Register::Rax => push_text(out, "rax"),
            Register::Rsi => push_text(out, "rsi"),
            Register::Rdi => push_text(out, "rdi"),
            Register::Rdx => push_text(out, "rdx"),
        }
    }
}

impl DataDirective {
    /// Appends the directive to `out`.
    pub fn render(&self, out: &mut Vec<u8>)
        ensures
            final(out)@ == old(out)@ + directive_text(*self),
    {
        match self {
            DataDirective::Db => push_text(out, "db"),
        }
    }
}

impl<'a> Label<'a> {
    /// The name of the label.
    pub fn name(&self) -> (name: &'a [u8])
        ensures
            name@ == label_name(*self),
    {
        match self {
            Label::DataDef { name, .. } => *name,
            Label::CodeDef { name, .. } => *name,
        }
    }

    /// Appends the lines of the label to `out`.
    pub fn render(&self, out: &mut Vec<u8>)
        ensures
            final(out)@ == old(out)@ + label_text(self@),
    {
        match self {
            Label::DataDef { data_dir, name } => {
                push_bytes(out, name);
                push_text(out, " ");
                data_dir.render(out);
                push_text(out, "\n");
            },
            Label::CodeDef { name, instructions } => {
                push_bytes(out, name);
                push_text(out, "\n");
                let ghost head = out@;
                let ghost views = instruction_views(instructions@);
                let mut i: usize = 0;
                while i < instructions.len()
                    invariant
                        i <= instructions.len(),
                        views == instruction_views(instructions@),
                        out@ == head + instructions_text(views.take(i as int)),
                    decreases instructions.len() - i,
                {
                    instructions[i].render(out);
                    proof {
                        assert(views.take(i as int + 1).drop_last() =~= views.take(i as int));
                    }
                    i = i + 1;
                }
                proof {
                    assert(views.take(instructions.len() as int) =~= views);
                }
            },
        }
    }
}

impl<'a> Operand<'a> {
    /// Appends the operand to `out`.
    pub fn render(&self, out: &mut Vec<u8>)
        ensures
            final(out)@ == old(out)@ + operand_text(self@),
        decreases self,
    {
        match self {
            Operand::Reg(reg) => reg.render(out),
            Operand::Str(s) => push_bytes(out, s),
            Operand::Int(num) => push_decimal(out, *num),
            Operand::Label(label) => push_bytes(out, label.name()),
            Operand::Pointer(ptr) => {
                push_text(out, "[");
                (&**ptr).render(out);
                push_text(out, "]");
            },
        }
    }
}

impl<'a> Instruction<'a> {
    /// Appends the two operands of an instruction, and the line break.
    fn render_operands(left: &Operand<'a>, right: &Operand<'a>, out: &mut Vec<u8>)
        ensures
            final(out)@ == old(out)@ + operand_text(left@) + ",".spec_bytes() + operand_text(
                right@,
            ) + "\n".spec_bytes(),
    {
        left.render(out);
        push_text(out, ",");
        right.render(out);
        push_text(out, "\n");
    }

    /// Appends the line of the instruction to `out`.
    pub fn render(&self, out: &mut Vec<u8>)
        ensures
            final(out)@ == old(out)@ + instruction_text(self@),
    {
        match self {
            Instruction::Mov { left, right } => {
                push_text(out, "mov ");
                Self::render_operands(left, right, out);
            },
            Instruction::Xor { left, right } => {
                push_text(out, "xor ");
                Self::render_operands(left, right, out);
            },
            Instruction::Lea { left, right } => {
                push_text(out, "lea ");
                Self::render_operands(left, right, out);
            },
            Instruction::Syscall => {
                push_text(out, "syscall\n");
            },
        }
    }
}

impl<'a> Segment<'a> {
    /// Appends the access flags of the segment to `out`.
    fn render_flags(&self, out: &mut Vec<u8>)
        ensures
            final(out)@ == old(out)@ + flags_text(self@),
    {
        if self.readable {
            push_text(out, " readable");
        }
        let ghost first = out@;
        if self.writable {
            push_text(out, " writable");
        }
        let ghost second = out@;
        if self.executable {
            push_text(out, " executable");
        }
        proof {
            let r = if self.readable {
                " readable".spec_bytes()
            } else {
                Seq::empty()
            };
            let w = if self.writable {
                " writable".spec_bytes()
            } else {
                Seq::empty()
            };
            let x = if self.executable {
                " executable".spec_bytes()
            } else {
                Seq::empty()
            };
            assert(first == old(out)@ + r);
            assert(second == first + w);
            assert(out@ == second + x);
            assert(out@ =~= old(out)@ + (r + w + x));
        }
    }

    /// Appends the header line of the segment to `out`.
    fn render_header(&self, out: &mut Vec<u8>)
        ensures
            final(out)@ == old(out)@ + "segment ".spec_bytes() + self@.name + flags_text(self@)
                + "\n".spec_bytes(),
    {
        push_text(out, "segment ");
        push_bytes(out, self.name);
        self.render_flags(out);
        push_text(out, "\n");
    }

    /// Appends the lines of the segment to `out`.
    pub fn render(&self, out: &mut Vec<u8>)
        ensures
            final(out)@ == old(out)@ + segment_text(self@),
    {
        self.render_header(out);
        let ghost head = out@;
        let ghost views = label_views(self.labels@);
        let mut i: usize = 0;
        while i < self.labels.len()
            invariant
                i <= self.labels.len(),
                views == label_views(self.labels@),
                out@ == head + labels_text(views.take(i as int)),
            decreases self.labels.len() - i,
        {
            self.labels[i].render(out);
            proof {
                assert(views.take(i as int + 1).drop_last() =~= views.take(i as int));
            }
            i = i + 1;
        }
        proof {
            assert(views.take(self.labels.len() as int) =~= views);
        }
    }
}

impl<'a> Fasm<'a> {
    /// The text of the program.
    pub fn render(&self) -> (out: Vec<u8>)
        ensures
            out@ == fasm_text(self@),
    {
        let mut out: Vec<u8> = Vec::new();
        self.format.render(&mut out);
        let ghost head = out@;
        let ghost views = segment_views(self.rest@);
        let mut i: usize = 0;
        while i < self.rest.len()
            invariant
                i <= self.rest.len(),
                views == segment_views(self.rest@),
                out@ == head + segments_text(views.take(i as int)),
            decreases self.rest.len() - i,
        {
            self.rest[i].render(&mut out);
            proof {
                assert(views.take(i as int + 1).drop_last() =~= views.take(i as int));
            }
            i = i + 1;
        }
        proof {
            assert(views.take(self.rest.len() as int) =~= views);
        }
        push_text(&mut out, "\n");
        out
    }
}

impl<'a> Assembly for Fasm<'a> {
    type Error = FasmError;

    /// A program can always be rendered: to its text.
    fn assemble(&self) -> (r: Result<Vec<u8>, FasmError>)
        ensures
            r is Ok,
            r->Ok_0@ == fasm_text(self@),
    {
        Ok(self.render())
    }
}

} // verus!
