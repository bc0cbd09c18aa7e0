//! The three-address intermediate representation, its printed form, and a builder that
//! collects instructions and hands out fresh register and label names.
use vstd::prelude::*;
use crate::text;
use crate::text::{push_decimal, push_i32, push_joined, push_str, text_of};

verus! {

/// An operand: a register or an immediate integer.
#[derive(Debug)]
pub enum Operand {
    Reg(String),
    Imm(i32),
}

/// A jump target: a label by name, or a resolved position.
#[derive(Debug)]
pub enum Lbl {
    Name(String),
    Resolved(usize),
}

/// An instruction. A function declaration holds the instructions of its body.
#[derive(Debug)]
#[allow(inconsistent_fields)]
pub enum Instr {
    Alloc { dest: String, size: usize },
    Move { dest: String, src: Operand },
    BinOp { dest: String, left: Operand, operator: BinaryOp, right: Operand },
    UnOp { dest: String, operator: UnaryOp, operand: Operand },
    Load { size: Size, dest: String, src: String },
    Store { size: Size, src: Operand, dest: String },
    Label { label: Lbl },
    Goto { dest: Lbl },
    GotoIf { cond: Operand, dest: Lbl },
    GotoIfFalse { cond: Operand, dest: Lbl },
    Call { dest: String, name: String, args: Vec<Operand> },
    FnDecl { name: String, params: Vec<String>, body: Vec<Instr> },
    Ret { operand: Operand },
    PrintByte { operand: Operand },
    PrintInt { operand: Operand },
    PrintString { src: Operand },
    GetByte { dest_addr: Operand },
    GetInt { dest_addr: Operand },
}

#[derive(Debug, Clone, Copy, PartialEq, Eq, Structural)]
pub enum BinaryOp {
    Add,
    Sub,
    Mul,
    Div,
    Lt,
    Leq,
    Gt,
    Geq,
    Eq,
    Neq,
}

#[derive(Debug, Clone, Copy, PartialEq, Eq, Structural)]
pub enum UnaryOp {
    Neg,
    Pos,
    Not,
}

/// The width of a memory access: 8 bytes, 4 bytes or one byte.
#[derive(Debug, Clone, Copy, PartialEq, Eq, Structural)]
pub enum Size {
    Long,
    Word,
    Byte,
}

/// The model of an operand.
pub enum OperandV {
    Reg(Seq<char>),
    Imm(i32),
}

/// The model of a jump target.
pub enum LblV {
    Name(Seq<char>),
    Resolved(usize),
}

/// The model of an instruction.
#[allow(inconsistent_fields)]
pub enum InstrV {
    Alloc { dest: Seq<char>, size: usize },
    Move { dest: Seq<char>, src: OperandV },
    BinOp { dest: Seq<char>, left: OperandV, operator: BinaryOp, right: OperandV },
    UnOp { dest: Seq<char>, operator: UnaryOp, operand: OperandV },
    Load { size: Size, dest: Seq<char>, src: Seq<char> },
    Store { size: Size, src: OperandV, dest: Seq<char> },
    Label { label: LblV },
    Goto { dest: LblV },
    GotoIf { cond: OperandV, dest: LblV },
    GotoIfFalse { cond: OperandV, dest: LblV },
    Call { dest: Seq<char>, name: Seq<char>, args: Seq<OperandV> },
    FnDecl { name: Seq<char>, params: Seq<Seq<char>>, body: Seq<InstrV> },
    Ret { operand: OperandV },
    PrintByte { operand: OperandV },
    PrintInt { operand: OperandV },
    PrintString { src: OperandV },
    GetByte { dest_addr: OperandV },
    GetInt { dest_addr: OperandV },
}

impl View for Operand {
    type V = OperandV;

    open spec fn view(&self) -> OperandV {
        match self {
            Operand::Reg(r) => OperandV::Reg(r@),
            Operand::Imm(n) => OperandV::Imm(*n),
        }
    }
}

impl View for Lbl {
    type V = LblV;

    open spec fn view(&self) -> LblV {
        match self {
            Lbl::Name(l) => LblV::Name(l@),
            Lbl::Resolved(n) => LblV::Resolved(*n),
        }
    }
}

pub open spec fn operands_view(s: Seq<Operand>) -> Seq<OperandV> {
    s.map_values(|o: Operand| o@)
}

pub open spec fn strings_view(s: Seq<String>) -> Seq<Seq<char>> {
    s.map_values(|p: String| p@)
}

pub open spec fn instr_view(i: Instr) -> InstrV
    decreases i,
{
    match i {
        Instr::Alloc { dest, size } => InstrV::Alloc { dest: dest@, size },
        Instr::Move { dest, src } => InstrV::Move { dest: dest@, src: src@ },
        Instr::BinOp { dest, left, operator, right } => InstrV::BinOp { dest: dest@, left: left@, operator, right: right@ },
        Instr::UnOp { dest, operator, operand } => InstrV::UnOp { dest: dest@, operator, operand: operand@ },
        Instr::Load { size, dest, src } => InstrV::Load { size, dest: dest@, src: src@ },
        Instr::Store { size, src, dest } => InstrV::Store { size, src: src@, dest: dest@ },
        Instr::Label { label } => InstrV::Label { label: label@ },
        Instr::Goto { dest } => InstrV::Goto { dest: dest@ },
        Instr::GotoIf { cond, dest } => InstrV::GotoIf { cond: cond@, dest: dest@ },
        Instr::GotoIfFalse { cond, dest } => InstrV::GotoIfFalse { cond: cond@, dest: dest@ },
        Instr::Call { dest, name, args } => InstrV::Call { dest: dest@, name: name@, args: operands_view(args@) },
        Instr::FnDecl { name, params, body } => InstrV::FnDecl {
            name: name@,
            params: strings_view(params@),
            body: instrs_view(body@),
        },
        Instr::Ret { operand } => InstrV::Ret { operand: operand@ },
        Instr::PrintByte { operand } => InstrV::PrintByte { operand: operand@ },
        Instr::PrintInt { operand } => InstrV::PrintInt { operand: operand@ },
        Instr::PrintString { src } => InstrV::PrintString { src: src@ },
        Instr::GetByte { dest_addr } => InstrV::GetByte { dest_addr: dest_addr@ },
        Instr::GetInt { dest_addr } => InstrV::GetInt { dest_addr: dest_addr@ },
    }
}

pub open spec fn instrs_view(s: Seq<Instr>) -> Seq<InstrV>
    decreases s,
{
    if s.len() == 0 {
        seq![]
    } else {
        instrs_view(s.drop_last()).push(instr_view(s.last()))
    }
}

impl View for Instr {
    type V = InstrV;

    open spec fn view(&self) -> InstrV {
        instr_view(*self)
    }
}

pub proof fn lemma_instrs_view(s: Seq<Instr>)
    ensures
        instrs_view(s).len() == s.len(),
        forall|i: int| 0 <= i < s.len() ==> #[trigger] instrs_view(s)[i] == instr_view(s[i]),
    decreases s.len(),
{
    if s.len() > 0 {
        lemma_instrs_view(s.drop_last());
    }
}

/// The view of a sequence of instructions with one more at its end.
pub proof fn lemma_instrs_view_push(s: Seq<Instr>, i: Instr)
    ensures
        instrs_view(s.push(i)) == instrs_view(s).push(instr_view(i)),
{
    assert(s.push(i).drop_last() == s);
}

/// The number of instructions, nested bodies included.
pub open spec fn instr_size(i: InstrV) -> nat
    decreases i,
{
    match i {
        InstrV::FnDecl { body, .. } => 1 + instrs_size(body),
        _ => 1,
    }
}

pub open spec fn instrs_size(s: Seq<InstrV>) -> nat
    decreases s,
{
    if s.len() == 0 {
        0
    } else {
        instrs_size(s.drop_last()) + instr_size(s.last())
    }
}

/// Each instruction of a sequence is no larger than the whole sequence.
pub proof fn lemma_instrs_size(s: Seq<InstrV>, i: int)
    requires
        0 <= i < s.len(),
    ensures
        instr_size(s[i]) <= instrs_size(s),
    decreases s.len(),
{
    if i < s.len() - 1 {
        lemma_instrs_size(s.drop_last(), i);
    }
}

/// The parts of a non-empty sequence are smaller than the sequence.
pub proof fn lemma_size_parts(s: Seq<InstrV>)
    requires
        s.len() > 0,
    ensures
        instrs_size(s.drop_last()) < instrs_size(s),
        s.last() matches InstrV::FnDecl { body, .. } ==> instrs_size(body) < instrs_size(s),
{
    assert(instr_size(s.last()) >= 1);
}

/// The printed form of an operand.
pub open spec fn operand_text(o: OperandV) -> Seq<char> {
    match o {
        OperandV::Imm(n) => text::int_text(n as int),
        OperandV::Reg(r) => r,
    }
}

/// The printed form of a jump target.
pub open spec fn lbl_text(l: LblV) -> Seq<char> {
    match l {
        LblV::Name(s) => "<"@ + s + ">"@,
        LblV::Resolved(n) => text::decimal(n as nat),
    }
}

pub open spec fn binop_text(op: BinaryOp) -> Seq<char> {
    match op {
        BinaryOp::Add => "+"@,
        BinaryOp::Sub => "-"@,
        BinaryOp::Mul => "*"@,
        BinaryOp::Div => "/"@,
        BinaryOp::Lt => "<"@,
        BinaryOp::Leq => "<="@,
        BinaryOp::Gt => ">"@,
        BinaryOp::Geq => ">="@,
        BinaryOp::Neq => "!="@,
        BinaryOp::Eq => "=="@,
    }
}

pub open spec fn unop_text(op: UnaryOp) -> Seq<char> {
    match op {
        UnaryOp::Neg => "-"@,
        UnaryOp::Pos => "+"@,
        UnaryOp::Not => "!"@,
    }
}

pub open spec fn size_text(s: Size) -> Seq<char> {
    match s {
        Size::Long => "8 bytes"@,
        Size::Word => "4 bytes"@,
        Size::Byte => "byte"@,
    }
}

/// The printed form of an instruction, each line of it after `pad`. The lines of the
/// body of a function are indented by four more spaces and each ends with a newline;
/// the header line of a function is not indented.
pub open spec fn instr_text(i: InstrV, pad: Seq<char>) -> Seq<char>
    decreases i,
{
    match i {
        InstrV::Alloc { dest, size } => pad + dest + " = alloc("@ + text::decimal(size as nat) + ")"@,
        InstrV::BinOp { dest, left, operator, right } => pad + dest + " := "@ + operand_text(left) + " "@
            + binop_text(operator) + " "@ + operand_text(right),
        InstrV::UnOp { dest, operator, operand } => pad + dest + " := "@ + unop_text(operator) + " "@
            + operand_text(operand),
        InstrV::Goto { dest } => pad + "goto "@ + lbl_text(dest),
        InstrV::GotoIf { cond, dest } => pad + "if "@ + operand_text(cond) + " goto "@ + lbl_text(dest),
        InstrV::GotoIfFalse { cond, dest } => pad + "if not "@ + operand_text(cond) + " goto "@ + lbl_text(dest),
        InstrV::Move { dest, src } => pad + dest + " := "@ + operand_text(src),
        InstrV::Ret { operand } => pad + "ret "@ + operand_text(operand),
        InstrV::Load { size, dest, src } => pad + dest + " := load "@ + src + " ["@ + size_text(size) + "]"@,
        InstrV::Store { size, src, dest } => pad + "store "@ + operand_text(src) + " -> ("@ + dest + ") ["@
            + size_text(size) + "]"@,
        InstrV::Label { label } => pad + "label "@ + lbl_text(label),
        InstrV::Call { dest, name, args } => pad + dest + " := call ("@ + name + "|"@ + text::join(
            args.map_values(|a: OperandV| operand_text(a)),
            ","@,
        ) + ")"@,
        InstrV::FnDecl { name, params, body } => "fn "@ + name + "("@ + text::join(params, ","@) + "):\n"@
            + body_text(body, pad + "    "@) + pad,
        InstrV::PrintByte { operand } => pad + "print_byte "@ + operand_text(operand),
        InstrV::PrintInt { operand } => pad + "print_int "@ + operand_text(operand),
        InstrV::PrintString { src } => pad + "print_string "@ + operand_text(src),
        InstrV::GetByte { dest_addr } => pad + "get_byte "@ + operand_text(dest_addr),
        InstrV::GetInt { dest_addr } => pad + "get_int "@ + operand_text(dest_addr),
    }
}

/// Each instruction printed after `pad`, followed by a newline.
pub open spec fn body_text(s: Seq<InstrV>, pad: Seq<char>) -> Seq<char>
    decreases s,
{
    if s.len() == 0 {
        seq![]
    } else {
        body_text(s.drop_last(), pad) + instr_text(s.last(), pad) + "\n"@
    }
}

impl Operand {
    /// A copy of the operand.
    pub fn deep_copy(&self) -> (r: Operand)
        ensures
            r@ == self@,
    {
        match self {
            Operand::Reg(r) => Operand::Reg(r.clone()),
            Operand::Imm(n) => Operand::Imm(*n),
        }
    }

    /// Appends the printed form of the operand.
    pub fn push_text(&self, s: &mut String)
        ensures
            final(s)@ == old(s)@ + operand_text(self@),
    {
        match self {
            Operand::Imm(n) => push_i32(s, *n),
            Operand::Reg(r) => push_str(s, r.as_str()),
        }
    }

    /// The printed form of the operand.
    pub fn to_text(&self) -> (r: String)
        ensures
            r@ == operand_text(self@),
    {
        let mut s = String::new();
        self.push_text(&mut s);
        s
    }
}

impl Lbl {
    /// A copy of the jump target.
    pub fn deep_copy(&self) -> (r: Lbl)
        ensures
            r@ == self@,
    {
        match self {
            Lbl::Name(l) => Lbl::Name(l.clone()),
            Lbl::Resolved(n) => Lbl::Resolved(*n),
        }
    }

    /// Appends the printed form of the jump target.
    pub fn push_text(&self, s: &mut String)
        ensures
            final(s)@ == old(s)@ + lbl_text(self@),
    {
        match self {
            Lbl::Name(l) => {
                push_str(s, "<");
                push_str(s, l.as_str());
                push_str(s, ">");
            },
            Lbl::Resolved(n) => push_decimal(s, *n),
        }
    }

    /// The printed form of the jump target.
    pub fn to_text(&self) -> (r: String)
        ensures
            r@ == lbl_text(self@),
    {
        let mut s = String::new();
        self.push_text(&mut s);
        s
    }
}

impl BinaryOp {
    /// The printed form of the operator.
    pub fn to_text(&self) -> (r: String)
        ensures
            r@ == binop_text(*self),
    {
        let t = match self {
            BinaryOp::Add => "+",
            BinaryOp::Sub => "-",
            BinaryOp::Mul => "*",
            BinaryOp::Div => "/",
            BinaryOp::Lt => "<",
            BinaryOp::Leq => "<=",
            BinaryOp::Gt => ">",
            BinaryOp::Geq => ">=",
            BinaryOp::Neq => "!=",
            BinaryOp::Eq => "==",
        };
        text_of(t)
    }
}

impl UnaryOp {
    /// The printed form of the operator.
    pub fn to_text(&self) -> (r: String)
        ensures
            r@ == unop_text(*self),
    {
        let t = match self {
            UnaryOp::Neg => "-",
            UnaryOp::Pos => "+",
            UnaryOp::Not => "!",
        };
        text_of(t)
    }
}

impl Size {
    /// The printed form of the width.
    pub fn to_text(&self) -> (r: String)
        ensures
            r@ == size_text(*self),
    {
        let t = match self {
            Size::Long => "8 bytes",
            Size::Word => "4 bytes",
            Size::Byte => "byte",
        };
        text_of(t)
    }
}

/// A copy of each string.
pub fn copy_strings(v: &Vec<String>) -> (r: Vec<String>)
    ensures
        strings_view(r@) == strings_view(v@),
{
    let mut r: Vec<String> = Vec::new();
    let mut i: usize = 0;
    while i < v.len()
        invariant
            i <= v.len(),
            r.len() == i,
            forall|j: int| 0 <= j < i ==> #[trigger] r@[j]@ == v@[j]@,
        decreases v.len() - i,
    {
        r.push(v[i].clone());
        i += 1;
    }
    assert(strings_view(r@) =~= strings_view(v@));
    r
}

/// A copy of each operand.
pub fn copy_operands(v: &Vec<Operand>) -> (r: Vec<Operand>)
    ensures
        operands_view(r@) == operands_view(v@),
{
    let mut r: Vec<Operand> = Vec::new();
    let mut i: usize = 0;
    while i < v.len()
        invariant
            i <= v.len(),
            r.len() == i,
            forall|j: int| 0 <= j < i ==> #[trigger] r@[j]@ == v@[j]@,
        decreases v.len() - i,
    {
        r.push(v[i].deep_copy());
        i += 1;
    }
    assert(operands_view(r@) =~= operands_view(v@));
    r
}

/// A copy of each instruction, nested bodies included.
pub fn copy_instrs(v: &Vec<Instr>) -> (r: Vec<Instr>)
    ensures
        instrs_view(r@) == instrs_view(v@),
    decreases instrs_size(instrs_view(v@)), 1nat,
{
    let ghost vv = instrs_view(v@);
    proof {
        lemma_instrs_view(v@);
    }
    let mut r: Vec<Instr> = Vec::new();
    let mut i: usize = 0;
    while i < v.len()
        invariant
            vv == instrs_view(v@),
            vv.len() == v.len(),
            forall|j: int| 0 <= j < v.len() ==> #[trigger] vv[j] == instr_view(v@[j]),
            i <= v.len(),
            instrs_view(r@) == vv.take(i as int),
        decreases v.len() - i,
    {
        proof {
            lemma_instrs_size(vv, i as int);
        }
        let c = v[i].deep_copy();
        proof {
            lemma_instrs_view_push(r@, c);
        }
        r.push(c);
        i += 1;
        assert(instrs_view(r@) =~= vv.take(i as int));
    }
    assert(vv.take(v.len() as int) =~= vv);
    r
}

impl Instr {
    /// A copy of the instruction, nested bodies included.
    pub fn deep_copy(&self) -> (r: Instr)
        ensures
            r@ == self@,
        decreases instr_size(self@), 0nat,
    {
        match self {
            Instr::Alloc { dest, size } => Instr::Alloc { dest: dest.clone(), size: *size },
            Instr::Move { dest, src } => Instr::Move { dest: dest.clone(), src: src.deep_copy() },
            Instr::BinOp { dest, left, operator, right } => Instr::BinOp {
                dest: dest.clone(),
                left: left.deep_copy(),
                operator: *operator,
                right: right.deep_copy(),
            },
            Instr::UnOp { dest, operator, operand } => Instr::UnOp {
                dest: dest.clone(),
                operator: *operator,
                operand: operand.deep_copy(),
            },
            Instr::Load { size, dest, src } => Instr::Load { size: *size, dest: dest.clone(), src: src.clone() },
            Instr::Store { size, src, dest } => Instr::Store { size: *size, src: src.deep_copy(), dest: dest.clone() },
            Instr::Label { label } => Instr::Label { label: label.deep_copy() },
            Instr::Goto { dest } => Instr::Goto { dest: dest.deep_copy() },
            Instr::GotoIf { cond, dest } => Instr::GotoIf { cond: cond.deep_copy(), dest: dest.deep_copy() },
            Instr::GotoIfFalse { cond, dest } => Instr::GotoIfFalse { cond: cond.deep_copy(), dest: dest.deep_copy() },
            Instr::Call { dest, name, args } => Instr::Call {
                dest: dest.clone(),
                name: name.clone(),
                args: copy_operands(args),
            },
            Instr::FnDecl { name, params, body } => Instr::FnDecl {
                name: name.clone(),
                params: copy_strings(params),
                body: copy_instrs(body),
            },
            Instr::Ret { operand } => Instr::Ret { operand: operand.deep_copy() },
            Instr::PrintByte { operand } => Instr::PrintByte { operand: operand.deep_copy() },
            Instr::PrintInt { operand } => Instr::PrintInt { operand: operand.deep_copy() },
            Instr::PrintString { src } => Instr::PrintString { src: src.deep_copy() },
            Instr::GetByte { dest_addr } => Instr::GetByte { dest_addr: dest_addr.deep_copy() },
            Instr::GetInt { dest_addr } => Instr::GetInt { dest_addr: dest_addr.deep_copy() },
        }
    }
}

/// The printed forms of the operands, in order.
fn operand_texts(args: &Vec<Operand>) -> (r: Vec<String>)
    ensures
        r@.map_values(|p: String| p@) == operands_view(args@).map_values(|a: OperandV| operand_text(a)),
{
    let mut r: Vec<String> = Vec::new();
    let mut i: usize = 0;
    while i < args.len()
        invariant
            i <= args.len(),
            r.len() == i,
            forall|j: int| 0 <= j < i ==> #[trigger] r@[j]@ == operand_text(args@[j]@),
        decreases args.len() - i,
    {
        r.push(args[i].to_text());
        i += 1;
    }
    assert(r@.map_values(|p: String| p@) =~= operands_view(args@).map_values(|a: OperandV| operand_text(a)));
    r
}

/// Appends each instruction printed after `pad`, each followed by a newline.
pub(crate) fn push_body_text(body: &[Instr], s: &mut String, pad: &str)
    ensures
        final(s)@ == old(s)@ + body_text(instrs_view(body@), pad@),
    decreases instrs_size(instrs_view(body@)), 1nat,
{
    let ghost vv = instrs_view(body@);
    let ghost start = s@;
    proof {
        lemma_instrs_view(body@);
        assert(vv.take(0) == Seq::<InstrV>::empty());
        assert(s@ =~= start + body_text(vv.take(0), pad@));
    }
    let mut i: usize = 0;
    while i < body.len()
        invariant
            vv == instrs_view(body@),
            vv.len() == body.len(),
            forall|j: int| 0 <= j < body.len() ==> #[trigger] vv[j] == instr_view(body@[j]),
            i <= body.len(),
            s@ == start + body_text(vv.take(i as int), pad@),
        decreases body.len() - i,
    {
        proof {
            lemma_instrs_size(vv, i as int);
            assert(vv.take(i + 1).drop_last() == vv.take(i as int));
            assert(vv.take(i + 1).last() == vv[i as int]);
        }
        body[i].push_text(s, pad);
        push_str(s, "\n");
        i += 1;
        assert(s@ =~= start + body_text(vv.take(i as int), pad@));
    }
    assert(vv.take(body.len() as int) == vv);
}

impl Instr {
    /// Appends the printed form of the instruction, each of its lines after `pad`.
    pub fn push_text(&self, s: &mut String, pad: &str)
        ensures
            final(s)@ == old(s)@ + instr_text(self@, pad@),
        decreases instr_size(self@), 0nat,
    {
        let mut t = text_of(pad);
        match self {
            Instr::Alloc { dest, size } => {
                push_str(&mut t, dest.as_str());
                push_str(&mut t, " = alloc(");
                push_decimal(&mut t, *size);
                push_str(&mut t, ")");
            },
            Instr::BinOp { dest, left, operator, right } => {
                push_str(&mut t, dest.as_str());
                push_str(&mut t, " := ");
                left.push_text(&mut t);
                push_str(&mut t, " ");
                push_str(&mut t, operator.to_text().as_str());
                push_str(&mut t, " ");
                right.push_text(&mut t);
            },
            Instr::UnOp { dest, operator, operand } => {
                push_str(&mut t, dest.as_str());
                push_str(&mut t, " := ");
                push_str(&mut t, operator.to_text().as_str());
                push_str(&mut t, " ");
                operand.push_text(&mut t);
            },
            Instr::Goto { dest } => {
                push_str(&mut t, "goto ");
                dest.push_text(&mut t);
            },
            Instr::GotoIf { cond, dest } => {
                push_str(&mut t, "if ");
                cond.push_text(&mut t);
                push_str(&mut t, " goto ");
                dest.push_text(&mut t);
            },
            Instr::GotoIfFalse { cond, dest } => {
                push_str(&mut t, "if not ");
                cond.push_text(&mut t);
                push_str(&mut t, " goto ");
                dest.push_text(&mut t);
            },
            Instr::Move { dest, src } => {
                push_str(&mut t, dest.as_str());
                push_str(&mut t, " := ");
                src.push_text(&mut t);
            },
            Instr::Ret { operand } => {
                push_str(&mut t, "ret ");
                operand.push_text(&mut t);
            },
            Instr::Load { size, dest, src } => {
                push_str(&mut t, dest.as_str());
                push_str(&mut t, " := load ");
                push_str(&mut t, src.as_str());
                push_str(&mut t, " [");
                push_str(&mut t, size.to_text().as_str());
                push_str(&mut t, "]");
            },
            Instr::Store { size, src, dest } => {
                push_str(&mut t, "store ");
                src.push_text(&mut t);
                push_str(&mut t, " -> (");
                push_str(&mut t, dest.as_str());
                push_str(&mut t, ") [");
                push_str(&mut t, size.to_text().as_str());
                push_str(&mut t, "]");
            },
            Instr::Label { label } => {
                push_str(&mut t, "label ");
                label.push_text(&mut t);
            },
            Instr::Call { dest, name, args } => {
                push_str(&mut t, dest.as_str());
                push_str(&mut t, " := call (");
                push_str(&mut t, name.as_str());
                push_str(&mut t, "|");
                let parts = operand_texts(args);
                push_joined(&mut t, &parts, ",");
                push_str(&mut t, ")");
            },
            Instr::FnDecl { name, params, body } => {
                t = text_of("fn ");
                push_str(&mut t, name.as_str());
                push_str(&mut t, "(");
                push_joined(&mut t, params, ",");
                assert(params@.map_values(|p: String| p@) =~= strings_view(params@));
                push_str(&mut t, "):\n");
                let mut inner = text_of(pad);
                push_str(&mut inner, "    ");
                push_body_text(body.as_slice(), &mut t, inner.as_str());
                push_str(&mut t, pad);
            },
            Instr::PrintByte { operand } => {
                push_str(&mut t, "print_byte ");
                operand.push_text(&mut t);
            },
            Instr::PrintInt { operand } => {
                push_str(&mut t, "print_int ");
                operand.push_text(&mut t);
            },
            Instr::PrintString { src } => {
                push_str(&mut t, "print_string ");
                src.push_text(&mut t);
            },
            Instr::GetByte { dest_addr } => {
                push_str(&mut t, "get_byte ");
                dest_addr.push_text(&mut t);
            },
            Instr::GetInt { dest_addr } => {
                push_str(&mut t, "get_int ");
                dest_addr.push_text(&mut t);
            },
        }
        push_str(s, t.as_str());
    }

    /// The printed form of the instruction.
    pub fn to_text(&self) -> (r: String)
        ensures
            r@ == instr_text(self@, Seq::empty()),
    {
        let mut s = String::new();
        let pad = String::new();
        self.push_text(&mut s, pad.as_str());
        assert(s@ =~= instr_text(self@, Seq::empty()));
        s
    }
}

/// The register defined by an instruction, if it defines one.
pub open spec fn instr_def(i: InstrV) -> Option<Seq<char>> {
    match i {
        InstrV::Alloc { dest, .. } => Some(dest),
        InstrV::Move { dest, .. } => Some(dest),
        InstrV::BinOp { dest, .. } => Some(dest),
        InstrV::UnOp { dest, .. } => Some(dest),
        InstrV::Load { dest, .. } => Some(dest),
        InstrV::Call { dest, .. } => Some(dest),
        _ => None,
    }
}

/// The register that an operand reads, if any.
pub open spec fn operand_regs(o: OperandV) -> Seq<Seq<char>> {
    match o {
        OperandV::Reg(r) => seq![r],
        OperandV::Imm(_) => seq![],
    }
}

/// The registers that the operands read, in order.
pub open spec fn operands_regs(s: Seq<OperandV>) -> Seq<Seq<char>>
    decreases s.len(),
{
    if s.len() == 0 {
        seq![]
    } else {
        operands_regs(s.drop_last()) + operand_regs(s.last())
    }
}

/// The registers that an instruction reads, in order. A function declaration reads none
/// itself.
pub open spec fn instr_uses(i: InstrV) -> Seq<Seq<char>> {
    match i {
        InstrV::Move { src, .. } => operand_regs(src),
        InstrV::BinOp { left, right, .. } => operand_regs(left) + operand_regs(right),
        InstrV::UnOp { operand, .. } => operand_regs(operand),
        InstrV::Load { src, .. } => seq![src],
        InstrV::Store { src, dest, .. } => operand_regs(src) + seq![dest],
        InstrV::GotoIf { cond, .. } => operand_regs(cond),
        InstrV::GotoIfFalse { cond, .. } => operand_regs(cond),
        InstrV::Call { args, .. } => operands_regs(args),
        InstrV::Ret { operand } => operand_regs(operand),
        InstrV::PrintByte { operand } => operand_regs(operand),
        InstrV::PrintInt { operand } => operand_regs(operand),
        InstrV::PrintString { src } => operand_regs(src),
        InstrV::GetByte { dest_addr } => operand_regs(dest_addr),
        InstrV::GetInt { dest_addr } => operand_regs(dest_addr),
        _ => seq![],
    }
}

/// Appends the register that an operand reads, if any.
fn push_operand_reg(v: &mut Vec<String>, o: &Operand)
    ensures
        strings_view(final(v)@) == strings_view(old(v)@) + operand_regs(o@),
{
    match o {
        Operand::Reg(r) => {
            v.push(r.clone());
            assert(strings_view(v@) =~= strings_view(old(v)@) + operand_regs(o@));
        },
        Operand::Imm(_) => {
            assert(strings_view(v@) =~= strings_view(old(v)@) + operand_regs(o@));
        },
    }
}

impl Instr {
    /// The register that the instruction defines, if it defines one.
    pub fn get_def(&self) -> (r: Option<String>)
        ensures
            match r {
                Some(d) => instr_def(self@) == Some(d@),
                None => instr_def(self@) is None,
            },
    {
        match self {
            Instr::Alloc { dest, .. } => Some(dest.clone()),
            Instr::Move { dest, .. } => Some(dest.clone()),
            Instr::BinOp { dest, .. } => Some(dest.clone()),
            Instr::UnOp { dest, .. } => Some(dest.clone()),
            Instr::Load { dest, .. } => Some(dest.clone()),
            Instr::Call { dest, .. } => Some(dest.clone()),
            _ => None,
        }
    }

    /// The registers that the instruction reads, in order.
    pub fn get_use(&self) -> (r: Vec<String>)
        ensures
            strings_view(r@) == instr_uses(self@),
    {
        let mut v: Vec<String> = Vec::new();
        proof {
            assert(strings_view(v@) =~= Seq::<Seq<char>>::empty());
        }
        match self {
            Instr::Move { src, .. } => push_operand_reg(&mut v, src),
            Instr::BinOp { left, right, .. } => {
                push_operand_reg(&mut v, left);
                push_operand_reg(&mut v, right);
            },
            Instr::UnOp { operand, .. } => push_operand_reg(&mut v, operand),
            Instr::Load { src, .. } => {
                v.push(src.clone());
                assert(strings_view(v@) =~= seq![src@]);
            },
            Instr::Store { src, dest, .. } => {
                push_operand_reg(&mut v, src);
                let ghost before = v@;
                v.push(dest.clone());
                assert(strings_view(v@) =~= strings_view(before) + seq![dest@]);
            },
            Instr::GotoIf { cond, .. } => push_operand_reg(&mut v, cond),
            Instr::GotoIfFalse { cond, .. } => push_operand_reg(&mut v, cond),
            Instr::Call { args, .. } => {
                let mut i: usize = 0;
                while i < args.len()
                    invariant
                        i <= args.len(),
                        strings_view(v@) == operands_regs(operands_view(args@).take(i as int)),
                    decreases args.len() - i,
                {
                    proof {
                        assert(operands_view(args@).take(i + 1).drop_last() =~= operands_view(args@).take(i as int));
                        assert(operands_view(args@).take(i + 1).last() == args@[i as int]@);
                    }
                    push_operand_reg(&mut v, &args[i]);
                    i += 1;
                }
                assert(operands_view(args@).take(args.len() as int) =~= operands_view(args@));
            },
            Instr::Ret { operand } => push_operand_reg(&mut v, operand),
            Instr::PrintByte { operand } => push_operand_reg(&mut v, operand),
            Instr::PrintInt { operand } => push_operand_reg(&mut v, operand),
            Instr::PrintString { src } => push_operand_reg(&mut v, src),
            Instr::GetByte { dest_addr } => push_operand_reg(&mut v, dest_addr),
            Instr::GetInt { dest_addr } => push_operand_reg(&mut v, dest_addr),
            _ => {},
        }
        v
    }
}

/// The name of the `n`-th fresh register.
pub open spec fn reg_name(n: nat) -> Seq<char> {
    "%r"@ + text::decimal(n)
}

/// The name of the `n`-th fresh label.
pub open spec fn label_name(n: nat) -> Seq<char> {
    ".L"@ + text::decimal(n)
}

/// The model of a builder: the instructions emitted so far, and how many registers and
/// labels it has handed out.
pub struct BuilderV {
    pub instrs: Seq<InstrV>,
    pub regs: nat,
    pub labels: nat,
}

/// Collects instructions, and hands out fresh register and label names by counting.
pub struct IRBuilder {
    pub instrs: Vec<Instr>,
    reg_counter: usize,
    label_counter: usize,
}

impl IRBuilder {
    /// How many registers the builder has handed out.
    pub closed spec fn regs(&self) -> nat {
        self.reg_counter as nat
    }

    /// How many labels the builder has handed out.
    pub closed spec fn labels(&self) -> nat {
        self.label_counter as nat
    }

    /// The counters fit in a machine word.
    pub proof fn lemma_counters_bounded(&self)
        ensures
            self@.regs <= usize::MAX,
            self@.labels <= usize::MAX,
    {
    }

    /// The instructions emitted so far.
    pub fn instrs_ref(&self) -> (r: &Vec<Instr>)
        ensures
            instrs_view(r@) == self@.instrs,
    {
        &self.instrs
    }

    /// The instructions emitted so far, taken out of the builder.
    pub fn into_instrs(self) -> (r: Vec<Instr>)
        ensures
            instrs_view(r@) == self@.instrs,
    {
        self.instrs
    }

    /// Replaces the instructions; the counters stay.
    pub fn set_instrs(&mut self, instrs: Vec<Instr>)
        ensures
            final(self)@ == (BuilderV { instrs: instrs_view(instrs@), ..old(self)@ }),
    {
        self.instrs = instrs;
    }
}

impl View for IRBuilder {
    type V = BuilderV;

    closed spec fn view(&self) -> BuilderV {
        BuilderV { instrs: instrs_view(self.instrs@), regs: self.regs(), labels: self.labels() }
    }
}

impl IRBuilder {
    pub fn new() -> (r: Self)
        ensures
            r@ == (BuilderV { instrs: Seq::empty(), regs: 0, labels: 0 }),
    {
        let r = Self { instrs: Vec::new(), reg_counter: 0, label_counter: 0 };
        assert(instrs_view(r.instrs@) =~= Seq::<InstrV>::empty());
        r
    }

    /// The register and label counters.
    pub fn get_counters(&self) -> (r: (usize, usize))
        ensures
            r.0 == self@.regs,
            r.1 == self@.labels,
    {
        (self.reg_counter, self.label_counter)
    }

    /// Sets the register and label counters; the instructions stay.
    pub fn set_counters(&mut self, counters: (usize, usize))
        ensures
            final(self)@ == (BuilderV { instrs: old(self)@.instrs, regs: counters.0 as nat, labels: counters.1 as nat }),
    {
        let (rc, lc) = counters;
        self.reg_counter = rc;
        self.label_counter = lc;
    }

    /// Appends an instruction.
    pub fn emit(&mut self, instr: Instr)
        ensures
            final(self)@ == (BuilderV { instrs: old(self)@.instrs.push(instr@), ..old(self)@ }),
    {
        proof {
            lemma_instrs_view_push(self.instrs@, instr);
        }
        self.instrs.push(instr);
    }

    /// A fresh register: `%r` followed by the number of registers handed out so far.
    pub fn new_reg(&mut self) -> (r: String)
        requires
            old(self)@.regs < usize::MAX,
        ensures
            r@ == reg_name(old(self)@.regs),
            final(self)@ == (BuilderV { regs: old(self)@.regs + 1, ..old(self)@ }),
    {
        let mut reg = text_of("%r");
        push_decimal(&mut reg, self.reg_counter);
        self.reg_counter += 1;
        reg
    }

    /// A fresh label: `.L` followed by the number of labels handed out so far.
    pub fn new_label(&mut self) -> (r: String)
        requires
            old(self)@.labels < usize::MAX,
        ensures
            r@ == label_name(old(self)@.labels),
            final(self)@ == (BuilderV { labels: old(self)@.labels + 1, ..old(self)@ }),
    {
        let mut label = text_of(".L");
        push_decimal(&mut label, self.label_counter);
        self.label_counter += 1;
        label
    }

    /// Wraps everything emitted so far into the body of a function `main` without
    /// parameters; the counters stay.
    pub fn epilogue(self) -> (r: IRBuilder)
        ensures
            r@ == (BuilderV {
                instrs: seq![InstrV::FnDecl { name: "main"@, params: Seq::empty(), body: self@.instrs }],
                regs: self@.regs,
                labels: self@.labels,
            }),
    {
        let main = Instr::FnDecl { name: text_of("main"), params: Vec::new(), body: self.instrs };
        let mut instrs: Vec<Instr> = Vec::new();
        proof {
            assert(strings_view(Seq::<String>::empty()) =~= Seq::<Seq<char>>::empty());
            lemma_instrs_view_push(instrs@, main);
            assert(instrs_view(instrs@) =~= Seq::<InstrV>::empty());
        }
        instrs.push(main);
        IRBuilder { instrs, reg_counter: self.reg_counter, label_counter: self.label_counter }
    }
}

/// Fresh registers and labels are all distinct: two registers handed out at different
/// counts differ, and so do two labels, and no register is named like a label.
pub proof fn law_fresh_names_distinct(i: nat, j: nat)
    ensures
        reg_name(i) == reg_name(j) ==> i == j,
        label_name(i) == label_name(j) ==> i == j,
        reg_name(i) != label_name(j),
{
    reveal_strlit("%r");
    reveal_strlit(".L");
    if reg_name(i) == reg_name(j) {
        assert(reg_name(i).subrange(2, reg_name(i).len() as int) =~= text::decimal(i));
        assert(reg_name(j).subrange(2, reg_name(j).len() as int) =~= text::decimal(j));
        text::lemma_decimal_injective(i, j);
    }
    if label_name(i) == label_name(j) {
        assert(label_name(i).subrange(2, label_name(i).len() as int) =~= text::decimal(i));
        assert(label_name(j).subrange(2, label_name(j).len() as int) =~= text::decimal(j));
        text::lemma_decimal_injective(i, j);
    }
    assert(reg_name(i)[0] == '%');
    assert(label_name(j)[0] == '.');
}

} // verus!
