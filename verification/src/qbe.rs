//! Generation of QBE intermediate language from the IR.
use vstd::prelude::*;
use crate::ir;
use crate::ir::{BinaryOp, Instr, InstrV, Lbl, LblV, Operand, OperandV, Size, UnaryOp};
use crate::text;
use crate::text::{chars_of, push_decimal, push_i32, push_joined, push_str, string_push, text_of};

verus! {

/// `pure_name` of one character: `%`, `$` and `@` are dropped, `#` becomes `_`.
pub open spec fn pure_char(c: char) -> Seq<char> {
    if c == '%' || c == '$' || c == '@' {
        seq![]
    } else if c == '#' {
        seq!['_']
    } else {
        seq![c]
    }
}

/// A name without the sigils of QBE: `%`, `$` and `@` are dropped and `#` becomes `_`.
pub open spec fn pure_chars(s: Seq<char>) -> Seq<char>
    decreases s.len(),
{
    if s.len() == 0 {
        seq![]
    } else {
        pure_chars(s.drop_last()) + pure_char(s.last())
    }
}

/// `sanitize` of one character: `#` and `$` become `_`.
pub open spec fn sanitize_char(c: char) -> char {
    if c == '#' || c == '$' {
        '_'
    } else {
        c
    }
}

/// A name where `#` and `$` become `_`.
pub open spec fn sanitized(s: Seq<char>) -> Seq<char> {
    s.map_values(|c: char| sanitize_char(c))
}

/// A local temporary of QBE for a register.
pub open spec fn local_reg(s: Seq<char>) -> Seq<char> {
    "%"@ + pure_chars(s)
}

/// An operand in QBE: an integer, or the temporary of a register.
pub open spec fn fmt_operand(o: OperandV) -> Seq<char> {
    match o {
        OperandV::Imm(n) => text::int_text(n as int),
        OperandV::Reg(r) => local_reg(r),
    }
}

/// The name of a jump target.
pub open spec fn lbl_name(l: LblV) -> Seq<char> {
    match l {
        LblV::Name(n) => n,
        LblV::Resolved(r) => text::decimal(r as nat),
    }
}

pub open spec fn store_inst(s: Size) -> Seq<char> {
    match s {
        Size::Byte => "storeb"@,
        Size::Word => "storew"@,
        Size::Long => "storel"@,
    }
}

pub open spec fn load_inst(s: Size) -> Seq<char> {
    match s {
        Size::Byte => "loadub"@,
        Size::Word => "loadw"@,
        Size::Long => "loadl"@,
    }
}

/// Whether an operator is a comparison, and its QBE instruction.
pub open spec fn binop_qbe(op: BinaryOp) -> (bool, Seq<char>) {
    match op {
        BinaryOp::Add => (false, "add"@),
        BinaryOp::Sub => (false, "sub"@),
        BinaryOp::Mul => (false, "mul"@),
        BinaryOp::Div => (false, "div"@),
        BinaryOp::Eq => (true, "ceql"@),
        BinaryOp::Neq => (true, "cnel"@),
        BinaryOp::Lt => (true, "csltl"@),
        BinaryOp::Leq => (true, "cslel"@),
        BinaryOp::Gt => (true, "csgtl"@),
        BinaryOp::Geq => (true, "csgel"@),
    }
}

/// The fall-through label of the `n`-th conditional jump.
pub open spec fn fallthrough(n: nat) -> Seq<char> {
    "@.ft."@ + text::decimal(n)
}

/// The header of a function: `main_0`, the renamed `main`, is exported as `main`.
pub open spec fn fn_header(name: Seq<char>, params: Seq<Seq<char>>) -> Seq<char> {
    let safe = pure_chars(name);
    let is_main = safe == "main_0"@;
    (if is_main { "export "@ } else { ""@ }) + "function l $"@ + (if is_main { "main"@ } else { safe }) + "("@ + text::join(
        params.map_values(|p: Seq<char>| "l "@ + local_reg(p)),
        ", "@,
    ) + ") {\n"@ + "@start\n"@
}

/// The lines of an instruction other than a function declaration; `ft` numbers its
/// fall-through label, if it needs one.
pub open spec fn instr_lines(i: InstrV, ft: nat) -> Seq<char> {
    match i {
        InstrV::Alloc { dest, size } => "    "@ + sanitized(dest) + " =l alloc8 "@ + text::decimal(size as nat) + "\n"@,
        InstrV::Store { size, src, dest } => "    "@ + store_inst(size) + " "@ + fmt_operand(src) + ", "@ + local_reg(dest) + "\n"@,
        InstrV::Load { size, dest, src } => "    "@ + local_reg(dest) + " =l "@ + load_inst(size) + " "@ + local_reg(src) + "\n"@,
        InstrV::Move { dest, src } => "    "@ + sanitized(dest) + " =l copy "@ + fmt_operand(src) + "\n"@,
        InstrV::Label { label } => "@"@ + sanitized(lbl_name(label)) + "\n"@,
        InstrV::Goto { dest } => "    jmp @"@ + sanitized(lbl_name(dest)) + "\n"@,
        InstrV::GotoIf { cond, dest } => "    jnz "@ + fmt_operand(cond) + ", @"@ + sanitized(lbl_name(dest)) + ", "@
            + fallthrough(ft) + "\n"@ + fallthrough(ft) + "\n"@,
        InstrV::GotoIfFalse { cond, dest } => "    jnz "@ + fmt_operand(cond) + ", "@ + fallthrough(ft) + ", @"@
            + sanitized(lbl_name(dest)) + "\n"@ + fallthrough(ft) + "\n"@,
        InstrV::Call { dest, name, args } => "    "@ + sanitized(dest) + " =l call $"@ + sanitized(name) + "("@ + text::join(
            args.map_values(|a: OperandV| "l "@ + fmt_operand(a)),
            ", "@,
        ) + ")\n"@,
        InstrV::Ret { operand } => "    ret "@ + fmt_operand(operand) + "\n"@,
        InstrV::BinOp { dest, left, operator, right } => {
            let d = pure_chars(dest);
            let (is_test, op) = binop_qbe(operator);
            if is_test {
                "    %_cmp_"@ + d + " =w "@ + op + " "@ + fmt_operand(left) + ", "@ + fmt_operand(right) + "\n"@
                    + "    %"@ + d + " =l extuw %_cmp_"@ + d + "\n"@
            } else {
                "    %"@ + d + " =l "@ + op + " "@ + fmt_operand(left) + ", "@ + fmt_operand(right) + "\n"@
            }
        },
        InstrV::UnOp { dest, operator, operand } => {
            let d = pure_chars(dest);
            match operator {
                UnaryOp::Pos => "    %"@ + d + " =l copy "@ + fmt_operand(operand) + "\n"@,
                UnaryOp::Neg => "    %"@ + d + " =l sub 0, "@ + fmt_operand(operand) + "\n"@,
                UnaryOp::Not => "    %_cmp_"@ + d + " =w ceql "@ + fmt_operand(operand) + ", 0\n"@ + "    %"@ + d
                    + " =l extuw %_cmp_"@ + d + "\n"@,
            }
        },
        InstrV::PrintByte { operand } => "    call $print_byte(l "@ + fmt_operand(operand) + ")\n"@,
        InstrV::PrintInt { operand } => "    call $print_int(l "@ + fmt_operand(operand) + ")\n"@,
        InstrV::PrintString { src } => "    call $print_string(l "@ + fmt_operand(src) + ")\n"@,
        InstrV::GetByte { dest_addr } => "    call $get_byte(l "@ + fmt_operand(dest_addr) + ")\n"@,
        InstrV::GetInt { dest_addr } => "    call $get_int(l "@ + fmt_operand(dest_addr) + ")\n"@,
        InstrV::FnDecl { .. } => seq![],
    }
}

/// Whether an instruction is a conditional jump, which takes a fall-through label.
pub open spec fn is_cond_jump(i: InstrV) -> bool {
    i is GotoIf || i is GotoIfFalse
}

/// Whether the current block is terminated after an instruction other than a function
/// declaration: a jump or a return terminates it, a label or a conditional jump starts
/// a new one.
pub open spec fn term_after(i: InstrV, term: bool) -> bool {
    match i {
        InstrV::Goto { .. } | InstrV::Ret { .. } => true,
        InstrV::Label { .. } | InstrV::GotoIf { .. } | InstrV::GotoIfFalse { .. } => false,
        _ => term,
    }
}

/// The model of a generator: the output so far, the number of fall-through labels
/// handed out, and whether the current block is terminated.
pub struct QbeV {
    pub out: Seq<char>,
    pub ft: nat,
    pub term: bool,
}

/// Emits one instruction. In a terminated block, everything up to the next label or
/// function is unreachable and dropped. A function gets a header, its body, a `ret 0`
/// when its last block is not terminated, and a closing brace.
pub open spec fn qbe_instr(st: QbeV, i: InstrV) -> QbeV
    decreases i, 0nat,
{
    if st.term && !(i is Label) && !(i is FnDecl) {
        st
    } else {
        match i {
            InstrV::FnDecl { name, params, body } => {
                let st2 = qbe_instrs(QbeV { out: st.out + fn_header(name, params), ft: st.ft, term: false }, body);
                let st3 = if st2.term {
                    st2
                } else {
                    QbeV { out: st2.out + "    ret 0\n"@, ft: st2.ft, term: true }
                };
                QbeV { out: st3.out + "}\n\n"@, ft: st3.ft, term: st3.term }
            },
            _ => QbeV {
                out: st.out + instr_lines(i, st.ft),
                ft: if is_cond_jump(i) {
                    st.ft + 1
                } else {
                    st.ft
                },
                term: term_after(i, st.term),
            },
        }
    }
}

/// Emits instructions in order.
pub open spec fn qbe_instrs(st: QbeV, s: Seq<InstrV>) -> QbeV
    decreases s, 1nat,
{
    if s.len() == 0 {
        st
    } else {
        qbe_instr(qbe_instrs(st, s.drop_last()), s.last())
    }
}

/// The number of conditional jumps, nested bodies included.
pub open spec fn cond_jumps(i: InstrV) -> nat
    decreases i,
{
    match i {
        InstrV::FnDecl { body, .. } => cond_jumps_seq(body),
        InstrV::GotoIf { .. } | InstrV::GotoIfFalse { .. } => 1,
        _ => 0,
    }
}

pub open spec fn cond_jumps_seq(s: Seq<InstrV>) -> nat
    decreases s,
{
    if s.len() == 0 {
        0
    } else {
        cond_jumps_seq(s.drop_last()) + cond_jumps(s.last())
    }
}

/// Each instruction hands out at most as many fall-through labels as it has
/// conditional jumps.
pub proof fn lemma_qbe_ft(st: QbeV, i: InstrV)
    ensures
        st.ft <= qbe_instr(st, i).ft <= st.ft + cond_jumps(i),
    decreases i, 0nat,
{
    if let InstrV::FnDecl { name, params, body } = i {
        lemma_qbe_ft_seq(QbeV { out: st.out + fn_header(name, params), ft: st.ft, term: false }, body);
    }
}

pub proof fn lemma_qbe_ft_seq(st: QbeV, s: Seq<InstrV>)
    ensures
        st.ft <= qbe_instrs(st, s).ft <= st.ft + cond_jumps_seq(s),
    decreases s, 1nat,
{
    if s.len() > 0 {
        lemma_qbe_ft_seq(st, s.drop_last());
        lemma_qbe_ft(qbe_instrs(st, s.drop_last()), s.last());
    }
}

/// The cond-jump count of a prefix is at most that of the whole sequence.
proof fn lemma_cond_jumps_prefix(s: Seq<InstrV>, i: int)
    requires
        0 <= i <= s.len(),
    ensures
        cond_jumps_seq(s.take(i)) + cond_jumps(s[i]) <= cond_jumps_seq(s) || i == s.len(),
        i < s.len() ==> cond_jumps_seq(s.take(i + 1)) == cond_jumps_seq(s.take(i)) + cond_jumps(s[i]),
        cond_jumps_seq(s.take(i)) <= cond_jumps_seq(s),
    decreases s.len() - i,
{
    if i < s.len() {
        assert(s.take(i + 1).drop_last() == s.take(i));
        lemma_cond_jumps_prefix(s, i + 1);
    } else {
        assert(s.take(i) == s);
    }
}

/// Generates QBE from IR: the output so far, a counter of fall-through labels, and
/// whether the current block is terminated.
pub struct QbeGenerator {
    out: String,
    fallthrough_count: usize,
    is_terminated: bool,
}

impl View for QbeGenerator {
    type V = QbeV;

    closed spec fn view(&self) -> QbeV {
        QbeV { out: self.out@, ft: self.fallthrough_count as nat, term: self.is_terminated }
    }
}

/// The name without `%`, `$` and `@`, and with `#` as `_`.
fn pure_name(s: &str) -> (r: String)
    ensures
        r@ == pure_chars(s@),
{
    let cs = chars_of(s);
    let mut r = String::new();
    let mut i: usize = 0;
    while i < cs.len()
        invariant
            cs@ == s@,
            i <= cs.len(),
            r@ == pure_chars(cs@.take(i as int)),
        decreases cs.len() - i,
    {
        let c = cs[i];
        proof {
            assert(cs@.take(i + 1).drop_last() == cs@.take(i as int));
            assert(cs@.take(i + 1).last() == c);
        }
        if c == '%' || c == '$' || c == '@' {
            assert(r@ =~= pure_chars(cs@.take(i as int)) + pure_char(c));
        } else if c == '#' {
            string_push(&mut r, '_');
            assert(r@ =~= pure_chars(cs@.take(i as int)) + pure_char(c));
        } else {
            string_push(&mut r, c);
            assert(r@ =~= pure_chars(cs@.take(i as int)) + pure_char(c));
        }
        i += 1;
    }
    assert(cs@.take(cs.len() as int) == cs@);
    r
}

/// The QBE temporary of a register: `%` and its pure name.
fn to_local_reg(s: &str) -> (r: String)
    ensures
        r@ == local_reg(s@),
{
    let mut r = text_of("%");
    push_str(&mut r, pure_name(s).as_str());
    r
}

fn format_operand(operand: &Operand) -> (r: String)
    ensures
        r@ == fmt_operand(operand@),
{
    match operand {
        Operand::Imm(n) => {
            let mut r = String::new();
            push_i32(&mut r, *n);
            r
        },
        Operand::Reg(reg) => to_local_reg(reg.as_str()),
    }
}

/// The name with `#` and `$` as `_`.
fn sanitize(name: &str) -> (r: String)
    ensures
        r@ == sanitized(name@),
{
    let cs = chars_of(name);
    let mut r = String::new();
    let mut i: usize = 0;
    while i < cs.len()
        invariant
            cs@ == name@,
            i <= cs.len(),
            r@ == sanitized(cs@.take(i as int)),
        decreases cs.len() - i,
    {
        let c = cs[i];
        if c == '#' || c == '$' {
            string_push(&mut r, '_');
        } else {
            string_push(&mut r, c);
        }
        i += 1;
        assert(r@ =~= sanitized(cs@.take(i as int)));
    }
    assert(cs@.take(cs.len() as int) =~= cs@);
    r
}

/// The name of a jump target.
fn label_name_of(l: &Lbl) -> (r: String)
    ensures
        r@ == lbl_name(l@),
{
    match l {
        Lbl::Name(n) => n.clone(),
        Lbl::Resolved(r) => {
            let mut s = String::new();
            push_decimal(&mut s, *r);
            s
        },
    }
}

/// The header of a function.
fn function_header(name: &String, params: &Vec<String>) -> (r: String)
    ensures
        r@ == fn_header(name@, ir::strings_view(params@)),
{
    let safe = pure_name(name.as_str());
    let mut parts: Vec<String> = Vec::new();
    let mut i: usize = 0;
    while i < params.len()
        invariant
            i <= params.len(),
            parts.len() == i,
            forall|j: int| 0 <= j < i ==> #[trigger] parts@[j]@ == "l "@ + local_reg(params@[j]@),
        decreases params.len() - i,
    {
        let mut p = text_of("l ");
        push_str(&mut p, to_local_reg(params[i].as_str()).as_str());
        parts.push(p);
        i += 1;
    }
    assert(parts@.map_values(|p: String| p@) =~= ir::strings_view(params@).map_values(|p: Seq<char>| "l "@ + local_reg(p)));
    let is_main = crate::text::same_text(safe.as_str(), "main_0");
    let mut r = if is_main {
        text_of("export ")
    } else {
        String::new()
    };
    proof {
        reveal_strlit("");
    }
    push_str(&mut r, "function l $");
    if is_main {
        push_str(&mut r, "main");
    } else {
        push_str(&mut r, safe.as_str());
    }
    push_str(&mut r, "(");
    push_joined(&mut r, &parts, ", ");
    push_str(&mut r, ") {\n");
    push_str(&mut r, "@start\n");
    assert(r@ =~= fn_header(name@, ir::strings_view(params@)));
    r
}

/// The lines of an instruction other than a function declaration.
fn instruction_lines(instr: &Instr, ft: usize) -> (r: String)
    requires
        !(instr@ is FnDecl),
    ensures
        r@ == instr_lines(instr@, ft as nat),
{
    let mut t = String::new();
    match instr {
        Instr::Alloc { dest, size } => {
            push_str(&mut t, "    ");
            push_str(&mut t, sanitize(dest.as_str()).as_str());
            push_str(&mut t, " =l alloc8 ");
            push_decimal(&mut t, *size);
            push_str(&mut t, "\n");
        },
        Instr::Store { size, src, dest } => {
            let store = match size {
                Size::Byte => "storeb",
                Size::Word => "storew",
                Size::Long => "storel",
            };
            push_str(&mut t, "    ");
            push_str(&mut t, store);
            push_str(&mut t, " ");
            push_str(&mut t, format_operand(src).as_str());
            push_str(&mut t, ", ");
            push_str(&mut t, to_local_reg(dest.as_str()).as_str());
            push_str(&mut t, "\n");
        },
        Instr::Load { size, dest, src } => {
            let load = match size {
                Size::Byte => "loadub",
                Size::Word => "loadw",
                Size::Long => "loadl",
            };
            push_str(&mut t, "    ");
            push_str(&mut t, to_local_reg(dest.as_str()).as_str());
            push_str(&mut t, " =l ");
            push_str(&mut t, load);
            push_str(&mut t, " ");
            push_str(&mut t, to_local_reg(src.as_str()).as_str());
            push_str(&mut t, "\n");
        },
        Instr::Move { dest, src } => {
            push_str(&mut t, "    ");
            push_str(&mut t, sanitize(dest.as_str()).as_str());
            push_str(&mut t, " =l copy ");
            push_str(&mut t, format_operand(src).as_str());
            push_str(&mut t, "\n");
        },
        Instr::Label { label } => {
            push_str(&mut t, "@");
            push_str(&mut t, sanitize(label_name_of(label).as_str()).as_str());
            push_str(&mut t, "\n");
        },
        Instr::Goto { dest } => {
            push_str(&mut t, "    jmp @");
            push_str(&mut t, sanitize(label_name_of(dest).as_str()).as_str());
            push_str(&mut t, "\n");
        },
        Instr::GotoIf { cond, dest } => {
            let mut f = text_of("@.ft.");
            push_decimal(&mut f, ft);
            push_str(&mut t, "    jnz ");
            push_str(&mut t, format_operand(cond).as_str());
            push_str(&mut t, ", @");
            push_str(&mut t, sanitize(label_name_of(dest).as_str()).as_str());
            push_str(&mut t, ", ");
            push_str(&mut t, f.as_str());
            push_str(&mut t, "\n");
            push_str(&mut t, f.as_str());
            push_str(&mut t, "\n");
        },
        Instr::GotoIfFalse { cond, dest } => {
            let mut f = text_of("@.ft.");
            push_decimal(&mut f, ft);
            push_str(&mut t, "    jnz ");
            push_str(&mut t, format_operand(cond).as_str());
            push_str(&mut t, ", ");
            push_str(&mut t, f.as_str());
            push_str(&mut t, ", @");
            push_str(&mut t, sanitize(label_name_of(dest).as_str()).as_str());
            push_str(&mut t, "\n");
            push_str(&mut t, f.as_str());
            push_str(&mut t, "\n");
        },
        Instr::Call { dest, name, args } => {
            let mut parts: Vec<String> = Vec::new();
            let mut i: usize = 0;
            while i < args.len()
                invariant
                    i <= args.len(),
                    parts.len() == i,
                    forall|j: int| 0 <= j < i ==> #[trigger] parts@[j]@ == "l "@ + fmt_operand(args@[j]@),
                decreases args.len() - i,
            {
                let mut p = text_of("l ");
                push_str(&mut p, format_operand(&args[i]).as_str());
                parts.push(p);
                i += 1;
            }
            assert(parts@.map_values(|p: String| p@) =~= ir::operands_view(args@).map_values(|a: OperandV| "l "@ + fmt_operand(a)));
            push_str(&mut t, "    ");
            push_str(&mut t, sanitize(dest.as_str()).as_str());
            push_str(&mut t, " =l call $");
            push_str(&mut t, sanitize(name.as_str()).as_str());
            push_str(&mut t, "(");
            push_joined(&mut t, &parts, ", ");
            push_str(&mut t, ")\n");
        },
        Instr::Ret { operand } => {
            push_str(&mut t, "    ret ");
            push_str(&mut t, format_operand(operand).as_str());
            push_str(&mut t, "\n");
        },
        Instr::BinOp { dest, left, operator, right } => {
            let d = pure_name(dest.as_str());
            let l_op = format_operand(left);
            let r_op = format_operand(right);
            let (is_test, op) = match operator {
                BinaryOp::Add => (false, "add"),
                BinaryOp::Sub => (false, "sub"),
                BinaryOp::Mul => (false, "mul"),
                BinaryOp::Div => (false, "div"),
                BinaryOp::Eq => (true, "ceql"),
                BinaryOp::Neq => (true, "cnel"),
                BinaryOp::Lt => (true, "csltl"),
                BinaryOp::Leq => (true, "cslel"),
                BinaryOp::Gt => (true, "csgtl"),
                BinaryOp::Geq => (true, "csgel"),
            };
            if is_test {
                push_str(&mut t, "    %_cmp_");
                push_str(&mut t, d.as_str());
                push_str(&mut t, " =w ");
                push_str(&mut t, op);
                push_str(&mut t, " ");
                push_str(&mut t, l_op.as_str());
                push_str(&mut t, ", ");
                push_str(&mut t, r_op.as_str());
                push_str(&mut t, "\n");
                push_str(&mut t, "    %");
                push_str(&mut t, d.as_str());
                push_str(&mut t, " =l extuw %_cmp_");
                push_str(&mut t, d.as_str());
                push_str(&mut t, "\n");
            } else {
                push_str(&mut t, "    %");
                push_str(&mut t, d.as_str());
                push_str(&mut t, " =l ");
                push_str(&mut t, op);
                push_str(&mut t, " ");
                push_str(&mut t, l_op.as_str());
                push_str(&mut t, ", ");
                push_str(&mut t, r_op.as_str());
                push_str(&mut t, "\n");
            }
        },
        Instr::UnOp { dest, operator, operand } => {
            let d = pure_name(dest.as_str());
            let o = format_operand(operand);
            match operator {
                UnaryOp::Pos => {
                    push_str(&mut t, "    %");
                    push_str(&mut t, d.as_str());
                    push_str(&mut t, " =l copy ");
                    push_str(&mut t, o.as_str());
                    push_str(&mut t, "\n");
                },
                UnaryOp::Neg => {
                    push_str(&mut t, "    %");
                    push_str(&mut t, d.as_str());
                    push_str(&mut t, " =l sub 0, ");
                    push_str(&mut t, o.as_str());
                    push_str(&mut t, "\n");
                },
                UnaryOp::Not => {
                    push_str(&mut t, "    %_cmp_");
                    push_str(&mut t, d.as_str());
                    push_str(&mut t, " =w ceql ");
                    push_str(&mut t, o.as_str());
                    push_str(&mut t, ", 0\n");
                    push_str(&mut t, "    %");
                    push_str(&mut t, d.as_str());
                    push_str(&mut t, " =l extuw %_cmp_");
                    push_str(&mut t, d.as_str());
                    push_str(&mut t, "\n");
                },
            }
        },
        Instr::PrintByte { operand } => {
            push_str(&mut t, "    call $print_byte(l ");
            push_str(&mut t, format_operand(operand).as_str());
            push_str(&mut t, ")\n");
        },
        Instr::PrintInt { operand } => {
            push_str(&mut t, "    call $print_int(l ");
            push_str(&mut t, format_operand(operand).as_str());
            push_str(&mut t, ")\n");
        },
        Instr::PrintString { src } => {
            push_str(&mut t, "    call $print_string(l ");
            push_str(&mut t, format_operand(src).as_str());
            push_str(&mut t, ")\n");
        },
        Instr::GetByte { dest_addr } => {
            push_str(&mut t, "    call $get_byte(l ");
            push_str(&mut t, format_operand(dest_addr).as_str());
            push_str(&mut t, ")\n");
        },
        Instr::GetInt { dest_addr } => {
            push_str(&mut t, "    call $get_int(l ");
            push_str(&mut t, format_operand(dest_addr).as_str());
            push_str(&mut t, ")\n");
        },
        Instr::FnDecl { .. } => {},
    }
    assert(t@ =~= instr_lines(instr@, ft as nat));
    t
}

impl QbeGenerator {
    pub fn new() -> (r: Self)
        ensures
            r@ == (QbeV { out: Seq::empty(), ft: 0, term: false }),
    {
        Self { out: String::new(), fallthrough_count: 0, is_terminated: false }
    }

    /// Emits the instructions, and gives back everything emitted so far.
    pub fn generate(&mut self, instrs: &[Instr]) -> (r: String)
        requires
            old(self)@.ft + cond_jumps_seq(ir::instrs_view(instrs@)) <= usize::MAX,
        ensures
            final(self)@ == qbe_instrs(old(self)@, ir::instrs_view(instrs@)),
            r@ == final(self)@.out,
    {
        self.emit_seq(instrs);
        self.out.clone()
    }

    /// Whether `generate` can number the fall-through labels of `instrs` in a machine
    /// word.
    pub fn can_generate(&self, instrs: &[Instr]) -> (r: bool)
        ensures
            r == (self@.ft + cond_jumps_seq(ir::instrs_view(instrs@)) <= usize::MAX),
    {
        match count_cond_jumps(instrs, usize::MAX - self.fallthrough_count) {
            Some(_) => true,
            None => false,
        }
    }

    /// Emits the instructions in order.
    fn emit_seq(&mut self, instrs: &[Instr])
        requires
            old(self)@.ft + cond_jumps_seq(ir::instrs_view(instrs@)) <= usize::MAX,
        ensures
            final(self)@ == qbe_instrs(old(self)@, ir::instrs_view(instrs@)),
        decreases ir::instrs_size(ir::instrs_view(instrs@)), 1nat,
    {
        let ghost vv = ir::instrs_view(instrs@);
        let ghost st0 = self@;
        proof {
            ir::lemma_instrs_view(instrs@);
            assert(vv.take(0) == Seq::<InstrV>::empty());
        }
        let mut i: usize = 0;
        while i < instrs.len()
            invariant
                vv == ir::instrs_view(instrs@),
                vv.len() == instrs.len(),
                forall|j: int| 0 <= j < instrs.len() ==> #[trigger] vv[j] == ir::instr_view(instrs@[j]),
                i <= instrs.len(),
                st0.ft + cond_jumps_seq(vv) <= usize::MAX,
                self@ == qbe_instrs(st0, vv.take(i as int)),
            decreases instrs.len() - i,
        {
            proof {
                ir::lemma_instrs_size(vv, i as int);
                assert(vv.take(i + 1).drop_last() == vv.take(i as int));
                assert(vv.take(i + 1).last() == vv[i as int]);
                lemma_qbe_ft_seq(st0, vv.take(i as int));
                lemma_cond_jumps_prefix(vv, i as int);
            }
            self.emit_instr(&instrs[i]);
            i += 1;
        }
        assert(vv.take(instrs.len() as int) == vv);
    }

    /// Emits one instruction.
    fn emit_instr(&mut self, instr: &Instr)
        requires
            old(self)@.ft + cond_jumps(instr@) <= usize::MAX,
        ensures
            final(self)@ == qbe_instr(old(self)@, instr@),
        decreases ir::instr_size(instr@), 0nat,
    {
        if self.is_terminated {
            match instr {
                Instr::Label { .. } | Instr::FnDecl { .. } => {},
                _ => return,
            }
        }
        match instr {
            Instr::FnDecl { name, params, body } => {
                let header = function_header(name, params);
                push_str(&mut self.out, header.as_str());
                self.is_terminated = false;
                self.emit_seq(body.as_slice());
                if !self.is_terminated {
                    push_str(&mut self.out, "    ret 0\n");
                    self.is_terminated = true;
                }
                push_str(&mut self.out, "}\n\n");
            },
            Instr::GotoIf { .. } | Instr::GotoIfFalse { .. } => {
                let ft = self.fallthrough_count;
                let lines = instruction_lines(instr, ft);
                self.fallthrough_count += 1;
                push_str(&mut self.out, lines.as_str());
                self.is_terminated = false;
            },
            _ => {
                let lines = instruction_lines(instr, self.fallthrough_count);
                push_str(&mut self.out, lines.as_str());
                match instr {
                    Instr::Label { .. } => self.is_terminated = false,
                    Instr::Goto { .. } | Instr::Ret { .. } => self.is_terminated = true,
                    _ => {},
                }
            },
        }
    }
}

/// The number of conditional jumps of `instrs`, if it is at most `limit`.
fn count_cond_jumps(instrs: &[Instr], limit: usize) -> (r: Option<usize>)
    ensures
        match r {
            Some(n) => n == cond_jumps_seq(ir::instrs_view(instrs@)) && n <= limit,
            None => cond_jumps_seq(ir::instrs_view(instrs@)) > limit,
        },
    decreases ir::instrs_size(ir::instrs_view(instrs@)),
{
    let ghost vv = ir::instrs_view(instrs@);
    proof {
        ir::lemma_instrs_view(instrs@);
        assert(vv.take(0) == Seq::<InstrV>::empty());
    }
    let mut n: usize = 0;
    let mut i: usize = 0;
    while i < instrs.len()
        invariant
            vv == ir::instrs_view(instrs@),
            vv.len() == instrs.len(),
            forall|j: int| 0 <= j < instrs.len() ==> #[trigger] vv[j] == ir::instr_view(instrs@[j]),
            i <= instrs.len(),
            n == cond_jumps_seq(vv.take(i as int)),
            n <= limit,
        decreases instrs.len() - i,
    {
        proof {
            ir::lemma_instrs_size(vv, i as int);
            assert(vv.take(i + 1).drop_last() == vv.take(i as int));
            assert(vv.take(i + 1).last() == vv[i as int]);
            lemma_cond_jumps_prefix(vv, i as int);
        }
        let k: usize = match &instrs[i] {
            Instr::GotoIf { .. } | Instr::GotoIfFalse { .. } => 1,
            Instr::FnDecl { body, .. } => {
                proof {
                    assert(ir::instr_size(vv[i as int]) == 1 + ir::instrs_size(ir::instrs_view(body@)));
                }
                match count_cond_jumps(body.as_slice(), limit - n) {
                    Some(k) => k,
                    None => {
                        proof {
                            lemma_cond_jumps_prefix(vv, i as int + 1);
                        }
                        return None;
                    },
                }
            },
            _ => 0,
        };
        if k > limit - n {
            proof {
                lemma_cond_jumps_prefix(vv, i as int + 1);
            }
            return None;
        }
        n = n + k;
        i += 1;
    }
    assert(vv.take(instrs.len() as int) == vv);
    Some(n)
}

/// A pure name holds none of the sigils `%`, `$`, `@`, nor `#`.
pub proof fn law_pure_name_clean(s: Seq<char>)
    ensures
        forall|i: int| 0 <= i < pure_chars(s).len() ==> {
            let c = #[trigger] pure_chars(s)[i];
            c != '%' && c != '$' && c != '@' && c != '#'
        },
    decreases s.len(),
{
    if s.len() > 0 {
        law_pure_name_clean(s.drop_last());
        assert forall|i: int| 0 <= i < pure_chars(s).len() implies {
            let c = #[trigger] pure_chars(s)[i];
            c != '%' && c != '$' && c != '@' && c != '#'
        } by {
            if i >= pure_chars(s.drop_last()).len() {
                let c = s.last();
                if c == '%' || c == '$' || c == '@' {
                } else if c == '#' {
                    assert(pure_char(c) == seq!['_']);
                } else {
                    assert(pure_char(c) == seq![c]);
                }
            }
        }
    }
}

/// A sanitized name holds neither `#` nor `$`, and keeps the length of the name.
pub proof fn law_sanitized_clean(s: Seq<char>)
    ensures
        sanitized(s).len() == s.len(),
        forall|i: int| 0 <= i < s.len() ==> #[trigger] sanitized(s)[i] != '#' && sanitized(s)[i] != '$',
{
}

/// After a function, the current block is terminated: its body ends with a return,
/// whether the body has one or not.
pub proof fn law_function_ends_terminated(st: QbeV, name: Seq<char>, params: Seq<Seq<char>>, body: Seq<InstrV>)
    ensures
        qbe_instr(st, InstrV::FnDecl { name, params, body }).term,
{
}


/// How blocks go. In a terminated block every instruction but a label or a function is
/// unreachable: it is dropped and changes nothing. A label is written and opens a new
/// block. Outside a terminated block, an instruction other than a function is written
/// with the next fall-through label, which a conditional jump uses up; a `ret` or a
/// `goto` then terminates the block, a label or a conditional jump leaves it open, and
/// so does every other instruction. After a function the block is terminated.
pub proof fn law_blocks(st: QbeV, i: InstrV)
    ensures
        st.term && !(i is Label) && !(i is FnDecl) ==> qbe_instr(st, i) == st,
        i is Label ==> qbe_instr(st, i) == (QbeV {
            out: st.out + "@"@ + sanitized(lbl_name(i->Label_label)) + "\n"@,
            ft: st.ft,
            term: false,
        }),
        !st.term && !(i is FnDecl) ==> qbe_instr(st, i).out == st.out + instr_lines(i, st.ft),
        !st.term && is_cond_jump(i) ==> qbe_instr(st, i).ft == st.ft + 1,
        !st.term && !(i is FnDecl) && !is_cond_jump(i) ==> qbe_instr(st, i).ft == st.ft,
        !st.term && (i is Ret || i is Goto) ==> qbe_instr(st, i).term,
        !st.term && !(i is Ret || i is Goto || i is FnDecl) ==> !qbe_instr(st, i).term,
        i is FnDecl ==> qbe_instr(st, i).term,
{
    if let InstrV::Label { label } = i {
        assert(st.out + instr_lines(i, st.ft) =~= st.out + "@"@ + sanitized(lbl_name(label)) + "\n"@);
    }
}


/// The QBE conditional jump `jnz c, @nonzero, @zero`: to `nonzero` when `c` is not
/// zero, else to `zero`.
pub open spec fn jnz_line(c: Seq<char>, nonzero: Seq<char>, zero: Seq<char>) -> Seq<char> {
    "    jnz "@ + c + ", "@ + nonzero + ", "@ + zero + "\n"@
}

/// `if c goto L` jumps to `L` when `c` is not zero and falls through otherwise;
/// `if not c goto L` jumps to `L` when `c` is zero and falls through otherwise: the two
/// differ by the order of their targets. Both are followed by the fall-through label.
pub proof fn law_conditional_jumps(cond: OperandV, dest: LblV, ft: nat)
    ensures
        instr_lines(InstrV::GotoIf { cond, dest }, ft) == jnz_line(fmt_operand(cond), "@"@ + sanitized(lbl_name(dest)), fallthrough(ft))
            + fallthrough(ft) + "\n"@,
        instr_lines(InstrV::GotoIfFalse { cond, dest }, ft) == jnz_line(fmt_operand(cond), fallthrough(ft), "@"@ + sanitized(
            lbl_name(dest),
        )) + fallthrough(ft) + "\n"@,
{
    reveal_strlit(", @");
    reveal_strlit(", ");
    reveal_strlit("@");
    let c = fmt_operand(cond);
    let l = "@"@ + sanitized(lbl_name(dest));
    let f = fallthrough(ft);
    assert(instr_lines(InstrV::GotoIf { cond, dest }, ft) =~= jnz_line(c, l, f) + f + "\n"@);
    assert(instr_lines(InstrV::GotoIfFalse { cond, dest }, ft) =~= jnz_line(c, f, l) + f + "\n"@);
}

} // verus!
