use std::collections::HashMap;

use mic::ast::{BinaryOperator, Expr, Stmt};
use mic::capture::capture;
use mic::compiler::{compile, Stage};
use mic::flatten::flatten;
use mic::function_renamer::FunctionRenamer;
use mic::goto_cleanup::GotoCleanup;
use mic::ir::{BinaryOp, IRBuilder, Instr, Lbl, Operand};
use mic::jump_context::JumpContext;
use mic::node_id_assigner::{assign_id, can_assign_ids, IdBuilder};
use mic::program_printer::ProgramPrinter;
use mic::qbe::QbeGenerator;
use mic::return_check::return_check;
use mic::symbol_table::SymbolTable;
use mic::translate::{translate_stmts, try_translate_stmts};
use mic::typ::Type;
use mic::type_check::type_check;
use mic::value::Val;
use mic::{error_report, get_line_col, Error};

fn num(n: i32) -> Box<Expr> {
    Box::new(Expr::Const { id: 0, loc: 0, val: Val::Int(n) })
}

fn var(name: &str, loc: usize) -> Box<Expr> {
    Box::new(Expr::Var { id: 0, loc, name: name.to_string() })
}

fn add(l: Box<Expr>, r: Box<Expr>) -> Box<Expr> {
    Box::new(Expr::BinOp { id: 0, loc: 0, left: l, operator: BinaryOperator::Add, right: r })
}

fn checked(mut prog: Vec<Box<Stmt>>) -> (Vec<Box<Stmt>>, HashMap<usize, Type>, Result<(), Error>) {
    let mut ids = IdBuilder::new();
    assign_id(&mut prog, &mut ids);
    let mut ntm: HashMap<usize, Type> = HashMap::new();
    let r = type_check(&mut prog, &mut ntm);
    (prog, ntm, r)
}

fn reg(r: &str) -> Operand {
    Operand::Reg(r.to_string())
}

#[test]
fn line_col_counts_lines_and_columns() {
    assert_eq!(get_line_col("ab\ncd", 4), (2, 2));
    assert_eq!(get_line_col("ab\ncd", 0), (1, 1));
    assert_eq!(get_line_col("ab", 10), (1, 3));
}

#[test]
fn line_col_counts_bytes_of_wide_characters() {
    assert_eq!(get_line_col("é\nx", 3), (2, 1));
    assert_eq!(get_line_col("éx", 2), (1, 2));
}

#[test]
fn error_report_gives_position_and_message() {
    let err = Error::new(3, "Use of undeclared variable y.".to_string());
    assert_eq!(
        error_report("ab\ny = 1;", &err),
        vec!["Error at line 2, column 1".to_string(), "Use of undeclared variable y.".to_string()]
    );
}

#[test]
fn ids_are_consecutive_in_numbering_order() {
    let mut prog = vec![Box::new(Stmt::Expr { id: 0, loc: 0, expr: add(num(1), num(2)) })];
    let mut ids = IdBuilder::new();
    assign_id(&mut prog, &mut ids);
    match prog[0].as_ref() {
        Stmt::Expr { id, expr, .. } => {
            assert_eq!(*id, 0);
            match expr.as_ref() {
                Expr::BinOp { id, left, right, .. } => {
                    assert_eq!(*id, 1);
                    assert_eq!(left.id(), 2);
                    assert_eq!(right.id(), 3);
                },
                _ => panic!("not a binary operation"),
            }
        },
        _ => panic!("not an expression statement"),
    }
}

#[test]
fn type_check_accepts_arithmetic_on_ints() {
    let prog = vec![
        Box::new(Stmt::Define { id: 0, loc: 0, typ: Type::Int, name: "x".to_string(), rhs: num(1) }),
        Box::new(Stmt::Assign { id: 0, loc: 5, lhs: var("x", 5), rhs: add(var("x", 9), num(2)) }),
    ];
    let (_, ntm, r) = checked(prog);
    assert!(r.is_ok());
    assert_eq!(ntm.len(), 5);
}

#[test]
fn type_check_reports_undeclared_variable() {
    let prog = vec![Box::new(Stmt::Expr { id: 0, loc: 0, expr: var("y", 7) })];
    let (_, _, r) = checked(prog);
    let err = r.unwrap_err();
    assert_eq!(err.loc(), 7);
    assert_eq!(err.msg(), "Use of undeclared variable y.");
}

#[test]
fn type_check_reports_redeclaration() {
    let prog = vec![
        Box::new(Stmt::Declare { id: 0, loc: 0, typ: Type::Int, name: "x".to_string() }),
        Box::new(Stmt::Declare { id: 0, loc: 4, typ: Type::Bool, name: "x".to_string() }),
    ];
    let (_, _, r) = checked(prog);
    assert_eq!(r.unwrap_err().msg(), "Redeclaration of variable x");
}

#[test]
fn type_check_reports_mismatched_definition() {
    let prog = vec![Box::new(Stmt::Define {
        id: 0,
        loc: 2,
        typ: Type::Bool,
        name: "b".to_string(),
        rhs: num(1),
    })];
    let (_, _, r) = checked(prog);
    let err = r.unwrap_err();
    assert_eq!(err.loc(), 2);
    assert_eq!(err.msg(), "Variable b expected type bool but got int.");
}

#[test]
fn type_check_reports_return_at_global_level() {
    let prog = vec![Box::new(Stmt::Return { id: 0, loc: 1, expr: num(0) })];
    let (_, _, r) = checked(prog);
    assert_eq!(r.unwrap_err().msg(), "Tried to return in global scope.");
}

#[test]
fn type_check_reports_bad_print_string() {
    let prog = vec![Box::new(Stmt::PrintString { id: 0, loc: 0, expr: num(1) })];
    let (_, _, r) = checked(prog);
    assert_eq!(r.unwrap_err().msg(), "print_string expected ptr<byte> but got int.");
}

#[test]
fn type_check_gives_calls_their_return_type() {
    let f = Box::new(Stmt::FnDecl {
        id: 0,
        loc: 0,
        name: "f".to_string(),
        args: vec![("a".to_string(), Type::Int)],
        ret_type: Type::Int,
        body: Box::new(Stmt::Return { id: 0, loc: 0, expr: var("a", 0) }),
    });
    let call = Box::new(Expr::Call { id: 0, loc: 3, name: "f".to_string(), args: vec![num(4)], ret_type: None });
    let prog = vec![f, Box::new(Stmt::PrintInt { id: 0, loc: 0, expr: call })];
    let (prog, _, r) = checked(prog);
    assert!(r.is_ok());
    match prog[1].as_ref() {
        Stmt::PrintInt { expr, .. } => match expr.as_ref() {
            Expr::Call { ret_type, .. } => assert!(matches!(ret_type, Some(Type::Int))),
            _ => panic!("not a call"),
        },
        _ => panic!("not a print"),
    }
}

#[test]
fn type_check_reports_argument_mismatch() {
    let f = Box::new(Stmt::FnDecl {
        id: 0,
        loc: 0,
        name: "f".to_string(),
        args: vec![("a".to_string(), Type::Int)],
        ret_type: Type::Int,
        body: Box::new(Stmt::Return { id: 0, loc: 0, expr: var("a", 0) }),
    });
    let call = Box::new(Expr::Call {
        id: 0,
        loc: 3,
        name: "f".to_string(),
        args: vec![Box::new(Expr::Const { id: 0, loc: 0, val: Val::Bool(true) })],
        ret_type: None,
    });
    let prog = vec![f, Box::new(Stmt::Expr { id: 0, loc: 0, expr: call })];
    let (_, _, r) = checked(prog);
    assert_eq!(r.unwrap_err().msg(), "Type mismatch of f on argument 0. Expected int but got bool.");
}

#[test]
fn return_check_reports_function_that_may_not_return() {
    let f = Box::new(Stmt::FnDecl {
        id: 0,
        loc: 11,
        name: "f".to_string(),
        args: vec![],
        ret_type: Type::Int,
        body: Box::new(Stmt::Block { id: 0, loc: 0, stmts: vec![] }),
    });
    let err = return_check(&vec![f]).unwrap_err();
    assert_eq!(err.loc(), 11);
    assert_eq!(err.msg(), "Function f may not return.");
}

#[test]
fn return_check_accepts_returning_functions() {
    let body = Box::new(Stmt::If {
        id: 0,
        loc: 0,
        cond: Box::new(Expr::Const { id: 0, loc: 0, val: Val::Bool(true) }),
        true_arm: Box::new(Stmt::Return { id: 0, loc: 0, expr: num(1) }),
        false_arm: Box::new(Stmt::Return { id: 0, loc: 0, expr: num(2) }),
    });
    let f = Box::new(Stmt::FnDecl { id: 0, loc: 0, name: "f".to_string(), args: vec![], ret_type: Type::Int, body });
    assert!(matches!(return_check(&vec![f]), Ok(true)));
}

#[test]
fn builder_hands_out_fresh_names() {
    let mut b = IRBuilder::new();
    assert_eq!(b.new_reg(), "%r0");
    assert_eq!(b.new_reg(), "%r1");
    assert_eq!(b.new_label(), ".L0");
    assert_eq!(b.get_counters(), (2, 1));
    b.set_counters((7, 3));
    assert_eq!(b.new_reg(), "%r7");
    assert_eq!(b.new_label(), ".L3");
}

#[test]
fn symbol_table_scopes_hide_and_restore() {
    let mut t: SymbolTable<i32> = SymbolTable::new();
    t.push();
    t.define("x", 1);
    t.push();
    assert_eq!(t.lookup_current_scope("x"), None);
    t.define("x", 2);
    assert_eq!(t.lookup("x"), Some(&2));
    t.pop();
    assert_eq!(t.lookup("x"), Some(&1));
    assert_eq!(t.lookup("y"), None);
}

#[test]
fn jump_context_gives_innermost_loop() {
    let mut j = JumpContext::new();
    assert_eq!(j.lookup_break(), None);
    j.push("b1", "c1");
    j.push("b2", "c2");
    assert_eq!(j.lookup_break(), Some("b2"));
    assert_eq!(j.lookup_continue(), Some("c2"));
    j.pop();
    assert_eq!(j.lookup_continue(), Some("c1"));
}

#[test]
fn types_print_as_in_source() {
    assert_eq!(Type::Arr(Box::new(Type::Int), 3).to_text(), "int[3]");
    assert_eq!(Type::Ptr(Box::new(Type::Byte)).to_text(), "ptr<byte>");
}

fn tiny_program_ir() -> IRBuilder {
    let prog = vec![Box::new(Stmt::PrintInt { id: 0, loc: 0, expr: add(num(1), num(2)) })];
    let (prog, ntm, r) = checked(prog);
    assert!(r.is_ok());
    let mut b = IRBuilder::new();
    assert!(translate_stmts(&prog, &mut b, &ntm).is_ok());
    b
}

#[test]
fn translation_of_arithmetic() {
    let b = tiny_program_ir();
    assert_eq!(
        ProgramPrinter(&b.instrs).to_text(),
        "%r0 := 1\n%r1 := 2\n%r2 := %r0 + %r1\nprint_int %r2\n"
    );
}

#[test]
fn translation_reports_break_outside_loop() {
    let prog = vec![Box::new(Stmt::Break { id: 0, loc: 5 })];
    let (prog, ntm, r) = checked(prog);
    assert!(r.is_ok());
    let mut b = IRBuilder::new();
    let err = translate_stmts(&prog, &mut b, &ntm).unwrap_err();
    assert_eq!(err.loc(), 5);
    assert_eq!(err.msg(), "Statement break outside any loop");
}

#[test]
fn translation_of_while_jumps_back() {
    let body = Box::new(Stmt::Break { id: 0, loc: 0 });
    let prog = vec![Box::new(Stmt::While {
        id: 0,
        loc: 0,
        cond: Box::new(Expr::Const { id: 0, loc: 0, val: Val::Bool(true) }),
        body,
    })];
    let (prog, ntm, r) = checked(prog);
    assert!(r.is_ok());
    let mut b = IRBuilder::new();
    assert!(translate_stmts(&prog, &mut b, &ntm).is_ok());
    assert_eq!(
        ProgramPrinter(&b.instrs).to_text(),
        "label <.L1>\n%r0 := 1\nif not %r0 goto <.L0>\ngoto <.L0>\ngoto <.L1>\nlabel <.L0>\n"
    );
}

#[test]
fn translation_without_node_types_cannot_go_on() {
    let prog = vec![Box::new(Stmt::Expr { id: 0, loc: 0, expr: var("x", 0) })];
    let ntm: HashMap<usize, Type> = HashMap::new();
    let mut b = IRBuilder::new();
    assert!(try_translate_stmts(&prog, &mut b, &ntm).is_none());
}

#[test]
fn renamer_numbers_functions_and_renames_calls() {
    let mut instrs = vec![
        Instr::FnDecl { name: "f".to_string(), params: vec![], body: vec![Instr::Ret { operand: Operand::Imm(0) }] },
        Instr::Call { dest: "%r0".to_string(), name: "f".to_string(), args: vec![] },
        Instr::Call { dest: "%r1".to_string(), name: "g".to_string(), args: vec![] },
    ];
    let mut renamer = FunctionRenamer::new();
    renamer.traverse(&mut instrs);
    assert_eq!(
        ProgramPrinter(&instrs).to_text(),
        "fn f#0():\n    ret 0\n\n%r0 := call (f#0|)\n%r1 := call (g|)\n"
    );
}

#[test]
fn flatten_hoists_nested_functions() {
    let inner = Instr::FnDecl { name: "g".to_string(), params: vec![], body: vec![Instr::Ret { operand: Operand::Imm(1) }] };
    let outer = Instr::FnDecl {
        name: "f".to_string(),
        params: vec!["a".to_string()],
        body: vec![inner, Instr::Ret { operand: reg("a") }],
    };
    let instrs = vec![Instr::Move { dest: "%r0".to_string(), src: Operand::Imm(5) }, outer];
    let mut b = IRBuilder::new();
    flatten(&instrs, &mut b);
    assert_eq!(
        ProgramPrinter(&b.instrs).to_text(),
        "%r0 := 5\nfn g():\n    ret 1\n\nfn f(a):\n    ret a\n\n"
    );
}

#[test]
fn goto_cleanup_drops_jumps_after_jumps() {
    let instrs = vec![
        Instr::Goto { dest: Lbl::Name("a".to_string()) },
        Instr::Goto { dest: Lbl::Name("b".to_string()) },
        Instr::Label { label: Lbl::Name("a".to_string()) },
        Instr::Goto { dest: Lbl::Resolved(3) },
    ];
    let mut b = IRBuilder::new();
    let mut cleanup = GotoCleanup::new();
    cleanup.cleanup(&instrs, &mut b);
    assert_eq!(ProgramPrinter(&b.instrs).to_text(), "goto <a>\nlabel <a>\ngoto 3\n");
}

#[test]
fn qbe_of_tiny_program() {
    let b = tiny_program_ir();
    let mut b = b.epilogue();
    let mut renamer = FunctionRenamer::new();
    renamer.traverse(&mut b.instrs);
    let mut flat = IRBuilder::new();
    flatten(&b.instrs, &mut flat);
    let mut gen = QbeGenerator::new();
    assert!(gen.can_generate(&flat.instrs));
    assert_eq!(
        gen.generate(&flat.instrs),
        "export function l $main() {\n@start\n    %r0 =l copy 1\n    %r1 =l copy 2\n    %r2 =l add %r0, %r1\n    call $print_int(l %r2)\n    ret 0\n}\n\n"
    );
}

#[test]
fn qbe_numbers_fallthrough_labels_and_drops_dead_code() {
    let body = vec![
        Instr::GotoIf { cond: reg("x"), dest: Lbl::Name(".L0".to_string()) },
        Instr::Ret { operand: Operand::Imm(1) },
        Instr::Move { dest: "%r9".to_string(), src: Operand::Imm(2) },
        Instr::Label { label: Lbl::Name(".L0".to_string()) },
        Instr::BinOp { dest: "%r1".to_string(), left: reg("x"), operator: BinaryOp::Lt, right: Operand::Imm(-3) },
        Instr::Ret { operand: reg("%r1") },
    ];
    let instrs = vec![Instr::FnDecl { name: "f#1".to_string(), params: vec!["x".to_string()], body }];
    let mut gen = QbeGenerator::new();
    assert_eq!(
        gen.generate(&instrs),
        "function l $f_1(l %x) {\n@start\n    jnz %x, @.L0, @.ft.0\n@.ft.0\n    ret 1\n@.L0\n    %_cmp_r1 =w csltl %x, -3\n    %r1 =l extuw %_cmp_r1\n    ret %r1\n}\n\n"
    );
}

fn mov(dest: &str, src: Operand) -> Instr {
    Instr::Move { dest: dest.to_string(), src }
}

fn call(dest: &str, name: &str, args: Vec<Operand>) -> Instr {
    Instr::Call { dest: dest.to_string(), name: name.to_string(), args }
}

fn func(name: &str, params: &[&str], body: Vec<Instr>) -> Instr {
    Instr::FnDecl { name: name.to_string(), params: params.iter().map(|p| p.to_string()).collect(), body }
}

#[test]
fn capture_passes_free_registers_through_callers() {
    let mut instrs = vec![
        func("f", &["a"], vec![mov("%r2", reg("%r1")), mov("%r3", reg("%r0")), Instr::Ret { operand: reg("a") }]),
        func("g", &[], vec![mov("%r0", Operand::Imm(1)), call("%r4", "f", vec![reg("%r0")]), Instr::Ret { operand: reg("%r4") }]),
        call("%r5", "g", vec![]),
    ];
    capture(&mut instrs);
    assert_eq!(
        ProgramPrinter(&instrs).to_text(),
        "fn f(a,%r0,%r1):\n    %r2 := %r1\n    %r3 := %r0\n    ret a\n\n\
         fn g(%r1):\n    %r0 := 1\n    %r4 := call (f|%r0,%r0,%r1)\n    ret %r4\n\n\
         %r5 := call (g|%r1)\n"
    );
}

#[test]
fn capture_sorts_extra_parameters() {
    let mut instrs = vec![
        func("f", &[], vec![mov("x", reg("b")), mov("y", reg("a")), Instr::Ret { operand: Operand::Imm(0) }]),
        call("%r0", "f", vec![Operand::Imm(7)]),
    ];
    capture(&mut instrs);
    assert_eq!(
        ProgramPrinter(&instrs).to_text(),
        "fn f(a,b):\n    x := b\n    y := a\n    ret 0\n\n%r0 := call (f|7,a,b)\n"
    );
}

#[test]
fn capture_follows_recursive_calls_and_ignores_unknown_callees() {
    let mut instrs = vec![
        func("h", &["n"], vec![mov("m", reg("k")), call("r", "h", vec![reg("m")]), call("s", "ext", vec![]), Instr::Ret { operand: reg("r") }]),
        call("%r0", "ext", vec![reg("q")]),
    ];
    capture(&mut instrs);
    assert_eq!(
        ProgramPrinter(&instrs).to_text(),
        "fn h(n,k):\n    m := k\n    r := call (h|m,k)\n    s := call (ext|)\n    ret r\n\n%r0 := call (ext|q)\n"
    );
}

#[test]
fn capture_uses_the_last_declaration_of_a_name() {
    let mut instrs = vec![
        func("f", &[], vec![Instr::Ret { operand: reg("p") }]),
        func("f", &[], vec![Instr::Ret { operand: reg("q") }]),
    ];
    capture(&mut instrs);
    assert_eq!(ProgramPrinter(&instrs).to_text(), "fn f(q):\n    ret p\n\nfn f(q):\n    ret q\n\n");
}

fn call_expr(name: &str, args: Vec<Box<Expr>>) -> Box<Expr> {
    Box::new(Expr::Call { id: 0, loc: 0, name: name.to_string(), args, ret_type: None })
}

fn int_fn(name: &str, params: &[&str], body: Vec<Box<Stmt>>) -> Box<Stmt> {
    Box::new(Stmt::FnDecl {
        id: 0,
        loc: 0,
        name: name.to_string(),
        args: params.iter().map(|p| (p.to_string(), Type::Int)).collect(),
        ret_type: Type::Int,
        body: Box::new(Stmt::Block { id: 0, loc: 0, stmts: body }),
    })
}

fn ret(e: Box<Expr>) -> Box<Stmt> {
    Box::new(Stmt::Return { id: 0, loc: 0, expr: e })
}

#[test]
fn mutually_recursive_functions_type_check() {
    let eq0 = |n: &str| Box::new(Expr::BinOp { id: 0, loc: 0, left: var(n, 0), operator: BinaryOperator::Eq, right: num(0) });
    let minus1 = |n: &str| Box::new(Expr::BinOp { id: 0, loc: 0, left: var(n, 0), operator: BinaryOperator::Sub, right: num(1) });
    let branch = |other: &str, base: i32| {
        Box::new(Stmt::If {
            id: 0,
            loc: 0,
            cond: eq0("n"),
            true_arm: ret(num(base)),
            false_arm: ret(call_expr(other, vec![minus1("n")])),
        })
    };
    let prog = vec![
        int_fn("even", &["n"], vec![branch("odd", 1)]),
        int_fn("odd", &["n"], vec![branch("even", 0)]),
        Box::new(Stmt::PrintInt { id: 0, loc: 0, expr: call_expr("even", vec![num(4)]) }),
    ];
    let (prog, _, r) = checked(prog);
    assert!(r.is_ok());
    assert!(matches!(return_check(&prog), Ok(true)));
}

#[test]
fn nested_function_gets_the_variables_it_reads() {
    let g = int_fn("g", &[], vec![ret(var("x", 0))]);
    let f = int_fn("f", &["x"], vec![g, ret(call_expr("g", vec![]))]);
    let prog = vec![f, Box::new(Stmt::PrintInt { id: 0, loc: 0, expr: call_expr("f", vec![num(1)]) })];
    let (prog, ntm, r) = checked(prog);
    assert!(r.is_ok());
    assert!(matches!(return_check(&prog), Ok(true)));
    let mut b = IRBuilder::new();
    assert!(translate_stmts(&prog, &mut b, &ntm).is_ok());
    let mut b = b.epilogue();
    let mut renamer = FunctionRenamer::new();
    assert!(renamer.can_traverse(&b.instrs));
    renamer.traverse(&mut b.instrs);
    let mut flat = IRBuilder::new();
    flatten(&b.instrs, &mut flat);
    capture(&mut flat.instrs);
    let mut out = IRBuilder::new();
    GotoCleanup::new().cleanup(&flat.instrs, &mut out);
    assert_eq!(
        ProgramPrinter(&out.instrs).to_text(),
        "fn g#2(%r0):\n    %r1 := load %r0 [4 bytes]\n    ret %r1\n\n\
         fn f#1(x):\n    %r0 = alloc(4)\n    store x -> (%r0) [4 bytes]\n    %r2 := call (g#2|%r0)\n    ret %r2\n\n\
         fn main#0():\n    %r3 := 1\n    %r4 := call (f#1|%r3)\n    print_int %r4\n\n"
    );
}

#[test]
fn renamer_separates_functions_of_the_same_name() {
    let mut instrs = vec![
        func("f", &[], vec![func("g", &[], vec![Instr::Ret { operand: Operand::Imm(1) }]), call("a", "g", vec![])]),
        func("h", &[], vec![func("g", &[], vec![Instr::Ret { operand: Operand::Imm(2) }]), call("b", "g", vec![])]),
    ];
    let mut renamer = FunctionRenamer::new();
    assert!(renamer.can_traverse(&instrs));
    renamer.traverse(&mut instrs);
    assert_eq!(
        ProgramPrinter(&instrs).to_text(),
        "fn f#0():\nfn g#2():\n        ret 1\n    \n    a := call (g#2|)\n\n\
         fn h#1():\nfn g#3():\n        ret 2\n    \n    b := call (g#3|)\n\n"
    );
}

#[test]
fn id_check_accepts_small_programs() {
    let prog = vec![Box::new(Stmt::Expr { id: 0, loc: 0, expr: add(num(1), num(2)) })];
    let ids = IdBuilder::new();
    assert!(can_assign_ids(&prog, &ids));
}

fn nested_program() -> Vec<Box<Stmt>> {
    let g = int_fn("g", &[], vec![ret(var("x", 0))]);
    let f = int_fn("f", &["x"], vec![g, ret(call_expr("g", vec![]))]);
    vec![f, Box::new(Stmt::PrintInt { id: 0, loc: 0, expr: call_expr("f", vec![num(1)]) })]
}

#[test]
fn compile_runs_every_pass() {
    let (ir, qbe) = compile(nested_program()).unwrap().unwrap();
    assert_eq!(
        ProgramPrinter(&ir).to_text(),
        "fn g#2(%r0):\n    %r1 := load %r0 [4 bytes]\n    ret %r1\n\n\
         fn f#1(x):\n    %r0 = alloc(4)\n    store x -> (%r0) [4 bytes]\n    %r2 := call (g#2|%r0)\n    ret %r2\n\n\
         fn main#0():\n    %r3 := 1\n    %r4 := call (f#1|%r3)\n    print_int %r4\n\n"
    );
    assert_eq!(
        qbe,
        "function l $g_2(l %r0) {\n@start\n    %r1 =l loadw %r0\n    ret %r1\n}\n\n\
         function l $f_1(l %x) {\n@start\n    %r0 =l alloc8 4\n    storew %x, %r0\n    %r2 =l call $g_2(l %r0)\n    ret %r2\n}\n\n\
         export function l $main() {\n@start\n    %r3 =l copy 1\n    %r4 =l call $f_1(l %r3)\n    call $print_int(l %r4)\n    ret 0\n}\n\n"
    );
}

#[test]
fn compile_stops_at_a_type_error() {
    let prog = vec![Box::new(Stmt::Expr { id: 0, loc: 0, expr: var("y", 7) })];
    match compile(prog) {
        Some(Err((Stage::TypeCheck, e))) => {
            assert_eq!(e.loc(), 7);
            assert_eq!(e.msg(), "Use of undeclared variable y.");
        }
        _ => panic!("expected a type error"),
    }
}

#[test]
fn compile_stops_at_a_missing_return() {
    let f = Box::new(Stmt::FnDecl {
        id: 0,
        loc: 11,
        name: "f".to_string(),
        args: vec![],
        ret_type: Type::Int,
        body: Box::new(Stmt::Block { id: 0, loc: 0, stmts: vec![] }),
    });
    match compile(vec![f]) {
        Some(Err((Stage::ReturnCheck, e))) => assert_eq!(e.msg(), "Function f may not return."),
        _ => panic!("expected a return check error"),
    }
}

#[test]
fn compile_stops_at_a_translation_error() {
    match compile(vec![Box::new(Stmt::Break { id: 0, loc: 5 })]) {
        Some(Err((Stage::Translate, e))) => {
            assert_eq!(e.loc(), 5);
            assert_eq!(e.msg(), "Statement break outside any loop");
        }
        _ => panic!("expected a translation error"),
    }
}

#[test]
fn compile_cannot_go_on_with_a_function_as_a_value() {
    let f = int_fn("f", &[], vec![ret(num(1))]);
    let prog = vec![f, Box::new(Stmt::Expr { id: 0, loc: 0, expr: var("f", 0) })];
    assert!(compile(prog).is_none());
}

#[test]
fn cleanup_twice_changes_nothing() {
    let instrs = vec![
        Instr::Goto { dest: Lbl::Name("a".to_string()) },
        Instr::Goto { dest: Lbl::Name("b".to_string()) },
        Instr::Label { label: Lbl::Name("a".to_string()) },
    ];
    let mut b1 = IRBuilder::new();
    GotoCleanup::new().cleanup(&instrs, &mut b1);
    let mut b2 = IRBuilder::new();
    GotoCleanup::new().cleanup(&b1.instrs, &mut b2);
    assert_eq!(ProgramPrinter(&b2.instrs).to_text(), ProgramPrinter(&b1.instrs).to_text());
}
