use didactic_eureka::ast::{Expr, SourceFile, Statement};
use didactic_eureka::cfg::{BasicBlock, Cfg, Label, TerminatorInstr};
use didactic_eureka::lowering::lower;
use didactic_eureka::tac::{Instr, Register};

fn scenario_a() -> Cfg {
    lower(&SourceFile(vec![
        Statement::LocalDef { name: "x".to_string(), val: Expr::Number(1) },
        Statement::Expr(Expr::Add {
            lhs: Box::new(Expr::Variable("x".to_string())),
            rhs: Box::new(Expr::Number(2)),
        }),
    ]))
    .unwrap()
}

fn scenario_b() -> Cfg {
    lower(&SourceFile(vec![Statement::Expr(Expr::If {
        condition: Box::new(Expr::Number(1)),
        true_branch: Box::new(Expr::Number(2)),
        false_branch: Box::new(Expr::Number(3)),
    })]))
    .unwrap()
}

#[test]
fn listing_of_straight_line_program() {
    assert_eq!(scenario_a().listing(), "\nl0:\n  %0 = 1\n  %1 = 2\n  %2 = add %0 %1\n  ret");
}

#[test]
fn listing_of_conditional() {
    assert_eq!(
        scenario_b().listing(),
        "\nl0:\n  %0 = 1\n  cond_br %0 l1 l2\nl1:\n  %1 = 2\n  br l3(%1)\nl2:\n  %2 = 3\n  br l3(%2)\nl3(%3):\n  ret"
    );
}

#[test]
fn graph_of_conditional() {
    let expected = "digraph {\n\tnode [fontname=\"Menlo,monospace\", shape=box]\
\n\t0 [label=\"l0:\\l  %0 = 1\\l  cond_br %0 l1 l2\\l\"]\
\n\t0 -> 1 [label=\"true\"]\
\n\t0 -> 2 [label=\"false\"]\
\n\t1 [label=\"l1:\\l  %1 = 2\\l  br l3(%1)\\l\"]\
\n\t1 -> 3\
\n\t2 [label=\"l2:\\l  %2 = 3\\l  br l3(%2)\\l\"]\
\n\t2 -> 3\
\n\t3 [label=\"l3(%3):\\l  ret\\l\"]\
\n}";
    assert_eq!(scenario_b().graph(), expected);
}

#[test]
fn rendering_twice_gives_identical_text() {
    let cfg = scenario_b();
    assert_eq!(cfg.listing(), cfg.listing());
    assert_eq!(cfg.graph(), cfg.graph());
}

#[test]
fn block_listing_with_several_parameters_and_return() {
    let bb = BasicBlock {
        arguments: vec![Register(10), Register(11)],
        instrs: vec![Instr::Add { dst: Register(12), lhs: Register(10), rhs: Register(11) }],
        terminator: TerminatorInstr::Return(Register(12)),
    };
    assert_eq!(bb.debug(Label(25)), "l25(%10, %11):\n  %12 = add %10 %11\n  ret %12");
}

#[test]
fn branch_with_several_arguments_and_no_arguments() {
    let cfg = Cfg {
        bbs: vec![
            BasicBlock {
                arguments: vec![],
                instrs: vec![Instr::Const { dst: Register(0), val: 4294967295 }],
                terminator: TerminatorInstr::Branch { label: Label(1), arguments: vec![] },
            },
            BasicBlock {
                arguments: vec![],
                instrs: vec![],
                terminator: TerminatorInstr::Branch {
                    label: Label(0),
                    arguments: vec![Register(0), Register(0), Register(7)],
                },
            },
        ],
    };
    assert_eq!(cfg.listing(), "\nl0:\n  %0 = 4294967295\n  br l1\nl1:\n  br l0(%0, %0, %7)");
    assert_eq!(
        cfg.graph(),
        "digraph {\n\tnode [fontname=\"Menlo,monospace\", shape=box]\
\n\t0 [label=\"l0:\\l  %0 = 4294967295\\l  br l1\\l\"]\n\t0 -> 1\
\n\t1 [label=\"l1:\\l  br l0(%0, %0, %7)\\l\"]\n\t1 -> 0\n}"
    );
}

#[test]
fn empty_graph_renders_header_only() {
    let cfg = Cfg { bbs: vec![] };
    assert_eq!(cfg.listing(), "");
    assert_eq!(cfg.graph(), "digraph {\n\tnode [fontname=\"Menlo,monospace\", shape=box]\n}");
}
