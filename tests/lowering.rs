use didactic_eureka::ast::{Expr, SourceFile, Statement};
use didactic_eureka::cfg::{Cfg, Label, TerminatorInstr};
use didactic_eureka::lowering::{lower, LowerError};
use didactic_eureka::tac::{Instr, Register};

fn num(n: u32) -> Expr {
    Expr::Number(n)
}

fn var(name: &str) -> Expr {
    Expr::Variable(name.to_string())
}

fn add(lhs: Expr, rhs: Expr) -> Expr {
    Expr::Add { lhs: Box::new(lhs), rhs: Box::new(rhs) }
}

fn cond(c: Expr, t: Expr, f: Expr) -> Expr {
    Expr::If { condition: Box::new(c), true_branch: Box::new(t), false_branch: Box::new(f) }
}

fn let_(name: &str, val: Expr) -> Statement {
    Statement::LocalDef { name: name.to_string(), val }
}

fn r(n: u16) -> Register {
    Register(n)
}

fn lower_ok(stmts: Vec<Statement>) -> Cfg {
    lower(&SourceFile(stmts)).expect("lowering succeeds")
}

fn branch_target(t: &TerminatorInstr) -> Option<(u16, Vec<Register>)> {
    match t {
        TerminatorInstr::Branch { label, arguments } => Some((label.0, arguments.clone())),
        _ => None,
    }
}

#[test]
fn let_then_add_is_one_block() {
    let cfg = lower_ok(vec![let_("x", num(1)), Statement::Expr(add(var("x"), num(2)))]);
    assert_eq!(cfg.bbs.len(), 1);
    let bb = &cfg.bbs[0];
    assert!(bb.arguments.is_empty());
    assert_eq!(
        bb.instrs,
        vec![
            Instr::Const { dst: r(0), val: 1 },
            Instr::Const { dst: r(1), val: 2 },
            Instr::Add { dst: r(2), lhs: r(0), rhs: r(1) },
        ]
    );
    assert!(matches!(bb.terminator, TerminatorInstr::ReturnVoid));
}

#[test]
fn simple_conditional_makes_four_blocks() {
    let cfg = lower_ok(vec![Statement::Expr(cond(num(1), num(2), num(3)))]);
    assert_eq!(cfg.bbs.len(), 4);

    assert_eq!(cfg.bbs[0].instrs, vec![Instr::Const { dst: r(0), val: 1 }]);
    match &cfg.bbs[0].terminator {
        TerminatorInstr::ConditionalBranch { condition, true_branch, false_branch } => {
            assert_eq!(*condition, r(0));
            assert_eq!(*true_branch, Label(1));
            assert_eq!(*false_branch, Label(2));
        }
        _ => panic!("entry must end in a conditional branch"),
    }

    assert_eq!(cfg.bbs[1].instrs, vec![Instr::Const { dst: r(1), val: 2 }]);
    assert_eq!(branch_target(&cfg.bbs[1].terminator), Some((3, vec![r(1)])));

    assert_eq!(cfg.bbs[2].instrs, vec![Instr::Const { dst: r(2), val: 3 }]);
    assert_eq!(branch_target(&cfg.bbs[2].terminator), Some((3, vec![r(2)])));

    assert_eq!(cfg.bbs[3].arguments, vec![r(3)]);
    assert!(cfg.bbs[3].instrs.is_empty());
    assert!(matches!(cfg.bbs[3].terminator, TerminatorInstr::ReturnVoid));
}

#[test]
fn unbound_name_fails() {
    let res = lower(&SourceFile(vec![Statement::Expr(add(var("y"), num(1)))]));
    match res {
        Err(e) => assert_eq!(e, LowerError::UnboundName("y".to_string())),
        Ok(_) => panic!("lowering must fail"),
    }
}

#[test]
fn unbound_name_after_good_statements_fails() {
    let res = lower(&SourceFile(vec![
        let_("a", num(1)),
        Statement::Expr(cond(var("a"), num(2), num(3))),
        Statement::Expr(var("b")),
    ]));
    assert!(matches!(res, Err(LowerError::UnboundName(ref n)) if n == "b"));
}

fn all_labels(cfg: &Cfg) -> Vec<u16> {
    let mut labels = Vec::new();
    for bb in &cfg.bbs {
        match &bb.terminator {
            TerminatorInstr::ConditionalBranch { true_branch, false_branch, .. } => {
                labels.push(true_branch.0);
                labels.push(false_branch.0);
            }
            TerminatorInstr::Branch { label, .. } => labels.push(label.0),
            _ => {}
        }
    }
    labels
}

#[test]
fn nested_conditional_reserves_outer_join_first() {
    let cfg = lower_ok(vec![Statement::Expr(cond(num(1), cond(num(2), num(3), num(4)), num(5)))]);
    assert_eq!(cfg.bbs.len(), 7);
    // the outer join is reserved third, before the inner conditional's blocks
    match &cfg.bbs[1].terminator {
        TerminatorInstr::ConditionalBranch { true_branch, false_branch, .. } => {
            assert_eq!((true_branch.0, false_branch.0), (4, 5));
        }
        _ => panic!("true arm must branch on the inner condition"),
    }
    assert_eq!(branch_target(&cfg.bbs[4].terminator), Some((6, vec![r(2)])));
    assert_eq!(branch_target(&cfg.bbs[5].terminator), Some((6, vec![r(3)])));
    assert_eq!(cfg.bbs[6].arguments, vec![r(4)]);
    assert_eq!(branch_target(&cfg.bbs[6].terminator), Some((3, vec![r(4)])));
    assert_eq!(branch_target(&cfg.bbs[2].terminator), Some((3, vec![r(5)])));
    assert_eq!(cfg.bbs[3].arguments, vec![r(6)]);
    assert!(matches!(cfg.bbs[3].terminator, TerminatorInstr::ReturnVoid));

    // every referenced label is in range; conditional targets are never shared
    let labels = all_labels(&cfg);
    for l in &labels {
        assert!((*l as usize) < cfg.bbs.len());
    }
    let mut cond_targets = Vec::new();
    for bb in &cfg.bbs {
        if let TerminatorInstr::ConditionalBranch { true_branch, false_branch, .. } = &bb.terminator {
            cond_targets.push(true_branch.0);
            cond_targets.push(false_branch.0);
        }
    }
    let mut dedup = cond_targets.clone();
    dedup.sort();
    dedup.dedup();
    assert_eq!(dedup.len(), cond_targets.len());
    // the outer join is fed by both top-level arms
    let into_outer_join = cfg
        .bbs
        .iter()
        .filter(|bb| matches!(branch_target(&bb.terminator), Some((3, _))))
        .count();
    assert_eq!(into_outer_join, 2);
}

#[test]
fn straight_line_program_has_one_block() {
    let cfg = lower_ok(vec![
        let_("a", num(4)),
        let_("b", add(var("a"), var("a"))),
        Statement::Expr(add(var("b"), add(num(7), var("a")))),
    ]);
    assert_eq!(cfg.bbs.len(), 1);
    assert!(matches!(cfg.bbs[0].terminator, TerminatorInstr::ReturnVoid));
}

#[test]
fn empty_program_has_one_empty_block() {
    let cfg = lower_ok(vec![]);
    assert_eq!(cfg.bbs.len(), 1);
    assert!(cfg.bbs[0].instrs.is_empty());
    assert!(matches!(cfg.bbs[0].terminator, TerminatorInstr::ReturnVoid));
}

#[test]
fn each_conditional_adds_three_blocks() {
    let cfg = lower_ok(vec![
        Statement::Expr(cond(num(1), num(2), num(3))),
        Statement::Expr(add(cond(num(4), num(5), num(6)), num(7))),
    ]);
    assert_eq!(cfg.bbs.len(), 7);
    assert_eq!(cfg.bbs[3].arguments.len(), 1);
    assert_eq!(cfg.bbs[6].arguments.len(), 1);
}

#[test]
fn rebinding_shadows_earlier_binding() {
    let cfg = lower_ok(vec![
        let_("x", num(1)),
        let_("x", num(2)),
        Statement::Expr(add(var("x"), var("x"))),
    ]);
    assert_eq!(cfg.bbs[0].instrs[2], Instr::Add { dst: r(2), lhs: r(1), rhs: r(1) });
}

#[test]
fn registers_are_fresh_and_increasing() {
    let cfg = lower_ok(vec![
        let_("x", cond(num(1), add(num(2), num(3)), num(4))),
        Statement::Expr(add(var("x"), cond(var("x"), num(5), var("x")))),
    ]);
    let mut defs: Vec<u16> = Vec::new();
    for bb in &cfg.bbs {
        let mut block_defs: Vec<u16> = bb.arguments.iter().map(|a| a.0).collect();
        for i in &bb.instrs {
            block_defs.push(i.dst().0);
        }
        for w in block_defs.windows(2) {
            assert!(w[0] < w[1]);
        }
        defs.extend(block_defs);
    }
    let n = defs.len();
    defs.sort();
    defs.dedup();
    assert_eq!(defs.len(), n);
    // every operand was allocated before the instruction that reads it
    for bb in &cfg.bbs {
        for i in &bb.instrs {
            if let Instr::Add { dst, lhs, rhs } = i {
                assert!(lhs.0 < dst.0 && rhs.0 < dst.0);
                assert!(defs.contains(&lhs.0) && defs.contains(&rhs.0));
            }
        }
    }
}

#[test]
fn branch_arguments_match_target_parameters() {
    let cfg = lower_ok(vec![
        Statement::Expr(cond(cond(num(1), num(2), num(3)), num(4), cond(num(5), num(6), num(7)))),
        Statement::Expr(cond(num(8), num(9), num(10))),
    ]);
    for bb in &cfg.bbs {
        if let TerminatorInstr::Branch { label, arguments } = &bb.terminator {
            assert_eq!(arguments.len(), cfg.bbs[label.0 as usize].arguments.len());
        }
    }
}
