use vstd::prelude::*;
use crate::ast::{Expr, SourceFile, Statement, expr_if_count, stmts_if_count};
use crate::cfg::{BlockView, Label, Term};
use crate::lowering::{LowerState, lower_expr_spec, lower_spec, lower_stmt_spec, lower_stmts_spec};

verus! {

/// Lowering an expression appends three blocks per conditional, leaves every
/// other earlier block alone, and either keeps the open block or ends in a block
/// it created itself.
pub(crate) proof fn lemma_expr_frame(s: LowerState, e: Expr)
    requires
        0 <= s.cur < s.blocks.len(),
    ensures
        lower_expr_spec(s, e) matches Ok((s1, _)) ==> {
            &&& s1.blocks.len() == s.blocks.len() + 3 * expr_if_count(e)
            &&& forall|l: int| 0 <= l < s.blocks.len() && l != s.cur ==> s1.blocks[l] == s.blocks[l]
            &&& (s1.cur == s.cur && s1.params == s.params && expr_if_count(e) == 0)
                || (s.blocks.len() <= s1.cur < s1.blocks.len())
            &&& s1.env == s.env
            &&& s.next <= s1.next
        },
    decreases e,
{
    match e {
        Expr::Number(_) => {},
        Expr::Variable(_) => {},
        Expr::Add { lhs, rhs } => {
            lemma_expr_frame(s, *lhs);
            if let Ok((s1, _)) = lower_expr_spec(s, *lhs) {
                lemma_expr_frame(s1, *rhs);
            }
        },
        Expr::If { condition, true_branch, false_branch } => {
            lemma_expr_frame(s, *condition);
            if let Ok((s1, c)) = lower_expr_spec(s, *condition) {
                let t = s1.blocks.len() as int;
                let s2 = s1.reserve().reserve().reserve().seal(
                    Term::CondBr { cond: c, t: Label(t as u16), f: Label((t + 1) as u16) },
                ).switch_to(t);
                let join = Label((t + 2) as u16);
                lemma_expr_frame(s2, *true_branch);
                if let Ok((s3, tv)) = lower_expr_spec(s2, *true_branch) {
                    let s4 = s3.seal(Term::Br { label: join, args: seq![tv] }).switch_to(t + 1);
                    lemma_expr_frame(s4, *false_branch);
                }
            }
        },
    }
}

proof fn lemma_stmt_frame(s: LowerState, st: Statement)
    requires
        0 <= s.cur < s.blocks.len(),
    ensures
        lower_stmt_spec(s, st) matches Ok(s1) ==> {
            &&& s1.blocks.len() == s.blocks.len() + 3 * expr_if_count(st.spec_expr())
            &&& (s1.cur == s.cur && expr_if_count(st.spec_expr()) == 0)
                || (s.blocks.len() <= s1.cur < s1.blocks.len())
        },
{
    match st {
        Statement::LocalDef { name, val } => lemma_expr_frame(s, val),
        Statement::Expr(e) => lemma_expr_frame(s, e),
    }
}

proof fn lemma_stmts_frame(s: LowerState, ss: Seq<Statement>)
    requires
        0 <= s.cur < s.blocks.len(),
    ensures
        lower_stmts_spec(s, ss) matches Ok(s1) ==> {
            &&& s1.blocks.len() == s.blocks.len() + 3 * stmts_if_count(ss)
            &&& (s1.cur == s.cur && stmts_if_count(ss) == 0)
                || (s.blocks.len() <= s1.cur < s1.blocks.len())
        },
    decreases ss.len(),
{
    if ss.len() > 0 {
        lemma_stmts_frame(s, ss.drop_last());
        if let Ok(s1) = lower_stmts_spec(s, ss.drop_last()) {
            lemma_stmt_frame(s1, ss.last());
        }
    }
}

/// A program without conditionals lowers to a single block that ends in `ret`.
pub proof fn lemma_straight_line_single_block(src: SourceFile)
    requires
        src.if_count() == 0,
    ensures
        lower_spec(src) matches Ok(blocks) ==> blocks.len() == 1 && blocks[0].term == Term::RetVoid,
{
    lemma_stmts_frame(LowerState::initial(), src.0@);
}

/// A lowered program has one entry block and three more per conditional.
pub proof fn lemma_block_count(src: SourceFile)
    ensures
        lower_spec(src) matches Ok(blocks) ==> blocks.len() == 1 + 3 * src.if_count(),
{
    lemma_stmts_frame(LowerState::initial(), src.0@);
}

/// Lowering a conditional seals the block that holds the condition with a
/// two-way branch to the first two of three new blocks, and leaves the third,
/// the join, open with the conditional's value as its sole parameter.  Any
/// further blocks come from conditionals inside the arms.
pub proof fn lemma_conditional_shape(s: LowerState, condition: Expr, true_branch: Expr, false_branch: Expr)
    requires
        0 <= s.cur < s.blocks.len(),
    ensures
        ({
            let e = Expr::If {
                condition: Box::new(condition),
                true_branch: Box::new(true_branch),
                false_branch: Box::new(false_branch),
            };
            lower_expr_spec(s, e) matches Ok((s1, r)) ==> lower_expr_spec(s, condition) matches Ok((sc, c)) && {
                let t = sc.blocks.len() as int;
                &&& s1.blocks.len() == t + 3 + 3 * (expr_if_count(true_branch) + expr_if_count(false_branch))
                &&& s1.blocks[sc.cur] == (BlockView {
                    params: sc.params,
                    instrs: sc.instrs,
                    term: Term::CondBr { cond: c, t: Label(t as u16), f: Label((t + 1) as u16) },
                })
                &&& s1.cur == t + 2
                &&& s1.params == seq![r]
            }
        }),
{
    let e = Expr::If {
        condition: Box::new(condition),
        true_branch: Box::new(true_branch),
        false_branch: Box::new(false_branch),
    };
    lemma_expr_frame(s, condition);
    if let Ok((s1, c)) = lower_expr_spec(s, condition) {
        let t = s1.blocks.len() as int;
        let s2 = s1.reserve().reserve().reserve().seal(
            Term::CondBr { cond: c, t: Label(t as u16), f: Label((t + 1) as u16) },
        ).switch_to(t);
        let join = Label((t + 2) as u16);
        lemma_expr_frame(s2, true_branch);
        if let Ok((s3, tv)) = lower_expr_spec(s2, true_branch) {
            let s4 = s3.seal(Term::Br { label: join, args: seq![tv] }).switch_to(t + 1);
            lemma_expr_frame(s4, false_branch);
        }
    }
}

} // verus!
