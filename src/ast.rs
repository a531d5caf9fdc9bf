use vstd::prelude::*;

verus! {

/// A whole program: a sequence of top-level statements.
#[derive(Debug)]
pub struct SourceFile(pub Vec<Statement>);

/// A top-level statement.
#[derive(Debug)]
pub enum Statement {
    LocalDef { name: String, val: Expr },
    Expr(Expr),
}

/// An expression of the source language.
#[derive(Debug)]
pub enum Expr {
    Number(u32),
    Variable(String),
    Add { lhs: Box<Expr>, rhs: Box<Expr> },
    If { condition: Box<Expr>, true_branch: Box<Expr>, false_branch: Box<Expr> },
}

/// Mathematical form of an expression: names as character sequences.
pub enum ExprView {
    Number(u32),
    Variable(Seq<char>),
    Add(Box<ExprView>, Box<ExprView>),
    If(Box<ExprView>, Box<ExprView>, Box<ExprView>),
}

/// Mathematical form of a statement.
pub enum StatementView {
    LocalDef(Seq<char>, ExprView),
    Expr(ExprView),
}

impl Expr {
    pub open spec fn view(&self) -> ExprView
        decreases self,
    {
        match self {
            Expr::Number(v) => ExprView::Number(*v),
            Expr::Variable(n) => ExprView::Variable(n@),
            Expr::Add { lhs, rhs } => ExprView::Add(Box::new((**lhs).view()), Box::new((**rhs).view())),
            Expr::If { condition, true_branch, false_branch } => ExprView::If(
                Box::new((**condition).view()),
                Box::new((**true_branch).view()),
                Box::new((**false_branch).view()),
            ),
        }
    }
}

impl Statement {
    pub open spec fn view(&self) -> StatementView {
        match self {
            Statement::LocalDef { name, val } => StatementView::LocalDef(name@, val.view()),
            Statement::Expr(e) => StatementView::Expr(e.view()),
        }
    }
}

impl SourceFile {
    pub open spec fn view(&self) -> Seq<StatementView> {
        Seq::new(self.0@.len(), |i: int| self.0@[i].view())
    }
}

/// A type as written in a declaration.
#[derive(Debug)]
pub enum Ty {
    Void,
    Named(String),
    Pointer(Box<Ty>),
}

/// A top-level declaration, with the source range it spans.
#[derive(Debug)]
pub struct Item {
    pub kind: ItemKind,
    pub range: std::ops::Range<usize>,
}

/// What a top-level declaration declares.
#[derive(Debug)]
pub enum ItemKind {
    Function { name: String, params: Vec<(String, Ty)>, return_ty: Ty },
    Struct { name: String, fields: Vec<(String, Ty)> },
}

impl ItemKind {
    /// The declared name.
    pub open spec fn spec_name(&self) -> Seq<char> {
        match self {
            ItemKind::Function { name, .. } => name@,
            ItemKind::Struct { name, .. } => name@,
        }
    }
}

/// Number of nodes of an expression tree.
pub open spec fn expr_size(e: Expr) -> nat
    decreases e,
{
    match e {
        Expr::Number(_) => 1,
        Expr::Variable(_) => 1,
        Expr::Add { lhs, rhs } => 1 + expr_size(*lhs) + expr_size(*rhs),
        Expr::If { condition, true_branch, false_branch } => 1 + expr_size(*condition)
            + expr_size(*true_branch) + expr_size(*false_branch),
    }
}

/// Number of conditionals in an expression tree.
pub open spec fn expr_if_count(e: Expr) -> nat
    decreases e,
{
    match e {
        Expr::Number(_) => 0,
        Expr::Variable(_) => 0,
        Expr::Add { lhs, rhs } => expr_if_count(*lhs) + expr_if_count(*rhs),
        Expr::If { condition, true_branch, false_branch } => 1 + expr_if_count(*condition)
            + expr_if_count(*true_branch) + expr_if_count(*false_branch),
    }
}

impl Statement {
    /// The expression a statement evaluates.
    pub open spec fn spec_expr(self) -> Expr {
        match self {
            Statement::LocalDef { val, .. } => val,
            Statement::Expr(e) => e,
        }
    }
}

/// Number of expression nodes in a statement sequence.
pub open spec fn stmts_size(ss: Seq<Statement>) -> nat
    decreases ss.len(),
{
    if ss.len() == 0 {
        0
    } else {
        stmts_size(ss.drop_last()) + expr_size(ss.last().spec_expr())
    }
}

/// Number of conditionals in a statement sequence.
pub open spec fn stmts_if_count(ss: Seq<Statement>) -> nat
    decreases ss.len(),
{
    if ss.len() == 0 {
        0
    } else {
        stmts_if_count(ss.drop_last()) + expr_if_count(ss.last().spec_expr())
    }
}

impl SourceFile {
    /// Number of conditionals in the program.
    pub open spec fn if_count(self) -> nat {
        stmts_if_count(self.0@)
    }

    /// Number of expression nodes in the program.
    pub open spec fn size(self) -> nat {
        stmts_size(self.0@)
    }

    /// Whether the program is small enough for every register and label to fit in 16 bits.
    pub open spec fn fits(self) -> bool {
        3 * self.size() + 1 <= u16::MAX
    }
}

/// The number of nodes of `e`, or `cap` if that is smaller.
fn expr_size_capped(e: &Expr, cap: u32) -> (r: u32)
    ensures
        r as nat == if expr_size(*e) < cap as nat {
            expr_size(*e)
        } else {
            cap as nat
        },
    decreases e,
{
    if cap == 0 {
        return 0;
    }
    match e {
        Expr::Number(_) => 1,
        Expr::Variable(_) => 1,
        Expr::Add { lhs, rhs } => {
            let l = expr_size_capped(lhs, cap - 1);
            let r = expr_size_capped(rhs, cap - 1 - l);
            1 + l + r
        },
        Expr::If { condition, true_branch, false_branch } => {
            let c = expr_size_capped(condition, cap - 1);
            let t = expr_size_capped(true_branch, cap - 1 - c);
            let f = expr_size_capped(false_branch, cap - 1 - c - t);
            1 + c + t + f
        },
    }
}

/// Largest program that lowering accepts: registers and labels must fit in 16 bits.
pub const MAX_PROGRAM_SIZE: u32 = 21844;

impl SourceFile {
    /// Whether the program is small enough to lower.
    pub fn within_limits(&self) -> (r: bool)
        ensures
            r == self.fits(),
    {
        let ghost ss = self.0@;
        let mut total: u32 = 0;
        let mut i: usize = 0;
        assert(ss.take(0) =~= Seq::<Statement>::empty());
        while i < self.0.len()
            invariant
                ss == self.0@,
                i <= ss.len(),
                total <= MAX_PROGRAM_SIZE,
                total as nat == stmts_size(ss.take(i as int)),
            decreases ss.len() - i,
        {
            assert(ss.take(i + 1).drop_last() =~= ss.take(i as int));
            let e = match &self.0[i] {
                Statement::LocalDef { val, .. } => val,
                Statement::Expr(e) => e,
            };
            let n = expr_size_capped(e, MAX_PROGRAM_SIZE + 1 - total);
            if n > MAX_PROGRAM_SIZE - total {
                proof {
                    lemma_stmts_size_prefix_le(ss, i as int + 1);
                }
                return false;
            }
            total = total + n;
            i = i + 1;
        }
        assert(ss.take(i as int) =~= ss);
        true
    }
}

pub(crate) proof fn lemma_stmts_size_prefix_le(ss: Seq<Statement>, i: int)
    requires
        0 <= i <= ss.len(),
    ensures
        stmts_size(ss.take(i)) <= stmts_size(ss),
    decreases ss.len() - i,
{
    if i == ss.len() {
        assert(ss.take(i) =~= ss);
    } else {
        assert(ss.take(i + 1).drop_last() =~= ss.take(i));
        lemma_stmts_size_prefix_le(ss, i + 1);
    }
}

} // verus!
