use vstd::prelude::*;
use crate::ast::{Expr, SourceFile, Statement, expr_size, lemma_stmts_size_prefix_le, stmts_size};
use crate::cfg::{BasicBlock, BlockView, Cfg, Label, Term, TerminatorInstr, blocks_view, empty_block};
use crate::tac::{Instr, Register};

verus! {

/// Why lowering gave up.
#[derive(Debug, PartialEq, Eq)]
pub enum LowerError {
    /// A name was read before any binding of it.
    UnboundName(String),
}

/// The state of a lowering pass, as mathematics.
pub struct LowerState {
    /// Every block slot, reserved or sealed; the open block's slot holds its placeholder.
    pub blocks: Seq<BlockView>,
    /// Label of the open block.
    pub cur: int,
    /// Parameters of the open block.
    pub params: Seq<Register>,
    /// Body of the open block so far.
    pub instrs: Seq<Instr>,
    /// The next register to hand out.
    pub next: nat,
    /// Name bindings in the order they were made; the latest one wins.
    pub env: Seq<(Seq<char>, Register)>,
}

/// The register currently bound to `name`.
pub open spec fn lookup(env: Seq<(Seq<char>, Register)>, name: Seq<char>) -> Option<Register>
    decreases env.len(),
{
    if env.len() == 0 {
        None
    } else if env.last().0 == name {
        Some(env.last().1)
    } else {
        lookup(env.drop_last(), name)
    }
}

impl LowerState {
    /// A fresh pass: one reserved entry block, open, and nothing bound.
    pub open spec fn initial() -> LowerState {
        LowerState {
            blocks: seq![empty_block()],
            cur: 0,
            params: Seq::empty(),
            instrs: Seq::empty(),
            next: 0,
            env: Seq::empty(),
        }
    }

    /// The register that the next allocation returns.
    pub open spec fn fresh(self) -> Register {
        Register(self.next as u16)
    }

    /// Append an instruction that defines a fresh register.
    pub open spec fn emit(self, i: Instr) -> LowerState {
        LowerState { instrs: self.instrs.push(i), next: self.next + 1, ..self }
    }

    /// Reserve one empty block at the end.
    pub open spec fn reserve(self) -> LowerState {
        LowerState { blocks: self.blocks.push(empty_block()), ..self }
    }

    /// Seal the open block with `term`; no block is open afterwards.
    pub open spec fn seal(self, term: Term) -> LowerState {
        LowerState {
            blocks: self.blocks.update(
                self.cur,
                BlockView { params: self.params, instrs: self.instrs, term },
            ),
            params: Seq::empty(),
            instrs: Seq::empty(),
            ..self
        }
    }

    /// Open the block labelled `l`.
    pub open spec fn switch_to(self, l: int) -> LowerState {
        LowerState { cur: l, ..self }
    }

    /// Give the open block a fresh parameter.
    pub open spec fn add_param(self) -> LowerState {
        LowerState { params: self.params.push(self.fresh()), next: self.next + 1, ..self }
    }

    /// Bind `name` to `r`, shadowing any earlier binding.
    pub open spec fn bind(self, name: Seq<char>, r: Register) -> LowerState {
        LowerState { env: self.env.push((name, r)), ..self }
    }
}

/// Lowering of one expression: the state after it and the register holding its
/// value, or the unbound name that stopped it.
pub open spec fn lower_expr_spec(s: LowerState, e: Expr) -> Result<(LowerState, Register), Seq<char>>
    decreases e,
{
    match e {
        Expr::Number(val) => Ok((s.emit(Instr::Const { dst: s.fresh(), val }), s.fresh())),
        Expr::Variable(name) => match lookup(s.env, name@) {
            Some(r) => Ok((s, r)),
            None => Err(name@),
        },
        Expr::Add { lhs, rhs } => match lower_expr_spec(s, *lhs) {
            Err(n) => Err(n),
            Ok((s1, l)) => match lower_expr_spec(s1, *rhs) {
                Err(n) => Err(n),
                Ok((s2, r)) => Ok((s2.emit(Instr::Add { dst: s2.fresh(), lhs: l, rhs: r }), s2.fresh())),
            },
        },
        Expr::If { condition, true_branch, false_branch } => match lower_expr_spec(s, *condition) {
            Err(n) => Err(n),
            Ok((s1, c)) => {
                let t = s1.blocks.len() as int;
                let s2 = s1.reserve().reserve().reserve().seal(
                    Term::CondBr { cond: c, t: Label(t as u16), f: Label((t + 1) as u16) },
                ).switch_to(t);
                let join = Label((t + 2) as u16);
                match lower_expr_spec(s2, *true_branch) {
                    Err(n) => Err(n),
                    Ok((s3, tv)) => {
                        let s4 = s3.seal(Term::Br { label: join, args: seq![tv] }).switch_to(t + 1);
                        match lower_expr_spec(s4, *false_branch) {
                            Err(n) => Err(n),
                            Ok((s5, fv)) => {
                                let s6 = s5.seal(Term::Br { label: join, args: seq![fv] }).switch_to(t + 2);
                                Ok((s6.add_param(), s6.fresh()))
                            },
                        }
                    },
                }
            },
        },
    }
}

/// Lowering of one statement.
pub open spec fn lower_stmt_spec(s: LowerState, st: Statement) -> Result<LowerState, Seq<char>> {
    match st {
        Statement::LocalDef { name, val } => match lower_expr_spec(s, val) {
            Err(n) => Err(n),
            Ok((s1, r)) => Ok(s1.bind(name@, r)),
        },
        Statement::Expr(e) => match lower_expr_spec(s, e) {
            Err(n) => Err(n),
            Ok((s1, _)) => Ok(s1),
        },
    }
}

/// Lowering of a statement sequence, in order, stopping at the first error.
pub open spec fn lower_stmts_spec(s: LowerState, ss: Seq<Statement>) -> Result<LowerState, Seq<char>>
    decreases ss.len(),
{
    if ss.len() == 0 {
        Ok(s)
    } else {
        match lower_stmts_spec(s, ss.drop_last()) {
            Err(n) => Err(n),
            Ok(s1) => lower_stmt_spec(s1, ss.last()),
        }
    }
}

/// The graph that lowering a program yields, or the unbound name that stops it.
pub open spec fn lower_spec(src: SourceFile) -> Result<Seq<BlockView>, Seq<char>> {
    match lower_stmts_spec(LowerState::initial(), src.0@) {
        Err(n) => Err(n),
        Ok(s) => Ok(s.seal(Term::RetVoid).blocks),
    }
}

/// Whether `res` is the failure for the unbound name `n`.
pub open spec fn unbound_is<T>(res: Result<T, LowerError>, n: Seq<char>) -> bool {
    match res {
        Err(LowerError::UnboundName(m)) => m@ == n,
        Ok(_) => false,
    }
}

/// The working state of one lowering pass.
struct Ctx {
    bbs: Vec<BasicBlock>,
    current: usize,
    arguments: Vec<Register>,
    instrs: Vec<Instr>,
    name_map: Vec<(String, Register)>,
    next: u16,
}

impl Ctx {
    spec fn view(&self) -> LowerState {
        LowerState {
            blocks: blocks_view(self.bbs@),
            cur: self.current as int,
            params: self.arguments@,
            instrs: self.instrs@,
            next: self.next as nat,
            env: Seq::new(self.name_map@.len(), |i: int| (self.name_map@[i].0@, self.name_map@[i].1)),
        }
    }

    spec fn inv(&self) -> bool {
        &&& self.current < self.bbs.len()
        &&& self.bbs.len() <= u16::MAX
    }

    fn new() -> (r: Ctx)
        ensures
            r@ == LowerState::initial(),
            r.inv(),
            r.bbs.len() == 1,
    {
        let mut bbs = Vec::new();
        bbs.push(BasicBlock::placeholder());
        let r = Ctx {
            bbs,
            current: 0,
            arguments: Vec::new(),
            instrs: Vec::new(),
            name_map: Vec::new(),
            next: 0,
        };
        assert(r@.blocks =~= seq![empty_block()]);
        assert(r@.env =~= Seq::empty());
        r
    }

    /// Hand out the next register.
    fn next_register(&mut self) -> (r: Register)
        requires
            old(self).next < u16::MAX,
        ensures
            r == old(self)@.fresh(),
            final(self)@ == (LowerState { next: old(self)@.next + 1, ..old(self)@ }),
            final(self).bbs == old(self).bbs,
            final(self).current == old(self).current,
            final(self).next == old(self).next + 1,
    {
        let r = Register(self.next);
        self.next = self.next + 1;
        r
    }

    /// The register bound to `name`, searching the latest binding first.
    fn lookup(&self, name: &String) -> (r: Option<Register>)
        ensures
            r == lookup(self@.env, name@),
    {
        let ghost env = self@.env;
        let mut i: usize = self.name_map.len();
        assert(env.take(i as int) =~= env);
        while i > 0
            invariant
                i <= self.name_map.len(),
                env == self@.env,
                lookup(env, name@) == lookup(env.take(i as int), name@),
            decreases i,
        {
            let ghost e = env.take(i as int);
            assert(e.drop_last() =~= env.take(i - 1));
            if self.name_map[i - 1].0 == *name {
                return Some(self.name_map[i - 1].1);
            }
            i = i - 1;
        }
        None
    }

    /// Append an empty block and return its label.
    fn reserve_block(&mut self) -> (l: Label)
        requires
            old(self).inv(),
            old(self).bbs.len() < u16::MAX,
        ensures
            final(self)@ == old(self)@.reserve(),
            l == Label(old(self).bbs.len() as u16),
            final(self).inv(),
            final(self).bbs.len() == old(self).bbs.len() + 1,
            final(self).next == old(self).next,
    {
        let l = Label(self.bbs.len() as u16);
        self.bbs.push(BasicBlock::placeholder());
        assert(self@.blocks =~= old(self)@.blocks.push(empty_block()));
        l
    }

    /// Seal the open block with `terminator`.
    fn seal(&mut self, terminator: TerminatorInstr)
        requires
            old(self).inv(),
        ensures
            final(self)@ == old(self)@.seal(terminator.view()),
            final(self).inv(),
            final(self).bbs.len() == old(self).bbs.len(),
            final(self).next == old(self).next,
    {
        let mut arguments = Vec::new();
        std::mem::swap(&mut arguments, &mut self.arguments);
        let mut instrs = Vec::new();
        std::mem::swap(&mut instrs, &mut self.instrs);
        let cur = self.current;
        let bb = BasicBlock { arguments, instrs, terminator };
        self.bbs.set(cur, bb);
        assert(self@.blocks =~= old(self)@.seal(terminator.view()).blocks);
        assert(self@.params =~= Seq::empty());
        assert(self@.instrs =~= Seq::empty());
    }

    /// Lower `e` into the open block (and the blocks it opens), returning the
    /// register that holds its value.
    fn lower_expr(&mut self, e: &Expr) -> (res: Result<Register, LowerError>)
        requires
            old(self).inv(),
            old(self).next + expr_size(*e) <= u16::MAX,
            old(self).bbs.len() + 3 * expr_size(*e) <= u16::MAX,
        ensures
            match lower_expr_spec(old(self)@, *e) {
                Ok((s, r)) => {
                    &&& res == Ok::<Register, LowerError>(r)
                    &&& final(self)@ == s
                    &&& final(self).inv()
                    &&& final(self).next <= old(self).next + expr_size(*e)
                    &&& old(self).bbs.len() <= final(self).bbs.len() <= old(self).bbs.len() + 3 * expr_size(*e)
                },
                Err(n) => unbound_is(res, n),
            },
        decreases e,
    {
        match e {
            Expr::Number(val) => {
                let dst = self.next_register();
                self.instrs.push(Instr::Const { dst, val: *val });
                Ok(dst)
            },
            Expr::Variable(name) => match self.lookup(name) {
                Some(r) => Ok(r),
                None => Err(LowerError::UnboundName(name.clone())),
            },
            Expr::Add { lhs, rhs } => {
                let l = match self.lower_expr(lhs) {
                    Ok(l) => l,
                    Err(err) => return Err(err),
                };
                let r = match self.lower_expr(rhs) {
                    Ok(r) => r,
                    Err(err) => return Err(err),
                };
                let dst = self.next_register();
                self.instrs.push(Instr::Add { dst, lhs: l, rhs: r });
                Ok(dst)
            },
            Expr::If { condition, true_branch, false_branch } => {
                let cond = match self.lower_expr(condition) {
                    Ok(c) => c,
                    Err(err) => return Err(err),
                };
                let ghost s1 = self@;
                let t = self.reserve_block();
                let f = self.reserve_block();
                let join = self.reserve_block();
                self.seal(TerminatorInstr::ConditionalBranch { condition: cond, true_branch: t, false_branch: f });
                self.current = t.0 as usize;
                let ghost s2 = self@;
                assert(s2 == s1.reserve().reserve().reserve().seal(
                    Term::CondBr { cond, t, f },
                ).switch_to(s1.blocks.len() as int));
                let tv = match self.lower_expr(true_branch) {
                    Ok(v) => v,
                    Err(err) => return Err(err),
                };
                let ghost s3 = self@;
                let args = vec![tv];
                assert(args@ =~= seq![tv]);
                self.seal(TerminatorInstr::Branch { label: join, arguments: args });
                self.current = f.0 as usize;
                let ghost s4 = self@;
                assert(s4 == s3.seal(Term::Br { label: join, args: seq![tv] }).switch_to(s1.blocks.len() + 1int));
                let fv = match self.lower_expr(false_branch) {
                    Ok(v) => v,
                    Err(err) => return Err(err),
                };
                let ghost s5 = self@;
                let args = vec![fv];
                assert(args@ =~= seq![fv]);
                self.seal(TerminatorInstr::Branch { label: join, arguments: args });
                self.current = join.0 as usize;
                let ghost s6 = self@;
                assert(s6 == s5.seal(Term::Br { label: join, args: seq![fv] }).switch_to(s1.blocks.len() + 2int));
                let r = self.next_register();
                self.arguments.push(r);
                Ok(r)
            },
        }
    }

    /// Lower one statement.
    fn lower_stmt(&mut self, st: &Statement) -> (res: Result<(), LowerError>)
        requires
            old(self).inv(),
            old(self).next + expr_size(st.spec_expr()) <= u16::MAX,
            old(self).bbs.len() + 3 * expr_size(st.spec_expr()) <= u16::MAX,
        ensures
            match lower_stmt_spec(old(self)@, *st) {
                Ok(s) => {
                    &&& res is Ok
                    &&& final(self)@ == s
                    &&& final(self).inv()
                    &&& final(self).next <= old(self).next + expr_size(st.spec_expr())
                    &&& final(self).bbs.len() <= old(self).bbs.len() + 3 * expr_size(st.spec_expr())
                },
                Err(n) => unbound_is(res, n),
            },
    {
        match st {
            Statement::LocalDef { name, val } => {
                let r = match self.lower_expr(val) {
                    Ok(r) => r,
                    Err(err) => return Err(err),
                };
                let ghost s1 = self@;
                self.name_map.push((name.clone(), r));
                assert(self@.env =~= s1.env.push((name@, r)));
                Ok(())
            },
            Statement::Expr(e) => match self.lower_expr(e) {
                Ok(_) => Ok(()),
                Err(err) => Err(err),
            },
        }
    }
}

proof fn lemma_stmts_size_step(ss: Seq<Statement>, i: int)
    requires
        0 <= i < ss.len(),
    ensures
        stmts_size(ss.take(i + 1)) == stmts_size(ss.take(i)) + expr_size(ss[i].spec_expr()),
{
    assert(ss.take(i + 1).drop_last() =~= ss.take(i));
}

/// Once a prefix of the statements fails, the whole sequence fails with the same name.
proof fn lemma_stmts_error_sticks(s: LowerState, ss: Seq<Statement>, i: int, n: Seq<char>)
    requires
        0 <= i <= ss.len(),
        lower_stmts_spec(s, ss.take(i)) == Err::<LowerState, Seq<char>>(n),
    ensures
        lower_stmts_spec(s, ss) == Err::<LowerState, Seq<char>>(n),
    decreases ss.len() - i,
{
    if i == ss.len() {
        assert(ss.take(i) =~= ss);
    } else {
        assert(ss.take(i + 1).drop_last() =~= ss.take(i));
        lemma_stmts_error_sticks(s, ss, i + 1, n);
    }
}

/// Lower a whole program into a graph whose blocks are all sealed, the last
/// open one with `ret`; fails on the first read of an unbound name.
pub fn lower(source_file: &SourceFile) -> (res: Result<Cfg, LowerError>)
    requires
        source_file.fits(),
    ensures
        match lower_spec(*source_file) {
            Ok(blocks) => res matches Ok(cfg) && cfg@ == blocks,
            Err(n) => unbound_is(res, n),
        },
{
    let mut ctx = Ctx::new();
    let ghost ss = source_file.0@;
    let mut i: usize = 0;
    assert(ss.take(0) =~= Seq::<Statement>::empty());
    while i < source_file.0.len()
        invariant
            ss == source_file.0@,
            source_file.fits(),
            0 <= i <= ss.len(),
            lower_stmts_spec(LowerState::initial(), ss.take(i as int)) == Ok::<LowerState, Seq<char>>(ctx@),
            ctx.inv(),
            ctx.next <= stmts_size(ss.take(i as int)),
            ctx.bbs.len() <= 1 + 3 * stmts_size(ss.take(i as int)),
        decreases ss.len() - i,
    {
        proof {
            lemma_stmts_size_step(ss, i as int);
            lemma_stmts_size_prefix_le(ss, i as int + 1);
            assert(ss.take(i + 1).drop_last() =~= ss.take(i as int));
        }
        match ctx.lower_stmt(&source_file.0[i]) {
            Ok(()) => {},
            Err(err) => {
                proof {
                    lemma_stmts_error_sticks(LowerState::initial(), ss, i + 1, lower_stmts_spec(LowerState::initial(), ss.take(i + 1))->Err_0);
                }
                return Err(err);
            },
        }
        i = i + 1;
    }
    assert(ss.take(i as int) =~= ss);
    ctx.seal(TerminatorInstr::ReturnVoid);
    Ok(Cfg { bbs: ctx.bbs })
}

} // verus!
